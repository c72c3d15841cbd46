use sandbox::bitmap_image::BitmapImage;
use sandbox::geometry::IVec2;
use sandbox::matter::example_matter_definitions::{
    default_matter_definitions, MATTER_ROCK, MATTER_SAND, MATTER_WATER,
};
use sandbox::matter::matter_definition::{MatterDefinition, MatterDefinitions};
use sandbox::simulation::chunk_image::{
    find_color_of_matter, find_matter_of_color, write_canvas_chunk_to_matter_image,
    write_matter_image_to_canvas_chunk,
};
use sandbox::simulation::chunk_window::{
    add_farthest_chunks_for_unloading, chunk_distance_squared, get_nearest_four_chunks,
    get_nearest_nine_chunks, nearest_chunk,
};
use sandbox::simulation::simulation_chunk_manager::{
    outside_of_hot, ChunkError, GpuChunk, SimulationChunkManager, WorldChunk,
};
use sandbox::simulation::simulation_utils::{
    canvas_pos_of_chunk_index, is_inside_sim_canvas, sim_canvas_index, sim_chunk_canvas_index,
};

fn p(x: i32, y: i32) -> IVec2 {
    IVec2::new(x, y)
}

fn two_matters() -> MatterDefinitions {
    let empty = MatterDefinition::zero();
    let red = MatterDefinition {
        id: 1,
        name: "Red".to_string(),
        color: 0xff0000ff,
        ..MatterDefinition::zero()
    };
    let green = MatterDefinition {
        id: 2,
        name: "Green".to_string(),
        color: 0x00ff00ff,
        ..MatterDefinition::zero()
    };
    MatterDefinitions { definitions: vec![empty, red, green], empty: 0 }
}

#[test]
fn the_canvas_lies_round_the_camera() {
    let camera = p(100, -50);
    assert!(is_inside_sim_canvas(p(100, -50), camera, 8));
    assert!(is_inside_sim_canvas(p(96, -54), camera, 8));
    assert!(is_inside_sim_canvas(p(103, -47), camera, 8));
    assert!(!is_inside_sim_canvas(p(95, -50), camera, 8));
    assert!(!is_inside_sim_canvas(p(104, -50), camera, 8));
    assert!(!is_inside_sim_canvas(p(100, -55), camera, 8));
    assert!(!is_inside_sim_canvas(p(100, -46), camera, 8));
    assert!(!is_inside_sim_canvas(p(i32::MAX, i32::MIN), p(i32::MIN, i32::MAX), 8));
    assert_eq!(sim_canvas_index(p(96, -54), camera, 8), 0);
    assert_eq!(sim_canvas_index(p(103, -54), camera, 8), 7);
    assert_eq!(sim_canvas_index(p(96, -53), camera, 8), 8);
    assert_eq!(sim_canvas_index(p(100, -50), camera, 8), 4 * 8 + 4);
    assert_eq!(sim_canvas_index(p(103, -47), camera, 8), 63);
}

#[test]
fn a_point_of_the_window_has_a_chunk_and_a_place_in_it() {
    let start = p(-4, -4);
    assert_eq!(sim_chunk_canvas_index(p(-4, -4), start, 8), (0, 0));
    assert_eq!(sim_chunk_canvas_index(p(3, 3), start, 8), (0, 63));
    assert_eq!(sim_chunk_canvas_index(p(4, -4), start, 8), (1, 0));
    assert_eq!(sim_chunk_canvas_index(p(-4, 4), start, 8), (2, 0));
    assert_eq!(sim_chunk_canvas_index(p(4, 4), start, 8), (3, 0));
    assert_eq!(sim_chunk_canvas_index(p(11, 11), start, 8), (3, 63));
    assert_eq!(sim_chunk_canvas_index(p(5, 6), start, 8), (3, 2 * 8 + 1));
}

#[test]
fn converting_to_chunk_and_place_and_back_gives_the_point() {
    for size in [1u32, 2, 5, 8] {
        for start in [p(0, 0), p(-4, -4), p(1000, -7)] {
            for dy in 0..(2 * size as i32) {
                for dx in 0..(2 * size as i32) {
                    let pos = p(start.x + dx, start.y + dy);
                    let (chunk, place) = sim_chunk_canvas_index(pos, start, size);
                    assert!(chunk < 4);
                    assert!(place < (size * size) as usize);
                    assert_eq!(canvas_pos_of_chunk_index(chunk, place, start, size), pos);
                }
            }
            for chunk in 0..4usize {
                for place in 0..(size * size) as usize {
                    let pos = canvas_pos_of_chunk_index(chunk, place, start, size);
                    assert_eq!(sim_chunk_canvas_index(pos, start, size), (chunk, place));
                }
            }
        }
    }
}

#[test]
fn the_nearest_chunk_rounds_halves_away_from_zero() {
    assert_eq!(nearest_chunk(p(0, 0), 8), p(0, 0));
    assert_eq!(nearest_chunk(p(3, -3), 8), p(0, 0));
    assert_eq!(nearest_chunk(p(4, -4), 8), p(1, -1));
    assert_eq!(nearest_chunk(p(11, -11), 8), p(1, -1));
    assert_eq!(nearest_chunk(p(12, -12), 8), p(2, -2));
    assert_eq!(nearest_chunk(p(-5, 20), 8), p(-1, 3));
    assert_eq!(nearest_chunk(p(700, -700), 512), p(1, -1));
    assert_eq!(nearest_chunk(p(255, 256), 512), p(0, 1));
    assert_eq!(nearest_chunk(p(7, 7), 1), p(7, 7));
}

#[test]
fn the_nine_chunks_round_a_chunk() {
    let nine = get_nearest_nine_chunks(p(2, -3));
    assert_eq!(
        nine,
        vec![
            p(1, -2),
            p(2, -2),
            p(3, -2),
            p(1, -3),
            p(2, -3),
            p(3, -3),
            p(1, -4),
            p(2, -4),
            p(3, -4)
        ]
    );
}

#[test]
fn the_window_lies_on_the_side_of_the_camera() {
    let window = |x: i32, y: i32| get_nearest_four_chunks(p(x, y), nearest_chunk(p(x, y), 8), 8);
    assert_eq!(window(0, 0), vec![p(0, 0), p(1, 0), p(0, 1), p(1, 1)]);
    assert_eq!(window(2, 2), vec![p(0, 0), p(1, 0), p(0, 1), p(1, 1)]);
    assert_eq!(window(2, -2), vec![p(0, -1), p(1, -1), p(0, 0), p(1, 0)]);
    assert_eq!(window(-2, -2), vec![p(-1, -1), p(0, -1), p(-1, 0), p(0, 0)]);
    assert_eq!(window(-2, 2), vec![p(-1, 0), p(0, 0), p(-1, 1), p(0, 1)]);
    // On a line between two windows the first of them is taken.
    assert_eq!(window(0, -2), vec![p(0, -1), p(1, -1), p(0, 0), p(1, 0)]);
    assert_eq!(window(-2, 0), vec![p(-1, -1), p(0, -1), p(-1, 0), p(0, 0)]);
    // Round another chunk.
    assert_eq!(window(17, 15), vec![p(2, 1), p(3, 1), p(2, 2), p(3, 2)]);
}

#[test]
fn the_window_moves_by_one_chunk_as_the_camera_crosses_a_chunk() {
    let mut last: Option<Vec<IVec2>> = None;
    for x in -40..40 {
        let pos = p(x, 1);
        let window = get_nearest_four_chunks(pos, nearest_chunk(pos, 8), 8);
        // The canvas round the camera lies in the window.
        let start = p(window[0].x * 8 - 4, window[0].y * 8 - 4);
        for dy in -4..4 {
            for dx in -4..4 {
                let cell = p(pos.x + dx, pos.y + dy);
                assert!(is_inside_sim_canvas(cell, pos, 8));
                assert!(cell.x >= start.x && cell.x < start.x + 16);
                assert!(cell.y >= start.y && cell.y < start.y + 16);
            }
        }
        if let Some(before) = &last {
            let step = window[0].x - before[0].x;
            assert!(step == 0 || step == 1);
            assert_eq!(window[0].y, before[0].y);
        }
        last = Some(window);
    }
}

#[test]
fn distances_between_chunks_are_squared() {
    assert_eq!(chunk_distance_squared(p(0, 0), p(0, 0)), 0);
    assert_eq!(chunk_distance_squared(p(3, -4), p(0, 0)), 25);
    assert_eq!(chunk_distance_squared(p(-1, -1), p(2, 3)), 25);
    assert_eq!(
        chunk_distance_squared(p(i32::MAX, i32::MAX), p(i32::MIN, i32::MIN)),
        2 * (u32::MAX as u128) * (u32::MAX as u128)
    );
}

#[test]
fn the_farthest_chunks_are_given_up_first() {
    let chunks = vec![p(1, 0), p(5, 0), p(0, -3), p(3, 0), p(0, 5), p(-2, -2)];
    let anchor = p(0, 0);
    assert_eq!(add_farthest_chunks_for_unloading(&chunks, anchor, 0), vec![]);
    assert_eq!(add_farthest_chunks_for_unloading(&chunks, anchor, 1), vec![p(5, 0)]);
    // Of two that are equally far the one that comes first goes first.
    assert_eq!(add_farthest_chunks_for_unloading(&chunks, anchor, 2), vec![p(5, 0), p(0, 5)]);
    assert_eq!(
        add_farthest_chunks_for_unloading(&chunks, anchor, 4),
        vec![p(5, 0), p(0, 5), p(0, -3), p(3, 0)]
    );
    assert_eq!(
        add_farthest_chunks_for_unloading(&chunks, anchor, 9),
        vec![p(5, 0), p(0, 5), p(0, -3), p(3, 0), p(-2, -2), p(1, 0)]
    );
}

#[test]
fn no_chunk_that_is_given_up_is_nearer_than_one_that_is_kept() {
    let chunks: Vec<IVec2> =
        (0..40).map(|i| p((i * 7) % 11 - 5, (i * 13) % 9 - 4)).collect();
    let anchor = p(1, -1);
    for count in 0..=chunks.len() {
        let given_up = add_farthest_chunks_for_unloading(&chunks, anchor, count);
        assert_eq!(given_up.len(), count);
        let mut kept = chunks.clone();
        for chunk in &given_up {
            let at = kept.iter().position(|c| c == chunk).unwrap();
            kept.remove(at);
        }
        for gone in &given_up {
            for stays in &kept {
                assert!(
                    chunk_distance_squared(*gone, anchor) >= chunk_distance_squared(*stays, anchor)
                );
            }
        }
    }
}

#[test]
fn chunks_outside_the_nine_are_found() {
    let chunks = vec![p(0, 0), p(2, 0), p(1, 1), p(-1, 3), p(-2, -2), p(1, -1)];
    assert_eq!(outside_of_hot(&chunks, p(0, 0)), vec![p(2, 0), p(-1, 3), p(-2, -2)]);
    assert_eq!(outside_of_hot(&chunks, p(1, 0)), vec![p(-1, 3), p(-2, -2)]);
}

#[test]
fn colours_stand_for_the_first_matter_that_has_them() {
    let table = default_matter_definitions();
    assert_eq!(find_matter_of_color(&table, 0xc2b280ff), MATTER_SAND);
    assert_eq!(find_matter_of_color(&table, 0x1ca3ecff), MATTER_WATER);
    // The empty matter and the eraser share a colour: the first is taken.
    assert_eq!(find_matter_of_color(&table, 0), 0);
    // A colour of no matter stands for the empty matter.
    assert_eq!(find_matter_of_color(&table, 0x12345678), table.empty);
    assert_eq!(find_color_of_matter(&table, MATTER_ROCK), 0x87898eff);
    assert_eq!(find_color_of_matter(&table, 9999), 0);
}

#[test]
fn an_image_is_read_with_its_top_row_last() {
    let table = two_matters();
    // A 2 by 2 image: red, green on top; nothing, red below.
    let image = BitmapImage {
        data: vec![255, 0, 0, 255, 0, 255, 0, 255, 9, 9, 9, 9, 255, 0, 0, 255],
        width: 2,
        height: 2,
    };
    let mut chunk_in = vec![7u32; 4];
    let mut chunk_out = vec![8u32; 4];
    write_matter_image_to_canvas_chunk(&image, &table, &mut chunk_in, &mut chunk_out, 2);
    assert_eq!(chunk_in, vec![0, 1, 1, 2]);
    assert_eq!(chunk_out, vec![0, 1, 1, 2]);
    let drawn = write_canvas_chunk_to_matter_image(&table, &chunk_in, 2);
    assert_eq!(drawn.width, 2);
    assert_eq!(drawn.height, 2);
    assert_eq!(
        drawn.data,
        vec![255, 0, 0, 255, 0, 255, 0, 255, 0, 0, 0, 0, 255, 0, 0, 255]
    );
}

#[test]
fn loading_and_unloading_a_chunk_keeps_its_matter() {
    let table = two_matters();
    let size = 4u32;
    let mut data = Vec::new();
    for i in 0..16u32 {
        let color: u32 = match i % 4 {
            0 => 0xff0000ff,
            1 => 0x00ff00ff,
            2 => 0,
            _ => 0x01020304,
        };
        data.extend_from_slice(&color.to_be_bytes());
    }
    let image = BitmapImage { data, width: size, height: size };
    let mut chunk = WorldChunk::load_from_disk(Some(image), size);
    chunk.write_to_gpu(&table, GpuChunk::new(size), size);
    let loaded = chunk.gpu_chunk.as_ref().unwrap().matter_in.clone();
    assert_eq!(loaded, chunk.gpu_chunk.as_ref().unwrap().matter_out.clone());
    let freed = chunk.unload_from_gpu(&table, size).unwrap();
    assert!(chunk.gpu_chunk.is_none());
    assert!(freed.matter_in.iter().all(|m| *m == 0));
    assert!(freed.matter_out.iter().all(|m| *m == 0));
    // Loaded anew, the chunk holds the matter that it held.
    chunk.write_to_gpu(&table, freed, size);
    assert_eq!(chunk.gpu_chunk.as_ref().unwrap().matter_in, loaded);
    assert_eq!(chunk.gpu_chunk.as_ref().unwrap().matter_out, loaded);
    // Unloading a chunk that is not resident does nothing.
    let mut cold = WorldChunk::empty(size);
    assert!(cold.unload_from_gpu(&table, size).is_none());
    assert!(cold.image.data.iter().all(|b| *b == 0));
}

#[test]
fn a_missing_or_misshapen_image_gives_the_empty_chunk() {
    let missing = WorldChunk::load_from_disk(None, 4);
    assert_eq!(missing.image.width, 4);
    assert_eq!(missing.image.data, vec![0u8; 64]);
    let misshapen =
        WorldChunk::load_from_disk(Some(BitmapImage { data: vec![1; 36], width: 3, height: 3 }), 4);
    assert_eq!(misshapen.image.data, vec![0u8; 64]);
    let short =
        WorldChunk::load_from_disk(Some(BitmapImage { data: vec![1; 10], width: 4, height: 4 }), 4);
    assert_eq!(short.image.data, vec![0u8; 64]);
    let whole =
        WorldChunk::load_from_disk(Some(BitmapImage { data: vec![1; 64], width: 4, height: 4 }), 4);
    assert_eq!(whole.image.data, vec![1u8; 64]);
}

#[test]
fn a_manager_needs_a_size_that_a_chunk_can_have() {
    assert_eq!(SimulationChunkManager::new(0, 9).err(), Some(ChunkError::InvalidSize));
    assert_eq!(SimulationChunkManager::new(16_385, 9).err(), Some(ChunkError::InvalidSize));
    let manager = SimulationChunkManager::new(4, 12).unwrap();
    assert_eq!(manager.size(), 4);
    assert_eq!(manager.free_chunks(), 12);
    assert_eq!(manager.chunks_in_use(), vec![]);
    assert!(manager.world_chunk(p(0, 0)).is_some());
    assert!(manager.world_chunk(p(1, 0)).is_none());
}

#[test]
fn the_chunks_round_the_camera_are_made_resident() {
    let table = two_matters();
    let mut manager = SimulationChunkManager::new(4, 12).unwrap();
    assert_eq!(manager.update_chunks(p(0, 0), &table), Ok(()));
    assert_eq!(manager.free_chunks(), 3);
    assert_eq!(manager.canvas_pos(), p(0, 0));
    assert_eq!(manager.chunk_pos(), p(0, 0));
    assert_eq!(manager.interaction_chunks(), &vec![p(0, 0), p(1, 0), p(0, 1), p(1, 1)]);
    assert_eq!(manager.chunk_start(), p(-2, -2));
    let mut in_use = manager.chunks_in_use();
    in_use.sort_by_key(|c| (c.y, c.x));
    assert_eq!(
        in_use,
        vec![
            p(-1, -1),
            p(0, -1),
            p(1, -1),
            p(-1, 0),
            p(0, 0),
            p(1, 0),
            p(-1, 1),
            p(0, 1),
            p(1, 1)
        ]
    );
    // Nothing changes while the camera stays.
    assert_eq!(manager.update_chunks(p(1, 1), &table), Ok(()));
    assert_eq!(manager.free_chunks(), 3);
}

#[test]
fn a_pool_that_cannot_hold_nine_chunks_is_too_small() {
    let table = two_matters();
    let mut manager = SimulationChunkManager::new(4, 8).unwrap();
    assert_eq!(manager.update_chunks(p(0, 0), &table), Err(ChunkError::PoolTooSmall));
    assert_eq!(manager.free_chunks(), 8);
    assert_eq!(manager.chunks_in_use(), vec![]);
}

#[test]
fn the_farthest_chunks_are_evicted_when_the_pool_runs_out() {
    let table = two_matters();
    let size = 4u32;
    let mut manager = SimulationChunkManager::new(size, 12).unwrap();
    assert_eq!(manager.update_chunks(p(0, 0), &table), Ok(()));
    // Put matter into the chunk at the origin through the window.
    let (_start, mut chunks) = manager.get_chunks_for_compute();
    chunks[0].matter_in[5] = 1;
    chunks[0].matter_out[5] = 1;
    manager.update_compute_chunks(chunks);
    // One chunk to the right: three chunks are wanted, three are free.
    assert_eq!(manager.update_chunks(p(4, 0), &table), Ok(()));
    assert_eq!(manager.chunk_pos(), p(1, 0));
    assert_eq!(manager.free_chunks(), 0);
    assert_eq!(manager.chunks_in_use().len(), 12);
    // One more: three are wanted and none is free, so the three farthest go:
    // the column at -1.
    assert_eq!(manager.update_chunks(p(8, 0), &table), Ok(()));
    assert_eq!(manager.chunk_pos(), p(2, 0));
    assert_eq!(manager.free_chunks(), 0);
    let in_use = manager.chunks_in_use();
    assert_eq!(in_use.len(), 12);
    for y in -1..=1 {
        assert!(!in_use.contains(&p(-1, y)));
        for x in 0..=3 {
            assert!(in_use.contains(&p(x, y)));
        }
    }
    // Two more: the column at 0 goes as well, and the chunk at the origin is
    // written back to its image, in the colour of its matter.
    assert_eq!(manager.update_chunks(p(12, 0), &table), Ok(()));
    assert!(!manager.chunks_in_use().contains(&p(0, 0)));
    let cold = manager.world_chunk(p(0, 0)).unwrap();
    assert!(cold.gpu_chunk.is_none());
    // Place 5 is column 1 of row 1 from below, which is row 2 of the image.
    let at = (2 * 4 + 1) * 4;
    assert_eq!(&cold.image.data[at..at + 4], &[255, 0, 0, 255]);
    assert_eq!(cold.image.data.iter().filter(|b| **b != 0).count(), 2);
    // Back at the origin the chunk is read from its image again.
    assert_eq!(manager.update_chunks(p(0, 0), &table), Ok(()));
    let hot = manager.world_chunk(p(0, 0)).unwrap().gpu_chunk.as_ref().unwrap();
    assert_eq!(hot.matter_in[5], 1);
    assert_eq!(hot.matter_out[5], 1);
    assert_eq!(hot.matter_in.iter().filter(|m| **m != 0).count(), 1);
}

#[test]
fn the_buffers_of_the_window_are_handed_out_and_taken_back() {
    let table = two_matters();
    let mut manager = SimulationChunkManager::new(2, 9).unwrap();
    assert_eq!(manager.update_chunks(p(0, 0), &table), Ok(()));
    let (start, mut chunks) = manager.get_chunks_for_compute();
    assert_eq!(start, p(-1, -1));
    assert_eq!(chunks.len(), 4);
    for (k, chunk) in chunks.iter_mut().enumerate() {
        assert_eq!(chunk.matter_in.len(), 4);
        chunk.objects_color[0] = k as u32 + 10;
    }
    assert!(manager.world_chunk(p(0, 0)).unwrap().gpu_chunk.is_none());
    manager.update_compute_chunks(chunks);
    let window = [p(0, 0), p(1, 0), p(0, 1), p(1, 1)];
    for (k, pos) in window.iter().enumerate() {
        let chunk = manager.world_chunk(*pos).unwrap().gpu_chunk.as_ref().unwrap();
        assert_eq!(chunk.objects_color[0], k as u32 + 10);
    }
}

#[test]
fn images_of_cold_chunks_can_be_put_in() {
    let table = two_matters();
    let mut manager = SimulationChunkManager::new(2, 9).unwrap();
    let image = BitmapImage { data: vec![255, 0, 0, 255].repeat(4), width: 2, height: 2 };
    assert_eq!(manager.insert_world_chunk(p(0, 0), Some(image.clone())), Ok(()));
    assert_eq!(manager.insert_world_chunk(p(5, 5), Some(image.clone())), Ok(()));
    assert_eq!(manager.insert_world_chunk(p(6, 5), None), Ok(()));
    assert_eq!(manager.world_chunk(p(5, 5)).unwrap().image.data, image.data);
    assert_eq!(manager.world_chunk(p(6, 5)).unwrap().image.data, vec![0u8; 16]);
    assert_eq!(manager.update_chunks(p(0, 0), &table), Ok(()));
    let origin = manager.world_chunk(p(0, 0)).unwrap().gpu_chunk.as_ref().unwrap();
    assert_eq!(origin.matter_in, vec![1, 1, 1, 1]);
    // A resident chunk is not replaced.
    assert_eq!(manager.insert_world_chunk(p(0, 0), None), Err(ChunkError::ChunkInUse));
    assert_eq!(manager.world_chunk(p(0, 0)).unwrap().image.data, image.data);
}

#[test]
fn the_images_of_resident_chunks_are_drawn_anew() {
    let table = two_matters();
    let mut manager = SimulationChunkManager::new(2, 9).unwrap();
    assert_eq!(manager.update_chunks(p(0, 0), &table), Ok(()));
    let (_start, mut chunks) = manager.get_chunks_for_compute();
    chunks[3].matter_in = vec![2, 0, 0, 1];
    manager.update_compute_chunks(chunks);
    manager.write_chunks_to_cpu(&table);
    let chunk = manager.world_chunk(p(1, 1)).unwrap();
    assert!(chunk.gpu_chunk.is_some());
    assert_eq!(
        chunk.image.data,
        vec![0, 0, 0, 0, 255, 0, 0, 255, 0, 255, 0, 255, 0, 0, 0, 0]
    );
}
