use sandbox::bitmap_image::BitmapImage;
use sandbox::geometry::IVec2;
use sandbox::matter::matter_definition::{MatterDefinition, MatterDefinitions, MatterTableError};
use sandbox::matter::matter_state::MatterState;
use sandbox::settings::AppSettings;
use sandbox::simulation::simulation::{Simulation, SimulationError};
use sandbox::simulation::simulation_chunk_manager::{ChunkError, SimulationChunkManager};
use sandbox::simulation::map_files::{chunk_file_name, parse_chunk_file_name};

fn named(x: i32, y: i32) -> String {
    String::from_utf8(chunk_file_name(IVec2::new(x, y))).unwrap()
}

fn chunk_of(name: &str) -> Option<(i32, i32)> {
    parse_chunk_file_name(name.as_bytes()).map(|pos| (pos.x, pos.y))
}

#[test]
fn chunk_files_are_named_by_their_place() {
    assert_eq!(named(0, 0), "chunk_0_0.png");
    assert_eq!(named(1, -1), "chunk_1_-1.png");
    assert_eq!(named(-12, 345), "chunk_-12_345.png");
    assert_eq!(named(10, 100), "chunk_10_100.png");
    assert_eq!(named(i32::MIN, i32::MAX), "chunk_-2147483648_2147483647.png");
}

#[test]
fn the_names_of_chunk_files_are_read() {
    assert_eq!(chunk_of("chunk_0_0.png"), Some((0, 0)));
    assert_eq!(chunk_of("chunk_1_-1.png"), Some((1, -1)));
    assert_eq!(chunk_of("chunk_-12_345.png"), Some((-12, 345)));
    assert_eq!(chunk_of("chunk_+7_007.png"), Some((7, 7)));
    assert_eq!(chunk_of("chunk_-0_-00.png"), Some((0, 0)));
    assert_eq!(chunk_of("chunk_000000000000000000000000000001_2.png"), Some((1, 2)));
    assert_eq!(
        chunk_of("chunk_-2147483648_2147483647.png"),
        Some((i32::MIN, i32::MAX))
    );
}

#[test]
fn other_names_are_no_chunk_files() {
    for name in [
        "",
        "chunk",
        "chunk_.png",
        "chunk__.png",
        "chunk_1.png",
        "chunk_1_.png",
        "chunk__2.png",
        "chunk_1_2_3.png",
        "chunk_1_2.jpg",
        "chunk_1_2.png ",
        "chunk_1_2.PNG",
        "Chunk_1_2.png",
        "chunk-1-2.png",
        "chunk_1_2",
        "chunk_a_2.png",
        "chunk_1_2b.png",
        "chunk_1 _2.png",
        "chunk_--1_2.png",
        "chunk_-_2.png",
        "chunk_+_2.png",
        "chunk_1_+.png",
        "chunk_1.5_2.png",
        "chunk_2147483648_0.png",
        "chunk_0_-2147483649.png",
        "chunk_99999999999999999999999999_2.png",
        "objects",
        "1.png",
    ] {
        assert_eq!(chunk_of(name), None, "{name:?}");
    }
}

#[test]
fn a_name_that_was_written_is_read_back() {
    for x in [-1000, -11, -10, -9, -1, 0, 1, 9, 10, 11, 99, 100, 101, 65_536, i32::MAX, i32::MIN] {
        for y in [-7, 0, 3, 2_000_000_000, -2_000_000_000] {
            let name = chunk_file_name(IVec2::new(x, y));
            assert_eq!(parse_chunk_file_name(&name), Some(IVec2::new(x, y)));
        }
    }
}

const ROCK: u32 = 1;
const WATER: u32 = 2;
const ROCK_COLOR: [u8; 4] = [0x87, 0x89, 0x8e, 0xff];
const WATER_COLOR: [u8; 4] = [0x1c, 0xa3, 0xec, 0xff];

fn p(x: i32, y: i32) -> IVec2 {
    IVec2::new(x, y)
}

fn table() -> MatterDefinitions {
    let rock = MatterDefinition {
        id: ROCK,
        name: "Rock".to_string(),
        color: u32::from_be_bytes(ROCK_COLOR),
        weight: 2_500,
        state: MatterState::Solid,
        ..MatterDefinition::zero()
    };
    let water = MatterDefinition {
        id: WATER,
        name: "Water".to_string(),
        color: u32::from_be_bytes(WATER_COLOR),
        weight: 1_000,
        state: MatterState::Liquid,
        dispersion: 5,
        ..MatterDefinition::zero()
    };
    MatterDefinitions { definitions: vec![MatterDefinition::zero(), rock, water], empty: 0 }
}

/// An image of `size` by `size` pixels with the given pixels set; the first
/// row of an image is the upper row of the chunk.
fn image(size: u32, pixels: &[(u32, u32, [u8; 4])]) -> BitmapImage {
    let mut data = vec![0u8; (size * size * 4) as usize];
    for (column, row, color) in pixels {
        let at = ((row * size + column) * 4) as usize;
        data[at..at + 4].copy_from_slice(color);
    }
    BitmapImage { data, width: size, height: size }
}

fn still() -> AppSettings {
    AppSettings { movement_steps: 1, dispersion_steps: 0, ..AppSettings::new() }
}

#[test]
fn a_map_is_read_into_the_world() {
    let solid: Vec<(u32, u32, [u8; 4])> =
        (0..64).map(|i| (i % 8, i / 8, ROCK_COLOR)).collect();
    let chunks = vec![
        (p(0, 0), Some(image(8, &[(7, 7, ROCK_COLOR)]))),
        (p(1, 0), Some(image(8, &solid))),
        (p(5, 5), None),
        (p(0, 1), Some(image(4, &[(0, 0, ROCK_COLOR)]))),
        (p(0, 0), Some(image(8, &[(1, 0, ROCK_COLOR), (7, 7, WATER_COLOR)]))),
    ];
    let mut simulation =
        Simulation::load_map_from_disk(8, 4, 9, table(), chunks, p(0, 0)).unwrap();
    assert_eq!(simulation.camera_canvas_pos, p(0, 0));
    assert_eq!(simulation.ca_simulator.sim_steps, 0);
    // The chunk at the origin holds the cells from -4 to 3; of the two
    // images for it the later counts.
    for y in -4..4 {
        for x in -4..4 {
            let expected = match (x, y) {
                (-3, 3) => ROCK,
                (3, -4) => WATER,
                _ => 0,
            };
            assert_eq!(simulation.query_matter(p(x, y)), Some(expected), "{x} {y}");
        }
    }
    let known = simulation.chunk_manager.known_chunks().clone();
    // Six of the nine chunks round the camera were not in the map.
    assert_eq!(known.len(), 4 + 6);
    assert_eq!(&known[..4], &[p(0, 0), p(1, 0), p(5, 5), p(0, 1)]);
    assert_eq!(simulation.chunk_manager.chunks_in_use().len(), 9);
    assert_eq!(simulation.chunk_manager.free_chunks(), 0);
    let cold = simulation.chunk_manager.world_chunk(p(5, 5)).unwrap();
    assert!(cold.gpu_chunk.is_none());
    assert_eq!(cold.image.data, vec![0u8; 256]);
    // An image that is not the image of a chunk gives a blank chunk.
    let blank = simulation.chunk_manager.world_chunk(p(0, 1)).unwrap();
    assert_eq!((blank.image.width, blank.image.height), (8, 8));
    assert_eq!(blank.image.data, vec![0u8; 256]);
    // The chunk to the right is rock throughout.
    let mut objects = vec![];
    simulation.step(&mut objects, still(), p(6, 2), p(0, 0), 0).unwrap();
    for y in -2..6 {
        for x in 2..10 {
            let expected = if x >= 4 && y < 4 {
                ROCK
            } else if (x, y) == (3, -4) {
                WATER
            } else {
                0
            };
            assert_eq!(simulation.query_matter(p(x, y)), Some(expected), "{x} {y}");
        }
    }
}

#[test]
fn a_map_can_be_read_where_the_camera_is() {
    let chunks = vec![(p(-3, 2), Some(image(8, &[(0, 7, ROCK_COLOR)])))];
    let simulation =
        Simulation::load_map_from_disk(8, 4, 12, table(), chunks, p(-24, 16)).unwrap();
    assert_eq!(simulation.camera_canvas_pos, p(-24, 16));
    assert_eq!(simulation.query_matter(p(-28, 12)), Some(ROCK));
    assert_eq!(simulation.query_matter(p(-27, 12)), Some(0));
    assert_eq!(simulation.query_matter(p(0, 0)), None);
    assert_eq!(simulation.chunk_manager.free_chunks(), 3);
    // The chunk at the origin is known, though the map has none for it.
    assert_eq!(simulation.chunk_manager.known_chunks()[0], p(0, 0));
    assert!(simulation.chunk_manager.world_chunk(p(0, 0)).unwrap().gpu_chunk.is_none());
}

#[test]
fn a_map_that_was_written_is_read_back() {
    let mut first = Simulation::new(8, 4, 9, table()).unwrap();
    first.paint_square(&vec![p(-2, 1), p(3, 3)], ROCK, 3);
    first.paint_round(&vec![p(0, -4)], WATER, 1);
    let mut objects = vec![];
    first.step(&mut objects, still(), p(9, 1), p(0, 0), 0).unwrap();
    first.paint_round(&vec![p(11, 1)], ROCK, 2);
    first.chunk_manager.write_chunks_to_cpu(&first.matter_definitions);
    let mut files: Vec<(Vec<u8>, BitmapImage)> = vec![];
    for pos in first.chunk_manager.known_chunks() {
        let chunk = first.chunk_manager.world_chunk(*pos).unwrap();
        files.push((chunk_file_name(*pos), chunk.image.clone()));
    }
    assert_eq!(files.len(), 12);
    assert_eq!(files[0].0, b"chunk_0_0.png".to_vec());
    let chunks: Vec<(IVec2, Option<BitmapImage>)> = files
        .into_iter()
        .map(|(name, image)| (parse_chunk_file_name(&name).unwrap(), Some(image)))
        .collect();
    let mut second = Simulation::load_map_from_disk(8, 4, 9, table(), chunks, p(9, 1)).unwrap();
    let mut rock = 0;
    for y in -20..20 {
        for x in -20..30 {
            let was = first.query_matter(p(x, y));
            assert_eq!(second.query_matter(p(x, y)), was);
            if was == Some(ROCK) {
                rock += 1;
            }
        }
    }
    // Of the disc of 21 cells three lay beyond the canvas.
    assert_eq!(rock, 18);
    assert_eq!(second.chunk_manager.known_chunks().len(), 12);
    second.chunk_manager.write_chunks_to_cpu(&second.matter_definitions);
    let mut colored = 0;
    for pos in first.chunk_manager.known_chunks() {
        let was = &first.chunk_manager.world_chunk(*pos).unwrap().image;
        let is = &second.chunk_manager.world_chunk(*pos).unwrap().image;
        assert_eq!(was.data, is.data);
        colored += was.data.chunks(4).filter(|pixel| pixel[3] != 0).count();
    }
    // Two squares of four cells, six cells of water and the disc.
    assert_eq!(colored, 4 + 4 + 6 + 18);
}

#[test]
fn a_map_needs_what_a_simulation_needs() {
    let mut wrong = table();
    wrong.definitions[2].id = 7;
    assert_eq!(
        Simulation::load_map_from_disk(8, 4, 9, wrong, vec![], p(0, 0)).err(),
        Some(SimulationError::InvalidMatterTable(MatterTableError::IdMismatch {
            index: 2,
            id: 7,
            name: "Water".to_string()
        }))
    );
    assert_eq!(
        Simulation::load_map_from_disk(8, 5, 9, table(), vec![], p(0, 0)).err(),
        Some(SimulationError::InvalidSize)
    );
    assert_eq!(
        Simulation::load_map_from_disk(8, 4, 8, table(), vec![(p(0, 0), None)], p(0, 0)).err(),
        Some(SimulationError::PoolTooSmall)
    );
}

#[test]
fn a_map_cannot_replace_a_resident_chunk() {
    let defs = table();
    let mut manager = SimulationChunkManager::new(8, 9).unwrap();
    assert_eq!(
        manager.load_map_from_disk(vec![(p(1, 1), None)], p(0, 0), &defs),
        Ok(())
    );
    assert_eq!(manager.chunks_in_use().len(), 9);
    // The chunk at (1, 1) is resident now.
    let rock = image(8, &[(0, 0, ROCK_COLOR)]);
    assert_eq!(
        manager.load_map_from_disk(
            vec![(p(7, 7), Some(rock.clone())), (p(1, 1), Some(rock.clone()))],
            p(0, 0),
            &defs
        ),
        Err(ChunkError::ChunkInUse)
    );
    assert!(manager.world_chunk(p(7, 7)).is_none());
    assert_eq!(manager.known_chunks().len(), 9);
    // Far from the camera a chunk can be put in, also while others are
    // resident.
    assert_eq!(
        manager.load_map_from_disk(vec![(p(7, 7), Some(rock.clone()))], p(0, 0), &defs),
        Ok(())
    );
    assert_eq!(manager.world_chunk(p(7, 7)).unwrap().image.data, rock.data);
    assert_eq!(manager.known_chunks().len(), 10);
    // A pool that is too small: the chunk is put in, the camera stays.
    let mut small = SimulationChunkManager::new(8, 5).unwrap();
    assert_eq!(
        small.load_map_from_disk(vec![(p(2, 0), Some(rock.clone()))], p(16, 0), &defs),
        Err(ChunkError::PoolTooSmall)
    );
    assert_eq!(small.world_chunk(p(2, 0)).unwrap().image.data, rock.data);
    assert_eq!(small.chunks_in_use().len(), 0);
    assert_eq!(small.free_chunks(), 5);
}

#[test]
fn the_resident_chunks_are_handed_out_for_drawing() {
    let defs = table();
    let mut manager = SimulationChunkManager::new(4, 12).unwrap();
    assert!(manager.get_chunks_for_render().is_empty());
    let rock = image(4, &[(0, 3, ROCK_COLOR)]);
    manager.load_map_from_disk(vec![(p(1, 0), Some(rock))], p(0, 0), &defs).unwrap();
    let drawn = manager.get_chunks_for_render();
    let places: Vec<IVec2> = drawn.iter().map(|(pos, _)| *pos).collect();
    assert_eq!(places, manager.chunks_in_use());
    assert_eq!(places.len(), 9);
    for (pos, chunk) in &drawn {
        let rocks = chunk.get_matter_input().iter().filter(|m| **m == ROCK).count();
        assert_eq!(rocks, if *pos == p(1, 0) { 1 } else { 0 });
        assert_eq!(chunk.get_matter_output(), chunk.get_matter_input());
        assert_eq!(chunk.image.len(), 16);
    }
    // The bottom row of the image is the first row of the chunk.
    let loaded = drawn.iter().find(|(pos, _)| *pos == p(1, 0)).unwrap().1;
    assert_eq!(loaded.get_matter_input()[0], ROCK);
}
