use std::sync::Arc;

use sandbox::bitmap_image::BitmapImage;
use sandbox::geometry::IVec2;
use sandbox::matter::matter_definition::{
    MatterDefinition, MatterDefinitions, MatterReaction, MatterTableError, PROBABILITY_ONE,
};
use sandbox::matter::matter_state::{MatterCharacteristic, MatterState};
use sandbox::object::contour_formation::form_pixel_data_with_contours_from_image;
use sandbox::object::pixels::TempPixel;
use sandbox::settings::AppSettings;
use sandbox::simulation::boundaries::PhysicsBoundaries;
use sandbox::simulation::ca_passes::CanvasGrid;
use sandbox::simulation::ca_react::MatterClass;
use sandbox::simulation::object_grid::{
    clear_object_pixels, decide_outcome, find_first, find_survivors, split_deformed_object,
    write_object_pixels, ObjectOutcome, DESTROYED_THRESHOLD,
};
use sandbox::simulation::painting::{brush_covers, paint, Brush};
use sandbox::simulation::pixel_objects::PixelObject;
use sandbox::simulation::shear::ShearRotation;
use sandbox::simulation::simulation::{Simulation, SimulationError};
use sandbox::simulation::simulation_utils::is_within_world;

const WATER: u32 = 1;
const WOOD: u32 = 2;
const FIRE: u32 = 3;
const ROCK: u32 = 4;

fn p(x: i32, y: i32) -> IVec2 {
    IVec2::new(x, y)
}

fn table() -> MatterDefinitions {
    let mut water = MatterDefinition {
        id: WATER,
        name: "Water".to_string(),
        color: 0x1ca3ecff,
        weight: 1_000,
        state: MatterState::Liquid,
        dispersion: 10,
        ..MatterDefinition::zero()
    };
    water.characteristics = MatterCharacteristic { bits: MatterCharacteristic::COOLING };
    let mut wood = MatterDefinition {
        id: WOOD,
        name: "Wood".to_string(),
        color: 0xba8c63ff,
        weight: 400,
        state: MatterState::Solid,
        ..MatterDefinition::zero()
    };
    wood.characteristics = MatterCharacteristic { bits: MatterCharacteristic::BURNS };
    wood.reactions[0] = MatterReaction::becomes_on_touch(
        PROBABILITY_ONE,
        MatterCharacteristic { bits: MatterCharacteristic::BURNING },
        FIRE,
    );
    let mut fire = MatterDefinition {
        id: FIRE,
        name: "Fire".to_string(),
        color: 0xe25822ff,
        state: MatterState::Energy,
        ..MatterDefinition::zero()
    };
    fire.characteristics = MatterCharacteristic { bits: MatterCharacteristic::BURNING };
    let rock = MatterDefinition {
        id: ROCK,
        name: "Rock".to_string(),
        color: 0x87898eff,
        weight: 2_500,
        state: MatterState::Solid,
        ..MatterDefinition::zero()
    };
    MatterDefinitions { definitions: vec![MatterDefinition::zero(), water, wood, fire, rock], empty: 0 }
}

fn world(size: u32, ratio: u32) -> Simulation {
    Simulation::new(size, ratio, 9, table()).unwrap()
}

fn still() -> AppSettings {
    AppSettings { movement_steps: 1, dispersion_steps: 0, ..AppSettings::new() }
}

/// The matter of the canvas, row by row from the bottom up.
fn canvas(simulation: &Simulation) -> Vec<u32> {
    let size = simulation.ca_simulator.size as i32;
    let camera = simulation.camera_canvas_pos;
    let mut matter = Vec::new();
    for y in 0..size {
        for x in 0..size {
            let pos = p(camera.x - size / 2 + x, camera.y - size / 2 + y);
            matter.push(simulation.query_matter(pos).unwrap());
        }
    }
    matter
}

fn wooden_object(entity: u64, width: u32, height: u32, at: IVec2) -> PixelObject {
    let image = Arc::new(BitmapImage {
        data: [0xba, 0x8c, 0x63, 0xff].repeat((width * height) as usize),
        width,
        height,
    });
    let (pixel_data, _) = form_pixel_data_with_contours_from_image(&image, WOOD, 0);
    PixelObject {
        entity,
        pixel_data,
        temp_pixels: vec![],
        canvas_pos: at,
        rotation: ShearRotation::identity(),
    }
}

#[test]
fn a_simulation_needs_a_valid_table_a_size_and_a_pool() {
    let mut dangling = table();
    dangling.definitions[WOOD as usize].reactions[0].becomes = 77;
    assert_eq!(
        Simulation::new(8, 4, 9, dangling).err(),
        Some(SimulationError::InvalidMatterTable(MatterTableError::DanglingReaction {
            id: WOOD,
            name: "Wood".to_string()
        }))
    );
    assert_eq!(Simulation::new(0, 4, 9, table()).err(), Some(SimulationError::InvalidSize));
    assert_eq!(Simulation::new(8, 3, 9, table()).err(), Some(SimulationError::InvalidSize));
    assert_eq!(Simulation::new(8, 4, 8, table()).err(), Some(SimulationError::PoolTooSmall));
    let simulation = Simulation::new(8, 4, 9, table()).unwrap();
    assert_eq!(simulation.camera_canvas_pos, p(0, 0));
    assert_eq!(simulation.ca_simulator.sim_steps, 0);
    assert_eq!(simulation.tmp_object_ids.len(), 64);
    assert_eq!(simulation.boundaries.solid_bitmap, vec![false; 4]);
    assert_eq!(simulation.chunk_manager.chunks_in_use().len(), 9);
    assert_eq!(canvas(&simulation), vec![0; 64]);
}

#[test]
fn brushes_cover_cells() {
    assert!(brush_covers(Brush::Round(0), 5, 5, 5, 5));
    assert!(!brush_covers(Brush::Round(0), 6, 5, 5, 5));
    // The distance to the corner of the square round a cell is 1.41, which
    // rounds to 1.
    assert!(brush_covers(Brush::Round(1), 6, 6, 5, 5));
    assert!(!brush_covers(Brush::Round(1), 7, 5, 5, 5));
    // 2.24 rounds to 2 and 2.83 to 3.
    assert!(brush_covers(Brush::Round(2), 7, 6, 5, 5));
    assert!(!brush_covers(Brush::Round(2), 7, 7, 5, 5));
    assert!(brush_covers(Brush::Round(u32::MAX), 7, 7, 5, 5));
    assert!(brush_covers(Brush::Square(2), 4, 4, 5, 5));
    assert!(brush_covers(Brush::Square(2), 5, 5, 5, 5));
    assert!(!brush_covers(Brush::Square(2), 6, 5, 5, 5));
    assert!(!brush_covers(Brush::Square(2), 5, 3, 5, 5));
    assert!(!brush_covers(Brush::Square(1), 5, 5, 5, 5));
    assert!(!brush_covers(Brush::Square(0), 5, 5, 5, 5));
}

#[test]
fn a_round_brush_paints_a_disc() {
    let mut simulation = world(8, 4);
    simulation.paint_round(&vec![p(0, 0)], ROCK, 2);
    let mut expected = vec![0u32; 64];
    for y in -4..4i32 {
        for x in -4..4i32 {
            if x * x + y * y <= 6 {
                expected[((y + 4) * 8 + x + 4) as usize] = ROCK;
            }
        }
    }
    assert_eq!(expected.iter().filter(|m| **m == ROCK).count(), 21);
    assert_eq!(canvas(&simulation), expected);
}

#[test]
fn painting_fills_empty_cells_only_and_erasing_clears_all() {
    let mut simulation = world(8, 4);
    simulation.paint_square(&vec![p(0, 0)], ROCK, 2);
    let rock = |m: &Vec<u32>| m.iter().filter(|c| **c == ROCK).count();
    let water = |m: &Vec<u32>| m.iter().filter(|c| **c == WATER).count();
    assert_eq!(rock(&canvas(&simulation)), 4);
    simulation.paint_square(&vec![p(0, 0)], WATER, 4);
    let painted = canvas(&simulation);
    assert_eq!(rock(&painted), 4);
    assert_eq!(water(&painted), 12);
    assert_eq!(painted[(3 * 8 + 3) as usize], ROCK);
    assert_eq!(painted[(2 * 8 + 2) as usize], WATER);
    assert_eq!(painted[(5 * 8 + 5) as usize], WATER);
    assert_eq!(painted[(6 * 8 + 6) as usize], 0);
    simulation.paint_round(&vec![p(-1, -1)], 0, 1);
    let erased = canvas(&simulation);
    assert_eq!(rock(&erased), 0);
    assert_eq!(water(&erased), 7);
    assert_eq!(erased[(5 * 8 + 5) as usize], WATER);
    assert_eq!(erased[(4 * 8 + 4) as usize], 0);
}

#[test]
fn a_brush_goes_along_a_line_and_stays_in_the_canvas() {
    let mut simulation = world(8, 4);
    let line = vec![p(-4, 3), p(0, 3), p(3, 3), p(4, 3), p(0, 100)];
    simulation.paint_round(&line, WATER, 1);
    let mut expected = vec![0u32; 64];
    for center in [-4, 0, 3] {
        for y in 2..=3i32 {
            for x in (center - 1)..=(center + 1) {
                if x >= -4 && x < 4 {
                    expected[((y + 4) * 8 + x + 4) as usize] = WATER;
                }
            }
        }
    }
    assert_eq!(canvas(&simulation), expected);
    assert_eq!(simulation.query_matter(p(4, 3)), None);
    assert_eq!(simulation.query_matter(p(-5, 0)), None);
    assert_eq!(simulation.query_matter(p(3, 3)), Some(WATER));
}

#[test]
fn painting_a_canvas_by_hand() {
    let mut grid = CanvasGrid {
        size: 4,
        empty: 0,
        matter: vec![0; 16],
        objects_matter: vec![0; 16],
        objects_color: vec![0; 16],
    };
    // The canvas round the camera at (10, 10) holds the cells from 8 to 11.
    paint(&mut grid, &vec![p(8, 8), p(30, 30)], ROCK, Brush::Round(1), p(10, 10));
    assert_eq!(grid.matter, vec![4, 4, 0, 0, 4, 4, 0, 0, 0, 0, 0, 0, 0, 0, 0, 0]);
}

#[test]
fn what_is_painted_is_kept_when_the_camera_moves() {
    let mut simulation = world(8, 4);
    simulation.paint_square(&vec![p(3, 0)], ROCK, 2);
    let mut objects = vec![];
    simulation.step(&mut objects, still(), p(5, 0), p(0, 0), 0).unwrap();
    assert_eq!(simulation.camera_canvas_pos, p(5, 0));
    assert_eq!(simulation.query_matter(p(2, 0)), Some(ROCK));
    assert_eq!(simulation.query_matter(p(3, -1)), Some(ROCK));
    assert_eq!(simulation.query_matter(p(4, 0)), Some(0));
    assert_eq!(simulation.query_matter(p(0, 0)), None);
    // Far away and back again: the chunk was resident all the time, since
    // the pool is large enough.
    let mut simulation = Simulation::new(8, 4, 30, table()).unwrap();
    simulation.paint_square(&vec![p(3, 0)], ROCK, 2);
    simulation.step(&mut objects, still(), p(40, 40), p(0, 0), 0).unwrap();
    assert_eq!(simulation.query_matter(p(2, 0)), None);
    simulation.step(&mut objects, still(), p(0, 0), p(0, 0), 0).unwrap();
    assert_eq!(simulation.query_matter(p(2, 0)), Some(ROCK));
    // With a small pool the chunk is given up, written to its image, and
    // read again.
    let mut simulation = world(8, 4);
    simulation.paint_square(&vec![p(3, 0)], ROCK, 2);
    simulation.step(&mut objects, still(), p(40, 40), p(0, 0), 0).unwrap();
    assert!(simulation.chunk_manager.world_chunk(p(0, 0)).unwrap().gpu_chunk.is_none());
    simulation.step(&mut objects, still(), p(0, 0), p(0, 0), 0).unwrap();
    assert_eq!(simulation.query_matter(p(2, 0)), Some(ROCK));
    assert_eq!(simulation.query_matter(p(3, -1)), Some(ROCK));
    assert_eq!(canvas(&simulation).iter().filter(|m| **m == ROCK).count(), 4);
}

#[test]
fn the_table_can_be_changed_while_the_simulation_runs() {
    let mut simulation = world(8, 4);
    let steam = MatterDefinition {
        id: 5,
        name: "Steam".to_string(),
        state: MatterState::Gas,
        ..MatterDefinition::zero()
    };
    assert_eq!(simulation.add_matter_to_definitions(steam), Ok(()));
    assert_eq!(simulation.matter_definitions.definitions.len(), 6);
    assert_eq!(simulation.ca_simulator.arrays.get_state(5), MatterState::Gas);
    assert_eq!(simulation.remove_matter_definition(0), Err(MatterTableError::ReservedEmpty));
    assert_eq!(simulation.remove_matter_definition(WATER), Ok(()));
    assert_eq!(simulation.matter_definitions.definitions.len(), 5);
    // Wood is matter 1 now; its reaction still names matter 3, which is rock.
    assert_eq!(simulation.matter_definitions.definitions[1].name, "Wood");
    assert_eq!(simulation.ca_simulator.arrays.get_state(4), MatterState::Gas);
    assert_eq!(simulation.ca_simulator.arrays.get_rule(1, 0).becomes, 3);
    assert_eq!(simulation.ca_simulator.arrays.get_state(3), MatterState::Solid);
    assert_eq!(
        simulation.add_matter_to_definitions(MatterDefinition { id: 9, ..MatterDefinition::zero() }),
        Err(MatterTableError::UnknownId { id: 9 })
    );
}

fn temp(pixel_index: usize, x: i32, y: i32, entity: u64) -> TempPixel {
    TempPixel { pixel_index, canvas_pos: p(x, y), matter: WOOD, color: 0xc0ffee, entity }
}

#[test]
fn the_cells_of_objects_are_written_found_and_cleared() {
    let mut grid = CanvasGrid {
        size: 4,
        empty: 0,
        matter: vec![0; 16],
        objects_matter: vec![0; 16],
        objects_color: vec![0; 16],
    };
    let mut occupants: Vec<Vec<u64>> = vec![vec![]; 16];
    let camera = p(0, 0);
    let first = vec![temp(0, -2, -2, 7), temp(1, -1, -2, 7), temp(2, 5, 5, 7)];
    let second = vec![temp(0, -1, -2, 8), temp(3, 1, 1, 8)];
    write_object_pixels(&mut grid, &mut occupants, &first, camera);
    write_object_pixels(&mut grid, &mut occupants, &second, camera);
    assert_eq!(grid.objects_matter[0], WOOD);
    assert_eq!(grid.objects_color[1], 0xc0ffee);
    assert_eq!(grid.objects_matter.iter().filter(|m| **m == WOOD).count(), 3);
    assert_eq!(occupants[0], vec![7]);
    assert_eq!(occupants[1], vec![7, 8]);
    assert_eq!(occupants[3 * 4 + 3], vec![8]);
    assert_eq!(find_first(&occupants[1], 8), 1);
    assert_eq!(find_first(&occupants[1], 9), 2);
    // Nothing died yet; the cell beyond the canvas cannot die, and is not
    // set in the bitmap.
    assert_eq!(
        find_survivors(&grid, &occupants, 4, &first, camera),
        (vec![true, true, false, false], 0)
    );
    // Something takes the cell at place 1.
    grid.objects_matter[1] = 0;
    assert_eq!(
        find_survivors(&grid, &occupants, 4, &first, camera),
        (vec![true, false, false, false], 1)
    );
    assert_eq!(
        find_survivors(&grid, &occupants, 4, &second, camera),
        (vec![false, false, false, true], 1)
    );
    clear_object_pixels(&mut grid, &mut occupants, &first, camera);
    assert_eq!(occupants[0], Vec::<u64>::new());
    assert_eq!(occupants[1], vec![8]);
    assert_eq!(grid.objects_matter[0], 0);
    assert_eq!(grid.objects_color[0], 0);
    clear_object_pixels(&mut grid, &mut occupants, &second, camera);
    assert!(occupants.iter().all(|list| list.is_empty()));
    assert_eq!(grid.objects_matter, vec![0; 16]);
    assert_eq!(grid.objects_color, vec![0; 16]);
}

#[test]
fn what_becomes_of_an_object() {
    assert_eq!(DESTROYED_THRESHOLD, 4);
    assert_eq!(decide_outcome(25, 0), ObjectOutcome::Intact);
    assert_eq!(decide_outcome(5, 0), ObjectOutcome::Intact);
    assert_eq!(decide_outcome(25, 1), ObjectOutcome::Deformed);
    assert_eq!(decide_outcome(25, 20), ObjectOutcome::Deformed);
    assert_eq!(decide_outcome(25, 21), ObjectOutcome::Destroyed);
    assert_eq!(decide_outcome(25, 25), ObjectOutcome::Destroyed);
    // An object of four cells or fewer goes though nothing died.
    assert_eq!(decide_outcome(4, 0), ObjectOutcome::Destroyed);
    assert_eq!(decide_outcome(0, 0), ObjectOutcome::Destroyed);
}

#[test]
fn an_object_without_dead_cells_is_left_alone() {
    let mut simulation = world(16, 4);
    let mut objects = vec![wooden_object(1, 5, 5, p(0, 0)), wooden_object(2, 3, 2, p(-5, 4))];
    for tick in 0..10 {
        let outcome = simulation.step(&mut objects, still(), p(0, 0), p(0, 0), tick).unwrap();
        assert!(outcome.deformed.is_empty());
        assert_eq!(objects.len(), 2);
        assert!(objects.iter().all(|o| o.temp_pixels.is_empty()));
        assert_eq!(objects[0].pixel_data.pixels.iter().filter(|c| c.is_alive).count(), 25);
        // The objects are cleared from the canvas after every tick.
        assert!(simulation.tmp_object_ids.iter().all(|list| list.is_empty()));
    }
}

#[test]
fn the_cells_of_objects_lie_over_the_canvas_during_a_tick() {
    let mut simulation = world(16, 4);
    let mut objects = vec![wooden_object(1, 3, 3, p(2, 2))];
    simulation.write_pixel_objects_to_grid(&mut objects);
    assert_eq!(objects[0].temp_pixels.len(), 9);
    assert_eq!(objects[0].temp_pixels[0].canvas_pos, p(1, 1));
    assert_eq!(objects[0].temp_pixels[8].canvas_pos, p(3, 3));
    assert_eq!(simulation.query_object(p(2, 2)), Some((WOOD, vec![1])));
    assert_eq!(simulation.query_object(p(0, 0)), None);
    assert_eq!(simulation.query_object(p(100, 0)), None);
    assert_eq!(simulation.query_matter(p(2, 2)), Some(0));
    let deformed = simulation.update_objects_from_grid(&mut objects);
    assert!(deformed.is_empty());
    assert!(objects[0].temp_pixels.is_empty());
    assert_eq!(simulation.query_object(p(2, 2)), None);
}

#[test]
fn a_burning_object_is_cut_down_and_destroyed() {
    let mut simulation = world(16, 4);
    // Fire to the left of where the object lies.
    simulation.paint_square(&vec![p(-3, 0)], FIRE, 2);
    let mut objects = vec![wooden_object(1, 5, 5, p(0, 0))];
    let mut alive = vec![25usize];
    let mut destroyed = false;
    for tick in 0..20 {
        let outcome = simulation.step(&mut objects, still(), p(0, 0), p(0, 0), tick).unwrap();
        if outcome.deformed.is_empty() {
            continue;
        }
        assert_eq!(outcome.deformed.len(), 1);
        let data = &outcome.deformed[0];
        assert_eq!(data.index, 0);
        assert_eq!(data.entity, 1);
        match data.outcome {
            ObjectOutcome::Destroyed => {
                assert!(data.bitmap.is_empty());
                objects.clear();
                destroyed = true;
                break;
            },
            ObjectOutcome::Deformed => {
                let parts = split_deformed_object(0, &objects[0].pixel_data, &data.bitmap);
                assert_eq!(parts.len(), 1);
                let left = parts[0].bitmap.iter().filter(|b| **b).count();
                assert!(left < *alive.last().unwrap());
                assert!(left > DESTROYED_THRESHOLD);
                alive.push(left);
                // The part lies where its cells lay: the first cell of an
                // object lies half its width before its position.
                let was = &objects[0];
                let part = &parts[0];
                let first_x = (part.doubled_offset.x + was.pixel_data.width as i32
                    - part.pixel_data.width as i32) / 2;
                let first_y = (part.doubled_offset.y + was.pixel_data.height as i32
                    - part.pixel_data.height as i32) / 2;
                let at = p(
                    was.canvas_pos.x - was.pixel_data.width as i32 / 2 + first_x
                        + part.pixel_data.width as i32 / 2,
                    was.canvas_pos.y - was.pixel_data.height as i32 / 2 + first_y
                        + part.pixel_data.height as i32 / 2,
                );
                let part = parts.into_iter().next().unwrap();
                objects[0] = PixelObject {
                    entity: 1,
                    pixel_data: part.pixel_data,
                    temp_pixels: vec![],
                    canvas_pos: at,
                    rotation: ShearRotation::identity(),
                };
            },
            ObjectOutcome::Intact => unreachable!(),
        }
    }
    assert!(destroyed);
    // The fire touched four cells of the first column; from them it took
    // the fifth and the second column, and then a column with every tick.
    assert_eq!(alive, vec![25, 21, 15, 10, 5]);
    assert!(objects.is_empty());
    // Where the object burnt there is fire now.
    assert_eq!(canvas(&simulation).iter().filter(|m| **m == FIRE).count(), 4 + 25);
    assert_eq!(simulation.query_matter(p(2, 2)), Some(FIRE));
    assert_eq!(simulation.query_matter(p(3, 2)), Some(0));
}

#[test]
fn an_object_that_is_cut_in_two_gives_two_parts() {
    let object = wooden_object(1, 5, 3, p(0, 0));
    let bitmap: Vec<bool> = "##.##.#.####.##".chars().map(|c| c == '#').collect();
    let parts = split_deformed_object(0, &object.pixel_data, &bitmap);
    assert_eq!(parts.len(), 2);
    assert_eq!((parts[0].pixel_data.width, parts[0].pixel_data.height), (2, 3));
    assert_eq!((parts[1].pixel_data.width, parts[1].pixel_data.height), (2, 3));
    assert_eq!(parts[0].bitmap, vec![true, true, false, true, true, true]);
    assert_eq!(parts[1].bitmap, vec![true; 6]);
    // The middles of the parts lie 1.5 cells to the left and to the right of
    // the middle of the object.
    assert_eq!(parts[0].doubled_offset, p(-3, 0));
    assert_eq!(parts[1].doubled_offset, p(3, 0));
    let alive: Vec<bool> = parts[0].pixel_data.pixels.iter().map(|c| c.is_alive).collect();
    assert_eq!(alive, parts[0].bitmap);
    assert!(parts[0].pixel_data.pixels.iter().all(|c| c.matter == WOOD));
    assert!(Arc::ptr_eq(&parts[1].pixel_data.image, &object.pixel_data.image));
    assert_eq!(split_deformed_object(0, &object.pixel_data, &vec![false; 15]).len(), 0);
}

#[test]
fn painted_liquid_makes_the_liquid_boundary_anew_once() {
    let mut simulation = world(8, 4);
    let mut objects = vec![];
    let first = simulation.step(&mut objects, still(), p(0, 0), p(0, 0), 0).unwrap();
    assert!(first.boundaries.rebuilds.is_empty());
    assert!(first.boundaries.remove_objects.is_empty());
    // Water along the floor of the canvas, where it lies still.
    let floor: Vec<IVec2> = (-4..4).map(|x| p(x, -4)).collect();
    simulation.paint_round(&floor, WATER, 0);
    let painted = simulation.step(&mut objects, still(), p(0, 0), p(0, 0), 1).unwrap();
    assert_eq!(painted.boundaries.rebuilds.len(), 1);
    assert_eq!(painted.boundaries.rebuilds[0].class, MatterClass::Liquid);
    assert!(painted.boundaries.rebuilds[0].sensor);
    assert_eq!(painted.boundaries.rebuilds[0].bitmap, vec![true, true, false, false]);
    assert!(painted.boundaries.remove_objects.is_empty());
    assert_eq!(simulation.boundaries.liquid_bitmap, vec![true, true, false, false]);
    assert_eq!(simulation.boundaries.solid_bitmap, vec![false; 4]);
    assert!(!simulation.boundaries.liquids_changed);
    // The program makes the bodies and tells of them.
    simulation.boundaries.add_object(MatterClass::Liquid, 100);
    simulation.boundaries.add_object(MatterClass::Liquid, 101);
    for tick in 2..6 {
        let unchanged = simulation.step(&mut objects, still(), p(0, 0), p(0, 0), tick).unwrap();
        assert!(unchanged.boundaries.rebuilds.is_empty());
        assert!(unchanged.boundaries.remove_objects.is_empty());
    }
    assert_eq!(simulation.boundaries.liquid_objects, vec![100, 101]);
    // Rock in the upper right block: the solid class is made anew, as a
    // class that is no sensor, and the bodies of the liquid stay.
    simulation.paint_round(&vec![p(2, 2)], ROCK, 0);
    let rock = simulation.step(&mut objects, still(), p(0, 0), p(0, 0), 6).unwrap();
    assert_eq!(rock.boundaries.rebuilds.len(), 1);
    assert_eq!(rock.boundaries.rebuilds[0].class, MatterClass::Solid);
    assert!(!rock.boundaries.rebuilds[0].sensor);
    assert_eq!(rock.boundaries.rebuilds[0].bitmap, vec![false, false, false, true]);
    // Erasing the water removes the bodies of the liquid.
    simulation.paint_round(&floor, 0, 0);
    let erased = simulation.step(&mut objects, still(), p(0, 0), p(0, 0), 7).unwrap();
    assert_eq!(erased.boundaries.remove_objects, vec![100, 101]);
    assert_eq!(erased.boundaries.rebuilds.len(), 1);
    assert_eq!(erased.boundaries.rebuilds[0].bitmap, vec![false; 4]);
    assert!(simulation.boundaries.liquid_objects.is_empty());
}

#[test]
fn boundaries_take_note_of_what_changed() {
    let mut boundaries = PhysicsBoundaries::new(8, 4);
    assert_eq!(boundaries.powder_bitmap, vec![false; 4]);
    boundaries.add_object(MatterClass::Solid, 1);
    boundaries.add_object(MatterClass::Powder, 2);
    boundaries.add_object(MatterClass::Liquid, 3);
    boundaries.add_object(MatterClass::Solid, 4);
    let nothing = boundaries.take_changes();
    assert!(nothing.remove_objects.is_empty());
    assert!(nothing.rebuilds.is_empty());
    boundaries.solids_changed = true;
    boundaries.liquids_changed = true;
    boundaries.liquid_bitmap[2] = true;
    let plan = boundaries.take_changes();
    assert_eq!(plan.remove_objects, vec![1, 4, 3]);
    assert_eq!(plan.rebuilds.len(), 2);
    assert_eq!(plan.rebuilds[0].class, MatterClass::Solid);
    assert_eq!(plan.rebuilds[1].class, MatterClass::Liquid);
    assert_eq!(plan.rebuilds[1].bitmap, vec![false, false, true, false]);
    assert!(boundaries.solid_objects.is_empty());
    assert_eq!(boundaries.powder_objects, vec![2]);
    assert!(!boundaries.solids_changed && !boundaries.liquids_changed);
}

#[test]
fn the_camera_can_jump_far_and_come_back() {
    let mut simulation = world(8, 4);
    simulation.paint_round(&vec![p(0, 0)], ROCK, 1);
    let before = canvas(&simulation);
    // Nine other chunks are wanted far away and none is free: the nine that
    // are resident are given up for them.
    let mut objects = vec![wooden_object(1, 5, 5, p(0, 0))];
    assert!(simulation.step(&mut objects, still(), p(800, 800), p(0, 0), 0).is_ok());
    assert_eq!(simulation.chunk_manager.free_chunks(), 0);
    assert_eq!(canvas(&simulation), vec![0; 64]);
    assert!(simulation.step(&mut objects, still(), p(0, 0), p(0, 0), 1).is_ok());
    assert_eq!(canvas(&simulation), before);
}

#[test]
fn an_object_is_made_only_if_it_can_be_written() {
    let cells = wooden_object(1, 3, 2, p(0, 0)).pixel_data;
    assert!(cells.is_wf());
    let made = PixelObject::new(9, cells.clone(), p(4, -4), ShearRotation::identity()).unwrap();
    assert_eq!(made.entity, 9);
    assert_eq!(made.canvas_pos, p(4, -4));
    assert!(made.temp_pixels.is_empty());
    assert!(made.is_wf());
    // Beyond the world.
    assert!(is_within_world(p(0x4000_0000, -0x4000_0000)));
    assert!(!is_within_world(p(0x4000_0001, 0)));
    assert!(!is_within_world(p(0, i32::MIN)));
    assert!(PixelObject::new(9, cells.clone(), p(0x4000_0001, 0), ShearRotation::identity())
        .is_none());
    // A shear that is too large.
    let steep = ShearRotation { flip: false, alpha: 262_145, beta: 0 };
    assert!(PixelObject::new(9, cells.clone(), p(0, 0), steep).is_none());
    let flat = ShearRotation { flip: true, alpha: 262_144, beta: -262_144 };
    assert!(PixelObject::new(9, cells.clone(), p(0, 0), flat).is_some());
    // Cells that are not whole.
    let mut short = cells.clone();
    short.pixels.pop();
    assert!(!short.is_wf());
    assert!(PixelObject::new(9, short, p(0, 0), ShearRotation::identity()).is_none());
    let mut stray = cells.clone();
    stray.pixels[0].color_index = 6;
    assert!(!stray.is_wf());
    stray.pixels[0].color_index = 5;
    assert!(stray.is_wf());
    let mut torn = cells.clone();
    torn.image = Arc::new(BitmapImage { data: vec![0; 23], width: 3, height: 2 });
    assert!(!torn.image.is_wf());
    assert!(!torn.is_wf());
    // An object that is too long to be turned.
    let long = wooden_object(1, 16_385, 1, p(0, 0)).pixel_data;
    assert!(long.is_wf());
    assert!(PixelObject::new(9, long, p(0, 0), ShearRotation::identity()).is_none());
    let longest = wooden_object(1, 1, 16_384, p(0, 0)).pixel_data;
    assert!(PixelObject::new(9, longest, p(0, 0), ShearRotation::identity()).is_some());
}

#[test]
fn a_simulation_begins_anew() {
    let mut simulation = world(8, 4);
    simulation.paint_square(&vec![p(0, 0)], ROCK, 4);
    let mut objects = vec![];
    simulation.step(&mut objects, still(), p(20, 3), p(0, 0), 0).unwrap();
    let painted = canvas(&simulation);
    assert_eq!(simulation.reset(8), Err(SimulationError::PoolTooSmall));
    assert_eq!(canvas(&simulation), painted);
    assert_eq!(simulation.camera_canvas_pos, p(20, 3));
    assert_eq!(simulation.reset(12), Ok(()));
    assert_eq!(simulation.camera_canvas_pos, p(0, 0));
    assert_eq!(simulation.ca_simulator.sim_steps, 0);
    assert_eq!(simulation.ca_simulator.size, 8);
    assert_eq!(simulation.matter_definitions, table());
    assert_eq!(canvas(&simulation), vec![0; 64]);
    assert_eq!(simulation.chunk_manager.known_chunks().len(), 9);
    assert_eq!(simulation.chunk_manager.free_chunks(), 3);
    // Rock is named by the rule of wood no more once fire is removed: the
    // table is not valid, and nothing begins anew.
    simulation.remove_matter_definition(ROCK).unwrap();
    simulation.paint_round(&vec![p(1, 1)], WATER, 0);
    let painted = canvas(&simulation);
    assert_eq!(simulation.remove_matter_definition(FIRE), Ok(()));
    assert_eq!(
        simulation.reset(12),
        Err(SimulationError::InvalidMatterTable(MatterTableError::DanglingReaction {
            id: WOOD,
            name: "Wood".to_string()
        }))
    );
    assert_eq!(canvas(&simulation), painted);
}
