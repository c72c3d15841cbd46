use sandbox::matter::matter_definition::{
    MatterDefinition, MatterDefinitions, MatterReaction, PROBABILITY_ONE,
};
use sandbox::matter::matter_state::{Direction, MatterCharacteristic, MatterState};
use sandbox::settings::AppSettings;
use sandbox::simulation::ca_passes::{
    commit_swaps, identify_targets, run_move_pass, CanvasGrid, MovePass, Movement,
};
use sandbox::simulation::ca_react::{
    find_block_bits, run_bitmap_pass, run_color_pass, run_react_pass, throw_dice,
};
use sandbox::simulation::ca_simulator::{CASimulator, MatterArrays};

const SAND: u32 = 1;
const WATER: u32 = 2;
const ROCK: u32 = 3;
const STEAM: u32 = 4;
const WOOD: u32 = 5;
const FIRE: u32 = 6;
const LEAD: u32 = 7;
const ICE: u32 = 8;

fn definition(id: u32, name: &str, state: MatterState, weight: u32) -> MatterDefinition {
    MatterDefinition {
        id,
        name: name.to_string(),
        color: 0x10203000 + id,
        weight,
        state,
        ..MatterDefinition::zero()
    }
}

fn table() -> MatterDefinitions {
    let mut water = definition(WATER, "Water", MatterState::Liquid, 1_000);
    water.dispersion = 3;
    water.characteristics = MatterCharacteristic { bits: MatterCharacteristic::COOLING };
    let mut steam = definition(STEAM, "Steam", MatterState::Gas, 100);
    steam.dispersion = 2;
    let mut wood = definition(WOOD, "Wood", MatterState::Solid, 400);
    wood.reactions[1] = MatterReaction::becomes_on_touch(
        PROBABILITY_ONE,
        MatterCharacteristic { bits: MatterCharacteristic::BURNING },
        FIRE,
    );
    let mut fire = definition(FIRE, "Fire", MatterState::Energy, 0);
    fire.characteristics = MatterCharacteristic { bits: MatterCharacteristic::BURNING };
    let mut ice = definition(ICE, "Ice", MatterState::Solid, 900);
    // Ice never melts by a rule without a chance, and melts for certain next
    // to fire that lies below it.
    ice.reactions[0] = MatterReaction {
        reacts: MatterCharacteristic { bits: MatterCharacteristic::BURNING },
        direction: Direction { bits: Direction::ALL },
        probability: 0,
        becomes: STEAM,
    };
    ice.reactions[2] = MatterReaction {
        reacts: MatterCharacteristic { bits: MatterCharacteristic::BURNING },
        direction: Direction { bits: Direction::DOWN },
        probability: PROBABILITY_ONE,
        becomes: WATER,
    };
    MatterDefinitions {
        definitions: vec![
            MatterDefinition::zero(),
            definition(SAND, "Sand", MatterState::Powder, 1_500),
            water,
            definition(ROCK, "Rock", MatterState::Solid, 2_500),
            steam,
            wood,
            fire,
            definition(LEAD, "Lead", MatterState::Powder, 9_000),
            ice,
        ],
        empty: 0,
    }
}

fn arrays() -> MatterArrays {
    let mut arrays = MatterArrays::new();
    arrays.update_matter_data(&table());
    arrays
}

/// The matter of a canvas that is drawn with its top row first.
fn cells(rows: &[&str]) -> Vec<u32> {
    let mut matter = Vec::new();
    for row in rows.iter().rev() {
        for c in row.chars() {
            matter.push(match c {
                '.' => 0,
                's' => SAND,
                'w' => WATER,
                'r' => ROCK,
                'g' => STEAM,
                'o' => WOOD,
                'f' => FIRE,
                'l' => LEAD,
                'i' => ICE,
                _ => unreachable!(),
            });
        }
    }
    matter
}

fn grid(rows: &[&str]) -> CanvasGrid {
    let size = rows.len();
    CanvasGrid {
        size: size as u32,
        empty: 0,
        matter: cells(rows),
        objects_matter: vec![0; size * size],
        objects_color: vec![0; size * size],
    }
}

fn pass(kind: Movement, bias: bool, step: u32) -> MovePass {
    MovePass { kind, bias, step }
}

fn after(rows: &[&str], pass: MovePass) -> Vec<u32> {
    let mut grid = grid(rows);
    let mut picks = Vec::new();
    run_move_pass(&arrays(), &mut grid, pass, &mut picks);
    assert_eq!(picks.len(), rows.len() * rows.len());
    grid.matter
}

#[test]
fn the_table_is_laid_out_for_the_passes() {
    let arrays = arrays();
    assert_eq!(arrays.color.len(), 256);
    assert_eq!(arrays.reaction_with.len(), 1280);
    assert_eq!(arrays.get_state(SAND), MatterState::Powder);
    assert_eq!(arrays.get_state(FIRE), MatterState::Energy);
    assert_eq!(arrays.get_state(200), MatterState::Empty);
    assert_eq!(arrays.get_state(70_000), MatterState::Empty);
    assert_eq!(arrays.get_weight(LEAD), 9_000);
    assert_eq!(arrays.get_weight(1_000), 0);
    assert_eq!(arrays.get_dispersion(WATER), 3);
    assert_eq!(arrays.get_characteristics(FIRE), MatterCharacteristic::BURNING);
    // Colours are laid out with their bytes reversed.
    assert_eq!(arrays.get_color(SAND), 0x01302010);
    assert_eq!(arrays.get_color(300), 0);
    let rule = arrays.get_rule(WOOD, 1);
    assert_eq!(rule.becomes, FIRE);
    assert_eq!(rule.probability, PROBABILITY_ONE);
    assert_eq!(rule.reacts.bits, MatterCharacteristic::BURNING);
    assert_eq!(arrays.get_rule(WOOD, 0), MatterReaction::zero());
    assert_eq!(arrays.get_rule(999, 4), MatterReaction::zero());
    assert_eq!(arrays.reaction_transition[(WOOD * 5 + 1) as usize], FIRE);
    assert_eq!(arrays.state[WATER as usize], 2);
    assert_eq!(arrays.state[9], 0);
    // Laying out a shorter table clears what lay behind it.
    let mut arrays = arrays;
    arrays.update_matter_data(&MatterDefinitions {
        definitions: vec![MatterDefinition::zero()],
        empty: 0,
    });
    assert_eq!(arrays.get_state(SAND), MatterState::Empty);
    assert_eq!(arrays.get_rule(WOOD, 1), MatterReaction::zero());
}

#[test]
fn what_falls_drops_one_cell() {
    assert_eq!(
        after(&["sw.l", "....", "r...", "...."], pass(Movement::Fall, true, 0)),
        cells(&["....", "sw.l", "r...", "...."])
    );
    // Rock, steam, fire and wood do not fall; nothing falls through the floor
    // or into a cell that holds matter.
    assert_eq!(
        after(&["rgfo", "....", "s...", "ws.l"], pass(Movement::Fall, true, 0)),
        cells(&["rgfo", "....", "s...", "ws.l"])
    );
}

#[test]
fn a_column_falls_from_below() {
    // The cell above a cell that moves does not move in the same pass.
    assert_eq!(
        after(&["s..", "s..", "..."], pass(Movement::Fall, false, 0)),
        cells(&["s..", "...", "s.."])
    );
}

#[test]
fn gas_rises_one_cell() {
    assert_eq!(
        after(&["....", "g.s.", "g...", "w..g"], pass(Movement::Rise, true, 0)),
        cells(&["g...", "..s.", "g..g", "w..."])
    );
}

#[test]
fn what_cannot_fall_slides_down_to_the_side_that_is_tried_first() {
    assert_eq!(
        after(&["...", ".s.", ".r."], pass(Movement::SlideDown, true, 0)),
        cells(&["...", "...", ".rs"])
    );
    assert_eq!(
        after(&["...", ".s.", ".r."], pass(Movement::SlideDown, false, 0)),
        cells(&["...", "...", "sr."])
    );
    // The other side is taken where the first is not free.
    assert_eq!(
        after(&["...", ".w.", ".rr"], pass(Movement::SlideDown, true, 0)),
        cells(&["...", "...", "wrr"])
    );
    // What can fall does not slide, and rock and gas never do.
    assert_eq!(
        after(&["s.r", "..g", "..."], pass(Movement::SlideDown, true, 0)),
        cells(&["s.r", "..g", "..."])
    );
}

#[test]
fn of_two_that_want_one_cell_the_heavier_moves() {
    // Sand from the left and lead from the right both slide to the middle.
    assert_eq!(
        after(&["...", "s.l", "r.r"], pass(Movement::SlideDown, true, 0)),
        cells(&["...", "s..", "rlr"])
    );
    assert_eq!(
        after(&["...", "l.s", "r.r"], pass(Movement::SlideDown, true, 0)),
        cells(&["...", "..s", "rlr"])
    );
    // Of two that are equally heavy the one moves that tried the cell first.
    assert_eq!(
        after(&["...", "s.s", "r.r"], pass(Movement::SlideDown, true, 0)),
        cells(&["...", "..s", "rsr"])
    );
    assert_eq!(
        after(&["...", "s.s", "r.r"], pass(Movement::SlideDown, false, 0)),
        cells(&["...", "s..", "rsr"])
    );
}

#[test]
fn liquid_and_gas_spread_to_the_side() {
    assert_eq!(
        after(&["....", ".g..", "....", ".w.s"], pass(Movement::Disperse, true, 0)),
        cells(&["....", "..g.", "....", "..ws"])
    );
    assert_eq!(
        after(&["....", ".g..", "....", ".w.s"], pass(Movement::Disperse, false, 1)),
        cells(&["....", "g...", "....", "w..s"])
    );
    // Steam spreads in two steps of a tick and water in three.
    assert_eq!(
        after(&["....", ".g..", "....", ".w.s"], pass(Movement::Disperse, true, 2)),
        cells(&["....", ".g..", "....", "..ws"])
    );
    assert_eq!(
        after(&["....", ".g..", "....", ".w.s"], pass(Movement::Disperse, true, 3)),
        cells(&["....", ".g..", "....", ".w.s"])
    );
    // Water that meets water from the other side: the one that tried the cell
    // first moves.
    assert_eq!(
        after(&["...", "...", "w.w"], pass(Movement::Disperse, true, 0)),
        cells(&["...", "...", ".ww"])
    );
}

#[test]
fn matter_under_an_object_stays_and_nothing_moves_under_an_object() {
    let mut grid = grid(&["s.s", "...", "..."]);
    grid.objects_matter[3] = WOOD;
    grid.objects_matter[8] = WOOD;
    let mut picks = Vec::new();
    run_move_pass(&arrays(), &mut grid, pass(Movement::Fall, true, 0), &mut picks);
    assert_eq!(grid.matter, cells(&["s.s", "...", "..."]));
    assert_eq!(grid.objects_matter, vec![0, 0, 0, WOOD, 0, 0, 0, 0, WOOD]);
}

#[test]
fn the_two_steps_of_a_pass() {
    let arrays = arrays();
    let grid = grid(&["...", "s.l", "r.r"]);
    let mut picks = vec![9, 9];
    identify_targets(&arrays, &grid, pass(Movement::SlideDown, true, 0), &mut picks);
    // The free cell in the middle of the bottom row picks the lead, which has
    // it as its second choice.
    assert_eq!(picks, vec![0, 2, 0, 0, 0, 0, 0, 0, 0]);
    assert_eq!(
        commit_swaps(&arrays, &grid, pass(Movement::SlideDown, true, 0), &picks),
        cells(&["...", "s..", "rlr"])
    );
    identify_targets(&arrays, &grid, pass(Movement::Fall, true, 0), &mut picks);
    assert_eq!(picks, vec![0; 9]);
}

#[test]
fn a_pass_neither_makes_matter_nor_loses_any() {
    let rows = ["sswg.l", "w.s.gw", "..rr..", "lg.wsw", "s.w.g.", "r..s.w"];
    for kind in [Movement::Fall, Movement::Rise, Movement::SlideDown, Movement::Disperse] {
        for bias in [false, true] {
            let moved = after(&rows, pass(kind, bias, 0));
            let mut before = cells(&rows);
            let mut now = moved.clone();
            before.sort();
            now.sort();
            assert_eq!(before, now);
        }
    }
}

#[test]
fn the_dice_are_the_same_for_the_same_throw() {
    assert_eq!(throw_dice(0, 0, 0, 0), throw_dice(0, 0, 0, 0));
    assert_eq!(throw_dice(17, 4, 1000, 3), throw_dice(17, 4, 1000, 3));
    // (12345 * 1103515245 + 12345) mod 2^32 = 3554416254, divided by 64 and
    // taken modulo a million.
    assert_eq!(throw_dice(0, 0, 0, 0), 537753);
    let mut seen = std::collections::HashSet::new();
    for index in 0..1000 {
        let thrown = throw_dice(99, 7, index, 1);
        assert!(thrown < 1_000_000);
        seen.insert(thrown);
    }
    assert!(seen.len() > 900);
    // About a fifth of the throws fall below a fifth.
    let below = (0..10_000).filter(|i| throw_dice(3, 1, *i, 0) < 200_000).count();
    assert!(below > 1_700 && below < 2_300);
}

#[test]
fn matter_reacts_to_its_neighbours() {
    let mut grid = grid(&["o..o", ".f..", "...o", "o..."]);
    run_react_pass(&arrays(), &mut grid, 1, 1);
    // The wood that touches the fire burns, corner to corner too.
    assert_eq!(grid.matter, cells(&["f..o", ".f..", "...o", "o..."]));
    run_react_pass(&arrays(), &mut grid, 1, 2);
    assert_eq!(grid.matter, cells(&["f..o", ".f..", "...o", "o..."]));
}

#[test]
fn a_rule_without_a_chance_never_fires_and_directions_are_kept() {
    // Ice melts only with fire below it.
    let mut grid = grid(&[".f.", "fif", "..."]);
    for step in 0..50 {
        run_react_pass(&arrays(), &mut grid, 5, step);
    }
    assert_eq!(grid.matter, cells(&[".f.", "fif", "..."]));
    let mut grid = self::grid(&["...", ".i.", ".f."]);
    run_react_pass(&arrays(), &mut grid, 5, 0);
    assert_eq!(grid.matter, cells(&["...", ".w.", ".f."]));
}

#[test]
fn reactions_read_the_canvas_as_it_was() {
    // The fire does not spread through two cells of wood in one pass.
    let mut grid = grid(&["...", "foo", "..."]);
    run_react_pass(&arrays(), &mut grid, 0, 0);
    assert_eq!(grid.matter, cells(&["...", "ffo", "..."]));
    run_react_pass(&arrays(), &mut grid, 0, 1);
    assert_eq!(grid.matter, cells(&["...", "fff", "..."]));
}

#[test]
fn an_object_reacts_in_place_of_the_matter_below_it() {
    let mut grid = grid(&["...", ".sf", "..."]);
    grid.objects_matter[4] = WOOD;
    grid.objects_color[4] = 0xabcdef;
    grid.objects_matter[0] = WOOD;
    grid.objects_color[0] = 0x123456;
    run_react_pass(&arrays(), &mut grid, 0, 0);
    // The cell of the object next to the fire is gone, and what it became
    // lies in the canvas; the other cell of the object is as it was.
    assert_eq!(grid.matter, cells(&["...", ".ff", "..."]));
    assert_eq!(grid.objects_matter, vec![WOOD, 0, 0, 0, 0, 0, 0, 0, 0]);
    assert_eq!(grid.objects_color, vec![0x123456, 0, 0, 0, 0, 0, 0, 0, 0]);
    // An object of fire sets the wood next to it alight.
    let mut grid = self::grid(&["...", ".o.", "..."]);
    grid.objects_matter[3] = FIRE;
    run_react_pass(&arrays(), &mut grid, 0, 0);
    assert_eq!(grid.matter, cells(&["...", ".f.", "..."]));
}

#[test]
fn the_colours_of_the_canvas() {
    let mut grid = grid(&["sw", ".r"]);
    grid.objects_matter[1] = WOOD;
    grid.objects_color[1] = 0xaabbccdd;
    grid.objects_color[2] = 0x11111111;
    let image = run_color_pass(&arrays(), &grid);
    assert_eq!(image, vec![0, 0xaabbccdd, 0x01302010, 0x02302010]);
}

#[test]
fn the_occupancy_of_blocks() {
    let grid = grid(&["s...", "..w.", "r...", ".l.."]);
    let arrays = arrays();
    // Blocks of 2 by 2: below left rock and lead, below right nothing, above
    // left sand, above right water.
    assert_eq!(run_bitmap_pass(&arrays, &grid, 2), vec![1 | 2, 0, 2, 4]);
    assert_eq!(find_block_bits(&arrays, &grid, 2, 0, 0), 3);
    assert_eq!(find_block_bits(&arrays, &grid, 4, 0, 0), 7);
    assert_eq!(run_bitmap_pass(&arrays, &grid, 4), vec![7]);
    assert_eq!(
        run_bitmap_pass(&arrays, &grid, 1),
        vec![0, 2, 0, 0, 1, 0, 0, 0, 0, 0, 4, 0, 2, 0, 0, 0]
    );
}

#[test]
fn a_simulator_needs_a_size_and_blocks_that_fit() {
    assert!(CASimulator::new(0, 1, 0).is_none());
    assert!(CASimulator::new(16_385, 1, 0).is_none());
    assert!(CASimulator::new(8, 0, 0).is_none());
    assert!(CASimulator::new(8, 3, 0).is_none());
    assert!(CASimulator::new(8, 16, 0).is_none());
    let simulator = CASimulator::new(8, 4, 0).unwrap();
    assert_eq!(simulator.bitmap, vec![0; 4]);
    assert_eq!(simulator.sim_steps, 0);
    assert_eq!(simulator.size, 8);
    assert_eq!(simulator.bitmap_ratio, 4);
}

fn simulator(size: u32, ratio: u32) -> CASimulator {
    let mut simulator = CASimulator::new(size, ratio, 0).unwrap();
    simulator.update_matter_data(&table());
    simulator
}

fn settings(movement_steps: u32, dispersion_steps: u32) -> AppSettings {
    AppSettings { movement_steps, dispersion_steps, ..AppSettings::new() }
}

#[test]
fn a_tick_runs_the_movement_rounds() {
    let rows = [".s....", "......", "......", "......", "......", "......"];
    let mut simulator = simulator(6, 3);
    let mut canvas = grid(&rows);
    let image = simulator.tick(&mut canvas, settings(3, 0), 0);
    assert_eq!(
        canvas.matter,
        cells(&["......", "......", "......", ".s....", "......", "......"])
    );
    assert_eq!(simulator.sim_steps, 1);
    assert_eq!(image.len(), 36);
    assert_eq!(image[2 * 6 + 1], 0x01302010);
    assert_eq!(image.iter().filter(|c| **c != 0).count(), 1);
    // The sand lies in the upper left block now: bit 1 is powder.
    assert_eq!(simulator.bitmap, vec![2, 0, 0, 0]);
    // With one round, and with none, a tick has one movement round.
    let mut canvas = grid(&rows);
    simulator.tick(&mut canvas, settings(1, 0), 0);
    assert_eq!(
        canvas.matter,
        cells(&["......", ".s....", "......", "......", "......", "......"])
    );
    let mut canvas = grid(&rows);
    simulator.tick(&mut canvas, settings(0, 0), 0);
    assert_eq!(
        canvas.matter,
        cells(&["......", ".s....", "......", "......", "......", "......"])
    );
    assert_eq!(simulator.sim_steps, 3);
}

#[test]
fn a_tick_spreads_to_one_side_and_back() {
    // Water on the floor: in an even tick it spreads right, then left; both
    // blocks of spreading have as many steps, so it ends where it began.
    let rows = ["......", "......", "......", "......", "......", "..w..."];
    let mut simulator = simulator(6, 3);
    let mut canvas = grid(&rows);
    simulator.tick(&mut canvas, settings(1, 2), 0);
    assert_eq!(canvas.matter, cells(&rows));
    // Against a wall on the right it turns to the left at once, so that the
    // spreading to the right leaves it where it was, and the spreading to the
    // left takes it two cells away.
    let walled = ["......", "......", "......", "......", "......", "..wr.."];
    let mut simulator = self::simulator(6, 3);
    let mut canvas = grid(&walled);
    simulator.tick(&mut canvas, settings(1, 2), 0);
    assert_eq!(
        canvas.matter,
        cells(&["......", "......", "......", "......", "......", "w..r.."])
    );
    // The next tick is an odd one: left first, then right.
    let mut canvas = grid(&walled);
    simulator.tick(&mut canvas, settings(1, 2), 0);
    assert_eq!(canvas.matter, cells(&walled));
}

#[test]
fn a_tick_is_the_same_for_the_same_seed_and_tick() {
    let mut table = table();
    table.definitions[WOOD as usize].reactions[1].probability = 300_000;
    let rows = ["oooooo", "ofoofo", "oooooo", "oooooo", "ofoofo", "oooooo"];
    let run = |seed: u32| {
        let mut simulator = CASimulator::new(6, 3, 0).unwrap();
        simulator.update_matter_data(&table);
        let mut canvas = grid(&rows);
        let mut history = Vec::new();
        for _ in 0..5 {
            simulator.tick(&mut canvas, settings(1, 0), seed);
            history.push(canvas.matter.clone());
        }
        history
    };
    assert_eq!(run(11), run(11));
    assert_ne!(run(11), run(12));
    let burnt = run(11);
    let count = |m: &Vec<u32>| m.iter().filter(|c| **c == FIRE).count();
    assert!(count(&burnt[0]) > 4 && count(&burnt[0]) < 36);
    assert!(count(&burnt[4]) >= count(&burnt[0]));
}

#[test]
fn the_bitmaps_of_the_classes_are_read_and_changes_noted() {
    let mut simulator = simulator(4, 2);
    simulator.bitmap = vec![1, 2, 4, 7];
    let mut solid = vec![false, false, false, true];
    let mut powder = vec![false, true, false, true];
    let mut liquid = vec![true; 4];
    let (mut solids, mut powders, mut liquids) = (false, false, false);
    simulator.update_bitmaps(
        &mut solid,
        &mut powder,
        &mut liquid,
        &mut solids,
        &mut powders,
        &mut liquids,
    );
    assert_eq!(solid, vec![true, false, false, true]);
    assert_eq!(powder, vec![false, true, false, true]);
    assert_eq!(liquid, vec![false, false, true, true]);
    assert_eq!((solids, powders, liquids), (true, false, true));
    // A change that was noted stays noted.
    let (mut solids, mut powders, mut liquids) = (false, true, false);
    simulator.update_bitmaps(
        &mut solid,
        &mut powder,
        &mut liquid,
        &mut solids,
        &mut powders,
        &mut liquids,
    );
    assert_eq!((solids, powders, liquids), (false, true, false));
}

#[test]
fn the_settings_to_begin_with_and_for_weak_devices() {
    let settings = AppSettings::new();
    assert_eq!(settings.dispersion_steps, 10);
    assert_eq!(settings.movement_steps, 3);
    assert_eq!(settings.sim_fps, 60);
    assert!(!settings.print_performance);
    assert!(!settings.chunked_simulation);
    let mut weak = AppSettings::new();
    weak.update_based_on_device_info_and_env(false, 8_000, 512);
    assert_eq!((weak.dispersion_steps, weak.movement_steps, weak.sim_fps), (4, 1, 30));
    let mut small = AppSettings::new();
    small.update_based_on_device_info_and_env(true, 1_500, 512);
    assert_eq!((small.dispersion_steps, small.movement_steps, small.sim_fps), (4, 2, 60));
    let mut strong = AppSettings::new();
    strong.update_based_on_device_info_and_env(true, 8_000, 512);
    assert_eq!(strong, AppSettings::new());
    let mut large = AppSettings::new();
    large.update_based_on_device_info_and_env(true, 8_000, 1024);
    assert_eq!((large.dispersion_steps, large.movement_steps, large.sim_fps), (4, 1, 30));
}
