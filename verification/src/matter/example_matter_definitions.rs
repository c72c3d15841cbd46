//! The matters that a new world knows.
use vstd::prelude::*;
use crate::matter::matter_definition::{
    no_rule, rule, table_valid, MatterDefinition, MatterDefinitions, MatterEntry, MatterReaction,
};
use crate::matter::matter_state::{Direction, MatterCharacteristic, MatterState};

verus! {

pub const MATTER_EMPTY: u32 = 0;
pub const MATTER_SAND: u32 = 1;
pub const MATTER_WATER: u32 = 2;
pub const MATTER_LAVA: u32 = 3;
pub const MATTER_ROCK: u32 = 4;
pub const MATTER_ICE: u32 = 5;
pub const MATTER_GLASS: u32 = 6;
pub const MATTER_WOOD: u32 = 7;
pub const MATTER_STEAM: u32 = 8;
pub const MATTER_SMOKE: u32 = 9;
pub const MATTER_GAS: u32 = 10;
pub const MATTER_FIRE: u32 = 11;
pub const MATTER_ACID: u32 = 12;
pub const MATTER_ERASE: u32 = 13;

/// What the table of a new world says of matter `id`. The weights count in
/// thousandths and the probabilities in millionths.
pub open spec fn default_entry(id: int) -> MatterEntry {
    if id == MATTER_EMPTY {
        MatterEntry {
            name: "Empty"@,
            color: 0x0,
            weight: 0,
            state: MatterState::Empty,
            dispersion: 0,
            characteristics: 0,
            reactions: seq![
                no_rule(),
                no_rule(),
                no_rule(),
                no_rule(),
                no_rule(),
            ],
        }
    } else if id == MATTER_SAND {
        MatterEntry {
            name: "Sand"@,
            color: 0xc2b280ff,
            weight: 1_500,
            state: MatterState::Powder,
            dispersion: 0,
            characteristics: MatterCharacteristic::MELTS | MatterCharacteristic::CORRODES,
            reactions: seq![
                rule(MatterCharacteristic::MELTING, Direction::ALL, 600_000, MATTER_GLASS),
                rule(MatterCharacteristic::CORROSIVE, Direction::ALL, 50_000, MATTER_EMPTY),
                rule(MatterCharacteristic::ERASER, Direction::ALL, 1_000_000, MATTER_EMPTY),
                no_rule(),
                no_rule(),
            ],
        }
    } else if id == MATTER_WATER {
        MatterEntry {
            name: "Water"@,
            color: 0x1ca3ecff,
            weight: 1_000,
            state: MatterState::Liquid,
            dispersion: 10,
            characteristics: MatterCharacteristic::RUSTING
                | MatterCharacteristic::COOLING
                | MatterCharacteristic::FREEZES
                | MatterCharacteristic::VAPORIZES,
            reactions: seq![
                rule(
                    MatterCharacteristic::MELTING
                        | MatterCharacteristic::BURNING
                        | MatterCharacteristic::CORROSIVE,
                    Direction::ALL,
                    600_000,
                    MATTER_STEAM,
                ),
                rule(MatterCharacteristic::FREEZING, Direction::ALL, 5_000, MATTER_ICE),
                rule(MatterCharacteristic::ERASER, Direction::ALL, 1_000_000, MATTER_EMPTY),
                no_rule(),
                no_rule(),
            ],
        }
    } else if id == MATTER_LAVA {
        MatterEntry {
            name: "Lava"@,
            color: 0xf7342bff,
            weight: 2_500,
            state: MatterState::Liquid,
            dispersion: 2,
            characteristics: MatterCharacteristic::MELTING
                | MatterCharacteristic::BURNING
                | MatterCharacteristic::FREEZES
                | MatterCharacteristic::COOLS,
            reactions: seq![
                rule(
                    MatterCharacteristic::FREEZING | MatterCharacteristic::COOLING,
                    Direction::ALL,
                    500_000,
                    MATTER_ROCK,
                ),
                rule(
                    MatterCharacteristic::MELTS | MatterCharacteristic::BURNS,
                    Direction::ALL,
                    600_000,
                    MATTER_EMPTY,
                ),
                rule(MatterCharacteristic::ERASER, Direction::ALL, 1_000_000, MATTER_EMPTY),
                no_rule(),
                no_rule(),
            ],
        }
    } else if id == MATTER_ROCK {
        MatterEntry {
            name: "Rock"@,
            color: 0x87898eff,
            weight: 2_500,
            state: MatterState::SolidGravity,
            dispersion: 0,
            characteristics: MatterCharacteristic::CORRODES,
            reactions: seq![
                rule(MatterCharacteristic::CORROSIVE, Direction::ALL, 50_000, MATTER_EMPTY),
                rule(MatterCharacteristic::ERASER, Direction::ALL, 1_000_000, MATTER_EMPTY),
                no_rule(),
                no_rule(),
                no_rule(),
            ],
        }
    } else if id == MATTER_ICE {
        MatterEntry {
            name: "Ice"@,
            color: 0xb9e8eaff,
            weight: 1_000,
            state: MatterState::Solid,
            dispersion: 0,
            characteristics: MatterCharacteristic::FREEZING | MatterCharacteristic::MELTS,
            reactions: seq![
                rule(
                    MatterCharacteristic::MELTING
                        | MatterCharacteristic::BURNING
                        | MatterCharacteristic::CORROSIVE,
                    Direction::ALL,
                    400_000,
                    MATTER_WATER,
                ),
                rule(MatterCharacteristic::ERASER, Direction::ALL, 1_000_000, MATTER_EMPTY),
                no_rule(),
                no_rule(),
                no_rule(),
            ],
        }
    } else if id == MATTER_GLASS {
        MatterEntry {
            name: "Glass"@,
            color: 0xf6feffff,
            weight: 1_500,
            state: MatterState::SolidGravity,
            dispersion: 0,
            characteristics: MatterCharacteristic::CORRODES,
            reactions: seq![
                rule(MatterCharacteristic::CORROSIVE, Direction::ALL, 50_000, MATTER_EMPTY),
                rule(MatterCharacteristic::ERASER, Direction::ALL, 1_000_000, MATTER_EMPTY),
                no_rule(),
                no_rule(),
                no_rule(),
            ],
        }
    } else if id == MATTER_WOOD {
        MatterEntry {
            name: "Wood"@,
            color: 0xba8c63ff,
            weight: 400,
            state: MatterState::Solid,
            dispersion: 0,
            characteristics: MatterCharacteristic::BURNS | MatterCharacteristic::CORRODES,
            reactions: seq![
                rule(
                    MatterCharacteristic::MELTING | MatterCharacteristic::BURNING,
                    Direction::DOWN
                        | Direction::DOWN_LEFT
                        | Direction::DOWN_RIGHT
                        | Direction::RIGHT
                        | Direction::LEFT,
                    400_000,
                    MATTER_FIRE,
                ),
                rule(
                    MatterCharacteristic::MELTING | MatterCharacteristic::BURNING,
                    Direction::DOWN
                        | Direction::DOWN_LEFT
                        | Direction::DOWN_RIGHT
                        | Direction::RIGHT
                        | Direction::LEFT,
                    200_000,
                    MATTER_SMOKE,
                ),
                rule(MatterCharacteristic::CORROSIVE, Direction::ALL, 1_000_000, MATTER_EMPTY),
                rule(MatterCharacteristic::ERASER, Direction::ALL, 1_000_000, MATTER_EMPTY),
                rule(
                    MatterCharacteristic::MELTING | MatterCharacteristic::BURNING,
                    Direction::ALL,
                    50_000,
                    MATTER_FIRE,
                ),
            ],
        }
    } else if id == MATTER_STEAM {
        MatterEntry {
            name: "Steam"@,
            color: 0x889a9eff,
            weight: 100,
            state: MatterState::Gas,
            dispersion: 5,
            characteristics: 0,
            reactions: seq![
                rule(0, Direction::ALL, 5_000, MATTER_EMPTY),
                rule(MatterCharacteristic::ERASER, Direction::ALL, 1_000_000, MATTER_EMPTY),
                no_rule(),
                no_rule(),
                no_rule(),
            ],
        }
    } else if id == MATTER_SMOKE {
        MatterEntry {
            name: "Smoke"@,
            color: 0x7a7a7aff,
            weight: 100,
            state: MatterState::Gas,
            dispersion: 5,
            characteristics: 0,
            reactions: seq![
                rule(0, Direction::ALL, 5_000, MATTER_EMPTY),
                rule(MatterCharacteristic::ERASER, Direction::ALL, 1_000_000, MATTER_EMPTY),
                no_rule(),
                no_rule(),
                no_rule(),
            ],
        }
    } else if id == MATTER_GAS {
        MatterEntry {
            name: "Gas"@,
            color: 0x92cd00ff,
            weight: 100,
            state: MatterState::Gas,
            dispersion: 5,
            characteristics: 0,
            reactions: seq![
                rule(0, Direction::ALL, 5_000, MATTER_EMPTY),
                rule(MatterCharacteristic::ERASER, Direction::ALL, 1_000_000, MATTER_EMPTY),
                no_rule(),
                no_rule(),
                no_rule(),
            ],
        }
    } else if id == MATTER_FIRE {
        MatterEntry {
            name: "Fire"@,
            color: 0xe25822ff,
            weight: 0,
            state: MatterState::Energy,
            dispersion: 0,
            characteristics: MatterCharacteristic::BURNING,
            reactions: seq![
                rule(0, Direction::ALL, 200_000, MATTER_EMPTY),
                rule(
                    MatterCharacteristic::BURNS,
                    Direction::DOWN
                        | Direction::DOWN_LEFT
                        | Direction::DOWN_RIGHT
                        | Direction::RIGHT
                        | Direction::LEFT,
                    200_000,
                    MATTER_FIRE,
                ),
                rule(MatterCharacteristic::ERASER, Direction::ALL, 1_000_000, MATTER_EMPTY),
                no_rule(),
                no_rule(),
            ],
        }
    } else if id == MATTER_ACID {
        MatterEntry {
            name: "Acid"@,
            color: 0xb0bf1aff,
            weight: 1_000,
            state: MatterState::Liquid,
            dispersion: 5,
            characteristics: MatterCharacteristic::CORROSIVE | MatterCharacteristic::BURNS,
            reactions: seq![
                rule(MatterCharacteristic::CORRODES, Direction::ALL, 200_000, MATTER_EMPTY),
                rule(MatterCharacteristic::BURNING, Direction::ALL, 400_000, MATTER_FIRE),
                rule(0, Direction::ALL, 5_000, MATTER_EMPTY),
                rule(MatterCharacteristic::ERASER, Direction::ALL, 1_000_000, MATTER_EMPTY),
                no_rule(),
            ],
        }
    } else {
        MatterEntry {
            name: "Erase"@,
            color: 0x0,
            weight: 0,
            state: MatterState::Energy,
            dispersion: 0,
            characteristics: MatterCharacteristic::ERASER,
            reactions: seq![
                rule(0, Direction::ALL, 1_000_000, MATTER_EMPTY),
                no_rule(),
                no_rule(),
                no_rule(),
                no_rule(),
            ],
        }
    }
}

/// The matters that a new world knows: fourteen of them, each with its
/// place in the table as its id, and each as `default_entry` tells it.
pub fn default_matter_definitions() -> (table: MatterDefinitions)
    ensures
        table.empty == MATTER_EMPTY,
        table.definitions.len() == 14,
        table_valid(table.definitions@),
        forall|id: int|
            0 <= id < 14 ==> (#[trigger] table.definitions[id]).id == id
                && table.definitions[id].holds(default_entry(id)),
{
    let table = MatterDefinitions {
        empty: MATTER_EMPTY,
        definitions: vec![
            MatterDefinition {
                id: MATTER_EMPTY,
                name: "Empty".to_string(),
                color: 0x0,
                weight: 0,
                state: MatterState::Empty,
                dispersion: 0,
                characteristics: MatterCharacteristic::empty(),
                reactions: [
                    MatterReaction::zero(),
                    MatterReaction::zero(),
                    MatterReaction::zero(),
                    MatterReaction::zero(),
                    MatterReaction::zero(),
                ],
            },
            MatterDefinition {
                id: MATTER_SAND,
                name: "Sand".to_string(),
                color: 0xc2b280ff,
                weight: 1_500,
                state: MatterState::Powder,
                dispersion: 0,
                characteristics: MatterCharacteristic { bits: MatterCharacteristic::MELTS |
                    MatterCharacteristic::CORRODES },
                reactions: [
                    MatterReaction {
                        reacts: MatterCharacteristic { bits: MatterCharacteristic::MELTING },
                        direction: Direction { bits: Direction::ALL },
                        probability: 600_000,
                        becomes: MATTER_GLASS,
                    },
                    MatterReaction {
                        reacts: MatterCharacteristic { bits: MatterCharacteristic::CORROSIVE },
                        direction: Direction { bits: Direction::ALL },
                        probability: 50_000,
                        becomes: MATTER_EMPTY,
                    },
                    MatterReaction::becomes_on_touch(
                        1_000_000,
                        MatterCharacteristic { bits: MatterCharacteristic::ERASER },
                        MATTER_EMPTY,
                    ),
                    MatterReaction::zero(),
                    MatterReaction::zero(),
                ],
            },
            MatterDefinition {
                id: MATTER_WATER,
                name: "Water".to_string(),
                color: 0x1ca3ecff,
                weight: 1_000,
                state: MatterState::Liquid,
                dispersion: 10,
                characteristics: MatterCharacteristic { bits: MatterCharacteristic::RUSTING |
                    MatterCharacteristic::COOLING | MatterCharacteristic::FREEZES |
                    MatterCharacteristic::VAPORIZES },
                reactions: [
                    MatterReaction {
                        reacts: MatterCharacteristic { bits: MatterCharacteristic::MELTING |
                            MatterCharacteristic::BURNING | MatterCharacteristic::CORROSIVE },
                        direction: Direction { bits: Direction::ALL },
                        probability: 600_000,
                        becomes: MATTER_STEAM,
                    },
                    MatterReaction {
                        reacts: MatterCharacteristic { bits: MatterCharacteristic::FREEZING },
                        direction: Direction { bits: Direction::ALL },
                        probability: 5_000,
                        becomes: MATTER_ICE,
                    },
                    MatterReaction::becomes_on_touch(
                        1_000_000,
                        MatterCharacteristic { bits: MatterCharacteristic::ERASER },
                        MATTER_EMPTY,
                    ),
                    MatterReaction::zero(),
                    MatterReaction::zero(),
                ],
            },
            MatterDefinition {
                id: MATTER_LAVA,
                name: "Lava".to_string(),
                color: 0xf7342bff,
                weight: 2_500,
                state: MatterState::Liquid,
                dispersion: 2,
                characteristics: MatterCharacteristic { bits: MatterCharacteristic::MELTING |
                    MatterCharacteristic::BURNING | MatterCharacteristic::FREEZES |
                    MatterCharacteristic::COOLS },
                reactions: [
                    MatterReaction {
                        reacts: MatterCharacteristic { bits: MatterCharacteristic::FREEZING |
                            MatterCharacteristic::COOLING },
                        direction: Direction { bits: Direction::ALL },
                        probability: 500_000,
                        becomes: MATTER_ROCK,
                    },
                    // After melting or burning, some lava disappears.
                    MatterReaction {
                        reacts: MatterCharacteristic { bits: MatterCharacteristic::MELTS |
                            MatterCharacteristic::BURNS },
                        direction: Direction { bits: Direction::ALL },
                        probability: 600_000,
                        becomes: MATTER_EMPTY,
                    },
                    MatterReaction::becomes_on_touch(
                        1_000_000,
                        MatterCharacteristic { bits: MatterCharacteristic::ERASER },
                        MATTER_EMPTY,
                    ),
                    MatterReaction::zero(),
                    MatterReaction::zero(),
                ],
            },
            MatterDefinition {
                id: MATTER_ROCK,
                name: "Rock".to_string(),
                color: 0x87898eff,
                weight: 2_500,
                state: MatterState::SolidGravity,
                dispersion: 0,
                characteristics: MatterCharacteristic { bits: MatterCharacteristic::CORRODES },
                reactions: [
                    MatterReaction {
                        reacts: MatterCharacteristic { bits: MatterCharacteristic::CORROSIVE },
                        direction: Direction { bits: Direction::ALL },
                        probability: 50_000,
                        becomes: MATTER_EMPTY,
                    },
                    MatterReaction::becomes_on_touch(
                        1_000_000,
                        MatterCharacteristic { bits: MatterCharacteristic::ERASER },
                        MATTER_EMPTY,
                    ),
                    MatterReaction::zero(),
                    MatterReaction::zero(),
                    MatterReaction::zero(),
                ],
            },
            MatterDefinition {
                id: MATTER_ICE,
                name: "Ice".to_string(),
                color: 0xb9e8eaff,
                weight: 1_000,
                state: MatterState::Solid,
                dispersion: 0,
                // Ice freezes others. Ice melts
                characteristics: MatterCharacteristic { bits: MatterCharacteristic::FREEZING |
                    MatterCharacteristic::MELTS },
                reactions: [
                    MatterReaction {
                        reacts: MatterCharacteristic { bits: MatterCharacteristic::MELTING |
                            MatterCharacteristic::BURNING | MatterCharacteristic::CORROSIVE },
                        direction: Direction { bits: Direction::ALL },
                        probability: 400_000,
                        becomes: MATTER_WATER,
                    },
                    MatterReaction::becomes_on_touch(
                        1_000_000,
                        MatterCharacteristic { bits: MatterCharacteristic::ERASER },
                        MATTER_EMPTY,
                    ),
                    MatterReaction::zero(),
                    MatterReaction::zero(),
                    MatterReaction::zero(),
                ],
            },
            MatterDefinition {
                id: MATTER_GLASS,
                name: "Glass".to_string(),
                color: 0xf6feffff,
                weight: 1_500,
                state: MatterState::SolidGravity,
                dispersion: 0,
                characteristics: MatterCharacteristic { bits: MatterCharacteristic::CORRODES },
                reactions: [
                    MatterReaction {
                        reacts: MatterCharacteristic { bits: MatterCharacteristic::CORROSIVE },
                        direction: Direction { bits: Direction::ALL },
                        probability: 50_000,
                        becomes: MATTER_EMPTY,
                    },
                    MatterReaction::becomes_on_touch(
                        1_000_000,
                        MatterCharacteristic { bits: MatterCharacteristic::ERASER },
                        MATTER_EMPTY,
                    ),
                    MatterReaction::zero(),
                    MatterReaction::zero(),
                    MatterReaction::zero(),
                ],
            },
            MatterDefinition {
                id: MATTER_WOOD,
                name: "Wood".to_string(),
                color: 0xba8c63ff,
                weight: 400,
                state: MatterState::Solid,
                dispersion: 0,
                characteristics: MatterCharacteristic { bits: MatterCharacteristic::BURNS |
                    MatterCharacteristic::CORRODES },
                reactions: [
                    MatterReaction::becomes_on_touch_below(
                        400_000,
                        MatterCharacteristic { bits: MatterCharacteristic::MELTING |
                            MatterCharacteristic::BURNING },
                        MATTER_FIRE,
                    ),
                    MatterReaction::becomes_on_touch_below(
                        200_000,
                        MatterCharacteristic { bits: MatterCharacteristic::MELTING |
                            MatterCharacteristic::BURNING },
                        MATTER_SMOKE,
                    ),
                    MatterReaction::becomes_on_touch(
                        1_000_000,
                        MatterCharacteristic { bits: MatterCharacteristic::CORROSIVE },
                        MATTER_EMPTY,
                    ),
                    MatterReaction::becomes_on_touch(
                        1_000_000,
                        MatterCharacteristic { bits: MatterCharacteristic::ERASER },
                        MATTER_EMPTY,
                    ),
                    MatterReaction::becomes_on_touch(
                        50_000,
                        MatterCharacteristic { bits: MatterCharacteristic::MELTING |
                            MatterCharacteristic::BURNING },
                        MATTER_FIRE,
                    ),
                ],
            },
            MatterDefinition {
                id: MATTER_STEAM,
                name: "Steam".to_string(),
                color: 0x889a9eff,
                weight: 100,
                state: MatterState::Gas,
                dispersion: 5,
                reactions: [
                    MatterReaction::dies(5_000, MATTER_EMPTY),
                    MatterReaction::becomes_on_touch(
                        1_000_000,
                        MatterCharacteristic { bits: MatterCharacteristic::ERASER },
                        MATTER_EMPTY,
                    ),
                    MatterReaction::zero(),
                    MatterReaction::zero(),
                    MatterReaction::zero(),
                ],
                characteristics: MatterCharacteristic::empty(),
            },
            MatterDefinition {
                id: MATTER_SMOKE,
                name: "Smoke".to_string(),
                color: 0x7a7a7aff,
                weight: 100,
                state: MatterState::Gas,
                dispersion: 5,
                reactions: [
                    MatterReaction::dies(5_000, MATTER_EMPTY),
                    MatterReaction::becomes_on_touch(
                        1_000_000,
                        MatterCharacteristic { bits: MatterCharacteristic::ERASER },
                        MATTER_EMPTY,
                    ),
                    MatterReaction::zero(),
                    MatterReaction::zero(),
                    MatterReaction::zero(),
                ],
                characteristics: MatterCharacteristic::empty(),
            },
            MatterDefinition {
                id: MATTER_GAS,
                name: "Gas".to_string(),
                color: 0x92cd00ff,
                weight: 100,
                state: MatterState::Gas,
                dispersion: 5,
                reactions: [
                    MatterReaction::dies(5_000, MATTER_EMPTY),
                    MatterReaction::becomes_on_touch(
                        1_000_000,
                        MatterCharacteristic { bits: MatterCharacteristic::ERASER },
                        MATTER_EMPTY,
                    ),
                    MatterReaction::zero(),
                    MatterReaction::zero(),
                    MatterReaction::zero(),
                ],
                characteristics: MatterCharacteristic::empty(),
            },
            MatterDefinition {
                id: MATTER_FIRE,
                name: "Fire".to_string(),
                color: 0xe25822ff,
                weight: 0,
                state: MatterState::Energy,
                dispersion: 0,
                characteristics: MatterCharacteristic { bits: MatterCharacteristic::BURNING },
                reactions: [
                    // Better looking fire with a chance to disappear
                    MatterReaction::dies(200_000, MATTER_EMPTY),
                    MatterReaction::becomes_on_touch_below(
                        200_000,
                        MatterCharacteristic { bits: MatterCharacteristic::BURNS },
                        MATTER_FIRE,
                    ),
                    MatterReaction::becomes_on_touch(
                        1_000_000,
                        MatterCharacteristic { bits: MatterCharacteristic::ERASER },
                        MATTER_EMPTY,
                    ),
                    MatterReaction::zero(),
                    MatterReaction::zero(),
                ],
            },
            MatterDefinition {
                id: MATTER_ACID,
                name: "Acid".to_string(),
                color: 0xb0bf1aff,
                weight: 1_000,
                state: MatterState::Liquid,
                dispersion: 5,
                characteristics: MatterCharacteristic { bits: MatterCharacteristic::CORROSIVE |
                    MatterCharacteristic::BURNS },
                reactions: [
                    // After corroding, acid can disappear. So when acid touches something that
                    // corrodes
                    MatterReaction {
                        reacts: MatterCharacteristic { bits: MatterCharacteristic::CORRODES },
                        direction: Direction { bits: Direction::ALL },
                        probability: 200_000,
                        becomes: MATTER_EMPTY,
                    },
                    MatterReaction {
                        reacts: MatterCharacteristic { bits: MatterCharacteristic::BURNING },
                        direction: Direction { bits: Direction::ALL },
                        probability: 400_000,
                        becomes: MATTER_FIRE,
                    }, // Acid also disappears over time... like gases
                    MatterReaction::dies(5_000, MATTER_EMPTY),
                    MatterReaction::becomes_on_touch(
                        1_000_000,
                        MatterCharacteristic { bits: MatterCharacteristic::ERASER },
                        MATTER_EMPTY,
                    ),
                    MatterReaction::zero(),
                ],
            },
            MatterDefinition {
                id: MATTER_ERASE,
                name: "Erase".to_string(),
                color: 0x0,
                weight: 0,
                state: MatterState::Energy,
                dispersion: 0,
                characteristics: MatterCharacteristic { bits: MatterCharacteristic::ERASER },
                reactions: [
                    // Dies instantly
                    MatterReaction::dies(1_000_000, MATTER_EMPTY),
                    MatterReaction::zero(),
                    MatterReaction::zero(),
                    MatterReaction::zero(),
                    MatterReaction::zero(),
                ],
            },
        ],
    };
    proof {
        assert(table.definitions[0].holds(default_entry(0)));
        assert(table.definitions[1].holds(default_entry(1)));
        assert(table.definitions[2].holds(default_entry(2)));
        assert(table.definitions[3].holds(default_entry(3)));
        assert(table.definitions[4].holds(default_entry(4)));
        assert(table.definitions[5].holds(default_entry(5)));
        assert(table.definitions[6].holds(default_entry(6)));
        assert(table.definitions[7].holds(default_entry(7)));
        assert(table.definitions[8].holds(default_entry(8)));
        assert(table.definitions[9].holds(default_entry(9)));
        assert(table.definitions[10].holds(default_entry(10)));
        assert(table.definitions[11].holds(default_entry(11)));
        assert(table.definitions[12].holds(default_entry(12)));
        assert(table.definitions[13].holds(default_entry(13)));
    }
    table
}

} // verus!
