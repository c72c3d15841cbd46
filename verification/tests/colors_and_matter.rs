use sandbox::color::{u32_rgba_to_u32_abgr, u32_rgba_to_u8_rgba, u8_rgba_to_u32_rgba};
use sandbox::matter::example_matter_definitions::{
    default_matter_definitions, MATTER_EMPTY, MATTER_ERASE, MATTER_FIRE, MATTER_SAND, MATTER_WATER,
    MATTER_WOOD,
};
use sandbox::matter::matter_definition::{
    validate_matter_definitions, MatterDefinition, MatterDefinitions, MatterReaction,
    MatterTableError, MAX_NUM_MATTERS, MAX_TRANSITIONS, PROBABILITY_ONE,
};
use sandbox::matter::matter_state::{Direction, MatterCharacteristic, MatterState};

fn matter(id: u32, name: &str, color: u32) -> MatterDefinition {
    MatterDefinition { id, name: name.to_string(), color, ..MatterDefinition::zero() }
}

#[test]
fn packs_channels_red_first() {
    assert_eq!(u8_rgba_to_u32_rgba(0xc2, 0xb2, 0x80, 0xff), 0xc2b280ff);
    assert_eq!(u8_rgba_to_u32_rgba(0, 0, 0, 0), 0);
    assert_eq!(u8_rgba_to_u32_rgba(255, 255, 255, 255), 0xffffffff);
    assert_eq!(u8_rgba_to_u32_rgba(1, 2, 3, 4), 0x01020304);
}

#[test]
fn splits_channels_top_byte_first() {
    assert_eq!(u32_rgba_to_u8_rgba(0xc2b280ff), [0xc2, 0xb2, 0x80, 0xff]);
    assert_eq!(u32_rgba_to_u8_rgba(0x01020304), [1, 2, 3, 4]);
}

#[test]
fn packing_and_splitting_undo_each_other() {
    for word in [0u32, 1, 0x1ca3ecff, 0xdeadbeef, u32::MAX] {
        let c = u32_rgba_to_u8_rgba(word);
        assert_eq!(u8_rgba_to_u32_rgba(c[0], c[1], c[2], c[3]), word);
    }
}

#[test]
fn reverses_the_bytes_of_a_colour() {
    assert_eq!(u32_rgba_to_u32_abgr(0x11223344), 0x44332211);
    assert_eq!(u32_rgba_to_u32_abgr(0xc2b280ff), 0xff80b2c2);
    assert_eq!(u32_rgba_to_u32_abgr(u32_rgba_to_u32_abgr(0x1ca3ecff)), 0x1ca3ecff);
}

#[test]
fn states_stand_for_their_bits() {
    let all = [
        (MatterState::Empty, 0),
        (MatterState::Powder, 1),
        (MatterState::Liquid, 2),
        (MatterState::Solid, 4),
        (MatterState::SolidGravity, 8),
        (MatterState::Gas, 16),
        (MatterState::Energy, 32),
        (MatterState::Object, 64),
    ];
    for (state, bits) in all {
        assert_eq!(state.bits(), bits);
        assert_eq!(MatterState::from_bits(bits), Some(state));
    }
    assert_eq!(MatterState::from_bits(3), None);
    assert_eq!(MatterState::from_bits(128), None);
    assert!(MatterState::Powder.falls());
    assert!(MatterState::Liquid.falls());
    assert!(MatterState::SolidGravity.falls());
    assert!(!MatterState::Solid.falls());
    assert!(!MatterState::Gas.falls());
}

#[test]
fn characteristics_are_sets_of_bits() {
    assert_eq!(MatterCharacteristic::empty().bits, 0);
    assert!(MatterCharacteristic::empty().is_empty());
    assert_eq!(MatterCharacteristic::ERASER, 1 << 17);
    assert_eq!(MatterCharacteristic::from_bits(0x3ffff).map(|c| c.bits), Some(0x3ffff));
    assert_eq!(MatterCharacteristic::from_bits(1 << 18), None);
    let burning = MatterCharacteristic { bits: MatterCharacteristic::BURNING };
    let burns = MatterCharacteristic { bits: MatterCharacteristic::BURNS };
    let both = burning.union(burns);
    assert_eq!(both.bits, (1 << 4) | (1 << 5));
    assert!(both.contains(burning));
    assert!(!burning.contains(both));
    assert!(both.intersects(burns));
    assert!(!burning.intersects(burns));
}

#[test]
fn directions_name_the_eight_neighbours() {
    assert_eq!(Direction::ALL, 255);
    assert_eq!(Direction::from_bits(255).map(|d| d.bits), Some(255));
    assert_eq!(Direction::from_bits(256), None);
    assert_eq!(Direction::offset(0), (-1, 1));
    assert_eq!(Direction::offset(1), (0, 1));
    assert_eq!(Direction::offset(2), (1, 1));
    assert_eq!(Direction::offset(3), (1, 0));
    assert_eq!(Direction::offset(4), (1, -1));
    assert_eq!(Direction::offset(5), (0, -1));
    assert_eq!(Direction::offset(6), (-1, -1));
    assert_eq!(Direction::offset(7), (-1, 0));
    let down = Direction { bits: Direction::DOWN };
    assert!(down.allows(5));
    assert!(!down.allows(1));
}

#[test]
fn reaction_builders() {
    let zero = MatterReaction::zero();
    assert_eq!(zero.probability, 0);
    assert_eq!(zero.direction.bits, Direction::NONE);
    let dies = MatterReaction::dies(5_000, 0);
    assert_eq!(dies.reacts.bits, 0);
    assert_eq!(dies.direction.bits, Direction::ALL);
    assert_eq!(dies.probability, 5_000);
    let touch = MatterReaction::becomes_on_touch(
        PROBABILITY_ONE,
        MatterCharacteristic { bits: MatterCharacteristic::ERASER },
        7,
    );
    assert_eq!(touch.becomes, 7);
    assert_eq!(touch.direction.bits, Direction::ALL);
    let below = MatterReaction::becomes_on_touch_below(
        400_000,
        MatterCharacteristic { bits: MatterCharacteristic::BURNING },
        11,
    );
    assert_eq!(
        below.direction.bits,
        Direction::DOWN | Direction::DOWN_LEFT | Direction::DOWN_RIGHT | Direction::RIGHT
            | Direction::LEFT
    );
    assert_eq!(MAX_TRANSITIONS, 5);
    assert_eq!(MAX_NUM_MATTERS, 256);
}

#[test]
fn the_default_table_is_valid() {
    let table = default_matter_definitions();
    assert_eq!(table.empty, MATTER_EMPTY);
    assert_eq!(table.definitions.len(), 14);
    assert_eq!(validate_matter_definitions(&table), Ok(()));
    assert_eq!(table.definitions[MATTER_SAND as usize].name, "Sand");
    assert_eq!(table.definitions[MATTER_SAND as usize].weight, 1_500);
    assert_eq!(table.definitions[MATTER_SAND as usize].state, MatterState::Powder);
    assert_eq!(table.definitions[MATTER_WATER as usize].color, 0x1ca3ecff);
    assert_eq!(table.definitions[MATTER_WATER as usize].dispersion, 10);
    assert_eq!(table.definitions[MATTER_WOOD as usize].reactions[0].probability, 400_000);
    assert_eq!(table.definitions[MATTER_WOOD as usize].reactions[0].becomes, MATTER_FIRE);
    assert_eq!(table.definitions[MATTER_ERASE as usize].reactions[0].probability, PROBABILITY_ONE);
    for (index, definition) in table.definitions.iter().enumerate() {
        assert_eq!(definition.id as usize, index);
    }
}

#[test]
fn validation_names_the_first_definition_with_a_wrong_id() {
    let table = MatterDefinitions {
        definitions: vec![matter(0, "Empty", 0), matter(2, "Odd", 1), matter(7, "Worse", 2)],
        empty: 0,
    };
    assert_eq!(
        validate_matter_definitions(&table),
        Err(MatterTableError::IdMismatch { index: 1, id: 2, name: "Odd".to_string() })
    );
}

#[test]
fn validation_names_the_definition_with_a_dangling_reaction() {
    let mut burning = matter(1, "Burning", 1);
    burning.reactions[3] = MatterReaction::dies(1, 2);
    let table = MatterDefinitions { definitions: vec![matter(0, "Empty", 0), burning], empty: 0 };
    assert_eq!(
        validate_matter_definitions(&table),
        Err(MatterTableError::DanglingReaction { id: 1, name: "Burning".to_string() })
    );
}

#[test]
fn a_wrong_id_is_told_before_a_dangling_reaction() {
    let mut first = matter(5, "First", 1);
    first.reactions[0] = MatterReaction::dies(1, 9);
    let table = MatterDefinitions { definitions: vec![first], empty: 0 };
    assert_eq!(
        validate_matter_definitions(&table),
        Err(MatterTableError::IdMismatch { index: 0, id: 5, name: "First".to_string() })
    );
}

#[test]
fn the_empty_table_is_valid() {
    let table = MatterDefinitions { definitions: vec![], empty: 0 };
    assert_eq!(validate_matter_definitions(&table), Ok(()));
}

#[test]
fn a_matter_is_appended_or_put_in_place() {
    let mut table =
        MatterDefinitions { definitions: vec![matter(0, "Empty", 0), matter(1, "One", 1)], empty: 0 };
    assert_eq!(table.add_or_update(matter(2, "Two", 2)), Ok(()));
    assert_eq!(table.definitions.len(), 3);
    assert_eq!(table.definitions[2].name, "Two");
    assert_eq!(table.add_or_update(matter(1, "Other", 9)), Ok(()));
    assert_eq!(table.definitions.len(), 3);
    assert_eq!(table.definitions[1].name, "Other");
    assert_eq!(table.definitions[1].color, 9);
    assert_eq!(table.add_or_update(matter(5, "Far", 2)), Err(MatterTableError::UnknownId { id: 5 }));
    assert_eq!(table.definitions.len(), 3);
}

#[test]
fn removing_a_matter_moves_the_later_ones_down_and_leaves_the_reactions() {
    let mut third = matter(3, "Three", 3);
    third.reactions[0] = MatterReaction::dies(1, 2);
    let mut table = MatterDefinitions {
        definitions: vec![matter(0, "Empty", 0), matter(1, "One", 1), matter(2, "Two", 2), third],
        empty: 0,
    };
    assert_eq!(table.remove(1), Ok(()));
    assert_eq!(table.definitions.len(), 3);
    assert_eq!(table.definitions[0].name, "Empty");
    assert_eq!(table.definitions[1].name, "Two");
    assert_eq!(table.definitions[1].id, 1);
    assert_eq!(table.definitions[2].name, "Three");
    assert_eq!(table.definitions[2].id, 2);
    // The reaction still names matter 2, which is another matter now.
    assert_eq!(table.definitions[2].reactions[0].becomes, 2);
    assert_eq!(table.empty, 0);
}

#[test]
fn the_empty_matter_and_unknown_matters_are_not_removed() {
    let mut table =
        MatterDefinitions { definitions: vec![matter(0, "Empty", 0), matter(1, "One", 1)], empty: 0 };
    assert_eq!(table.remove(0), Err(MatterTableError::ReservedEmpty));
    assert_eq!(table.remove(2), Err(MatterTableError::UnknownId { id: 2 }));
    assert_eq!(table.definitions.len(), 2);
}

#[test]
fn the_default_table_says_what_its_matters_are() {
    let table = default_matter_definitions();
    let names: Vec<&str> = table.definitions.iter().map(|d| d.name.as_str()).collect();
    assert_eq!(
        names,
        vec![
            "Empty", "Sand", "Water", "Lava", "Rock", "Ice", "Glass", "Wood", "Steam", "Smoke",
            "Gas", "Fire", "Acid", "Erase"
        ]
    );
    for (index, definition) in table.definitions.iter().enumerate() {
        assert_eq!(definition.id as usize, index);
    }
    let empty = &table.definitions[MATTER_EMPTY as usize];
    assert_eq!((empty.state, empty.color, empty.weight), (MatterState::Empty, 0, 0));
    assert_eq!(empty.reactions, [MatterReaction::zero(); 5]);
    let fire = &table.definitions[MATTER_FIRE as usize];
    assert_eq!(fire.state, MatterState::Energy);
    assert_eq!(fire.color, 0xe25822ff);
    assert_eq!(fire.characteristics.bits, MatterCharacteristic::BURNING);
    assert_eq!(fire.reactions[0], MatterReaction::dies(200_000, MATTER_EMPTY));
    assert_eq!(
        fire.reactions[1],
        MatterReaction::becomes_on_touch_below(
            200_000,
            MatterCharacteristic { bits: MatterCharacteristic::BURNS },
            MATTER_FIRE
        )
    );
    let water = &table.definitions[MATTER_WATER as usize];
    assert_eq!(water.state, MatterState::Liquid);
    assert_eq!(water.weight, 1_000);
    assert_eq!(
        water.characteristics.bits,
        MatterCharacteristic::RUSTING
            | MatterCharacteristic::COOLING
            | MatterCharacteristic::FREEZES
            | MatterCharacteristic::VAPORIZES
    );
    assert_eq!(water.reactions[1].probability, 5_000);
    let wood = &table.definitions[MATTER_WOOD as usize];
    assert_eq!((wood.state, wood.weight, wood.dispersion), (MatterState::Solid, 400, 0));
    let lava = &table.definitions[3];
    assert_eq!((lava.state, lava.weight, lava.dispersion), (MatterState::Liquid, 2_500, 2));
}
