//! The matter table: one definition for each matter id, with its reactions.
use vstd::prelude::*;
use crate::matter::matter_state::{Direction, MatterCharacteristic, MatterState};

verus! {

/// The number of reactions that each matter has room for.
pub const MAX_TRANSITIONS: u32 = 5;

/// The number of matters that a simulator has room for.
pub const MAX_NUM_MATTERS: u32 = 256;

/// The probability that is certainty: probabilities count in millionths.
pub const PROBABILITY_ONE: u32 = 1_000_000;

/// One reaction rule: a cell of the owning matter that has, in one of the
/// directions of `direction`, a neighbour with one of the capabilities of
/// `reacts`, becomes `becomes` with probability `probability`, a count of
/// millionths. A rule whose `reacts` is empty asks nothing of the neighbour.
#[derive(Debug, Copy, Clone, PartialEq, Eq, Structural)]
pub struct MatterReaction {
    pub reacts: MatterCharacteristic,
    pub direction: Direction,
    pub probability: u32,
    pub becomes: u32,
}

impl MatterReaction {
    /// The rule that never fires.
    pub fn zero() -> (rule: MatterReaction)
        ensures
            rule == (MatterReaction {
                reacts: MatterCharacteristic { bits: 0 },
                direction: Direction { bits: Direction::NONE },
                probability: 0,
                becomes: 0,
            }),
    {
        MatterReaction {
            reacts: MatterCharacteristic::empty(),
            direction: Direction { bits: Direction::NONE },
            probability: 0,
            becomes: 0,
        }
    }

    /// The rule by which a matter turns into `empty_matter` by itself.
    pub fn dies(p: u32, empty_matter: u32) -> (rule: MatterReaction)
        ensures
            rule == (MatterReaction {
                reacts: MatterCharacteristic { bits: 0 },
                direction: Direction { bits: Direction::ALL },
                probability: p,
                becomes: empty_matter,
            }),
    {
        MatterReaction {
            reacts: MatterCharacteristic::empty(),
            direction: Direction { bits: Direction::ALL },
            probability: p,
            becomes: empty_matter,
        }
    }

    /// The rule by which a matter turns into `becomes_matter` when any
    /// neighbour has one of `touch_characteristic`.
    pub fn becomes_on_touch(
        p: u32,
        touch_characteristic: MatterCharacteristic,
        becomes_matter: u32,
    ) -> (rule: MatterReaction)
        ensures
            rule == (MatterReaction {
                reacts: touch_characteristic,
                direction: Direction { bits: Direction::ALL },
                probability: p,
                becomes: becomes_matter,
            }),
    {
        MatterReaction {
            reacts: touch_characteristic,
            direction: Direction { bits: Direction::ALL },
            probability: p,
            becomes: becomes_matter,
        }
    }

    /// As `becomes_on_touch`, for neighbours beside and below only: good for
    /// fire, which climbs.
    pub fn becomes_on_touch_below(
        p: u32,
        touch_characteristic: MatterCharacteristic,
        becomes_matter: u32,
    ) -> (rule: MatterReaction)
        ensures
            rule == (MatterReaction {
                reacts: touch_characteristic,
                direction: Direction {
                    bits: Direction::DOWN | Direction::DOWN_LEFT | Direction::DOWN_RIGHT
                        | Direction::RIGHT | Direction::LEFT,
                },
                probability: p,
                becomes: becomes_matter,
            }),
    {
        MatterReaction {
            reacts: touch_characteristic,
            direction: Direction {
                bits: Direction::DOWN | Direction::DOWN_LEFT | Direction::DOWN_RIGHT
                    | Direction::RIGHT | Direction::LEFT,
            },
            probability: p,
            becomes: becomes_matter,
        }
    }
}

/// One matter: how it looks, how it moves, what it does to others and how it
/// reacts to them. `weight` counts in thousandths; of two matters that
/// compete for one cell the heavier wins.
#[derive(Debug, Clone, PartialEq, Eq)]
pub struct MatterDefinition {
    pub id: u32,
    pub name: String,
    pub color: u32,
    pub weight: u32,
    pub state: MatterState,
    pub dispersion: u32,
    /// What are the characteristics of matter?
    /// - Water: "Cools", "Rusts"
    /// - Acid: "Corrodes".
    /// Think of it like: "What does this do to others?"
    pub characteristics: MatterCharacteristic,
    /// How does matter react to neighbor characteristics?
    /// - Example: "Water becomes ice on probability x if touches one that freezes".
    /// - Example: "Acid might become empty on probability x if touches a material it corroded
    ///   (corroding)".
    /// Probability will affect the speed at which matter changes
    pub reactions: [MatterReaction; 5],
}

/// What a table says of one matter, but for its id: its name, how it looks,
/// how it moves, what it does to others, and its five reactions.
pub struct MatterEntry {
    pub name: Seq<char>,
    pub color: u32,
    pub weight: u32,
    pub state: MatterState,
    pub dispersion: u32,
    pub characteristics: u32,
    pub reactions: Seq<MatterReaction>,
}

/// The reaction to a neighbour, in one of the directions `direction`, with
/// one of the capabilities `reacts`: with probability `probability`, in
/// millionths, the matter becomes `becomes`.
pub open spec fn rule(
    reacts: u32,
    direction: u32,
    probability: u32,
    becomes: u32,
) -> MatterReaction {
    MatterReaction {
        reacts: MatterCharacteristic { bits: reacts },
        direction: Direction { bits: direction },
        probability,
        becomes,
    }
}

/// The rule that never fires.
pub open spec fn no_rule() -> MatterReaction {
    rule(0, Direction::NONE, 0, 0)
}

impl MatterDefinition {
    /// Whether this definition says of its matter what `entry` says.
    pub open spec fn holds(self, entry: MatterEntry) -> bool {
        &&& self.name@ == entry.name
        &&& self.color == entry.color
        &&& self.weight == entry.weight
        &&& self.state == entry.state
        &&& self.dispersion == entry.dispersion
        &&& self.characteristics.bits == entry.characteristics
        &&& entry.reactions.len() == 5
        &&& forall|j: int| 0 <= j < 5 ==> #[trigger] self.reactions[j] == entry.reactions[j]
    }

    /// The definition of nothing: empty, colourless, weightless, inert.
    pub open spec fn spec_zero(self) -> bool {
        &&& self.id == 0
        &&& self.color == 0
        &&& self.weight == 0
        &&& self.state == MatterState::Empty
        &&& self.dispersion == 0
        &&& self.characteristics.bits == 0
        &&& forall|j: int|
            0 <= j < 5 ==> #[trigger] self.reactions[j] == (MatterReaction {
                reacts: MatterCharacteristic { bits: 0 },
                direction: Direction { bits: Direction::NONE },
                probability: 0,
                becomes: 0,
            })
    }

    /// The definition of the empty matter: nothing, with rules that never fire.
    pub fn zero() -> (nothing: MatterDefinition)
        ensures
            nothing.spec_zero(),
            nothing.name@ == "Empty"@,
    {
        MatterDefinition {
            id: 0,
            name: "Empty".to_string(),
            color: 0x0,
            weight: 0,
            state: MatterState::Empty,
            dispersion: 0,
            characteristics: MatterCharacteristic::empty(),
            reactions: [
                MatterReaction::zero(),
                MatterReaction::zero(),
                MatterReaction::zero(),
                MatterReaction::zero(),
                MatterReaction::zero(),
            ],
        }
    }

    /// Whether every reaction of this matter turns it into a matter of a
    /// table of `len` entries.
    pub open spec fn reactions_in_range(self, len: nat) -> bool {
        forall|j: int| 0 <= j < 5 ==> (#[trigger] self.reactions[j]).becomes < len
    }

    /// Looks for a reaction that names a matter beyond a table of `len`
    /// entries.
    pub fn has_dangling_reaction(&self, len: usize) -> (dangling: bool)
        ensures
            dangling == !self.reactions_in_range(len as nat),
    {
        let mut j: usize = 0;
        while j < 5
            invariant
                j <= 5,
                forall|k: int| 0 <= k < j ==> (#[trigger] self.reactions[k]).becomes < len,
            decreases 5 - j,
        {
            if self.reactions[j].becomes as usize >= len {
                return true;
            }
            j += 1;
        }
        false
    }
}

/// Why a matter table, or a change to it, is refused.
#[derive(Debug, Clone, PartialEq, Eq)]
pub enum MatterTableError {
    /// The definition at `index` carries another id.
    IdMismatch { index: usize, id: u32, name: String },
    /// A reaction of matter `id` names a matter beyond the table.
    DanglingReaction { id: u32, name: String },
    /// The empty matter cannot be removed.
    ReservedEmpty,
    /// The table has no entry `id`, nor room for one right behind its last.
    UnknownId { id: u32 },
}

/// The matter table. `empty` is the id of the matter that stands for nothing.
#[derive(Debug, Clone, PartialEq, Eq)]
pub struct MatterDefinitions {
    pub definitions: Vec<MatterDefinition>,
    pub empty: u32,
}

/// Whether entry `i` of the table carries id `i` and reacts into the table
/// only.
pub open spec fn entry_valid(defs: Seq<MatterDefinition>, i: int) -> bool {
    defs[i].id == i && defs[i].reactions_in_range(defs.len())
}

/// Whether the table is dense, indexed from zero, and closed under its
/// reactions.
pub open spec fn table_valid(defs: Seq<MatterDefinition>) -> bool {
    forall|i: int| 0 <= i < defs.len() ==> entry_valid(defs, i)
}

/// Whether `error` is what the first entry of `defs` that is not valid, at
/// index `i`, is refused with.
pub open spec fn reports_entry(
    defs: Seq<MatterDefinition>,
    i: int,
    error: MatterTableError,
) -> bool {
    if defs[i].id != i {
        error matches MatterTableError::IdMismatch { index, id, name } && index == i && id
            == defs[i].id && name@ == defs[i].name@
    } else {
        error matches MatterTableError::DanglingReaction { id, name } && id == defs[i].id && name@
            == defs[i].name@
    }
}

/// Checks the table: every definition sits at the index that is its id, and
/// every reaction leads to a matter of the table. The error names the first
/// definition that breaks this.
pub fn validate_matter_definitions(matter_definitions: &MatterDefinitions) -> (checked: Result<
    (),
    MatterTableError,
>)
    ensures
        checked.is_ok() <==> table_valid(matter_definitions.definitions@),
        checked matches Err(error) ==> exists|i: int|
            0 <= i < matter_definitions.definitions.len() && !entry_valid(
                matter_definitions.definitions@,
                i,
            ) && (forall|k: int| 0 <= k < i ==> entry_valid(matter_definitions.definitions@, k))
                && reports_entry(matter_definitions.definitions@, i, error),
{
    let len = matter_definitions.definitions.len();
    let mut i: usize = 0;
    while i < len
        invariant
            i <= len,
            len == matter_definitions.definitions.len(),
            forall|k: int| 0 <= k < i ==> entry_valid(matter_definitions.definitions@, k),
        decreases len - i,
    {
        let m = &matter_definitions.definitions[i];
        if m.id as usize != i {
            let error = MatterTableError::IdMismatch { index: i, id: m.id, name: m.name.clone() };
            assert(!entry_valid(matter_definitions.definitions@, i as int));
            assert(reports_entry(matter_definitions.definitions@, i as int, error));
            return Err(error);
        }
        if m.has_dangling_reaction(len) {
            let error = MatterTableError::DanglingReaction { id: m.id, name: m.name.clone() };
            assert(!entry_valid(matter_definitions.definitions@, i as int));
            assert(reports_entry(matter_definitions.definitions@, i as int, error));
            return Err(error);
        }
        i += 1;
    }
    Ok(())
}

/// `def` with `id` in place of its own id.
pub open spec fn renumbered(def: MatterDefinition, id: int) -> MatterDefinition {
    MatterDefinition { id: id as u32, ..def }
}

/// The table `table` with `definition` added: appended where its id is the
/// table's length, put in place of the entry with its id where there is one,
/// and left out where its id lies beyond that.
pub open spec fn with_definition(table: Seq<MatterDefinition>, definition: MatterDefinition) -> Seq<
    MatterDefinition,
> {
    if definition.id == table.len() {
        table.push(definition)
    } else if definition.id < table.len() {
        table.update(definition.id as int, definition)
    } else {
        table
    }
}

/// The table `table` without its entry `id`: the entries behind it move
/// down by one, and every entry has its index as its id. The reactions are
/// left as they are.
pub open spec fn without_definition(
    table: Seq<MatterDefinition>,
    id: int,
) -> Seq<MatterDefinition> {
    Seq::new(
        (table.len() - 1) as nat,
        |i: int|
            if i < id {
                renumbered(table[i], i)
            } else {
                renumbered(table[i + 1], i)
            },
    )
}

impl MatterDefinitions {
    /// Appends `matter_definition` where its id is the table's length, and
    /// puts it in place of the entry with its id where there is one. An id
    /// beyond that is refused and leaves the table as it was.
    pub fn add_or_update(&mut self, matter_definition: MatterDefinition) -> (done: Result<
        (),
        MatterTableError,
    >)
        ensures
            done.is_ok() <==> matter_definition.id <= old(self).definitions.len(),
            done matches Err(error) ==> error == (MatterTableError::UnknownId {
                id: matter_definition.id,
            }),
            final(self).empty == old(self).empty,
            final(self).definitions@ == with_definition(old(self).definitions@, matter_definition),
    {
        let id = matter_definition.id as usize;
        if id == self.definitions.len() {
            self.definitions.push(matter_definition);
            Ok(())
        } else if id < self.definitions.len() {
            self.definitions[id] = matter_definition;
            Ok(())
        } else {
            Err(MatterTableError::UnknownId { id: matter_definition.id })
        }
    }

    /// Removes matter `id` and gives every entry its index as its id, so that
    /// the matters behind the removed one move down by one. The reactions are
    /// left as they are: one that named a matter behind `id` now names its
    /// successor, or nothing. The empty matter is never removed.
    pub fn remove(&mut self, id: u32) -> (done: Result<(), MatterTableError>)
        ensures
            done.is_ok() <==> id != old(self).empty && id < old(self).definitions.len(),
            done matches Err(error) ==> error == if id == old(self).empty {
                MatterTableError::ReservedEmpty
            } else {
                MatterTableError::UnknownId { id }
            },
            final(self).empty == old(self).empty,
            final(self).definitions@ == if done.is_ok() {
                without_definition(old(self).definitions@, id as int)
            } else {
                old(self).definitions@
            },
    {
        if id == self.empty {
            return Err(MatterTableError::ReservedEmpty);
        }
        if id as usize >= self.definitions.len() {
            return Err(MatterTableError::UnknownId { id });
        }
        let _removed = self.definitions.remove(id as usize);
        let len = self.definitions.len();
        let ghost before = self.definitions@;
        let mut i: usize = 0;
        while i < len
            invariant
                i <= len,
                len == self.definitions.len(),
                len == before.len(),
                self.empty == old(self).empty,
                forall|k: int| 0 <= k < i ==>
                    #[trigger] self.definitions[k] == renumbered(before[k], k),
                forall|k: int| i <= k < len ==> #[trigger] self.definitions[k] == before[k],
            decreases len - i,
        {
            self.definitions[i].id = i as u32;
            i += 1;
        }
        assert(self.definitions@ =~= without_definition(old(self).definitions@, id as int));
        Ok(())
    }
}

} // verus!
