//! How a matter moves, what it does to its neighbours, and where a reaction
//! looks for them.
use vstd::prelude::*;

verus! {

/// Matter state defines how matter moves.
#[derive(Debug, Clone, Copy, PartialEq, Eq, Hash, Structural)]
pub enum MatterState {
    Empty,
    Powder,
    Liquid,
    Solid,
    SolidGravity,
    Gas,
    Energy,
    Object,
}

impl MatterState {
    /// The number that stands for the state in a buffer: zero for `Empty`,
    /// otherwise a single bit.
    pub open spec fn spec_bits(self) -> u32 {
        match self {
            MatterState::Empty => 0,
            MatterState::Powder => 1,
            MatterState::Liquid => 2,
            MatterState::Solid => 4,
            MatterState::SolidGravity => 8,
            MatterState::Gas => 16,
            MatterState::Energy => 32,
            MatterState::Object => 64,
        }
    }

    /// The number that stands for the state in a buffer.
    #[verifier::when_used_as_spec(spec_bits)]
    pub fn bits(self) -> (bits: u32)
        ensures
            bits == self.spec_bits(),
    {
        match self {
            MatterState::Empty => 0,
            MatterState::Powder => 1,
            MatterState::Liquid => 2,
            MatterState::Solid => 4,
            MatterState::SolidGravity => 8,
            MatterState::Gas => 16,
            MatterState::Energy => 32,
            MatterState::Object => 64,
        }
    }

    /// The state that `bits` stands for, if it stands for one.
    pub open spec fn spec_from_bits(bits: u32) -> Option<MatterState> {
        if bits == 0 {
            Some(MatterState::Empty)
        } else if bits == 1 {
            Some(MatterState::Powder)
        } else if bits == 2 {
            Some(MatterState::Liquid)
        } else if bits == 4 {
            Some(MatterState::Solid)
        } else if bits == 8 {
            Some(MatterState::SolidGravity)
        } else if bits == 16 {
            Some(MatterState::Gas)
        } else if bits == 32 {
            Some(MatterState::Energy)
        } else if bits == 64 {
            Some(MatterState::Object)
        } else {
            None
        }
    }

    /// The state that `bits` stands for, if it stands for one.
    #[verifier::when_used_as_spec(spec_from_bits)]
    pub fn from_bits(bits: u32) -> (state: Option<MatterState>)
        ensures
            state == MatterState::spec_from_bits(bits),
            match state {
                Some(s) => s.spec_bits() == bits,
                None => forall|s: MatterState| s.spec_bits() != bits,
            },
    {
        if bits == 0 {
            Some(MatterState::Empty)
        } else if bits == 1 {
            Some(MatterState::Powder)
        } else if bits == 2 {
            Some(MatterState::Liquid)
        } else if bits == 4 {
            Some(MatterState::Solid)
        } else if bits == 8 {
            Some(MatterState::SolidGravity)
        } else if bits == 16 {
            Some(MatterState::Gas)
        } else if bits == 32 {
            Some(MatterState::Energy)
        } else if bits == 64 {
            Some(MatterState::Object)
        } else {
            None
        }
    }

    /// The state that `bits` stands for; `Empty` where it stands for none.
    pub open spec fn spec_from_bits_or_empty(bits: u32) -> MatterState {
        match MatterState::spec_from_bits(bits) {
            Some(state) => state,
            None => MatterState::Empty,
        }
    }

    /// Whether gravity pulls matter of this state down.
    pub open spec fn spec_falls(self) -> bool {
        self == MatterState::Powder || self == MatterState::Liquid || self
            == MatterState::SolidGravity
    }

    /// Tells whether matter in this state falls.
    #[verifier::when_used_as_spec(spec_falls)]
    pub fn falls(self) -> (falls: bool)
        ensures
            falls == self.spec_falls(),
    {
        match self {
            MatterState::Powder | MatterState::Liquid | MatterState::SolidGravity => true,
            _ => false,
        }
    }
}

/// What a matter does to others, and what others can do to it: one bit for
/// each capability.
#[derive(Debug, Clone, Copy, PartialEq, Eq, Hash, Structural)]
pub struct MatterCharacteristic {
    pub bits: u32,
}

impl MatterCharacteristic {
    /// A material that is corrosive
    pub const CORROSIVE: u32 = 1 << 0;
    /// A material that reacts to corrosive
    pub const CORRODES: u32 = 1 << 1;
    /// A material that can melt others
    pub const MELTING: u32 = 1 << 2;
    /// A material that is melted by melting
    pub const MELTS: u32 = 1 << 3;
    /// A material that burns others
    pub const BURNING: u32 = 1 << 4;
    /// A material that is burnt by burning
    pub const BURNS: u32 = 1 << 5;
    /// A material that freezes others
    pub const FREEZING: u32 = 1 << 6;
    /// A material that is frozen by freezing
    pub const FREEZES: u32 = 1 << 7;
    /// A material that explodes others
    pub const EXPLODING: u32 = 1 << 8;
    /// A material that is exploded by exploding
    pub const EXPLODES: u32 = 1 << 9;
    /// A material that electrifies others
    pub const ELECTRIFIES: u32 = 1 << 10;
    /// A material that can become electric by electrifies
    pub const CONDUCTS: u32 = 1 << 11;
    /// A material that cools others
    pub const COOLING: u32 = 1 << 12;
    /// A material that is cooled by cooling
    pub const COOLS: u32 = 1 << 13;
    /// A material that rusts others
    pub const RUSTING: u32 = 1 << 14;
    /// A material that can turn to rust by rusting
    pub const RUSTS: u32 = 1 << 15;
    /// A material that can vaporize for whatever reason
    pub const VAPORIZES: u32 = 1 << 16;
    /// Eraser
    pub const ERASER: u32 = 1 << 17;
    /// Every capability at once.
    pub const ALL: u32 = 0x3ffff;

    /// No capability.
    pub fn empty() -> (none: MatterCharacteristic)
        ensures
            none.bits == 0,
    {
        MatterCharacteristic { bits: 0 }
    }

    /// The set that `bits` stands for, unless a bit of it names no capability.
    pub fn from_bits(bits: u32) -> (set: Option<MatterCharacteristic>)
        ensures
            set.is_some() <==> bits & !MatterCharacteristic::ALL == 0,
            set.is_some() ==> set.unwrap().bits == bits,
    {
        if bits & !MatterCharacteristic::ALL == 0 {
            Some(MatterCharacteristic { bits })
        } else {
            None
        }
    }

    /// Whether the set holds no characteristic.
    pub open spec fn spec_is_empty(self) -> bool {
        self.bits == 0
    }

    /// Tells whether the set holds no characteristic.
    #[verifier::when_used_as_spec(spec_is_empty)]
    pub fn is_empty(self) -> (empty: bool)
        ensures
            empty == self.spec_is_empty(),
    {
        self.bits == 0
    }

    /// Whether the two sets share a capability.
    pub open spec fn spec_intersects(self, other: MatterCharacteristic) -> bool {
        self.bits & other.bits != 0
    }

    /// Tells whether the two sets share a characteristic.
    #[verifier::when_used_as_spec(spec_intersects)]
    pub fn intersects(self, other: MatterCharacteristic) -> (shared: bool)
        ensures
            shared == self.spec_intersects(other),
    {
        self.bits & other.bits != 0
    }

    /// Whether every capability of `other` is in `self`.
    pub open spec fn spec_contains(self, other: MatterCharacteristic) -> bool {
        self.bits & other.bits == other.bits
    }

    /// Tells whether every characteristic of `other` is in this set.
    #[verifier::when_used_as_spec(spec_contains)]
    pub fn contains(self, other: MatterCharacteristic) -> (all: bool)
        ensures
            all == self.spec_contains(other),
    {
        self.bits & other.bits == other.bits
    }

    /// The capabilities of either set.
    pub fn union(self, other: MatterCharacteristic) -> (either: MatterCharacteristic)
        ensures
            either.bits == self.bits | other.bits,
    {
        MatterCharacteristic { bits: self.bits | other.bits }
    }
}

/// The eight neighbours of a cell, one bit each.
#[derive(Debug, Clone, Copy, PartialEq, Eq, Hash, Structural)]
pub struct Direction {
    pub bits: u32,
}

impl Direction {
    pub const UP_LEFT: u32 = 1 << 0;
    pub const UP: u32 = 1 << 1;
    pub const UP_RIGHT: u32 = 1 << 2;
    pub const RIGHT: u32 = 1 << 3;
    pub const DOWN_RIGHT: u32 = 1 << 4;
    pub const DOWN: u32 = 1 << 5;
    pub const DOWN_LEFT: u32 = 1 << 6;
    pub const LEFT: u32 = 1 << 7;
    pub const ALL: u32 = 0b11111111;
    pub const NONE: u32 = 0;

    /// The set that `bits` stands for, unless a bit of it names no neighbour.
    pub fn from_bits(bits: u32) -> (set: Option<Direction>)
        ensures
            set.is_some() <==> bits <= Direction::ALL,
            set.is_some() ==> set.unwrap().bits == bits,
    {
        if bits <= Direction::ALL {
            Some(Direction { bits })
        } else {
            None
        }
    }

    /// The step from a cell to the neighbour that bit `k` names, `y` growing
    /// upwards; bit 0 is the upper left neighbour and the bits go round
    /// clockwise.
    pub open spec fn spec_offset(k: int) -> (int, int) {
        if k == 0 {
            (-1, 1)
        } else if k == 1 {
            (0, 1)
        } else if k == 2 {
            (1, 1)
        } else if k == 3 {
            (1, 0)
        } else if k == 4 {
            (1, -1)
        } else if k == 5 {
            (0, -1)
        } else if k == 6 {
            (-1, -1)
        } else {
            (-1, 0)
        }
    }

    /// The step to the neighbour that bit `k` names.
    pub fn offset(k: u32) -> (step: (i32, i32))
        requires
            k < 8,
        ensures
            step.0 == Direction::spec_offset(k as int).0,
            step.1 == Direction::spec_offset(k as int).1,
    {
        if k == 0 {
            (-1, 1)
        } else if k == 1 {
            (0, 1)
        } else if k == 2 {
            (1, 1)
        } else if k == 3 {
            (1, 0)
        } else if k == 4 {
            (1, -1)
        } else if k == 5 {
            (0, -1)
        } else if k == 6 {
            (-1, -1)
        } else {
            (-1, 0)
        }
    }

    /// Whether the neighbour that bit `k` names is in the set.
    pub open spec fn spec_allows(self, k: u32) -> bool {
        self.bits & (1u32 << k) != 0
    }

    /// Tells whether the neighbour that bit `k` names is in the set.
    #[verifier::when_used_as_spec(spec_allows)]
    pub fn allows(self, k: u32) -> (allowed: bool)
        requires
            k < 8,
        ensures
            allowed == self.spec_allows(k),
    {
        self.bits & (1u32 << k) != 0
    }
}

} // verus!
