//! Turning the cells of an object by three shears.
//!
//! A rotation by an angle is the product of a shear along x by
//! `-tan(angle / 2)`, a shear along y by `sin(angle)`, and the first shear
//! again. Each shear moves a cell by a whole number of cells, so no two cells
//! land on one, which a rounded rotation would not promise.
//! https://datagenetics.com/blog/august32013/index.html
use vstd::prelude::*;
use vstd::arithmetic::div_mod::{lemma_fundamental_div_mod, lemma_mod_bound};
use crate::geometry::IVec2;
use crate::simulation::chunk_window::{lemma_round_div_is_nearest, round_div};

verus! {

/// The number that stands for one in the factors of a shear.
pub const SHEAR_ONE: i32 = 65_536;

/// The largest factor that a shear can have: four.
pub const SHEAR_LIMIT: i32 = 262_144;

/// The largest distance from the middle, along either axis, of a cell that
/// is turned.
pub const TURN_LIMIT: i32 = 16_384;

/// A rotation as its shears: `alpha` stands for `-tan(angle / 2)` and `beta`
/// for `sin(angle)`, both counted in 65536ths. Where `flip` is set, the cell
/// is first mirrored through the middle, which is a half turn; an angle near
/// the half turn is given as the half turn and the small rest.
#[derive(Debug, Clone, Copy, PartialEq, Eq, Structural)]
pub struct ShearRotation {
    pub flip: bool,
    pub alpha: i32,
    pub beta: i32,
}

impl ShearRotation {
    /// Whether the factors are no larger than a shear can have.
    pub open spec fn wf(&self) -> bool {
        -SHEAR_LIMIT <= self.alpha <= SHEAR_LIMIT && -SHEAR_LIMIT <= self.beta <= SHEAR_LIMIT
    }

    /// The rotation by nothing.
    pub fn identity() -> (rotation: ShearRotation)
        ensures
            rotation.wf(),
            rotation == (ShearRotation { flip: false, alpha: 0, beta: 0 }),
    {
        ShearRotation { flip: false, alpha: 0, beta: 0 }
    }

    /// The rotation with the given shears, unless a factor is larger than a
    /// shear can have.
    pub fn new(flip: bool, alpha: i32, beta: i32) -> (rotation: Option<ShearRotation>)
        ensures
            rotation.is_some() <==> (ShearRotation { flip, alpha, beta }).wf(),
            rotation.is_some() ==> rotation.unwrap() == (ShearRotation { flip, alpha, beta }),
    {
        if -SHEAR_LIMIT <= alpha && alpha <= SHEAR_LIMIT && -SHEAR_LIMIT <= beta && beta
            <= SHEAR_LIMIT {
            Some(ShearRotation { flip, alpha, beta })
        } else {
            None
        }
    }
}

/// Where one shear takes the coordinate `along` of a cell whose other
/// coordinate is `across`: to the whole number nearest to `along + across *
/// factor`.
pub open spec fn sheared(along: int, across: int, factor: int) -> int {
    round_div(along * SHEAR_ONE + across * factor, SHEAR_ONE as int)
}

/// Where the three shears of `rotation` take the cell `(x, y)`.
pub open spec fn shear_of(rotation: ShearRotation, x: int, y: int) -> (int, int) {
    let x0 = if rotation.flip {
        -x
    } else {
        x
    };
    let y0 = if rotation.flip {
        -y
    } else {
        y
    };
    let x1 = sheared(x0, y0, rotation.alpha as int);
    let y1 = sheared(y0, x1, rotation.beta as int);
    let x2 = sheared(x1, y1, rotation.alpha as int);
    (x2, y1)
}

/// Rounding keeps the order of numbers that are a whole divisor apart.
pub proof fn lemma_round_div_strict(p: int, q: int, s: int)
    requires
        0 < s,
        p + s <= q,
    ensures
        round_div(p, s) < round_div(q, s),
{
    let up_p = (2 * p + s) / (2 * s);
    let up_q = (2 * q + s) / (2 * s);
    if p >= 0 {
        lemma_fundamental_div_mod(2 * p + s, 2 * s);
        lemma_mod_bound(2 * p + s, 2 * s);
        lemma_fundamental_div_mod(2 * q + s, 2 * s);
        lemma_mod_bound(2 * q + s, 2 * s);
        assert(up_p < up_q) by (nonlinear_arith)
            requires
                0 < s,
                2 * p + s + 2 * s <= 2 * q + s,
                2 * p + s == 2 * s * up_p + (2 * p + s) % (2 * s),
                2 * q + s == 2 * s * up_q + (2 * q + s) % (2 * s),
                0 <= (2 * p + s) % (2 * s) < 2 * s,
                0 <= (2 * q + s) % (2 * s) < 2 * s,
        ;
    } else if q < 0 {
        let down_p = (-2 * p + s) / (2 * s);
        let down_q = (-2 * q + s) / (2 * s);
        lemma_fundamental_div_mod(-2 * p + s, 2 * s);
        lemma_mod_bound(-2 * p + s, 2 * s);
        lemma_fundamental_div_mod(-2 * q + s, 2 * s);
        lemma_mod_bound(-2 * q + s, 2 * s);
        assert(down_q < down_p) by (nonlinear_arith)
            requires
                0 < s,
                -2 * q + s + 2 * s <= -2 * p + s,
                -2 * p + s == 2 * s * down_p + (-2 * p + s) % (2 * s),
                -2 * q + s == 2 * s * down_q + (-2 * q + s) % (2 * s),
                0 <= (-2 * p + s) % (2 * s) < 2 * s,
                0 <= (-2 * q + s) % (2 * s) < 2 * s,
        ;
    } else {
        lemma_round_div_is_nearest(p, s);
        lemma_round_div_is_nearest(q, s);
        let a = round_div(p, s);
        let b = round_div(q, s);
        let down_p = (-2 * p + s) / (2 * s);
        lemma_fundamental_div_mod(-2 * p + s, 2 * s);
        lemma_mod_bound(-2 * p + s, 2 * s);
        lemma_fundamental_div_mod(2 * q + s, 2 * s);
        lemma_mod_bound(2 * q + s, 2 * s);
        assert(-down_p < up_q) by (nonlinear_arith)
            requires
                0 < s,
                p < 0,
                0 <= q,
                p + s <= q,
                -2 * p + s == 2 * s * down_p + (-2 * p + s) % (2 * s),
                2 * q + s == 2 * s * up_q + (2 * q + s) % (2 * s),
                0 <= (-2 * p + s) % (2 * s) < 2 * s,
                0 <= (2 * q + s) % (2 * s) < 2 * s,
        ;
    }
}

/// One shear takes cells with one `across` and different `along` to
/// different places.
pub proof fn lemma_sheared_injective(a: int, b: int, across: int, factor: int)
    requires
        sheared(a, across, factor) == sheared(b, across, factor),
    ensures
        a == b,
{
    let s = SHEAR_ONE as int;
    if a < b {
        assert(a * s + across * factor + s <= b * s + across * factor) by (nonlinear_arith)
            requires
                a < b,
                s > 0,
        ;
        lemma_round_div_strict(a * s + across * factor, b * s + across * factor, s);
    } else if b < a {
        assert(b * s + across * factor + s <= a * s + across * factor) by (nonlinear_arith)
            requires
                b < a,
                s > 0,
        ;
        lemma_round_div_strict(b * s + across * factor, a * s + across * factor, s);
    }
}

/// The three shears take no two cells to one place: the turn can be undone.
pub proof fn lemma_shear_injective(rotation: ShearRotation, x: int, y: int, u: int, v: int)
    requires
        shear_of(rotation, x, y) == shear_of(rotation, u, v),
    ensures
        x == u,
        y == v,
{
    let x0 = if rotation.flip {
        -x
    } else {
        x
    };
    let y0 = if rotation.flip {
        -y
    } else {
        y
    };
    let u0 = if rotation.flip {
        -u
    } else {
        u
    };
    let v0 = if rotation.flip {
        -v
    } else {
        v
    };
    let alpha = rotation.alpha as int;
    let beta = rotation.beta as int;
    let x1 = sheared(x0, y0, alpha);
    let y1 = sheared(y0, x1, beta);
    let u1 = sheared(u0, v0, alpha);
    let v1 = sheared(v0, u1, beta);
    assert(y1 == v1);
    lemma_sheared_injective(x1, u1, y1, alpha);
    lemma_sheared_injective(y0, v0, x1, beta);
    lemma_sheared_injective(x0, u0, y0, alpha);
}

/// A shear moves a coordinate by no more than the size of what it adds, and
/// one.
pub proof fn lemma_sheared_bounds(along: int, across: int, factor: int, reach: int)
    requires
        -reach <= across <= reach,
        -SHEAR_LIMIT <= factor <= SHEAR_LIMIT,
    ensures
        along - 4 * reach - 1 <= sheared(along, across, factor) <= along + 4 * reach + 1,
{
    let s = SHEAR_ONE as int;
    let p = along * s + across * factor;
    lemma_round_div_is_nearest(p, s);
    let r = round_div(p, s);
    assert(-4 * reach * s <= across * factor <= 4 * reach * s) by (nonlinear_arith)
        requires
            -reach <= across <= reach,
            -4 * s <= factor <= 4 * s,
            s > 0,
    ;
    assert(along - 4 * reach - 1 <= r <= along + 4 * reach + 1) by (nonlinear_arith)
        requires
            s == 65_536,
            p == along * s + across * factor,
            -4 * reach * s <= across * factor <= 4 * reach * s,
            -s <= 2 * (p - r * s) <= s,
    ;
}

/// One shear of a coordinate.
fn shear_once(along: i64, across: i64, factor: i32) -> (moved: i64)
    requires
        -0x1000_0000 <= along <= 0x1000_0000,
        -0x1000_0000 <= across <= 0x1000_0000,
        -SHEAR_LIMIT <= factor <= SHEAR_LIMIT,
    ensures
        moved == sheared(along as int, across as int, factor as int),
{
    let s = SHEAR_ONE as i64;
    assert(-0x1000_0000 * 65_536 <= along * 65_536 <= 0x1000_0000 * 65_536 && -0x1000_0000
        * 262_144 <= across * (factor as int) <= 0x1000_0000 * 262_144) by (nonlinear_arith)
        requires
            -0x1000_0000 <= along <= 0x1000_0000,
            -0x1000_0000 <= across <= 0x1000_0000,
            -262_144 <= factor <= 262_144,
    ;
    let p = along * s + across * (factor as i64);
    assert(-0x8000_0000_0000 <= p <= 0x8000_0000_0000);
    if p >= 0 {
        (2 * p + s) / (2 * s)
    } else {
        let n = 0 - p;
        -((2 * n + s) / (2 * s))
    }
}

/// Turns the cell `pos`, given from the middle of its object, by the three
/// shears of `rotation`.
pub fn shear(rotation: ShearRotation, pos: IVec2) -> (turned: IVec2)
    requires
        rotation.wf(),
        -TURN_LIMIT <= pos.x <= TURN_LIMIT,
        -TURN_LIMIT <= pos.y <= TURN_LIMIT,
    ensures
        (turned.x as int, turned.y as int) == shear_of(rotation, pos.x as int, pos.y as int),
        -96 * TURN_LIMIT <= turned.x <= 96 * TURN_LIMIT,
        -96 * TURN_LIMIT <= turned.y <= 96 * TURN_LIMIT,
{
    let x0: i64 = if rotation.flip {
        -(pos.x as i64)
    } else {
        pos.x as i64
    };
    let y0: i64 = if rotation.flip {
        -(pos.y as i64)
    } else {
        pos.y as i64
    };
    let ghost reach = TURN_LIMIT as int;
    // Shear 1
    let x1 = shear_once(x0, y0, rotation.alpha);
    proof {
        lemma_sheared_bounds(x0 as int, y0 as int, rotation.alpha as int, reach);
    }
    // Shear 2
    let y1 = shear_once(y0, x1, rotation.beta);
    proof {
        lemma_sheared_bounds(y0 as int, x1 as int, rotation.beta as int, 5 * reach + 1);
    }
    // Shear 3
    let x2 = shear_once(x1, y1, rotation.alpha);
    proof {
        lemma_sheared_bounds(x1 as int, y1 as int, rotation.alpha as int, 21 * reach + 6);
    }
    IVec2 { x: x2 as i32, y: y1 as i32 }
}

} // verus!
