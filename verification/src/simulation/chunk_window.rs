//! Which chunks are wanted round a position: the chunk nearest to it, the
//! three by three chunks round that one, the two by two chunks that are
//! simulated, and the chunks that are given up first.
use vstd::prelude::*;
use crate::geometry::IVec2;
use crate::simulation::simulation_utils::{
    canvas_size_ok, in_window, inside_sim_canvas, near_world, within_world, WORLD_LIMIT,
};

verus! {

/// The whole number nearest to `p / s`; of two that are equally near, the
/// one farther from zero.
pub open spec fn round_div(p: int, s: int) -> int {
    if p >= 0 {
        (2 * p + s) / (2 * s)
    } else {
        -((-2 * p + s) / (2 * s))
    }
}

/// The rounded quotient is no more than half a divisor away.
pub proof fn lemma_round_div_is_nearest(p: int, s: int)
    requires
        0 < s,
    ensures
        -s <= 2 * (p - round_div(p, s) * s) <= s,
{
    if p >= 0 {
        let n = 2 * p + s;
        vstd::arithmetic::div_mod::lemma_fundamental_div_mod(n, 2 * s);
        vstd::arithmetic::div_mod::lemma_mod_bound(n, 2 * s);
        let q = n / (2 * s);
        assert(2 * s * q == 2 * (q * s)) by (nonlinear_arith);
    } else {
        let n = -2 * p + s;
        vstd::arithmetic::div_mod::lemma_fundamental_div_mod(n, 2 * s);
        vstd::arithmetic::div_mod::lemma_mod_bound(n, 2 * s);
        let q = n / (2 * s);
        assert(2 * s * q == 2 * (q * s) && (-q) * s == -(q * s)) by (nonlinear_arith);
    }
}

/// The rounded quotient is no larger than what it rounds.
pub proof fn lemma_round_div_bounds(p: int, s: int, limit: int)
    requires
        0 < s,
        -limit <= p <= limit,
    ensures
        -limit <= round_div(p, s) <= limit,
{
    lemma_round_div_is_nearest(p, s);
    let a = round_div(p, s);
    assert(-limit <= a <= limit) by (nonlinear_arith)
        requires
            0 < s,
            -limit <= p <= limit,
            -s <= 2 * (p - a * s) <= s,
    ;
}

/// The chunk nearest to `pos`.
pub open spec fn anchor_of(pos: IVec2, size: u32) -> IVec2 {
    IVec2 {
        x: round_div(pos.x as int, size as int) as i32,
        y: round_div(pos.y as int, size as int) as i32,
    }
}

/// The whole number nearest to `p / size`.
fn rounded_quotient(p: i32, size: u32) -> (q: i32)
    requires
        0 < size,
        -WORLD_LIMIT <= p <= WORLD_LIMIT,
    ensures
        q == round_div(p as int, size as int),
        -WORLD_LIMIT <= q <= WORLD_LIMIT,
{
    proof {
        lemma_round_div_bounds(p as int, size as int, WORLD_LIMIT as int);
    }
    let s = size as i64;
    if p >= 0 {
        ((2 * (p as i64) + s) / (2 * s)) as i32
    } else {
        (-((-2 * (p as i64) + s) / (2 * s))) as i32
    }
}

/// Finds the chunk nearest to `pos`.
pub fn nearest_chunk(pos: IVec2, size: u32) -> (chunk: IVec2)
    requires
        0 < size,
        within_world(pos),
    ensures
        chunk == anchor_of(pos, size),
        within_world(chunk),
{
    IVec2 { x: rounded_quotient(pos.x, size), y: rounded_quotient(pos.y, size) }
}

/// The step from a chunk to the `k`-th of the nine chunks round it: the
/// upper row first, from left to right.
pub open spec fn nine_offset(k: int) -> (int, int) {
    (k % 3 - 1, 1 - k / 3)
}

/// Whether `chunk` is one of the three by three chunks round `anchor`.
pub open spec fn is_hot(anchor: IVec2, chunk: IVec2) -> bool {
    -1 <= chunk.x - anchor.x <= 1 && -1 <= chunk.y - anchor.y <= 1
}

/// The three by three chunks round `anchor`.
pub open spec fn nine_around(anchor: IVec2) -> Seq<IVec2> {
    Seq::new(
        9,
        |k: int|
            IVec2 {
                x: (anchor.x + nine_offset(k).0) as i32,
                y: (anchor.y + nine_offset(k).1) as i32,
            },
    )
}

/// The three by three chunks round `chunk_pos`, the chunks that are kept
/// resident.
pub fn get_nearest_nine_chunks(chunk_pos: IVec2) -> (nine: Vec<IVec2>)
    requires
        within_world(chunk_pos),
    ensures
        nine@ == nine_around(chunk_pos),
        forall|k: int| 0 <= k < 9 ==> is_hot(chunk_pos, #[trigger] nine[k]),
{
    let mut nine: Vec<IVec2> = Vec::new();
    let mut k: i32 = 0;
    while k < 9
        invariant
            0 <= k <= 9,
            within_world(chunk_pos),
            nine.len() == k,
            forall|j: int| 0 <= j < k ==> #[trigger] nine[j] == nine_around(chunk_pos)[j],
        decreases 9 - k,
    {
        nine.push(IVec2 { x: chunk_pos.x + (k % 3 - 1), y: chunk_pos.y + (1 - k / 3) });
        k += 1;
    }
    assert(nine@ =~= nine_around(chunk_pos));
    nine
}

/// The nine chunks round a chunk are the chunks no more than one step away
/// on either axis, each once.
pub proof fn lemma_nine_around(anchor: IVec2)
    requires
        within_world(anchor),
    ensures
        nine_around(anchor).no_duplicates(),
        forall|pos: IVec2| #[trigger] nine_around(anchor).contains(pos) <==> is_hot(anchor, pos),
{
    let nine = nine_around(anchor);
    assert forall|pos: IVec2| #[trigger] nine.contains(pos) <==> is_hot(anchor, pos) by {
        if is_hot(anchor, pos) {
            let k = (1 - (pos.y - anchor.y)) * 3 + (pos.x - anchor.x + 1);
            assert(0 <= k < 9);
            assert(nine[k] == pos);
        }
    }
}

/// The step from the nearest chunk to the lower left chunk of the `option`-th
/// window that holds it.
pub open spec fn window_offset(option: int) -> (int, int) {
    if option == 0 {
        (0, 0)
    } else if option == 1 {
        (0, -1)
    } else if option == 2 {
        (-1, -1)
    } else {
        (-1, 0)
    }
}

/// How far the middle of the window with the lower left chunk `(lx, ly)`
/// lies from `pos`: four times the square of the distance. The middles of
/// the four chunks of a window lie at equal steps round the middle of the
/// window, so of two windows the one with the nearer middle has the nearer
/// chunks.
pub open spec fn window_cost(pos: IVec2, lx: int, ly: int, size: int) -> int {
    let dx = 2 * pos.x - (2 * lx + 1) * size;
    let dy = 2 * pos.y - (2 * ly + 1) * size;
    dx * dx + dy * dy
}

/// The cost of the `option`-th window round `anchor`.
pub open spec fn option_cost(pos: IVec2, anchor: IVec2, size: int, option: int) -> int {
    window_cost(
        pos,
        anchor.x + window_offset(option).0,
        anchor.y + window_offset(option).1,
        size,
    )
}

/// The first of the four windows round `anchor` that no other is nearer
/// than.
pub open spec fn nearest_option(pos: IVec2, anchor: IVec2, size: int) -> int {
    let c0 = option_cost(pos, anchor, size, 0);
    let c1 = option_cost(pos, anchor, size, 1);
    let c2 = option_cost(pos, anchor, size, 2);
    let c3 = option_cost(pos, anchor, size, 3);
    if c0 <= c1 && c0 <= c2 && c0 <= c3 {
        0
    } else if c1 <= c2 && c1 <= c3 {
        1
    } else if c2 <= c3 {
        2
    } else {
        3
    }
}

/// The lower left chunk of the window that is simulated round `pos`.
pub open spec fn window_origin(pos: IVec2, size: u32) -> IVec2 {
    let anchor = anchor_of(pos, size);
    let option = nearest_option(pos, anchor, size as int);
    IVec2 {
        x: (anchor.x + window_offset(option).0) as i32,
        y: (anchor.y + window_offset(option).1) as i32,
    }
}

/// The four chunks of the window with the lower left chunk `origin`: the
/// lower two first, and of each two the left one.
pub open spec fn window_chunks(origin: IVec2) -> Seq<IVec2> {
    seq![
        origin,
        IVec2 { x: (origin.x + 1) as i32, y: origin.y },
        IVec2 { x: origin.x, y: (origin.y + 1) as i32 },
        IVec2 { x: (origin.x + 1) as i32, y: (origin.y + 1) as i32 },
    ]
}

/// The first cell of the window with the lower left chunk `origin`.
pub open spec fn window_start(origin: IVec2, size: u32) -> IVec2 {
    IVec2 {
        x: (origin.x * size - (size / 2) as int) as i32,
        y: (origin.y * size - (size / 2) as int) as i32,
    }
}

/// How far the middle of the window with the lower left chunk `(lx, ly)`
/// lies from `pos`.
fn cost_of_window(pos: IVec2, lx: i64, ly: i64, size: u32) -> (cost: i64)
    requires
        canvas_size_ok(size),
        within_world(pos),
        -3 * size <= 2 * pos.x - (2 * lx + 1) * size <= 3 * size,
        -3 * size <= 2 * pos.y - (2 * ly + 1) * size <= 3 * size,
        -WORLD_LIMIT - 1 <= lx <= WORLD_LIMIT,
        -WORLD_LIMIT - 1 <= ly <= WORLD_LIMIT,
    ensures
        cost == window_cost(pos, lx as int, ly as int, size as int),
{
    let s = size as i64;
    assert(-0x8000_0000_0000 <= (2 * lx + 1) * s <= 0x8000_0000_0000 && -0x8000_0000_0000 <= (2
        * ly + 1) * s <= 0x8000_0000_0000) by (nonlinear_arith)
        requires
            0 < s <= 16_384,
            -0x4000_0001 <= lx <= 0x4000_0000,
            -0x4000_0001 <= ly <= 0x4000_0000,
    ;
    let dx = 2 * (pos.x as i64) - (2 * lx + 1) * s;
    let dy = 2 * (pos.y as i64) - (2 * ly + 1) * s;
    assert(0 <= dx * dx <= 9 * 16_384 * 16_384 && 0 <= dy * dy <= 9 * 16_384 * 16_384)
        by (nonlinear_arith)
        requires
            0 < s <= 16_384,
            -3 * s <= dx <= 3 * s,
            -3 * s <= dy <= 3 * s,
    ;
    dx * dx + dy * dy
}

/// The two by two chunks that are simulated round `canvas_pos`, whose
/// nearest chunk is `chunk_pos`: of the four windows that hold the nearest
/// chunk, the first whose chunks lie nearest.
///
/// | 2 | 3 |
/// | 0 | 1 |
pub fn get_nearest_four_chunks(canvas_pos: IVec2, chunk_pos: IVec2, size: u32) -> (four: Vec<
    IVec2,
>)
    requires
        canvas_size_ok(size),
        within_world(canvas_pos),
        chunk_pos == anchor_of(canvas_pos, size),
    ensures
        four@ == window_chunks(window_origin(canvas_pos, size)),
        within_world(window_origin(canvas_pos, size)) || window_origin(canvas_pos, size).x
            == -WORLD_LIMIT - 1 || window_origin(canvas_pos, size).y == -WORLD_LIMIT - 1,
{
    proof {
        lemma_round_div_is_nearest(canvas_pos.x as int, size as int);
        lemma_round_div_is_nearest(canvas_pos.y as int, size as int);
        lemma_round_div_bounds(canvas_pos.x as int, size as int, WORLD_LIMIT as int);
        lemma_round_div_bounds(canvas_pos.y as int, size as int, WORLD_LIMIT as int);
        let s = size as int;
        let ax = chunk_pos.x as int;
        let ay = chunk_pos.y as int;
        assert((2 * ax + 1) * s == 2 * (ax * s) + s && (2 * (ax - 1) + 1) * s == 2 * (ax * s) - s
            && (2 * ay + 1) * s == 2 * (ay * s) + s && (2 * (ay - 1) + 1) * s == 2 * (ay * s) - s)
            by (nonlinear_arith);
    }
    let ax = chunk_pos.x as i64;
    let ay = chunk_pos.y as i64;
    let c0 = cost_of_window(canvas_pos, ax, ay, size);
    let c1 = cost_of_window(canvas_pos, ax, ay - 1, size);
    let c2 = cost_of_window(canvas_pos, ax - 1, ay - 1, size);
    let c3 = cost_of_window(canvas_pos, ax - 1, ay, size);
    let (lx, ly) = if c0 <= c1 && c0 <= c2 && c0 <= c3 {
        (ax, ay)
    } else if c1 <= c2 && c1 <= c3 {
        (ax, ay - 1)
    } else if c2 <= c3 {
        (ax - 1, ay - 1)
    } else {
        (ax - 1, ay)
    };
    let mut four: Vec<IVec2> = Vec::new();
    four.push(IVec2 { x: lx as i32, y: ly as i32 });
    four.push(IVec2 { x: (lx + 1) as i32, y: ly as i32 });
    four.push(IVec2 { x: lx as i32, y: (ly + 1) as i32 });
    four.push(IVec2 { x: (lx + 1) as i32, y: (ly + 1) as i32 });
    assert(four@ =~= window_chunks(window_origin(canvas_pos, size)));
    four
}

/// The window that is simulated round a position holds the chunk nearest to
/// the position, and all of its chunks are among the nine round that chunk.
pub proof fn lemma_window_is_hot(pos: IVec2, size: u32)
    requires
        canvas_size_ok(size),
        within_world(pos),
    ensures
        forall|k: int|
            0 <= k < 4 ==> is_hot(
                anchor_of(pos, size),
                #[trigger] window_chunks(window_origin(pos, size))[k],
            ),
{
    lemma_round_div_bounds(pos.x as int, size as int, WORLD_LIMIT as int);
    lemma_round_div_bounds(pos.y as int, size as int, WORLD_LIMIT as int);
}

/// The canvas round a position lies within the window that is simulated
/// round it.
pub proof fn lemma_canvas_in_window(pos: IVec2, size: u32, canvas_pos: IVec2)
    requires
        canvas_size_ok(size),
        within_world(pos),
        inside_sim_canvas(canvas_pos, pos, size),
    ensures
        in_window(canvas_pos, window_start(window_origin(pos, size), size), size),
        window_start(window_origin(pos, size), size).x == window_origin(pos, size).x * size - (size
            / 2) as int,
        window_start(window_origin(pos, size), size).y == window_origin(pos, size).y * size - (size
            / 2) as int,
        near_world(window_start(window_origin(pos, size), size)),
{
    let s = size as int;
    let anchor = anchor_of(pos, size);
    lemma_round_div_is_nearest(pos.x as int, s);
    lemma_round_div_is_nearest(pos.y as int, s);
    lemma_round_div_bounds(pos.x as int, s, WORLD_LIMIT as int);
    lemma_round_div_bounds(pos.y as int, s, WORLD_LIMIT as int);
    let ax = anchor.x as int;
    let ay = anchor.y as int;
    let dx = pos.x - ax * s;
    let dy = pos.y - ay * s;
    let option = nearest_option(pos, anchor, s);
    let ox = window_offset(option).0;
    let oy = window_offset(option).1;
    let c0 = option_cost(pos, anchor, s, 0);
    let c1 = option_cost(pos, anchor, s, 1);
    let c2 = option_cost(pos, anchor, s, 2);
    let c3 = option_cost(pos, anchor, s, 3);
    // The cost of a window, told by the side of the nearest chunk that it
    // lies on.
    let px = (2 * dx - s) * (2 * dx - s);
    let mx = (2 * dx + s) * (2 * dx + s);
    let py = (2 * dy - s) * (2 * dy - s);
    let my = (2 * dy + s) * (2 * dy + s);
    assert((2 * ax + 1) * s == 2 * (ax * s) + s && (2 * (ax - 1) + 1) * s == 2 * (ax * s) - s && (2
        * ay + 1) * s == 2 * (ay * s) + s && (2 * (ay - 1) + 1) * s == 2 * (ay * s) - s)
        by (nonlinear_arith);
    assert(c0 == px + py);
    assert(c1 == px + my);
    assert(c2 == mx + my);
    assert(c3 == mx + py);
    assert(mx - px == 8 * (dx * s) && my - py == 8 * (dy * s)) by (nonlinear_arith)
        requires
            px == (2 * dx - s) * (2 * dx - s),
            mx == (2 * dx + s) * (2 * dx + s),
            py == (2 * dy - s) * (2 * dy - s),
            my == (2 * dy + s) * (2 * dy + s),
    ;
    assert((dx > 0 ==> dx * s > 0) && (dx < 0 ==> dx * s < 0) && (dy > 0 ==> dy * s > 0) && (dy < 0
        ==> dy * s < 0)) by (nonlinear_arith)
        requires
            0 < s,
    ;
    assert(ox == 0 ==> dx >= 0);
    assert(ox == -1 ==> dx <= 0);
    assert(oy == 0 ==> dy >= 0);
    assert(oy == -1 ==> dy <= 0);
    let lx = ax + ox;
    let ly = ay + oy;
    assert(lx * s == ax * s + ox * s && ly * s == ay * s + oy * s) by (nonlinear_arith)
        requires
            lx == ax + ox,
            ly == ay + oy,
    ;
    assert(ox * s == if ox == 0 {
        0
    } else {
        -s
    }) by (nonlinear_arith)
        requires
            ox == 0 || ox == -1,
    ;
    assert(oy * s == if oy == 0 {
        0
    } else {
        -s
    }) by (nonlinear_arith)
        requires
            oy == 0 || oy == -1,
    ;
    assert(pos.x - 2 * s <= lx * s <= pos.x + s);
    assert(pos.y - 2 * s <= ly * s <= pos.y + s);
}

/// The square of the distance between two chunks.
pub open spec fn distance_squared(a: IVec2, b: IVec2) -> int {
    (a.x - b.x) * (a.x - b.x) + (a.y - b.y) * (a.y - b.y)
}

/// Finds the square of the distance between two chunks.
pub fn chunk_distance_squared(a: IVec2, b: IVec2) -> (d: u128)
    ensures
        d == distance_squared(a, b),
{
    let dx = a.x as i128 - b.x as i128;
    let dy = a.y as i128 - b.y as i128;
    assert(0 <= dx * dx <= 0x1_0000_0000 * 0x1_0000_0000 && 0 <= dy * dy <= 0x1_0000_0000
        * 0x1_0000_0000) by (nonlinear_arith)
        requires
            -0x1_0000_0000 <= dx <= 0x1_0000_0000,
            -0x1_0000_0000 <= dy <= 0x1_0000_0000,
    ;
    (dx * dx + dy * dy) as u128
}

/// The index of the first chunk of `chunks` that none is farther from
/// `anchor` than; zero for no chunks.
pub open spec fn first_farthest(chunks: Seq<IVec2>, anchor: IVec2) -> int
    decreases chunks.len(),
{
    if chunks.len() <= 1 {
        0
    } else {
        let before = first_farthest(chunks.drop_last(), anchor);
        if distance_squared(chunks.last(), anchor) > distance_squared(chunks[before], anchor) {
            chunks.len() - 1
        } else {
            before
        }
    }
}

/// The `count` chunks of `chunks` that are given up first: the farthest from
/// `anchor` first, and of two that are equally far the one that comes first
/// in `chunks`.
pub open spec fn farthest_first(chunks: Seq<IVec2>, anchor: IVec2, count: nat) -> Seq<IVec2>
    decreases count,
{
    if count == 0 || chunks.len() == 0 {
        Seq::empty()
    } else {
        let at = first_farthest(chunks, anchor);
        seq![chunks[at]] + farthest_first(chunks.remove(at), anchor, (count - 1) as nat)
    }
}

/// The chunks of `chunks` that are kept when `count` are given up, in their
/// order.
pub open spec fn kept_after(chunks: Seq<IVec2>, anchor: IVec2, count: nat) -> Seq<IVec2>
    decreases count,
{
    if count == 0 || chunks.len() == 0 {
        chunks
    } else {
        kept_after(chunks.remove(first_farthest(chunks, anchor)), anchor, (count - 1) as nat)
    }
}

/// The first farthest chunk is a chunk of the sequence, none is farther, and
/// those before it are nearer.
pub proof fn lemma_first_farthest(chunks: Seq<IVec2>, anchor: IVec2)
    requires
        chunks.len() > 0,
    ensures
        0 <= first_farthest(chunks, anchor) < chunks.len(),
        forall|i: int|
            0 <= i < chunks.len() ==> distance_squared(#[trigger] chunks[i], anchor)
                <= distance_squared(chunks[first_farthest(chunks, anchor)], anchor),
        forall|i: int|
            0 <= i < first_farthest(chunks, anchor) ==> distance_squared(
                #[trigger] chunks[i],
                anchor,
            ) < distance_squared(chunks[first_farthest(chunks, anchor)], anchor),
    decreases chunks.len(),
{
    if chunks.len() > 1 {
        let shorter = chunks.drop_last();
        lemma_first_farthest(shorter, anchor);
        let before = first_farthest(shorter, anchor);
        assert forall|i: int| 0 <= i < chunks.len() implies distance_squared(
            #[trigger] chunks[i],
            anchor,
        ) <= distance_squared(chunks[first_farthest(chunks, anchor)], anchor) by {
            if i < shorter.len() {
                assert(shorter[i] == chunks[i]);
            }
        }
        assert forall|i: int| 0 <= i < first_farthest(chunks, anchor) implies distance_squared(
            #[trigger] chunks[i],
            anchor,
        ) < distance_squared(chunks[first_farthest(chunks, anchor)], anchor) by {
            assert(shorter[i] == chunks[i]);
        }
    }
}

/// No chunk that is given up lies nearer to the anchor than any chunk that
/// is kept; and together the two are as many as there were.
pub proof fn lemma_farthest_are_given_up(chunks: Seq<IVec2>, anchor: IVec2, count: nat)
    ensures
        forall|i: int, j: int|
            0 <= i < farthest_first(chunks, anchor, count).len() && 0 <= j < kept_after(
                chunks,
                anchor,
                count,
            ).len() ==> distance_squared(
                #[trigger] farthest_first(chunks, anchor, count)[i],
                anchor,
            ) >= distance_squared(#[trigger] kept_after(chunks, anchor, count)[j], anchor),
        farthest_first(chunks, anchor, count).len() + kept_after(chunks, anchor, count).len()
            == chunks.len(),
        farthest_first(chunks, anchor, count).len() == if count <= chunks.len() {
            count
        } else {
            chunks.len()
        },
        forall|j: int|
            0 <= j < kept_after(chunks, anchor, count).len() ==> chunks.contains(
                #[trigger] kept_after(chunks, anchor, count)[j],
            ),
        forall|i: int|
            0 <= i < farthest_first(chunks, anchor, count).len() ==> chunks.contains(
                #[trigger] farthest_first(chunks, anchor, count)[i],
            ),
    decreases count,
{
    if count > 0 && chunks.len() > 0 {
        lemma_first_farthest(chunks, anchor);
        let at = first_farthest(chunks, anchor);
        let rest = chunks.remove(at);
        let less = (count - 1) as nat;
        lemma_farthest_are_given_up(rest, anchor, less);
        let given_up = farthest_first(chunks, anchor, count);
        let kept = kept_after(chunks, anchor, count);
        assert(kept == kept_after(rest, anchor, less));
        assert forall|j: int| 0 <= j < kept.len() implies chunks.contains(#[trigger] kept[j])
            && distance_squared(kept[j], anchor) <= distance_squared(chunks[at], anchor) by {
            assert(rest.contains(kept[j]));
            let r = choose|r: int| 0 <= r < rest.len() && rest[r] == kept[j];
            if r < at {
                assert(rest[r] == chunks[r]);
            } else {
                assert(rest[r] == chunks[r + 1]);
            }
        }
        assert forall|i: int| 0 <= i < given_up.len() implies chunks.contains(
            #[trigger] given_up[i],
        ) by {
            if i > 0 {
                let tail = farthest_first(rest, anchor, less);
                assert(given_up[i] == tail[i - 1]);
                assert(rest.contains(tail[i - 1]));
                let r = choose|r: int| 0 <= r < rest.len() && rest[r] == tail[i - 1];
                if r < at {
                    assert(rest[r] == chunks[r]);
                } else {
                    assert(rest[r] == chunks[r + 1]);
                }
            }
        }
        assert forall|i: int, j: int|
            0 <= i < given_up.len() && 0 <= j < kept.len() implies distance_squared(
            #[trigger] given_up[i],
            anchor,
        ) >= distance_squared(#[trigger] kept[j], anchor) by {
            if i > 0 {
                let tail = farthest_first(rest, anchor, less);
                assert(given_up[i] == tail[i - 1]);
            }
        }
    }
}

/// Every chunk is given up or kept.
pub proof fn lemma_given_up_or_kept(chunks: Seq<IVec2>, anchor: IVec2, count: nat, chunk: IVec2)
    requires
        chunks.contains(chunk),
    ensures
        farthest_first(chunks, anchor, count).contains(chunk) || kept_after(
            chunks,
            anchor,
            count,
        ).contains(chunk),
    decreases count,
{
    if count > 0 && chunks.len() > 0 {
        lemma_first_farthest(chunks, anchor);
        let at = first_farthest(chunks, anchor);
        let rest = chunks.remove(at);
        let less = (count - 1) as nat;
        let all = farthest_first(chunks, anchor, count);
        let i = choose|i: int| 0 <= i < chunks.len() && chunks[i] == chunk;
        if i == at {
            assert(all[0] == chunk);
        } else {
            let r = if i < at {
                i
            } else {
                i - 1
            };
            assert(rest[r] == chunk);
            lemma_given_up_or_kept(rest, anchor, less, chunk);
            let tail = farthest_first(rest, anchor, less);
            if tail.contains(chunk) {
                let t = choose|t: int| 0 <= t < tail.len() && tail[t] == chunk;
                assert(all[t + 1] == chunk);
            }
        }
    }
}

/// Of chunks that are all different, none is given up twice.
pub proof fn lemma_farthest_no_duplicates(chunks: Seq<IVec2>, anchor: IVec2, count: nat)
    requires
        chunks.no_duplicates(),
    ensures
        farthest_first(chunks, anchor, count).no_duplicates(),
    decreases count,
{
    if count > 0 && chunks.len() > 0 {
        lemma_first_farthest(chunks, anchor);
        let at = first_farthest(chunks, anchor);
        let rest = chunks.remove(at);
        let less = (count - 1) as nat;
        assert forall|i: int, j: int|
            0 <= i < rest.len() && 0 <= j < rest.len() && i != j implies rest[i] != rest[j] by {
            let ci = if i < at {
                i
            } else {
                i + 1
            };
            let cj = if j < at {
                j
            } else {
                j + 1
            };
            assert(rest[i] == chunks[ci] && rest[j] == chunks[cj]);
        }
        lemma_farthest_no_duplicates(rest, anchor, less);
        lemma_farthest_are_given_up(rest, anchor, less);
        let tail = farthest_first(rest, anchor, less);
        let all = farthest_first(chunks, anchor, count);
        assert forall|i: int, j: int|
            0 <= i < all.len() && 0 <= j < all.len() && i != j implies all[i] != all[j] by {
            if i > 0 && j > 0 {
                assert(all[i] == tail[i - 1] && all[j] == tail[j - 1]);
            } else {
                let other = if i == 0 {
                    j
                } else {
                    i
                };
                assert(all[other] == tail[other - 1]);
                assert(rest.contains(tail[other - 1]));
                let r = choose|r: int| 0 <= r < rest.len() && rest[r] == tail[other - 1];
                let c = if r < at {
                    r
                } else {
                    r + 1
                };
                assert(rest[r] == chunks[c]);
            }
        }
    }
}

/// Finds the first chunk that none is farther from `anchor` than.
fn find_first_farthest(chunks: &Vec<IVec2>, anchor: IVec2) -> (at: usize)
    requires
        chunks.len() > 0,
    ensures
        at == first_farthest(chunks@, anchor),
        at < chunks.len(),
{
    let mut at: usize = 0;
    let mut best = chunk_distance_squared(chunks[0], anchor);
    let mut i: usize = 1;
    assert(chunks@.subrange(0, 1).len() == 1);
    while i < chunks.len()
        invariant
            1 <= i <= chunks.len(),
            at < i,
            at == first_farthest(chunks@.subrange(0, i as int), anchor),
            best == distance_squared(chunks[at as int], anchor),
        decreases chunks.len() - i,
    {
        let d = chunk_distance_squared(chunks[i], anchor);
        proof {
            let longer = chunks@.subrange(0, i + 1);
            assert(longer.drop_last() =~= chunks@.subrange(0, i as int));
            assert(longer.last() == chunks[i as int]);
            assert(longer[at as int] == chunks[at as int]);
        }
        if d > best {
            at = i;
            best = d;
        }
        i += 1;
    }
    assert(chunks@.subrange(0, chunks.len() as int) =~= chunks@);
    at
}

/// Picks the `count` chunks of `chunks` that lie farthest from `anchor`, the
/// farthest first, and of two that are equally far the one that comes first.
/// Where there are fewer chunks than `count`, it picks them all.
pub fn add_farthest_chunks_for_unloading(
    chunks: &Vec<IVec2>,
    anchor: IVec2,
    count: usize,
) -> (picked: Vec<IVec2>)
    ensures
        picked@ == farthest_first(chunks@, anchor, count as nat),
{
    let mut remaining: Vec<IVec2> = Vec::new();
    let mut i: usize = 0;
    while i < chunks.len()
        invariant
            i <= chunks.len(),
            remaining@ == chunks@.subrange(0, i as int),
        decreases chunks.len() - i,
    {
        remaining.push(chunks[i]);
        assert(remaining@ =~= chunks@.subrange(0, i + 1));
        i += 1;
    }
    assert(remaining@ =~= chunks@);
    let mut picked: Vec<IVec2> = Vec::new();
    let mut left = count;
    while left > 0 && remaining.len() > 0
        invariant
            farthest_first(chunks@, anchor, count as nat) == picked@ + farthest_first(
                remaining@,
                anchor,
                left as nat,
            ),
        decreases left,
    {
        let at = find_first_farthest(&remaining, anchor);
        let ghost before = remaining@;
        let chunk = remaining.remove(at);
        proof {
            let tail = farthest_first(remaining@, anchor, (left - 1) as nat);
            assert(farthest_first(before, anchor, left as nat) == seq![chunk] + tail);
            assert(picked@.push(chunk) + tail =~= picked@ + (seq![chunk] + tail));
        }
        picked.push(chunk);
        left -= 1;
    }
    assert(farthest_first(remaining@, anchor, left as nat) =~= Seq::<IVec2>::empty());
    assert(picked@ + Seq::<IVec2>::empty() =~= picked@);
    picked
}

} // verus!
