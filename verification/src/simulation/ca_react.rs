//! The passes that change matter and show it: reactions, the occupancy
//! bitmap, and colours.
use vstd::prelude::*;
use crate::geometry::{cell_index, lemma_cell_index_in_range, lemma_index_has_cell};
use crate::matter::matter_definition::MatterReaction;
use crate::matter::matter_state::{Direction, MatterState};
use crate::simulation::ca_passes::{CanvasGrid, GridView};
use crate::simulation::ca_simulator::MatterArrays;
use crate::simulation::simulation_utils::lemma_canvas_cells;

verus! {

/// The throw of the dice for rule `rule` of the cell at place `index` in
/// tick `step`: a number from 0 up to, and not including, a million, which
/// is the same whenever the seed, the tick, the cell and the rule are.
pub open spec fn dice(seed: u32, step: u32, index: int, rule: int) -> u32 {
    let mixed = (seed * 1_664_525 + step * 1_013_904_223 + index * 22_695_477 + rule * 69_069
        + 12_345) % 0x1_0000_0000;
    let stirred = (mixed * 1_103_515_245 + 12_345) % 0x1_0000_0000;
    ((stirred / 64) % 1_000_000) as u32
}

/// Throws the dice.
pub fn throw_dice(seed: u32, step: u32, index: usize, rule: usize) -> (thrown: u32)
    requires
        index < 0x1000_0000,
        rule < 5,
    ensures
        thrown == dice(seed, step, index as int, rule as int),
        thrown < 1_000_000,
{
    assert(seed * 1_664_525 <= 0xffff_ffff * 1_664_525 && step * 1_013_904_223 <= 0xffff_ffff
        * 1_013_904_223 && index * 22_695_477 <= 0x1000_0000 * 22_695_477) by (nonlinear_arith)
        requires
            seed <= 0xffff_ffff,
            step <= 0xffff_ffff,
            index <= 0x1000_0000,
    ;
    let mixed = ((seed as u64) * 1_664_525 + (step as u64) * 1_013_904_223 + (index as u64)
        * 22_695_477 + (rule as u64) * 69_069 + 12_345) % 0x1_0000_0000;
    assert(mixed * 1_103_515_245 <= 0xffff_ffff * 1_103_515_245) by (nonlinear_arith)
        requires
            mixed <= 0xffff_ffff,
    ;
    let stirred = (mixed * 1_103_515_245 + 12_345) % 0x1_0000_0000;
    ((stirred / 64) % 1_000_000) as u32
}

/// Whether the neighbour of cell `(x, y)` that bit `k` names makes `rule`
/// apply: the rule looks that way, the neighbour is a cell of the canvas,
/// and it shows a matter with one of the capabilities that the rule asks
/// for. A rule that asks for none is content with any neighbour.
pub open spec fn neighbour_matches(
    arrays: MatterArrays,
    grid: GridView,
    rule: MatterReaction,
    x: int,
    y: int,
    k: int,
) -> bool {
    let nx = x + Direction::spec_offset(k).0;
    let ny = y + Direction::spec_offset(k).1;
    &&& rule.direction.spec_allows(k as u32)
    &&& grid.has(nx, ny)
    &&& rule.reacts.bits == 0 || arrays.characteristics_of(grid.shown_matter(nx, ny))
        & rule.reacts.bits != 0
}

/// Whether one of the first `upto` neighbours of cell `(x, y)` makes `rule`
/// apply.
pub open spec fn rule_applies(
    arrays: MatterArrays,
    grid: GridView,
    rule: MatterReaction,
    x: int,
    y: int,
    upto: int,
) -> bool
    decreases upto,
{
    if upto <= 0 {
        false
    } else {
        rule_applies(arrays, grid, rule, x, y, upto - 1) || neighbour_matches(
            arrays,
            grid,
            rule,
            x,
            y,
            upto - 1,
        )
    }
}

/// Whether rule `rule` of `matter` fires at cell `(x, y)`: a neighbour makes
/// it apply, and the dice fall below its probability.
pub open spec fn rule_fires(
    arrays: MatterArrays,
    grid: GridView,
    seed: u32,
    step: u32,
    matter: u32,
    x: int,
    y: int,
    rule: int,
) -> bool {
    rule_applies(arrays, grid, arrays.rule_of(matter, rule), x, y, 8) && dice(
        seed,
        step,
        cell_index(grid.size as int, x, y),
        rule,
    ) < arrays.rule_of(matter, rule).probability
}

/// The first rule of `matter`, from `from` on, that fires at cell `(x, y)`;
/// 5 where none does.
pub open spec fn fired_rule(
    arrays: MatterArrays,
    grid: GridView,
    seed: u32,
    step: u32,
    matter: u32,
    x: int,
    y: int,
    from: int,
) -> int
    decreases 5 - from,
{
    if from >= 5 {
        5
    } else if rule_fires(arrays, grid, seed, step, matter, x, y, from) {
        from
    } else {
        fired_rule(arrays, grid, seed, step, matter, x, y, from + 1)
    }
}

/// The rule that fires at cell `(x, y)`: the first of the rules of the
/// matter that the cell shows; 5 where none does.
pub open spec fn reaction_at(
    arrays: MatterArrays,
    grid: GridView,
    seed: u32,
    step: u32,
    x: int,
    y: int,
) -> int {
    fired_rule(arrays, grid, seed, step, grid.shown_matter(x, y), x, y, 0)
}

/// A rule that is sure, its probability being one, fires wherever it
/// applies: the dice always fall below a million.
pub proof fn lemma_sure_rule_fires(
    arrays: MatterArrays,
    grid: GridView,
    seed: u32,
    step: u32,
    matter: u32,
    x: int,
    y: int,
    rule: int,
)
    requires
        rule_applies(arrays, grid, arrays.rule_of(matter, rule), x, y, 8),
        arrays.rule_of(matter, rule).probability >= 1_000_000,
    ensures
        rule_fires(arrays, grid, seed, step, matter, x, y, rule),
{
}

/// Where rule `rule` of a matter fires at a cell, the rule that is taken at
/// the cell is that one or an earlier one: a rule is taken.
pub proof fn lemma_a_rule_is_taken(
    arrays: MatterArrays,
    grid: GridView,
    seed: u32,
    step: u32,
    matter: u32,
    x: int,
    y: int,
    from: int,
    rule: int,
)
    requires
        0 <= from <= rule < 5,
        rule_fires(arrays, grid, seed, step, matter, x, y, rule),
    ensures
        from <= fired_rule(arrays, grid, seed, step, matter, x, y, from) <= rule,
    decreases rule - from,
{
    if !rule_fires(arrays, grid, seed, step, matter, x, y, from) {
        lemma_a_rule_is_taken(arrays, grid, seed, step, matter, x, y, from + 1, rule);
    }
}

/// The cell of an object whose matter has a sure rule that applies is gone
/// after the reactions: nothing lies over the cell `(x, y)` any more.
pub proof fn lemma_sure_reaction_takes_the_cell(
    arrays: MatterArrays,
    grid: GridView,
    seed: u32,
    step: u32,
    x: int,
    y: int,
    rule: int,
)
    requires
        grid.wf(),
        grid.has(x, y),
        0 <= rule < 5,
        rule_applies(arrays, grid, arrays.rule_of(grid.shown_matter(x, y), rule), x, y, 8),
        arrays.rule_of(grid.shown_matter(x, y), rule).probability >= 1_000_000,
    ensures
        reaction_at(arrays, grid, seed, step, x, y) < 5,
        reacted(arrays, grid, seed, step).objects_matter[cell_index(grid.size as int, x, y)]
            == grid.empty,
        !reacted(arrays, grid, seed, step).covered(x, y),
{
    let s = grid.size as int;
    let i = cell_index(s, x, y);
    lemma_cell_index_in_range(s, s, x, y);
    vstd::arithmetic::div_mod::lemma_fundamental_div_mod_converse(i, s, y, x);
    lemma_sure_rule_fires(arrays, grid, seed, step, grid.shown_matter(x, y), x, y, rule);
    lemma_a_rule_is_taken(arrays, grid, seed, step, grid.shown_matter(x, y), x, y, 0, rule);
}

/// The canvas after the reactions. A cell whose rule fires becomes what the
/// rule says. Where an object lies over the cell it is the object that
/// reacts: its cell is cleared, and what it becomes is left in the canvas
/// below.
pub open spec fn reacted(arrays: MatterArrays, grid: GridView, seed: u32, step: u32) -> GridView {
    let s = grid.size as int;
    GridView {
        size: grid.size,
        empty: grid.empty,
        matter: Seq::new(
            grid.matter.len(),
            |i: int|
                {
                    let rule = reaction_at(arrays, grid, seed, step, i % s, i / s);
                    if rule < 5 {
                        arrays.rule_of(grid.shown_matter(i % s, i / s), rule).becomes
                    } else {
                        grid.matter[i]
                    }
                },
        ),
        objects_matter: Seq::new(
            grid.objects_matter.len(),
            |i: int|
                if reaction_at(arrays, grid, seed, step, i % s, i / s) < 5 {
                    grid.empty
                } else {
                    grid.objects_matter[i]
                },
        ),
        objects_color: Seq::new(
            grid.objects_color.len(),
            |i: int|
                if reaction_at(arrays, grid, seed, step, i % s, i / s) < 5 && grid.covered(
                    i % s,
                    i / s,
                ) {
                    0
                } else {
                    grid.objects_color[i]
                },
        ),
    }
}

/// The matter that cell `(x, y)` shows to its neighbours.
pub fn shown_matter_at(grid: &CanvasGrid, index: usize) -> (matter: u32)
    requires
        grid.wf(),
        index < grid.size * grid.size,
    ensures
        matter == grid@.shown_matter(
            index as int % (grid.size as int),
            index as int / (grid.size as int),
        ),
{
    proof {
        lemma_index_has_cell(grid.size as int, grid.size as int, index as int);
    }
    if grid.objects_matter[index] != grid.empty {
        grid.objects_matter[index]
    } else {
        grid.matter[index]
    }
}

/// Whether a neighbour of cell `(x, y)` makes `rule` apply.
pub fn does_rule_apply(
    arrays: &MatterArrays,
    grid: &CanvasGrid,
    rule: MatterReaction,
    x: i64,
    y: i64,
) -> (applies: bool)
    requires
        arrays.wf(),
        grid.wf(),
        grid@.has(x as int, y as int),
    ensures
        applies == rule_applies(*arrays, grid@, rule, x as int, y as int, 8),
{
    let mut k: u32 = 0;
    while k < 8
        invariant
            k <= 8,
            arrays.wf(),
            grid.wf(),
            grid@.has(x as int, y as int),
            !rule_applies(*arrays, grid@, rule, x as int, y as int, k as int),
        decreases 8 - k,
    {
        if rule.direction.allows(k) {
            let step = Direction::offset(k);
            match grid.index_of(x + step.0 as i64, y + step.1 as i64) {
                Some(index) => {
                    let shown = shown_matter_at(grid, index);
                    proof {
                        let s = grid.size as int;
                        let nx = x + Direction::spec_offset(k as int).0;
                        let ny = y + Direction::spec_offset(k as int).1;
                        vstd::arithmetic::div_mod::lemma_fundamental_div_mod_converse(
                            index as int,
                            s,
                            ny,
                            nx,
                        );
                    }
                    if rule.reacts.bits == 0 || arrays.get_characteristics(shown)
                        & rule.reacts.bits != 0 {
                        proof {
                            reveal_with_fuel(rule_applies, 9);
                        }
                        assert(neighbour_matches(
                            *arrays,
                            grid@,
                            rule,
                            x as int,
                            y as int,
                            k as int,
                        ));
                        assert(rule_applies(*arrays, grid@, rule, x as int, y as int, k + 1));
                        proof {
                            lemma_rule_applies_grows(
                                *arrays,
                                grid@,
                                rule,
                                x as int,
                                y as int,
                                k + 1,
                                8,
                            );
                        }
                        return true;
                    }
                },
                None => {},
            }
        }
        k += 1;
    }
    false
}

/// A rule that a neighbour makes apply still applies when more neighbours
/// are looked at.
pub proof fn lemma_rule_applies_grows(
    arrays: MatterArrays,
    grid: GridView,
    rule: MatterReaction,
    x: int,
    y: int,
    fewer: int,
    more: int,
)
    requires
        fewer <= more,
        rule_applies(arrays, grid, rule, x, y, fewer),
    ensures
        rule_applies(arrays, grid, rule, x, y, more),
    decreases more - fewer,
{
    if fewer < more {
        lemma_rule_applies_grows(arrays, grid, rule, x, y, fewer, more - 1);
    }
}

/// The rule that fires at the cell at place `index`; 5 where none does.
pub fn find_reaction(
    arrays: &MatterArrays,
    grid: &CanvasGrid,
    seed: u32,
    step: u32,
    index: usize,
) -> (rule: usize)
    requires
        arrays.wf(),
        grid.wf(),
        index < grid.size * grid.size,
    ensures
        rule == reaction_at(
            *arrays,
            grid@,
            seed,
            step,
            index as int % (grid.size as int),
            index as int / (grid.size as int),
        ),
        rule <= 5,
{
    let size = grid.size as usize;
    proof {
        lemma_index_has_cell(size as int, size as int, index as int);
        lemma_canvas_cells(grid.size);
    }
    let x = (index % size) as i64;
    let y = (index / size) as i64;
    let matter = shown_matter_at(grid, index);
    let mut rule: usize = 0;
    while rule < 5
        invariant
            rule <= 5,
            arrays.wf(),
            grid.wf(),
            size == grid.size,
            index < size * size,
            size * size <= 0x1000_0000,
            x == index % size,
            y == index / size,
            grid@.has(x as int, y as int),
            cell_index(size as int, x as int, y as int) == index,
            matter == grid@.shown_matter(x as int, y as int),
            fired_rule(*arrays, grid@, seed, step, matter, x as int, y as int, 0) == fired_rule(
                *arrays,
                grid@,
                seed,
                step,
                matter,
                x as int,
                y as int,
                rule as int,
            ),
        decreases 5 - rule,
    {
        let reaction = arrays.get_rule(matter, rule);
        if throw_dice(seed, step, index, rule) < reaction.probability && does_rule_apply(
            arrays,
            grid,
            reaction,
            x,
            y,
        ) {
            return rule;
        }
        rule += 1;
    }
    5
}

/// The reactions: every cell whose rule fires becomes what the rule says.
pub fn run_react_pass(arrays: &MatterArrays, grid: &mut CanvasGrid, seed: u32, step: u32)
    requires
        arrays.wf(),
        old(grid).wf(),
    ensures
        final(grid).wf(),
        final(grid)@ == reacted(*arrays, old(grid)@, seed, step),
{
    let size = grid.size as usize;
    let ghost before = grid@;
    let ghost wanted = reacted(*arrays, before, seed, step);
    proof {
        lemma_canvas_cells(grid.size);
    }
    let mut matter: Vec<u32> = Vec::new();
    let mut objects_matter: Vec<u32> = Vec::new();
    let mut objects_color: Vec<u32> = Vec::new();
    let mut index: usize = 0;
    while index < size * size
        invariant
            index <= size * size,
            size == grid.size,
            size * size <= 0x1000_0000,
            arrays.wf(),
            grid.wf(),
            grid@ == before,
            wanted == reacted(*arrays, before, seed, step),
            matter.len() == index,
            objects_matter.len() == index,
            objects_color.len() == index,
            forall|i: int| 0 <= i < index ==> matter[i] == #[trigger] wanted.matter[i],
            forall|i: int|
                0 <= i < index ==> objects_matter[i] == #[trigger] wanted.objects_matter[i],
            forall|i: int|
                0 <= i < index ==> objects_color[i] == #[trigger] wanted.objects_color[i],
        decreases size * size - index,
    {
        proof {
            lemma_index_has_cell(size as int, size as int, index as int);
        }
        let rule = find_reaction(arrays, grid, seed, step, index);
        if rule < 5 {
            let covered = grid.objects_matter[index] != grid.empty;
            matter.push(arrays.get_rule(shown_matter_at(grid, index), rule).becomes);
            objects_matter.push(grid.empty);
            objects_color.push(
                if covered {
                    0
                } else {
                    grid.objects_color[index]
                },
            );
        } else {
            matter.push(grid.matter[index]);
            objects_matter.push(grid.objects_matter[index]);
            objects_color.push(grid.objects_color[index]);
        }
        index += 1;
    }
    grid.matter = matter;
    grid.objects_matter = objects_matter;
    grid.objects_color = objects_color;
    proof {
        assert(grid@.matter =~= wanted.matter);
        assert(grid@.objects_matter =~= wanted.objects_matter);
        assert(grid@.objects_color =~= wanted.objects_color);
    }
}

/// The colours of the canvas: every cell in the colour of the object over
/// it, and in that of its matter where there is none.
pub open spec fn colored(arrays: MatterArrays, grid: GridView) -> Seq<u32> {
    Seq::new(
        grid.matter.len(),
        |i: int|
            if grid.objects_matter[i] != grid.empty {
                grid.objects_color[i]
            } else {
                arrays.color_of(grid.matter[i])
            },
    )
}

/// The colour pass.
pub fn run_color_pass(arrays: &MatterArrays, grid: &CanvasGrid) -> (image: Vec<u32>)
    requires
        arrays.wf(),
        grid.wf(),
    ensures
        image@ == colored(*arrays, grid@),
{
    let ghost wanted = colored(*arrays, grid@);
    let mut image: Vec<u32> = Vec::new();
    let mut index: usize = 0;
    while index < grid.matter.len()
        invariant
            index <= grid.matter.len(),
            arrays.wf(),
            grid.wf(),
            image.len() == index,
            wanted == colored(*arrays, grid@),
            forall|i: int| 0 <= i < index ==> image[i] == #[trigger] wanted[i],
        decreases grid.matter.len() - index,
    {
        if grid.objects_matter[index] != grid.empty {
            image.push(grid.objects_color[index]);
        } else {
            image.push(arrays.get_color(grid.matter[index]));
        }
        index += 1;
    }
    assert(image@ =~= wanted);
    image
}

/// The classes of matter that bound the movement of objects.
#[derive(Debug, Clone, Copy, PartialEq, Eq, Structural)]
pub enum MatterClass {
    Solid,
    Powder,
    Liquid,
}

/// Whether matter of `state` is of `class`.
pub open spec fn in_class(state: MatterState, class: MatterClass) -> bool {
    match class {
        MatterClass::Solid => state == MatterState::Solid || state == MatterState::SolidGravity,
        MatterClass::Powder => state == MatterState::Powder,
        MatterClass::Liquid => state == MatterState::Liquid,
    }
}

/// Whether one of the first `upto` cells of block `(bx, by)`, a square of
/// `ratio` by `ratio` cells gone through row by row, holds matter of `class`.
pub open spec fn block_holds(
    arrays: MatterArrays,
    grid: GridView,
    ratio: int,
    bx: int,
    by: int,
    class: MatterClass,
    upto: int,
) -> bool
    decreases upto,
{
    if upto <= 0 {
        false
    } else {
        let n = upto - 1;
        block_holds(arrays, grid, ratio, bx, by, class, n) || in_class(
            arrays.state_of(grid.matter_at(bx * ratio + n % ratio, by * ratio + n / ratio)),
            class,
        )
    }
}

/// The number that stands for a block in the occupancy bitmap: bit 0 is set
/// where the block holds solid matter, bit 1 where it holds powder and bit 2
/// where it holds liquid.
pub open spec fn block_bits(
    arrays: MatterArrays,
    grid: GridView,
    ratio: int,
    bx: int,
    by: int,
) -> u32 {
    let solid: u32 = if block_holds(arrays, grid, ratio, bx, by, MatterClass::Solid,
        ratio * ratio) {
        1
    } else {
        0
    };
    let powder: u32 = if block_holds(
        arrays,
        grid,
        ratio,
        bx,
        by,
        MatterClass::Powder,
        ratio * ratio,
    ) {
        2
    } else {
        0
    };
    let liquid: u32 = if block_holds(
        arrays,
        grid,
        ratio,
        bx,
        by,
        MatterClass::Liquid,
        ratio * ratio,
    ) {
        4
    } else {
        0
    };
    (solid + powder + liquid) as u32
}

/// The occupancy bitmap of the canvas: one number for each block of `ratio`
/// by `ratio` cells, row by row.
pub open spec fn occupancy(arrays: MatterArrays, grid: GridView, ratio: int) -> Seq<u32> {
    let blocks = grid.size as int / ratio;
    Seq::new(
        (blocks * blocks) as nat,
        |b: int| block_bits(arrays, grid, ratio, b % blocks, b / blocks),
    )
}

/// A block holds matter of a class when, and only when, one of its cells
/// does.
pub proof fn lemma_block_holds(
    arrays: MatterArrays,
    grid: GridView,
    ratio: int,
    bx: int,
    by: int,
    class: MatterClass,
    upto: int,
)
    requires
        0 <= upto,
    ensures
        block_holds(arrays, grid, ratio, bx, by, class, upto) <==> exists|n: int|
            0 <= n < upto && in_class(
                arrays.state_of(
                    #[trigger] grid.matter_at(bx * ratio + n % ratio, by * ratio + n / ratio),
                ),
                class,
            ),
    decreases upto,
{
    if upto > 0 {
        lemma_block_holds(arrays, grid, ratio, bx, by, class, upto - 1);
        let n = upto - 1;
        if in_class(
            arrays.state_of(grid.matter_at(bx * ratio + n % ratio, by * ratio + n / ratio)),
            class,
        ) {
        }
    }
}

/// Whether `ratio` can be the edge of a block of the canvas of `size` by
/// `size` cells.
pub open spec fn ratio_ok(size: u32, ratio: u32) -> bool {
    0 < ratio <= size && size % ratio == 0
}

/// The number that stands for block `(bx, by)` in the occupancy bitmap.
pub fn find_block_bits(
    arrays: &MatterArrays,
    grid: &CanvasGrid,
    ratio: u32,
    bx: usize,
    by: usize,
) -> (bits: u32)
    requires
        arrays.wf(),
        grid.wf(),
        ratio_ok(grid.size, ratio),
        bx < grid.size / ratio,
        by < grid.size / ratio,
    ensures
        bits == block_bits(*arrays, grid@, ratio as int, bx as int, by as int),
        bits < 8,
{
    let r = ratio as usize;
    let size = grid.size as usize;
    let ghost gr = ratio as int;
    let ghost gx = bx as int;
    let ghost gy = by as int;
    proof {
        lemma_canvas_cells(grid.size);
        assert(r * r <= size * size) by (nonlinear_arith)
            requires
                0 < r <= size,
        ;
        vstd::arithmetic::div_mod::lemma_fundamental_div_mod(size as int, gr);
        assert(gx * gr + gr <= size && gy * gr + gr <= size) by (nonlinear_arith)
            requires
                0 <= gx < size as int / gr,
                0 <= gy < size as int / gr,
                size as int == gr * (size as int / gr) + (size as int) % gr,
                (size as int) % gr == 0,
                0 < gr,
        ;
    }
    let mut solid = false;
    let mut powder = false;
    let mut liquid = false;
    let mut n: usize = 0;
    while n < r * r
        invariant
            n <= r * r,
            r == ratio,
            gr == r,
            gx == bx,
            gy == by,
            size == grid.size,
            0 < r <= size,
            r * r <= size * size,
            size * size <= 0x1000_0000,
            gx * gr + gr <= size,
            gy * gr + gr <= size,
            arrays.wf(),
            grid.wf(),
            solid == block_holds(*arrays, grid@, gr, gx, gy, MatterClass::Solid, n as int),
            powder == block_holds(*arrays, grid@, gr, gx, gy, MatterClass::Powder, n as int),
            liquid == block_holds(*arrays, grid@, gr, gx, gy, MatterClass::Liquid, n as int),
        decreases r * r - n,
    {
        proof {
            lemma_index_has_cell(gr, gr, n as int);
            lemma_cell_index_in_range(size as int, size as int, gx * gr + n % r, gy * gr + n / r);
        }
        let x = bx * r + n % r;
        let y = by * r + n / r;
        let state = arrays.get_state(grid.matter[y * size + x]);
        match state {
            MatterState::Solid | MatterState::SolidGravity => {
                solid = true;
            },
            MatterState::Powder => {
                powder = true;
            },
            MatterState::Liquid => {
                liquid = true;
            },
            _ => {},
        }
        n += 1;
    }
    let mut bits: u32 = 0;
    if solid {
        bits += 1;
    }
    if powder {
        bits += 2;
    }
    if liquid {
        bits += 4;
    }
    bits
}

/// The pass that renews the occupancy bitmap.
pub fn run_bitmap_pass(arrays: &MatterArrays, grid: &CanvasGrid, ratio: u32) -> (bitmap: Vec<u32>)
    requires
        arrays.wf(),
        grid.wf(),
        ratio_ok(grid.size, ratio),
    ensures
        bitmap@ == occupancy(*arrays, grid@, ratio as int),
        bitmap.len() == (grid.size / ratio) * (grid.size / ratio),
        forall|i: int| 0 <= i < bitmap.len() ==> #[trigger] bitmap[i] < 8,
{
    let blocks = (grid.size / ratio) as usize;
    let ghost wanted = occupancy(*arrays, grid@, ratio as int);
    proof {
        lemma_canvas_cells(grid.size);
        assert(blocks * blocks <= grid.size * grid.size) by (nonlinear_arith)
            requires
                blocks <= grid.size,
        ;
        vstd::arithmetic::div_mod::lemma_fundamental_div_mod(grid.size as int, ratio as int);
        assert(blocks > 0) by (nonlinear_arith)
            requires
                grid.size as int == (ratio as int) * (blocks as int) + (grid.size as int) % (
                ratio as int),
                (grid.size as int) % (ratio as int) == 0,
                0 < ratio <= grid.size,
        ;
    }
    let mut bitmap: Vec<u32> = Vec::new();
    let mut b: usize = 0;
    while b < blocks * blocks
        invariant
            b <= blocks * blocks,
            blocks == grid.size / ratio,
            blocks > 0,
            blocks * blocks <= 0x1000_0000,
            arrays.wf(),
            grid.wf(),
            ratio_ok(grid.size, ratio),
            bitmap.len() == b,
            wanted == occupancy(*arrays, grid@, ratio as int),
            forall|i: int| 0 <= i < b ==> bitmap[i] == #[trigger] wanted[i] && bitmap[i] < 8,
        decreases blocks * blocks - b,
    {
        proof {
            lemma_index_has_cell(blocks as int, blocks as int, b as int);
        }
        bitmap.push(find_block_bits(arrays, grid, ratio, b % blocks, b / blocks));
        b += 1;
    }
    assert(bitmap@ =~= wanted);
    bitmap
}

} // verus!
