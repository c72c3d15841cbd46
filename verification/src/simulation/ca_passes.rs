//! The passes that move matter: falling, rising, sliding down and spreading.
//!
//! Every pass works in two steps over the whole canvas. The first step
//! identifies, for every free cell, the cell whose matter moves into it; the
//! second commits the moves, each as a swap of the free cell with that cell.
//! Both read the canvas as it was before the pass, so the order in which the
//! cells are gone through makes no difference, and since a cell that moves is
//! never free, no cell takes part in two swaps.
use vstd::prelude::*;
use crate::geometry::{cell_index, in_grid, lemma_cell_index_in_range, lemma_index_has_cell};
use crate::matter::matter_state::MatterState;
use crate::simulation::ca_simulator::MatterArrays;
use crate::simulation::simulation_utils::{canvas_size_ok, lemma_canvas_cells};

verus! {

/// The canvas round the camera as the passes see it: for every cell, row by
/// row from the bottom up, its matter, and the matter and colour of the
/// object that lies over it; `empty` is the matter that stands for nothing,
/// in both layers.
pub struct CanvasGrid {
    pub size: u32,
    pub empty: u32,
    pub matter: Vec<u32>,
    pub objects_matter: Vec<u32>,
    pub objects_color: Vec<u32>,
}

/// The canvas as a value: what the layers of a `CanvasGrid` hold.
pub struct GridView {
    pub size: u32,
    pub empty: u32,
    pub matter: Seq<u32>,
    pub objects_matter: Seq<u32>,
    pub objects_color: Seq<u32>,
}

impl GridView {
    /// Whether every layer holds a canvas of `size` by `size` cells.
    pub open spec fn wf(&self) -> bool {
        &&& canvas_size_ok(self.size)
        &&& self.matter.len() == self.size * self.size
        &&& self.objects_matter.len() == self.size * self.size
        &&& self.objects_color.len() == self.size * self.size
    }

    /// The matter of cell `(x, y)`.
    pub open spec fn matter_at(&self, x: int, y: int) -> u32 {
        self.matter[cell_index(self.size as int, x, y)]
    }

    /// Whether an object lies over cell `(x, y)`.
    pub open spec fn covered(&self, x: int, y: int) -> bool {
        self.objects_matter[cell_index(self.size as int, x, y)] != self.empty
    }

    /// The matter that cell `(x, y)` shows to its neighbours: that of the
    /// object over it, and its own where there is none.
    pub open spec fn shown_matter(&self, x: int, y: int) -> u32 {
        if self.covered(x, y) {
            self.objects_matter[cell_index(self.size as int, x, y)]
        } else {
            self.matter_at(x, y)
        }
    }

    /// Whether `(x, y)` is a cell of the canvas.
    pub open spec fn has(&self, x: int, y: int) -> bool {
        in_grid(self.size as int, self.size as int, x, y)
    }
}

impl View for CanvasGrid {
    type V = GridView;

    open spec fn view(&self) -> GridView {
        GridView {
            size: self.size,
            empty: self.empty,
            matter: self.matter@,
            objects_matter: self.objects_matter@,
            objects_color: self.objects_color@,
        }
    }
}

impl CanvasGrid {
    /// Whether every layer holds a canvas of `size` by `size` cells.
    pub open spec fn wf(&self) -> bool {
        self@.wf()
    }

    /// The place of `(x, y)` in the layers, if it is a cell of the canvas.
    pub fn index_of(&self, x: i64, y: i64) -> (index: Option<usize>)
        requires
            self.wf(),
        ensures
            index.is_some() <==> self@.has(x as int, y as int),
            index matches Some(i) ==> i == cell_index(self.size as int, x as int, y as int) && i
                < self.size * self.size,
    {
        if 0 <= x && x < self.size as i64 && 0 <= y && y < self.size as i64 {
            proof {
                lemma_cell_index_in_range(self.size as int, self.size as int, x as int, y as int);
                lemma_canvas_cells(self.size);
            }
            Some((y * self.size as i64 + x) as usize)
        } else {
            None
        }
    }
}

/// The ways in which matter moves.
#[derive(Debug, Clone, Copy, PartialEq, Eq, Structural)]
pub enum Movement {
    /// Powder, liquid and loose solid drop one cell.
    Fall,
    /// Gas climbs one cell.
    Rise,
    /// Powder and liquid that cannot drop slip one cell down to a side.
    SlideDown,
    /// Liquid and gas spread one cell to a side.
    Disperse,
}

/// One pass: how matter moves in it, the side that it tries first, and, for
/// spreading, which of the spreading steps of the tick it is.
#[derive(Debug, Clone, Copy, PartialEq, Eq, Structural)]
pub struct MovePass {
    pub kind: Movement,
    /// Whether the right side is tried before the left.
    pub bias: bool,
    pub step: u32,
}

/// Whether cell `(x, y)` is free for matter to move into: a cell of the
/// canvas whose matter is of the empty state, with no object over it.
pub open spec fn free_cell(arrays: MatterArrays, grid: GridView, x: int, y: int) -> bool {
    grid.has(x, y) && arrays.state_of(grid.matter_at(x, y)) == MatterState::Empty && !grid.covered(
        x,
        y,
    )
}

/// Whether `matter` of `state` moves in a pass.
pub open spec fn moves_in(
    arrays: MatterArrays,
    pass: MovePass,
    state: MatterState,
    matter: u32,
) -> bool {
    match pass.kind {
        Movement::Fall => state.spec_falls(),
        Movement::Rise => state == MatterState::Gas,
        Movement::SlideDown => state == MatterState::Powder || state == MatterState::Liquid,
        Movement::Disperse => (state == MatterState::Liquid || state == MatterState::Gas)
            && pass.step < arrays.dispersion_of(matter),
    }
}

/// The step from a cell to the cell that it tries to move to, first (`choice`
/// 0) or second (`choice` 1).
pub open spec fn choice_offset(pass: MovePass, choice: int) -> (int, int) {
    let side: int = if pass.bias == (choice == 0) {
        1
    } else {
        -1
    };
    match pass.kind {
        Movement::Fall => (0, -1),
        Movement::Rise => (0, 1),
        Movement::SlideDown => (side, -1),
        Movement::Disperse => (side, 0),
    }
}

/// Whether the matter of cell `(x, y)` moves in the pass if it finds room: it
/// is of a state that moves, no object lies over it, and, to slide, the cell
/// below it is not free.
pub open spec fn is_mover(
    arrays: MatterArrays,
    grid: GridView,
    pass: MovePass,
    x: int,
    y: int,
) -> bool {
    &&& grid.has(x, y)
    &&& !grid.covered(x, y)
    &&& moves_in(arrays, pass, arrays.state_of(grid.matter_at(x, y)), grid.matter_at(x, y))
    &&& pass.kind == Movement::SlideDown ==> !free_cell(arrays, grid, x, y - 1)
}

/// Which of its choices the matter of cell `(x, y)` moves to: 0 for none, 1
/// for its first choice and 2 for its second. It takes the first that is
/// free.
pub open spec fn want_code(
    arrays: MatterArrays,
    grid: GridView,
    pass: MovePass,
    x: int,
    y: int,
) -> int {
    if !is_mover(arrays, grid, pass, x, y) {
        0
    } else if free_cell(
        arrays,
        grid,
        x + choice_offset(pass, 0).0,
        y + choice_offset(pass, 0).1,
    ) {
        1
    } else if free_cell(
        arrays,
        grid,
        x + choice_offset(pass, 1).0,
        y + choice_offset(pass, 1).1,
    ) {
        2
    } else {
        0
    }
}

/// Which cell moves into the free cell `(x, y)`: 0 for none, 1 for the cell
/// that has it as its first choice and 2 for the cell that has it as its
/// second. Where both want it, the heavier matter wins, and of two that are
/// equally heavy the one that has it as its first choice.
pub open spec fn pick_code(
    arrays: MatterArrays,
    grid: GridView,
    pass: MovePass,
    x: int,
    y: int,
) -> int {
    let ax = x - choice_offset(pass, 0).0;
    let ay = y - choice_offset(pass, 0).1;
    let bx = x - choice_offset(pass, 1).0;
    let by = y - choice_offset(pass, 1).1;
    let first = want_code(arrays, grid, pass, ax, ay) == 1;
    let second = want_code(arrays, grid, pass, bx, by) == 2;
    if !free_cell(arrays, grid, x, y) {
        0
    } else if first && second {
        if arrays.weight_of(grid.matter_at(bx, by)) > arrays.weight_of(grid.matter_at(ax, ay)) {
            2
        } else {
            1
        }
    } else if first {
        1
    } else if second {
        2
    } else {
        0
    }
}

/// The matter of cell `(x, y)` after the pass: the matter of the cell that
/// moves into it, the matter of the cell that it moves to, or its own.
pub open spec fn moved_cell(
    arrays: MatterArrays,
    grid: GridView,
    pass: MovePass,
    x: int,
    y: int,
) -> u32 {
    let pick = pick_code(arrays, grid, pass, x, y);
    let want = want_code(arrays, grid, pass, x, y);
    if pick != 0 {
        grid.matter_at(x - choice_offset(pass, pick - 1).0, y - choice_offset(pass, pick - 1).1)
    } else if want != 0 && pick_code(
        arrays,
        grid,
        pass,
        x + choice_offset(pass, want - 1).0,
        y + choice_offset(pass, want - 1).1,
    ) == want {
        grid.matter_at(x + choice_offset(pass, want - 1).0, y + choice_offset(pass, want - 1).1)
    } else {
        grid.matter_at(x, y)
    }
}

/// The matter of the canvas after the pass.
pub open spec fn moved(arrays: MatterArrays, grid: GridView, pass: MovePass) -> Seq<u32> {
    Seq::new(
        (grid.size * grid.size) as nat,
        |i: int| moved_cell(arrays, grid, pass, i % (grid.size as int), i / (grid.size as int)),
    )
}

/// A pass moves matter by swaps: the cell that moves into a free cell gets
/// the matter of the free cell, and a cell that takes part in no move keeps
/// its matter. So a pass neither makes matter nor loses any.
pub proof fn lemma_moves_are_swaps(
    arrays: MatterArrays,
    grid: GridView,
    pass: MovePass,
    x: int,
    y: int,
)
    requires
        grid.wf(),
    ensures
        ({
            let pick = pick_code(arrays, grid, pass, x, y);
            let sx = x - choice_offset(pass, pick - 1).0;
            let sy = y - choice_offset(pass, pick - 1).1;
            pick != 0 ==> grid.has(x, y) && grid.has(sx, sy) && (sx != x || sy != y) && moved_cell(
                arrays,
                grid,
                pass,
                x,
                y,
            ) == grid.matter_at(sx, sy) && moved_cell(arrays, grid, pass, sx, sy) == grid.matter_at(
                x,
                y,
            ) && pick_code(arrays, grid, pass, sx, sy) == 0 && want_code(arrays, grid, pass, sx, sy)
                == pick
        }),
        ({
            let want = want_code(arrays, grid, pass, x, y);
            let tx = x + choice_offset(pass, want - 1).0;
            let ty = y + choice_offset(pass, want - 1).1;
            pick_code(arrays, grid, pass, x, y) == 0 && !(want != 0 && pick_code(
                arrays,
                grid,
                pass,
                tx,
                ty,
            ) == want) ==> moved_cell(arrays, grid, pass, x, y) == grid.matter_at(x, y)
        }),
{
}

/// Whether cell `(x, y)` is free for matter to move into.
pub fn is_free(arrays: &MatterArrays, grid: &CanvasGrid, x: i64, y: i64) -> (free: bool)
    requires
        arrays.wf(),
        grid.wf(),
    ensures
        free == free_cell(*arrays, grid@, x as int, y as int),
{
    match grid.index_of(x, y) {
        Some(index) => grid.objects_matter[index] == grid.empty && arrays.get_state(
            grid.matter[index],
        ) == MatterState::Empty,
        None => false,
    }
}

/// The step from a cell to its first or second choice.
pub fn offset_of_choice(pass: MovePass, choice: u32) -> (step: (i64, i64))
    requires
        choice < 2,
    ensures
        step.0 == choice_offset(pass, choice as int).0,
        step.1 == choice_offset(pass, choice as int).1,
        -1 <= step.0 <= 1,
        -1 <= step.1 <= 1,
{
    let side: i64 = if pass.bias == (choice == 0) {
        1
    } else {
        -1
    };
    match pass.kind {
        Movement::Fall => (0, -1),
        Movement::Rise => (0, 1),
        Movement::SlideDown => (side, -1),
        Movement::Disperse => (side, 0),
    }
}

/// Which of its choices the matter of cell `(x, y)` moves to.
pub fn find_want(
    arrays: &MatterArrays,
    grid: &CanvasGrid,
    pass: MovePass,
    x: i64,
    y: i64,
) -> (code: u32)
    requires
        arrays.wf(),
        grid.wf(),
        -2 <= x <= grid.size + 2,
        -2 <= y <= grid.size + 2,
    ensures
        code == want_code(*arrays, grid@, pass, x as int, y as int),
        code <= 2,
{
    let index = match grid.index_of(x, y) {
        Some(index) => index,
        None => {
            return 0;
        },
    };
    if grid.objects_matter[index] != grid.empty {
        return 0;
    }
    let matter = grid.matter[index];
    let state = arrays.get_state(matter);
    let moves = match pass.kind {
        Movement::Fall => state.falls(),
        Movement::Rise => state == MatterState::Gas,
        Movement::SlideDown => (state == MatterState::Powder || state == MatterState::Liquid)
            && !is_free(arrays, grid, x, y - 1),
        Movement::Disperse => (state == MatterState::Liquid || state == MatterState::Gas)
            && pass.step < arrays.get_dispersion(matter),
    };
    if !moves {
        return 0;
    }
    let first = offset_of_choice(pass, 0);
    if is_free(arrays, grid, x + first.0, y + first.1) {
        return 1;
    }
    let second = offset_of_choice(pass, 1);
    if is_free(arrays, grid, x + second.0, y + second.1) {
        return 2;
    }
    0
}

/// Which cell moves into the free cell `(x, y)`.
pub fn find_pick(
    arrays: &MatterArrays,
    grid: &CanvasGrid,
    pass: MovePass,
    x: i64,
    y: i64,
) -> (code: u32)
    requires
        arrays.wf(),
        grid.wf(),
        -1 <= x <= grid.size + 1,
        -1 <= y <= grid.size + 1,
    ensures
        code == pick_code(*arrays, grid@, pass, x as int, y as int),
        code <= 2,
{
    if !is_free(arrays, grid, x, y) {
        return 0;
    }
    let a = offset_of_choice(pass, 0);
    let b = offset_of_choice(pass, 1);
    let first = find_want(arrays, grid, pass, x - a.0, y - a.1) == 1;
    let second = find_want(arrays, grid, pass, x - b.0, y - b.1) == 2;
    if first && second {
        let first_index = grid.index_of(x - a.0, y - a.1).unwrap();
        let second_index = grid.index_of(x - b.0, y - b.1).unwrap();
        if arrays.get_weight(grid.matter[second_index]) > arrays.get_weight(
            grid.matter[first_index],
        ) {
            2
        } else {
            1
        }
    } else if first {
        1
    } else if second {
        2
    } else {
        0
    }
}

/// The first step of a pass: for every cell, which cell moves into it, as
/// `pick_code` tells it.
pub fn identify_targets(
    arrays: &MatterArrays,
    grid: &CanvasGrid,
    pass: MovePass,
    picks: &mut Vec<u32>,
)
    requires
        arrays.wf(),
        grid.wf(),
    ensures
        final(picks).len() == grid.size * grid.size,
        forall|x: int, y: int|
            grid@.has(x, y) ==> #[trigger] final(picks)[cell_index(grid.size as int, x, y)]
                == pick_code(*arrays, grid@, pass, x, y),
{
    let size = grid.size as usize;
    let ghost s = grid.size as int;
    proof {
        lemma_canvas_cells(grid.size);
    }
    picks.clear();
    let mut index: usize = 0;
    while index < size * size
        invariant
            index <= size * size,
            size == grid.size,
            s == grid.size,
            size * size <= 0x1000_0000,
            arrays.wf(),
            grid.wf(),
            picks.len() == index,
            forall|i: int|
                0 <= i < index ==> #[trigger] picks[i] == pick_code(
                    *arrays,
                    grid@,
                    pass,
                    i % s,
                    i / s,
                ),
        decreases size * size - index,
    {
        proof {
            lemma_index_has_cell(s, s, index as int);
        }
        let x = (index % size) as i64;
        let y = (index / size) as i64;
        picks.push(find_pick(arrays, grid, pass, x, y));
        index += 1;
    }
    proof {
        assert forall|x: int, y: int| grid@.has(x, y) implies #[trigger] picks[cell_index(s, x, y)]
            == pick_code(*arrays, grid@, pass, x, y) by {
            lemma_cell_index_in_range(s, s, x, y);
            let i = cell_index(s, x, y);
            vstd::arithmetic::div_mod::lemma_fundamental_div_mod_converse(i, s, y, x);
        }
    }
}

/// The second step of a pass: every move that the first step identified is
/// made, as a swap.
pub fn commit_swaps(
    arrays: &MatterArrays,
    grid: &CanvasGrid,
    pass: MovePass,
    picks: &Vec<u32>,
) -> (next: Vec<u32>)
    requires
        arrays.wf(),
        grid.wf(),
        picks.len() == grid.size * grid.size,
        forall|x: int, y: int|
            grid@.has(x, y) ==> #[trigger] picks[cell_index(grid.size as int, x, y)] == pick_code(
                *arrays,
                grid@,
                pass,
                x,
                y,
            ),
    ensures
        next@ == moved(*arrays, grid@, pass),
{
    let size = grid.size as usize;
    let ghost s = grid.size as int;
    let ghost wanted = moved(*arrays, grid@, pass);
    proof {
        lemma_canvas_cells(grid.size);
    }
    let mut next: Vec<u32> = Vec::new();
    let mut index: usize = 0;
    while index < size * size
        invariant
            index <= size * size,
            size == grid.size,
            s == grid.size,
            size * size <= 0x1000_0000,
            arrays.wf(),
            grid.wf(),
            picks.len() == size * size,
            forall|x: int, y: int|
                grid@.has(x, y) ==> #[trigger] picks[cell_index(s, x, y)] == pick_code(
                    *arrays,
                    grid@,
                    pass,
                    x,
                    y,
                ),
            next.len() == index,
            wanted == moved(*arrays, grid@, pass),
            forall|i: int| 0 <= i < index ==> next[i] == #[trigger] wanted[i],
        decreases size * size - index,
    {
        proof {
            lemma_index_has_cell(s, s, index as int);
        }
        let x = (index % size) as i64;
        let y = (index / size) as i64;
        let pick = picks[index];
        let value = if pick != 0 {
            let from = offset_of_choice(pass, pick - 1);
            proof {
                lemma_moves_are_swaps(*arrays, grid@, pass, x as int, y as int);
            }
            let source = grid.index_of(x - from.0, y - from.1).unwrap();
            grid.matter[source]
        } else {
            let want = find_want(arrays, grid, pass, x, y);
            if want != 0 {
                let to = offset_of_choice(pass, want - 1);
                let target = grid.index_of(x + to.0, y + to.1).unwrap();
                if picks[target] == want {
                    grid.matter[target]
                } else {
                    grid.matter[index]
                }
            } else {
                grid.matter[index]
            }
        };
        next.push(value);
        index += 1;
    }
    assert(next@ =~= wanted);
    next
}

/// One pass over the canvas: the matter moves as `moved` tells it, and the
/// objects stay.
pub fn run_move_pass(
    arrays: &MatterArrays,
    grid: &mut CanvasGrid,
    pass: MovePass,
    picks: &mut Vec<u32>,
)
    requires
        arrays.wf(),
        old(grid).wf(),
    ensures
        final(grid).wf(),
        final(grid).matter@ == moved(*arrays, old(grid)@, pass),
        final(grid).size == old(grid).size,
        final(grid).empty == old(grid).empty,
        final(grid).objects_matter == old(grid).objects_matter,
        final(grid).objects_color == old(grid).objects_color,
        final(picks).len() == old(grid).size * old(grid).size,
{
    identify_targets(arrays, grid, pass, picks);
    let next = commit_swaps(arrays, grid, pass, picks);
    grid.matter = next;
}

} // verus!
