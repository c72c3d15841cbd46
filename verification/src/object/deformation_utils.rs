//! Splitting a bitmap into its connected parts.
//!
//! Two cells are neighbours when they differ by at most one column and one
//! row, so a cell has up to eight neighbours. A component is a largest set of
//! alive cells in which every cell can be reached from every other through
//! neighbours.
use vstd::prelude::*;
use crate::geometry::{
    cell_index, in_grid, lemma_cell_index_in_range, lemma_cell_index_injective,
    lemma_cell_index_ordered, IVec2,
};

verus! {

/// Whether `(x, y)` is a cell of the bitmap and is set in it.
pub open spec fn alive_at(bitmap: Seq<bool>, w: int, h: int, x: int, y: int) -> bool {
    in_grid(w, h, x, y) && bitmap[cell_index(w, x, y)]
}

/// Whether two cells are neighbours, or one cell.
pub open spec fn touching(x1: int, y1: int, x2: int, y2: int) -> bool {
    -1 <= x1 - x2 <= 1 && -1 <= y1 - y2 <= 1
}

/// Whether `path` is a walk over alive cells that goes from neighbour to
/// neighbour.
pub open spec fn is_path(bitmap: Seq<bool>, w: int, h: int, path: Seq<(int, int)>) -> bool {
    &&& path.len() > 0
    &&& forall|i: int|
        0 <= i < path.len() ==> alive_at(bitmap, w, h, (#[trigger] path[i]).0, path[i].1)
    &&& forall|i: int|
        0 <= i < path.len() - 1 ==> touching(
            (#[trigger] path[i]).0,
            path[i].1,
            path[i + 1].0,
            path[i + 1].1,
        )
}

/// Whether a walk over alive cells leads from `(x1, y1)` to `(x2, y2)`.
pub open spec fn connected(
    bitmap: Seq<bool>,
    w: int,
    h: int,
    x1: int,
    y1: int,
    x2: int,
    y2: int,
) -> bool {
    exists|path: Seq<(int, int)>|
        #[trigger] is_path(bitmap, w, h, path) && path[0] == (x1, y1) && path.last() == (x2, y2)
}

/// An alive cell is connected to itself.
pub proof fn lemma_connected_reflexive(bitmap: Seq<bool>, w: int, h: int, x: int, y: int)
    requires
        alive_at(bitmap, w, h, x, y),
    ensures
        connected(bitmap, w, h, x, y, x, y),
{
    let path = seq![(x, y)];
    assert(is_path(bitmap, w, h, path));
    assert(path[0] == (x, y) && path.last() == (x, y));
}

/// A walk can be taken one alive neighbour further.
pub proof fn lemma_connected_step(
    bitmap: Seq<bool>,
    w: int,
    h: int,
    x1: int,
    y1: int,
    x2: int,
    y2: int,
    x3: int,
    y3: int,
)
    requires
        connected(bitmap, w, h, x1, y1, x2, y2),
        alive_at(bitmap, w, h, x3, y3),
        touching(x2, y2, x3, y3),
    ensures
        connected(bitmap, w, h, x1, y1, x3, y3),
{
    let path = choose|path: Seq<(int, int)>|
        #[trigger] is_path(bitmap, w, h, path) && path[0] == (x1, y1) && path.last() == (x2, y2);
    let longer = path.push((x3, y3));
    assert forall|i: int| 0 <= i < longer.len() implies alive_at(
        bitmap,
        w,
        h,
        (#[trigger] longer[i]).0,
        longer[i].1,
    ) by {
        if i < path.len() {
            assert(longer[i] == path[i]);
        }
    }
    assert forall|i: int| 0 <= i < longer.len() - 1 implies touching(
        (#[trigger] longer[i]).0,
        longer[i].1,
        longer[i + 1].0,
        longer[i + 1].1,
    ) by {
        if i < path.len() - 1 {
            assert(longer[i] == path[i]);
            assert(longer[i + 1] == path[i + 1]);
        }
    }
    assert(is_path(bitmap, w, h, longer));
    assert(longer[0] == path[0]);
    assert(longer.last() == (x3, y3));
}

/// A walk can be taken backwards.
pub proof fn lemma_connected_symmetric(
    bitmap: Seq<bool>,
    w: int,
    h: int,
    x1: int,
    y1: int,
    x2: int,
    y2: int,
)
    requires
        connected(bitmap, w, h, x1, y1, x2, y2),
    ensures
        connected(bitmap, w, h, x2, y2, x1, y1),
{
    let path = choose|path: Seq<(int, int)>|
        #[trigger] is_path(bitmap, w, h, path) && path[0] == (x1, y1) && path.last() == (x2, y2);
    let n = path.len() as int;
    let back = Seq::new(path.len(), |i: int| path[n - 1 - i]);
    assert forall|i: int| 0 <= i < back.len() - 1 implies touching(
        (#[trigger] back[i]).0,
        back[i].1,
        back[i + 1].0,
        back[i + 1].1,
    ) by {
        let j = n - 2 - i;
        assert(touching(path[j].0, path[j].1, path[j + 1].0, path[j + 1].1));
    }
    assert(is_path(bitmap, w, h, back));
    assert(back[0] == (x2, y2) && back.last() == (x1, y1));
}

/// Two walks that meet make one walk.
pub proof fn lemma_connected_transitive(
    bitmap: Seq<bool>,
    w: int,
    h: int,
    x1: int,
    y1: int,
    x2: int,
    y2: int,
    x3: int,
    y3: int,
)
    requires
        connected(bitmap, w, h, x1, y1, x2, y2),
        connected(bitmap, w, h, x2, y2, x3, y3),
    ensures
        connected(bitmap, w, h, x1, y1, x3, y3),
{
    let first = choose|path: Seq<(int, int)>|
        #[trigger] is_path(bitmap, w, h, path) && path[0] == (x1, y1) && path.last() == (x2, y2);
    let second = choose|path: Seq<(int, int)>|
        #[trigger] is_path(bitmap, w, h, path) && path[0] == (x2, y2) && path.last() == (x3, y3);
    let both = first + second;
    assert forall|i: int| 0 <= i < both.len() implies alive_at(
        bitmap,
        w,
        h,
        (#[trigger] both[i]).0,
        both[i].1,
    ) by {
        if i < first.len() {
            assert(both[i] == first[i]);
        } else {
            assert(both[i] == second[i - first.len()]);
        }
    }
    assert forall|i: int| 0 <= i < both.len() - 1 implies touching(
        (#[trigger] both[i]).0,
        both[i].1,
        both[i + 1].0,
        both[i + 1].1,
    ) by {
        if i < first.len() - 1 {
            assert(both[i] == first[i]);
            assert(both[i + 1] == first[i + 1]);
        } else if i == first.len() - 1 {
            assert(both[i] == first.last());
            assert(both[i + 1] == second[0]);
        } else {
            let j = i - first.len();
            assert(both[i] == second[j]);
            assert(both[i + 1] == second[j + 1]);
        }
    }
    assert(is_path(bitmap, w, h, both));
    assert(both[0] == first[0]);
    assert(both.last() == second.last());
}

/// The label of cell `(x, y)`.
pub open spec fn label_at(labels: Seq<usize>, w: int, x: int, y: int) -> usize {
    labels[cell_index(w, x, y)]
}

/// Whether every alive neighbour of a cell that carries `label` carries it
/// too.
pub open spec fn label_closed(
    bitmap: Seq<bool>,
    labels: Seq<usize>,
    w: int,
    h: int,
    label: usize,
) -> bool {
    forall|x1: int, y1: int, x2: int, y2: int|
        in_grid(w, h, x1, y1) && #[trigger] label_at(labels, w, x1, y1) == label
            && #[trigger] alive_at(bitmap, w, h, x2, y2) && touching(x1, y1, x2, y2)
            ==> label_at(labels, w, x2, y2) == label
}

/// Whether every cell that carries `label` can be reached from `(sx, sy)`.
pub open spec fn label_reaches(
    bitmap: Seq<bool>,
    labels: Seq<usize>,
    w: int,
    h: int,
    label: usize,
    sx: int,
    sy: int,
) -> bool {
    forall|x: int, y: int|
        in_grid(w, h, x, y) && #[trigger] label_at(labels, w, x, y) == label ==> connected(
            bitmap,
            w,
            h,
            sx,
            sy,
            x,
            y,
        )
}

/// The number of cells that carry no label yet.
pub open spec fn count_unlabeled(labels: Seq<usize>) -> nat
    decreases labels.len(),
{
    if labels.len() == 0 {
        0
    } else {
        count_unlabeled(labels.drop_last()) + if labels.last() == 0 {
            1nat
        } else {
            0nat
        }
    }
}

/// Labelling a cell leaves one cell fewer without a label.
pub proof fn lemma_count_unlabeled_update(labels: Seq<usize>, i: int, label: usize)
    requires
        0 <= i < labels.len(),
        labels[i] == 0,
        label != 0,
    ensures
        count_unlabeled(labels.update(i, label)) + 1 == count_unlabeled(labels),
    decreases labels.len(),
{
    let after = labels.update(i, label);
    if i == labels.len() - 1 {
        assert(after.drop_last() =~= labels.drop_last());
    } else {
        assert(after.drop_last() =~= labels.drop_last().update(i, label));
        lemma_count_unlabeled_update(labels.drop_last(), i, label);
    }
}

/// Whether `(x, y)` waits on the worklist.
pub open spec fn on_worklist(worklist: Seq<(usize, usize)>, x: int, y: int) -> bool {
    exists|i: int|
        0 <= i < worklist.len() && (#[trigger] worklist[i]).0 == x && worklist[i].1 == y
}

/// The rank of a neighbour among the nine cells round `(cx, cy)`, row by row.
pub open spec fn neighbour_rank(cx: int, cy: int, x: int, y: int) -> int {
    (y - cy + 1) * 3 + (x - cx + 1)
}

/// What holds while one part is being labelled from its first cell `(sx,
/// sy)`: only cells without a label have got `label`, each of them alive and
/// reachable from the first cell; the cells on the worklist carry `label`;
/// and the alive neighbours of a cell that carries `label` carry it too,
/// unless the cell is still on the worklist, or is the cell in hand `(cx,
/// cy)` and the neighbour has rank `done` or more.
#[verifier::opaque]
pub open spec fn marking(
    bitmap: Seq<bool>,
    before: Seq<usize>,
    labels: Seq<usize>,
    w: int,
    h: int,
    label: usize,
    sx: int,
    sy: int,
    worklist: Seq<(usize, usize)>,
    cx: int,
    cy: int,
    done: int,
) -> bool {
    &&& labels.len() == w * h
    &&& before.len() == w * h
    &&& label > 0
    &&& in_grid(w, h, sx, sy)
    &&& label_at(labels, w, sx, sy) == label
    &&& forall|x: int, y: int|
        in_grid(w, h, x, y) ==> {
            let was = label_at(before, w, x, y);
            let now = #[trigger] label_at(labels, w, x, y);
            if was != 0 {
                now == was && was < label
            } else {
                now == 0 || (now == label && alive_at(bitmap, w, h, x, y))
            }
        }
    &&& forall|earlier: usize|
        0 < earlier < label ==> #[trigger] label_closed(bitmap, labels, w, h, earlier)
    &&& label_reaches(bitmap, labels, w, h, label, sx, sy)
    &&& forall|i: int|
        0 <= i < worklist.len() ==> in_grid(
            w,
            h,
            (#[trigger] worklist[i]).0 as int,
            worklist[i].1 as int,
        ) && label_at(labels, w, worklist[i].0 as int, worklist[i].1 as int) == label
    &&& forall|x1: int, y1: int, x2: int, y2: int|
        in_grid(w, h, x1, y1) && #[trigger] label_at(labels, w, x1, y1) == label
            && #[trigger] alive_at(bitmap, w, h, x2, y2) && touching(x1, y1, x2, y2)
            ==> label_at(labels, w, x2, y2) == label || on_worklist(worklist, x1, y1) || (x1 == cx
            && y1 == cy && neighbour_rank(cx, cy, x2, y2) >= done)
}

/// Labelling starts with the first cell alone, on the worklist.
proof fn lemma_marking_start(
    bitmap: Seq<bool>,
    before: Seq<usize>,
    labels: Seq<usize>,
    w: int,
    h: int,
    label: usize,
    sx: int,
    sy: int,
    worklist: Seq<(usize, usize)>,
)
    requires
        before.len() == w * h,
        alive_at(bitmap, w, h, sx, sy),
        label_at(before, w, sx, sy) == 0,
        label > 0,
        forall|x: int, y: int|
            in_grid(w, h, x, y) ==> #[trigger] label_at(before, w, x, y) < label,
        forall|earlier: usize|
            0 < earlier < label ==> #[trigger] label_closed(bitmap, before, w, h, earlier),
        labels == before.update(cell_index(w, sx, sy), label),
        worklist.len() == 1,
        worklist[0].0 == sx,
        worklist[0].1 == sy,
    ensures
        marking(bitmap, before, labels, w, h, label, sx, sy, worklist, -1, -1, 0),
        count_unlabeled(labels) < count_unlabeled(before),
{
    reveal(marking);
    lemma_cell_index_in_range(w, h, sx, sy);
    lemma_label_one_cell(before, labels, w, h, sx, sy, label);
    lemma_count_unlabeled_update(before, cell_index(w, sx, sy), label);
    lemma_connected_reflexive(bitmap, w, h, sx, sy);
    lemma_closed_survives(bitmap, before, labels, w, h, sx, sy, label);
    assert(on_worklist(worklist, sx, sy));
    assert forall|x1: int, y1: int, x2: int, y2: int|
        in_grid(w, h, x1, y1) && #[trigger] label_at(labels, w, x1, y1) == label
            && #[trigger] alive_at(bitmap, w, h, x2, y2) && touching(
            x1,
            y1,
            x2,
            y2,
        ) implies label_at(labels, w, x2, y2) == label || on_worklist(worklist, x1, y1) || (x1
        == -1 && y1 == -1 && neighbour_rank(-1, -1, x2, y2) >= 0) by {
        assert(x1 == sx && y1 == sy);
    }
}

/// The cell taken off the worklist is a cell of the grid; it is in hand now,
/// with none of its neighbours looked at.
proof fn lemma_marking_pop(
    bitmap: Seq<bool>,
    before: Seq<usize>,
    labels: Seq<usize>,
    w: int,
    h: int,
    label: usize,
    sx: int,
    sy: int,
    waiting: Seq<(usize, usize)>,
)
    requires
        marking(bitmap, before, labels, w, h, label, sx, sy, waiting, -1, -1, 0),
        waiting.len() > 0,
    ensures
        in_grid(w, h, waiting.last().0 as int, waiting.last().1 as int),
        marking(
            bitmap,
            before,
            labels,
            w,
            h,
            label,
            sx,
            sy,
            waiting.drop_last(),
            waiting.last().0 as int,
            waiting.last().1 as int,
            0,
        ),
{
    reveal(marking);
    let worklist = waiting.drop_last();
    let cx = waiting.last().0 as int;
    let cy = waiting.last().1 as int;
    assert(waiting[waiting.len() - 1] == waiting.last());
    assert forall|x1: int, y1: int|
        on_worklist(waiting, x1, y1) && !(x1 == cx && y1 == cy) implies on_worklist(
        worklist,
        x1,
        y1,
    ) by {
        let i = choose|i: int|
            0 <= i < waiting.len() && (#[trigger] waiting[i]).0 == x1 && waiting[i].1 == y1;
        assert(worklist[i] == waiting[i]);
    }
    assert forall|i: int| 0 <= i < worklist.len() implies in_grid(
        w,
        h,
        (#[trigger] worklist[i]).0 as int,
        worklist[i].1 as int,
    ) && label_at(labels, w, worklist[i].0 as int, worklist[i].1 as int) == label by {
        assert(worklist[i] == waiting[i]);
    }
    assert forall|x1: int, y1: int, x2: int, y2: int|
        in_grid(w, h, x1, y1) && #[trigger] label_at(labels, w, x1, y1) == label
            && #[trigger] alive_at(bitmap, w, h, x2, y2) && touching(
            x1,
            y1,
            x2,
            y2,
        ) implies label_at(labels, w, x2, y2) == label || on_worklist(worklist, x1, y1) || (x1
        == cx && y1 == cy && neighbour_rank(cx, cy, x2, y2) >= 0) by {
        if x1 == cx && y1 == cy {
            assert(neighbour_rank(cx, cy, x2, y2) >= 0);
        }
    }
}

/// A neighbour that is no cell of the grid, is not alive, or has a label
/// already, needs nothing done.
proof fn lemma_marking_skip(
    bitmap: Seq<bool>,
    before: Seq<usize>,
    labels: Seq<usize>,
    w: int,
    h: int,
    label: usize,
    sx: int,
    sy: int,
    worklist: Seq<(usize, usize)>,
    cx: int,
    cy: int,
    done: int,
)
    requires
        marking(bitmap, before, labels, w, h, label, sx, sy, worklist, cx, cy, done),
        in_grid(w, h, cx, cy),
        label_at(labels, w, cx, cy) == label,
        0 <= done < 9,
        ({
            let x = cx + done % 3 - 1;
            let y = cy + done / 3 - 1;
            !alive_at(bitmap, w, h, x, y) || label_at(labels, w, x, y) != 0
        }),
    ensures
        marking(bitmap, before, labels, w, h, label, sx, sy, worklist, cx, cy, done + 1),
{
    reveal(marking);
    let nx = cx + done % 3 - 1;
    let ny = cy + done / 3 - 1;
    assert(neighbour_rank(cx, cy, nx, ny) == done);
    assert(touching(nx, ny, cx, cy));
    if alive_at(bitmap, w, h, nx, ny) {
        let other = label_at(labels, w, nx, ny);
        if other != label {
            assert(label_at(before, w, nx, ny) == other);
            assert(0 < other < label);
            assert(label_closed(bitmap, labels, w, h, other));
            assert(alive_at(bitmap, w, h, cx, cy));
            assert(false);
        }
    }
    assert forall|x1: int, y1: int, x2: int, y2: int|
        in_grid(w, h, x1, y1) && #[trigger] label_at(labels, w, x1, y1) == label
            && #[trigger] alive_at(bitmap, w, h, x2, y2) && touching(
            x1,
            y1,
            x2,
            y2,
        ) implies label_at(labels, w, x2, y2) == label || on_worklist(worklist, x1, y1) || (x1
        == cx && y1 == cy && neighbour_rank(cx, cy, x2, y2) >= done + 1) by {
        if x1 == cx && y1 == cy && neighbour_rank(cx, cy, x2, y2) == done {
            assert(x2 == nx && y2 == ny);
        }
    }
}

/// An alive neighbour without a label gets the label and goes on the
/// worklist.
proof fn lemma_marking_mark(
    bitmap: Seq<bool>,
    before: Seq<usize>,
    unmarked: Seq<usize>,
    labels: Seq<usize>,
    w: int,
    h: int,
    label: usize,
    sx: int,
    sy: int,
    waiting: Seq<(usize, usize)>,
    worklist: Seq<(usize, usize)>,
    cx: int,
    cy: int,
    done: int,
    nx: usize,
    ny: usize,
)
    requires
        marking(bitmap, before, unmarked, w, h, label, sx, sy, waiting, cx, cy, done),
        in_grid(w, h, cx, cy),
        label_at(unmarked, w, cx, cy) == label,
        0 <= done < 9,
        nx == cx + done % 3 - 1,
        ny == cy + done / 3 - 1,
        alive_at(bitmap, w, h, nx as int, ny as int),
        label_at(unmarked, w, nx as int, ny as int) == 0,
        labels == unmarked.update(cell_index(w, nx as int, ny as int), label),
        worklist == waiting.push((nx, ny)),
    ensures
        marking(bitmap, before, labels, w, h, label, sx, sy, worklist, cx, cy, done + 1),
        label_at(labels, w, cx, cy) == label,
        count_unlabeled(labels) < count_unlabeled(unmarked),
        forall|x: int, y: int|
            in_grid(w, h, x, y) ==> #[trigger] label_at(labels, w, x, y) == if x == nx && y == ny {
                label
            } else {
                label_at(unmarked, w, x, y)
            },
{
    reveal(marking);
    let hx = nx as int;
    let hy = ny as int;
    lemma_cell_index_in_range(w, h, hx, hy);
    lemma_label_one_cell(unmarked, labels, w, h, hx, hy, label);
    lemma_count_unlabeled_update(unmarked, cell_index(w, hx, hy), label);
    lemma_closed_survives(bitmap, unmarked, labels, w, h, hx, hy, label);
    assert(connected(bitmap, w, h, sx, sy, cx, cy));
    lemma_connected_step(bitmap, w, h, sx, sy, cx, cy, hx, hy);
    assert(worklist[waiting.len() as int] == (nx, ny));
    assert(on_worklist(worklist, hx, hy));
    assert forall|x1: int, y1: int| on_worklist(waiting, x1, y1) implies on_worklist(
        worklist,
        x1,
        y1,
    ) by {
        let i = choose|i: int|
            0 <= i < waiting.len() && (#[trigger] waiting[i]).0 == x1 && waiting[i].1 == y1;
        assert(worklist[i] == waiting[i]);
    }
    assert forall|i: int| 0 <= i < worklist.len() implies in_grid(
        w,
        h,
        (#[trigger] worklist[i]).0 as int,
        worklist[i].1 as int,
    ) && label_at(labels, w, worklist[i].0 as int, worklist[i].1 as int) == label by {
        if i < waiting.len() {
            assert(worklist[i] == waiting[i]);
        }
    }
    assert forall|x: int, y: int|
        in_grid(w, h, x, y) && #[trigger] label_at(labels, w, x, y) == label implies connected(
        bitmap,
        w,
        h,
        sx,
        sy,
        x,
        y,
    ) by {
        if !(x == hx && y == hy) {
            assert(label_at(unmarked, w, x, y) == label);
        }
    }
    assert forall|x: int, y: int| in_grid(w, h, x, y) implies {
        let was = label_at(before, w, x, y);
        let now = #[trigger] label_at(labels, w, x, y);
        if was != 0 {
            now == was && was < label
        } else {
            now == 0 || (now == label && alive_at(bitmap, w, h, x, y))
        }
    } by {
        let mid = label_at(unmarked, w, x, y);
    }
    assert forall|x1: int, y1: int, x2: int, y2: int|
        in_grid(w, h, x1, y1) && #[trigger] label_at(labels, w, x1, y1) == label
            && #[trigger] alive_at(bitmap, w, h, x2, y2) && touching(
            x1,
            y1,
            x2,
            y2,
        ) implies label_at(labels, w, x2, y2) == label || on_worklist(worklist, x1, y1) || (x1
        == cx && y1 == cy && neighbour_rank(cx, cy, x2, y2) >= done + 1) by {
        if x1 == hx && y1 == hy {
        } else {
            assert(label_at(unmarked, w, x1, y1) == label);
            if x1 == cx && y1 == cy && neighbour_rank(cx, cy, x2, y2) == done {
                assert(x2 == hx && y2 == hy);
            } else if label_at(unmarked, w, x2, y2) == label {
                assert(label_at(labels, w, x2, y2) == label);
            }
        }
    }
}

/// With all its neighbours looked at, the cell in hand is done with.
proof fn lemma_marking_put_down(
    bitmap: Seq<bool>,
    before: Seq<usize>,
    labels: Seq<usize>,
    w: int,
    h: int,
    label: usize,
    sx: int,
    sy: int,
    worklist: Seq<(usize, usize)>,
    cx: int,
    cy: int,
)
    requires
        marking(bitmap, before, labels, w, h, label, sx, sy, worklist, cx, cy, 9),
    ensures
        marking(bitmap, before, labels, w, h, label, sx, sy, worklist, -1, -1, 0),
{
    reveal(marking);
    assert forall|x1: int, y1: int, x2: int, y2: int|
        in_grid(w, h, x1, y1) && #[trigger] label_at(labels, w, x1, y1) == label
            && #[trigger] alive_at(bitmap, w, h, x2, y2) && touching(
            x1,
            y1,
            x2,
            y2,
        ) implies label_at(labels, w, x2, y2) == label || on_worklist(worklist, x1, y1) || (x1
        == -1 && y1 == -1 && neighbour_rank(-1, -1, x2, y2) >= 0) by {
        if x1 == cx && y1 == cy {
            assert(neighbour_rank(cx, cy, x2, y2) < 9);
        }
    }
}

/// With the worklist empty, the part is labelled whole.
proof fn lemma_marking_end(
    bitmap: Seq<bool>,
    before: Seq<usize>,
    labels: Seq<usize>,
    w: int,
    h: int,
    label: usize,
    sx: int,
    sy: int,
    worklist: Seq<(usize, usize)>,
)
    requires
        marking(bitmap, before, labels, w, h, label, sx, sy, worklist, -1, -1, 0),
        worklist.len() == 0,
    ensures
        forall|x: int, y: int|
            in_grid(w, h, x, y) ==> {
                let was = label_at(before, w, x, y);
                let now = #[trigger] label_at(labels, w, x, y);
                if was != 0 {
                    now == was
                } else {
                    now == 0 || (now == label && alive_at(bitmap, w, h, x, y))
                }
            },
        label_at(labels, w, sx, sy) == label,
        label_reaches(bitmap, labels, w, h, label, sx, sy),
        forall|earlier: usize|
            0 < earlier <= label ==> #[trigger] label_closed(bitmap, labels, w, h, earlier),
{
    reveal(marking);
    assert forall|x1: int, y1: int| !on_worklist(worklist, x1, y1) by {}
    assert(label_closed(bitmap, labels, w, h, label));
}

/// Whether every cell that carries `label` lies in the box from `(min_x,
/// min_y)` to `(max_x, max_y)`, and every side of the box holds such a cell.
pub open spec fn label_box(
    labels: Seq<usize>,
    w: int,
    h: int,
    label: usize,
    min_x: int,
    min_y: int,
    max_x: int,
    max_y: int,
) -> bool {
    &&& forall|x: int, y: int|
        in_grid(w, h, x, y) && #[trigger] label_at(labels, w, x, y) == label ==> min_x <= x
            <= max_x && min_y <= y <= max_y
    &&& exists|y: int| in_grid(w, h, min_x, y) && #[trigger] label_at(labels, w, min_x, y) == label
    &&& exists|y: int| in_grid(w, h, max_x, y) && #[trigger] label_at(labels, w, max_x, y) == label
    &&& exists|x: int| in_grid(w, h, x, min_y) && #[trigger] label_at(labels, w, x, min_y) == label
    &&& exists|x: int| in_grid(w, h, x, max_y) && #[trigger] label_at(labels, w, x, max_y) == label
}

/// As `label_box`, kept from unfolding by itself.
#[verifier::opaque]
pub open spec fn boxed(
    labels: Seq<usize>,
    w: int,
    h: int,
    label: usize,
    min_x: int,
    min_y: int,
    max_x: int,
    max_y: int,
) -> bool {
    label_box(labels, w, h, label, min_x, min_y, max_x, max_y)
}

/// A box that holds one more labelled cell stretches to that cell.
proof fn lemma_box_stretched(
    unmarked: Seq<usize>,
    labels: Seq<usize>,
    w: int,
    h: int,
    label: usize,
    min_x: int,
    min_y: int,
    max_x: int,
    max_y: int,
    nx: int,
    ny: int,
)
    requires
        boxed(unmarked, w, h, label, min_x, min_y, max_x, max_y),
        in_grid(w, h, nx, ny),
        label != 0,
        forall|x: int, y: int|
            in_grid(w, h, x, y) ==> #[trigger] label_at(labels, w, x, y) == if x == nx && y == ny {
                label
            } else {
                label_at(unmarked, w, x, y)
            },
    ensures
        boxed(
            labels,
            w,
            h,
            label,
            if nx < min_x {
                nx
            } else {
                min_x
            },
            if ny < min_y {
                ny
            } else {
                min_y
            },
            if nx > max_x {
                nx
            } else {
                max_x
            },
            if ny > max_y {
                ny
            } else {
                max_y
            },
        ),
{
    reveal(boxed);
    let at_min_x = choose|y: int|
        in_grid(w, h, min_x, y) && #[trigger] label_at(unmarked, w, min_x, y) == label;
    let at_max_x = choose|y: int|
        in_grid(w, h, max_x, y) && #[trigger] label_at(unmarked, w, max_x, y) == label;
    let at_min_y = choose|x: int|
        in_grid(w, h, x, min_y) && #[trigger] label_at(unmarked, w, x, min_y) == label;
    let at_max_y = choose|x: int|
        in_grid(w, h, x, max_y) && #[trigger] label_at(unmarked, w, x, max_y) == label;
    assert(label_at(labels, w, nx, ny) == label);
    assert(label_at(labels, w, min_x, at_min_x) == label);
    assert(label_at(labels, w, max_x, at_max_x) == label);
    assert(label_at(labels, w, at_min_y, min_y) == label);
    assert(label_at(labels, w, at_max_y, max_y) == label);
    assert forall|x: int, y: int|
        in_grid(w, h, x, y) && #[trigger] label_at(labels, w, x, y) == label implies (if nx
        < min_x {
        nx
    } else {
        min_x
    }) <= x <= (if nx > max_x {
        nx
    } else {
        max_x
    }) && (if ny < min_y {
        ny
    } else {
        min_y
    }) <= y <= (if ny > max_y {
        ny
    } else {
        max_y
    }) by {
        if !(x == nx && y == ny) {
            assert(label_at(unmarked, w, x, y) == label);
        }
    }
}

/// The first cell of a part is a box by itself.
proof fn lemma_box_start(
    before: Seq<usize>,
    labels: Seq<usize>,
    w: int,
    h: int,
    label: usize,
    sx: int,
    sy: int,
)
    requires
        before.len() == w * h,
        in_grid(w, h, sx, sy),
        label > 0,
        forall|x: int, y: int|
            in_grid(w, h, x, y) ==> #[trigger] label_at(before, w, x, y) < label,
        labels == before.update(cell_index(w, sx, sy), label),
    ensures
        boxed(labels, w, h, label, sx, sy, sx, sy),
{
    reveal(boxed);
    lemma_label_one_cell(before, labels, w, h, sx, sy, label);
    assert(label_at(labels, w, sx, sy) == label);
    assert forall|x: int, y: int|
        in_grid(w, h, x, y) && #[trigger] label_at(labels, w, x, y) == label implies sx <= x <= sx
        && sy <= y <= sy by {
        assert(label_at(before, w, x, y) < label);
    }
}

/// Gives `current_label` to the alive cell `(x, y)` and to every cell that
/// can be reached from it, and returns the box that holds them as `(min_x,
/// min_y, max_x, max_y)`. It works through an explicit worklist, last in
/// first out, so its depth does not grow with the shape.
fn depth_first_label_mark(
    bitmap: &[bool],
    labels: &mut Vec<usize>,
    width: usize,
    height: usize,
    x: usize,
    y: usize,
    current_label: usize,
) -> (bounds: (usize, usize, usize, usize))
    requires
        bitmap.len() == width * height,
        old(labels).len() == bitmap.len(),
        alive_at(bitmap@, width as int, height as int, x as int, y as int),
        label_at(old(labels)@, width as int, x as int, y as int) == 0,
        current_label > 0,
        forall|cx: int, cy: int|
            in_grid(width as int, height as int, cx, cy) ==> #[trigger] label_at(
                old(labels)@,
                width as int,
                cx,
                cy,
            ) < current_label,
        forall|label: usize|
            0 < label < current_label ==> #[trigger] label_closed(
                bitmap@,
                old(labels)@,
                width as int,
                height as int,
                label,
            ),
    ensures
        final(labels).len() == old(labels).len(),
        forall|cx: int, cy: int|
            in_grid(width as int, height as int, cx, cy) ==> {
                let before = label_at(old(labels)@, width as int, cx, cy);
                let after = #[trigger] label_at(final(labels)@, width as int, cx, cy);
                if before != 0 {
                    after == before
                } else {
                    after == 0 || (after == current_label && alive_at(
                        bitmap@,
                        width as int,
                        height as int,
                        cx,
                        cy,
                    ))
                }
            },
        label_at(final(labels)@, width as int, x as int, y as int) == current_label,
        label_reaches(
            bitmap@,
            final(labels)@,
            width as int,
            height as int,
            current_label,
            x as int,
            y as int,
        ),
        forall|label: usize|
            0 < label <= current_label ==> #[trigger] label_closed(
                bitmap@,
                final(labels)@,
                width as int,
                height as int,
                label,
            ),
        label_box(
            final(labels)@,
            width as int,
            height as int,
            current_label,
            bounds.0 as int,
            bounds.1 as int,
            bounds.2 as int,
            bounds.3 as int,
        ),
        bounds.0 <= x <= bounds.2 < width,
        bounds.1 <= y <= bounds.3 < height,
{
    let ghost w = width as int;
    let ghost h = height as int;
    let ghost sx = x as int;
    let ghost sy = y as int;
    let ghost before = labels@;
    proof {
        lemma_cell_index_in_range(w, h, sx, sy);
    }
    labels[y * width + x] = current_label;
    let mut worklist: Vec<(usize, usize)> = Vec::new();
    worklist.push((x, y));
    let mut min_x = x;
    let mut min_y = y;
    let mut max_x = x;
    let mut max_y = y;
    proof {
        lemma_marking_start(bitmap@, before, labels@, w, h, current_label, sx, sy, worklist@);
        lemma_box_start(before, labels@, w, h, current_label, sx, sy);
    }
    while worklist.len() > 0
        invariant
            bitmap.len() == width * height,
            labels.len() == bitmap.len(),
            w == width as int,
            h == height as int,
            sx == x as int,
            sy == y as int,
            marking(bitmap@, before, labels@, w, h, current_label, sx, sy, worklist@, -1, -1, 0),
            boxed(
                labels@,
                w,
                h,
                current_label,
                min_x as int,
                min_y as int,
                max_x as int,
                max_y as int,
            ),
            min_x <= x <= max_x < width,
            min_y <= y <= max_y < height,
        decreases count_unlabeled(labels@), worklist.len(),
    {
        let ghost waiting = worklist@;
        let (cx, cy) = worklist.pop().unwrap();
        let ghost gx = cx as int;
        let ghost gy = cy as int;
        proof {
            lemma_marking_pop(bitmap@, before, labels@, w, h, current_label, sx, sy, waiting);
            assert(worklist@ == waiting.drop_last());
            reveal(marking);
            assert(label_at(labels@, w, gx, gy) == current_label);
        }
        let ghost entered = labels@;
        let ghost entered_worklist = worklist@;
        let mut k: usize = 0;
        while k < 9
            invariant
                k <= 9,
                bitmap.len() == width * height,
                labels.len() == bitmap.len(),
                w == width as int,
                h == height as int,
                gx == cx as int,
                gy == cy as int,
                in_grid(w, h, gx, gy),
                label_at(labels@, w, gx, gy) == current_label,
                current_label > 0,
                marking(
                    bitmap@,
                    before,
                    labels@,
                    w,
                    h,
                    current_label,
                    sx,
                    sy,
                    worklist@,
                    gx,
                    gy,
                    k as int,
                ),
                boxed(
                    labels@,
                    w,
                    h,
                    current_label,
                    min_x as int,
                    min_y as int,
                    max_x as int,
                    max_y as int,
                ),
                min_x <= x <= max_x < width,
                min_y <= y <= max_y < height,
                count_unlabeled(labels@) < count_unlabeled(entered) || (labels@ == entered
                    && worklist@ == entered_worklist),
            decreases 9 - k,
        {
            let column = shifted(cx, k % 3, width);
            let row = shifted(cy, k / 3, height);
            let mut marked = false;
            if column.is_some() && row.is_some() {
                let nx = column.unwrap();
                let ny = row.unwrap();
                proof {
                    lemma_cell_index_in_range(w, h, nx as int, ny as int);
                }
                let index = ny * width + nx;
                if bitmap[index] && labels[index] == 0 {
                    let ghost unmarked = labels@;
                    let ghost longer = worklist@;
                    labels[index] = current_label;
                    worklist.push((nx, ny));
                    marked = true;
                    proof {
                        lemma_marking_mark(
                            bitmap@,
                            before,
                            unmarked,
                            labels@,
                            w,
                            h,
                            current_label,
                            sx,
                            sy,
                            longer,
                            worklist@,
                            gx,
                            gy,
                            k as int,
                            nx,
                            ny,
                        );
                        lemma_box_stretched(
                            unmarked,
                            labels@,
                            w,
                            h,
                            current_label,
                            min_x as int,
                            min_y as int,
                            max_x as int,
                            max_y as int,
                            nx as int,
                            ny as int,
                        );
                    }
                    if nx < min_x {
                        min_x = nx;
                    }
                    if nx > max_x {
                        max_x = nx;
                    }
                    if ny < min_y {
                        min_y = ny;
                    }
                    if ny > max_y {
                        max_y = ny;
                    }
                }
            }
            proof {
                if !marked {
                    lemma_marking_skip(
                        bitmap@,
                        before,
                        labels@,
                        w,
                        h,
                        current_label,
                        sx,
                        sy,
                        worklist@,
                        gx,
                        gy,
                        k as int,
                    );
                }
            }
            k += 1;
        }
        proof {
            lemma_marking_put_down(
                bitmap@,
                before,
                labels@,
                w,
                h,
                current_label,
                sx,
                sy,
                worklist@,
                gx,
                gy,
            );
        }
    }
    proof {
        lemma_marking_end(bitmap@, before, labels@, w, h, current_label, sx, sy, worklist@);
        reveal(boxed);
    }
    (min_x, min_y, max_x, max_y)
}

/// The column or row next to `c`, at it, or behind it, as `d` is 0, 1 or 2,
/// if the grid of `limit` columns or rows has it.
fn shifted(c: usize, d: usize, limit: usize) -> (moved: Option<usize>)
    requires
        c < limit,
        d < 3,
    ensures
        moved.is_some() <==> 0 <= c + d - 1 < limit,
        moved.is_some() ==> moved.unwrap() == c + d - 1,
{
    if d == 0 {
        if c == 0 {
            None
        } else {
            Some(c - 1)
        }
    } else if d == 1 {
        Some(c)
    } else if c + 1 < limit {
        Some(c + 1)
    } else {
        None
    }
}

/// Giving a label to a cell that had none leaves the earlier labels closed.
pub proof fn lemma_closed_survives(
    bitmap: Seq<bool>,
    before: Seq<usize>,
    after: Seq<usize>,
    w: int,
    h: int,
    x: int,
    y: int,
    current_label: usize,
)
    requires
        in_grid(w, h, x, y),
        before.len() == w * h,
        label_at(before, w, x, y) == 0,
        after == before.update(cell_index(w, x, y), current_label),
        forall|label: usize|
            0 < label < current_label ==> #[trigger] label_closed(bitmap, before, w, h, label),
    ensures
        forall|label: usize|
            0 < label < current_label ==> #[trigger] label_closed(bitmap, after, w, h, label),
{
    lemma_label_one_cell(before, after, w, h, x, y, current_label);
    assert forall|label: usize| 0 < label < current_label implies #[trigger] label_closed(
        bitmap,
        after,
        w,
        h,
        label,
    ) by {
        assert(label_closed(bitmap, before, w, h, label));
        assert forall|x1: int, y1: int, x2: int, y2: int|
            in_grid(w, h, x1, y1) && #[trigger] label_at(after, w, x1, y1) == label
                && #[trigger] alive_at(bitmap, w, h, x2, y2) && touching(
                x1,
                y1,
                x2,
                y2,
            ) implies label_at(after, w, x2, y2) == label by {
            assert(label_at(before, w, x1, y1) == label);
            assert(label_at(before, w, x2, y2) == label);
        }
    }
}

/// What the labels of the grid's cells are after cell `(x, y)` alone got a
/// new label.
pub proof fn lemma_label_one_cell(
    before: Seq<usize>,
    after: Seq<usize>,
    w: int,
    h: int,
    x: int,
    y: int,
    label: usize,
)
    requires
        in_grid(w, h, x, y),
        before.len() == w * h,
        after == before.update(cell_index(w, x, y), label),
    ensures
        forall|cx: int, cy: int|
            in_grid(w, h, cx, cy) ==> #[trigger] label_at(after, w, cx, cy) == if cx == x && cy
                == y {
                label
            } else {
                label_at(before, w, cx, cy)
            },
{
    lemma_cell_index_in_range(w, h, x, y);
    assert forall|cx: int, cy: int| in_grid(w, h, cx, cy) implies #[trigger] label_at(
        after,
        w,
        cx,
        cy,
    ) == if cx == x && cy == y {
        label
    } else {
        label_at(before, w, cx, cy)
    } by {
        lemma_cell_index_in_range(w, h, cx, cy);
        if cell_index(w, cx, cy) == cell_index(w, x, y) {
            lemma_cell_index_injective(w, cx, cy, x, y);
        }
    }
}

/// A connected part of a bitmap, cut out along its bounding box: the cut-out
/// bitmap, its width, its height, and the place of its first column and row
/// in the whole.
pub type Component = (Vec<bool>, u32, u32, IVec2);

/// Whether cell `(x, y)` of the whole bitmap lies in the cut-out and is set
/// in it.
pub open spec fn component_holds(component: Component, x: int, y: int) -> bool {
    let lx = x - component.3.x;
    let ly = y - component.3.y;
    in_grid(component.1 as int, component.2 as int, lx, ly) && component.0@[cell_index(
        component.1 as int,
        lx,
        ly,
    )]
}

/// Whether the cut-out is a grid of its width and height that lies within a
/// whole of `w` columns and `h` rows.
pub open spec fn component_shaped(component: Component, w: int, h: int) -> bool {
    &&& component.0.len() == component.1 * component.2
    &&& component.1 > 0
    &&& component.2 > 0
    &&& 0 <= component.3.x
    &&& component.3.x + component.1 <= w
    &&& 0 <= component.3.y
    &&& component.3.y + component.2 <= h
}

/// Whether the first and last column and the first and last row of the
/// cut-out each hold a set cell.
pub open spec fn component_tight(component: Component) -> bool {
    &&& exists|y: int| #[trigger] component_holds(component, component.3.x as int, y)
    &&& exists|y: int|
        #[trigger] component_holds(component, component.3.x + component.1 - 1, y)
    &&& exists|x: int| #[trigger] component_holds(component, x, component.3.y as int)
    &&& exists|x: int|
        #[trigger] component_holds(component, x, component.3.y + component.2 - 1)
}

/// Whether `components` are the connected parts of the bitmap, each cut out
/// along its bounding box, in the order in which a reader of the bitmap, row
/// by row, meets their first cells.
pub open spec fn is_component_split(
    bitmap: Seq<bool>,
    w: int,
    h: int,
    components: Seq<Component>,
) -> bool {
    &&& forall|k: int|
        0 <= k < components.len() ==> component_shaped(#[trigger] components[k], w, h)
            && component_tight(components[k])
    &&& forall|k: int, x: int, y: int|
        0 <= k < components.len() && #[trigger] component_holds(components[k], x, y) ==> alive_at(
            bitmap,
            w,
            h,
            x,
            y,
        )
    &&& forall|x: int, y: int| #[trigger]
        alive_at(bitmap, w, h, x, y) ==> exists|k: int|
            0 <= k < components.len() && #[trigger] component_holds(components[k], x, y)
    &&& forall|k: int, m: int, x: int, y: int|
        0 <= k < components.len() && 0 <= m < components.len() && #[trigger] component_holds(
            components[k],
            x,
            y,
        ) && #[trigger] component_holds(components[m], x, y) ==> k == m
    &&& forall|k: int, x1: int, y1: int, x2: int, y2: int|
        0 <= k < components.len() && #[trigger] component_holds(components[k], x1, y1)
            && #[trigger] component_holds(components[k], x2, y2) ==> connected(
            bitmap,
            w,
            h,
            x1,
            y1,
            x2,
            y2,
        )
    &&& forall|k: int, x1: int, y1: int, x2: int, y2: int|
        0 <= k < components.len() && #[trigger] component_holds(components[k], x1, y1)
            && #[trigger] alive_at(bitmap, w, h, x2, y2) && touching(x1, y1, x2, y2)
            ==> component_holds(components[k], x2, y2)
    &&& forall|k: int, m: int|
        0 <= k < m < components.len() ==> comes_before(
            #[trigger] components[k],
            #[trigger] components[m],
            w,
        )
}

/// Whether a reader of the whole bitmap, row by row, meets a cell of `first`
/// before any cell of `second`.
pub open spec fn comes_before(first: Component, second: Component, w: int) -> bool {
    exists|sx: int, sy: int|
        #[trigger] component_holds(first, sx, sy) && forall|x: int, y: int|
            #[trigger] component_holds(second, x, y) ==> cell_index(w, sx, sy) < cell_index(
                w,
                x,
                y,
            )
}

/// What holds while the bitmap is read: the parts found so far, `components`,
/// are the cells with the labels from 1 on, in this order, and `seeds` are
/// their first cells.
#[verifier::opaque]
pub open spec fn labelled(
    bitmap: Seq<bool>,
    labels: Seq<usize>,
    w: int,
    h: int,
    components: Seq<Component>,
    seeds: Seq<(int, int)>,
) -> bool {
    &&& labels.len() == w * h
    &&& seeds.len() == components.len()
    &&& forall|x: int, y: int|
        in_grid(w, h, x, y) ==> #[trigger] label_at(labels, w, x, y) <= components.len() && (
        label_at(labels, w, x, y) != 0 ==> alive_at(bitmap, w, h, x, y))
    &&& forall|label: usize|
        0 < label <= components.len() ==> #[trigger] label_closed(bitmap, labels, w, h, label)
    &&& forall|k: int|
        0 <= k < components.len() ==> {
            &&& in_grid(w, h, (#[trigger] seeds[k]).0, seeds[k].1)
            &&& label_at(labels, w, seeds[k].0, seeds[k].1) == k + 1
            &&& label_reaches(bitmap, labels, w, h, (k + 1) as usize, seeds[k].0, seeds[k].1)
        }
    &&& forall|k: int|
        0 <= k < components.len() ==> component_shaped(#[trigger] components[k], w, h)
            && component_tight(components[k])
    &&& forall|k: int, x: int, y: int|
        0 <= k < components.len() && in_grid(w, h, x, y) ==> (#[trigger] component_holds(
            components[k],
            x,
            y,
        ) <==> label_at(labels, w, x, y) == k + 1)
    &&& forall|x: int, y: int|
        in_grid(w, h, x, y) && #[trigger] label_at(labels, w, x, y) != 0 ==> cell_index(
            w,
            seeds[label_at(labels, w, x, y) - 1].0,
            seeds[label_at(labels, w, x, y) - 1].1,
        ) <= cell_index(w, x, y)
    &&& forall|k: int, m: int|
        0 <= k < m < components.len() ==> cell_index(w, (#[trigger] seeds[k]).0, seeds[k].1)
            < cell_index(w, (#[trigger] seeds[m]).0, seeds[m].1)
}

/// Whether every alive cell that a reader meets before place `scanned` has a
/// label, and every seed lies before it.
pub open spec fn read_up_to(
    bitmap: Seq<bool>,
    labels: Seq<usize>,
    w: int,
    h: int,
    seeds: Seq<(int, int)>,
    scanned: int,
) -> bool {
    &&& forall|x: int, y: int| #[trigger]
        alive_at(bitmap, w, h, x, y) && cell_index(w, x, y) < scanned ==> label_at(
            labels,
            w,
            x,
            y,
        ) != 0
    &&& forall|k: int|
        0 <= k < seeds.len() ==> cell_index(w, (#[trigger] seeds[k]).0, seeds[k].1) < scanned
    &&& seeds.len() <= scanned
}

/// Cuts the cells that carry `label` out of the box from `(min_x, min_y)` to
/// `(max_x, max_y)`.
fn crop_label(
    labels: &Vec<usize>,
    width: usize,
    height: usize,
    label: usize,
    min_x: usize,
    min_y: usize,
    max_x: usize,
    max_y: usize,
) -> (cropped: Vec<bool>)
    requires
        labels.len() == width * height,
        min_x <= max_x < width,
        min_y <= max_y < height,
    ensures
        cropped.len() == (max_x - min_x + 1) * (max_y - min_y + 1),
        forall|lx: int, ly: int|
            in_grid(max_x - min_x + 1, max_y - min_y + 1, lx, ly) ==>
                #[trigger] cropped@[cell_index(
                max_x - min_x + 1,
                lx,
                ly,
            )] == (label_at(labels@, width as int, min_x + lx, min_y + ly) == label),
{
    let new_width = max_x - min_x + 1;
    let new_height = max_y - min_y + 1;
    let ghost nw = new_width as int;
    let ghost nh = new_height as int;
    let ghost w = width as int;
    let ghost h = height as int;
    assert(nw * nh <= w * h) by (nonlinear_arith)
        requires
            0 < nw <= w,
            0 < nh <= h,
    ;
    let mut cropped: Vec<bool> = Vec::new();
    let mut ly: usize = 0;
    while ly < new_height
        invariant
            ly <= new_height,
            nw == new_width as int,
            nh == new_height as int,
            w == width as int,
            h == height as int,
            new_width == max_x - min_x + 1,
            new_height == max_y - min_y + 1,
            min_x <= max_x < width,
            min_y <= max_y < height,
            labels.len() == width * height,
            cropped.len() == ly * new_width,
            forall|cx: int, cy: int|
                in_grid(nw, nh, cx, cy) && cy < ly ==> #[trigger] cropped@[cell_index(nw, cx, cy)]
                    == (label_at(labels@, w, min_x + cx, min_y + cy) == label),
        decreases new_height - ly,
    {
        let mut lx: usize = 0;
        while lx < new_width
            invariant
                lx <= new_width,
                ly < new_height,
                nw == new_width as int,
                nh == new_height as int,
                w == width as int,
                h == height as int,
                new_width == max_x - min_x + 1,
                new_height == max_y - min_y + 1,
                min_x <= max_x < width,
                min_y <= max_y < height,
                labels.len() == width * height,
                cropped.len() == ly * new_width + lx,
                forall|cx: int, cy: int|
                    in_grid(nw, nh, cx, cy) && (cy < ly || (cy == ly && cx < lx))
                        ==> #[trigger] cropped@[cell_index(nw, cx, cy)] == (label_at(
                        labels@,
                        w,
                        min_x + cx,
                        min_y + cy,
                    ) == label),
            decreases new_width - lx,
        {
            proof {
                lemma_cell_index_in_range(w, h, min_x + lx, min_y + ly);
                assert forall|cx: int, cy: int|
                    in_grid(nw, nh, cx, cy) && (cy < ly || (cy == ly
                        && cx < lx)) implies cell_index(
                    nw,
                    cx,
                    cy,
                ) < cropped.len() by {
                    lemma_cell_index_ordered(nw, cx, cy, lx as int, ly as int);
                }
            }
            let marked = labels[(min_y + ly) * width + (min_x + lx)] == label;
            cropped.push(marked);
            lx += 1;
        }
        assert(ly * new_width + new_width == (ly + 1) * new_width) by (nonlinear_arith);
        ly += 1;
    }
    assert(new_height * new_width == new_width * new_height) by (nonlinear_arith);
    cropped
}

/// Go through inputted bitmap & extract new bitmaps of connected pixels
/// (components): for each, the cut-out bitmap, its width and height, and the
/// place of its first column and row in the whole.
pub fn extract_connected_components_from_bitmap(
    bitmap: &[bool],
    width: u32,
    height: u32,
) -> (components: Vec<Component>)
    requires
        bitmap.len() == width * height,
        width <= i32::MAX,
        height <= i32::MAX,
    ensures
        is_component_split(bitmap@, width as int, height as int, components@),
{
    let w = width as usize;
    let h = height as usize;
    let ghost gw = width as int;
    let ghost gh = height as int;
    let mut results: Vec<Component> = Vec::new();
    let mut labels: Vec<usize> = vec![0usize; bitmap.len()];
    let ghost mut seeds: Seq<(int, int)> = Seq::empty();
    let mut y: usize = 0;
    assert(labelled(bitmap@, labels@, gw, gh, results@, seeds)) by {
        reveal(labelled);
        assert forall|x: int, y: int| in_grid(gw, gh, x, y) implies #[trigger] label_at(
            labels@,
            gw,
            x,
            y,
        ) == 0 by {
            lemma_cell_index_in_range(gw, gh, x, y);
        }
    }
    assert(read_up_to(bitmap@, labels@, gw, gh, seeds, 0)) by {
        assert forall|x: int, y: int| #[trigger]
            alive_at(bitmap@, gw, gh, x, y) implies cell_index(gw, x, y) >= 0 by {
            lemma_cell_index_in_range(gw, gh, x, y);
        }
    }
    while y < h
        invariant
            y <= h,
            w == width as usize,
            h == height as usize,
            gw == width as int,
            gh == height as int,
            width <= i32::MAX,
            height <= i32::MAX,
            bitmap.len() == width * height,
            labels.len() == bitmap.len(),
            labelled(bitmap@, labels@, gw, gh, results@, seeds),
            read_up_to(bitmap@, labels@, gw, gh, seeds, cell_index(gw, 0, y as int)),
        decreases h - y,
    {
        let mut x: usize = 0;
        while x < w
            invariant
                x <= w,
                y < h,
                w == width as usize,
                h == height as usize,
                gw == width as int,
                gh == height as int,
                width <= i32::MAX,
                height <= i32::MAX,
                bitmap.len() == width * height,
                labels.len() == bitmap.len(),
                labelled(bitmap@, labels@, gw, gh, results@, seeds),
                read_up_to(bitmap@, labels@, gw, gh, seeds, cell_index(gw, x as int, y as int)),
            decreases w - x,
        {
            let ghost scanned = cell_index(gw, x as int, y as int);
            proof {
                lemma_cell_index_in_range(gw, gh, x as int, y as int);
            }
            let index = y * w + x;
            if labels[index] == 0 && bitmap[index] {
                let ghost before = labels@;
                let ghost found = results@;
                let ghost first_cells = seeds;
                proof {
                    lemma_labelled_ready(bitmap@, before, gw, gh, found, first_cells);
                }
                let current_label = results.len() + 1;
                assert(label_at(before, gw, x as int, y as int) == 0);
                let (min_x, min_y, max_x, max_y) = depth_first_label_mark(
                    bitmap,
                    &mut labels,
                    w,
                    h,
                    x,
                    y,
                    current_label,
                );
                assert(label_box(
                    labels@,
                    gw,
                    gh,
                    current_label,
                    min_x as int,
                    min_y as int,
                    max_x as int,
                    max_y as int,
                ));
                assert(min_x <= x <= max_x && min_y <= y <= max_y);
                let new_bitmap = crop_label(
                    &labels,
                    w,
                    h,
                    current_label,
                    min_x,
                    min_y,
                    max_x,
                    max_y,
                );
                let component: Component = (
                    new_bitmap,
                    (max_x - min_x + 1) as u32,
                    (max_y - min_y + 1) as u32,
                    IVec2::new(min_x as i32, min_y as i32),
                );
                results.push(component);
                proof {
                    seeds = seeds.push((x as int, y as int));
                    lemma_split_extended(
                        bitmap@,
                        before,
                        labels@,
                        gw,
                        gh,
                        found,
                        first_cells,
                        component,
                        x as int,
                        y as int,
                    );
                }
            }
            proof {
                assert forall|cx: int, cy: int| #[trigger]
                    alive_at(bitmap@, gw, gh, cx, cy) && cell_index(gw, cx, cy) < scanned
                        + 1 implies label_at(labels@, gw, cx, cy) != 0 by {
                    if cell_index(gw, cx, cy) == scanned {
                        lemma_cell_index_injective(gw, cx, cy, x as int, y as int);
                    }
                }
            }
            x += 1;
        }
        assert(cell_index(gw, w as int, y as int) == cell_index(gw, 0, y + 1)) by (nonlinear_arith)
            requires
                gw == w as int,
        ;
        y += 1;
    }
    proof {
        lemma_split_complete(bitmap@, labels@, gw, gh, results@, seeds);
    }
    results
}

/// What the labelling of the next part starts from.
proof fn lemma_labelled_ready(
    bitmap: Seq<bool>,
    labels: Seq<usize>,
    w: int,
    h: int,
    components: Seq<Component>,
    seeds: Seq<(int, int)>,
)
    requires
        labelled(bitmap, labels, w, h, components, seeds),
    ensures
        seeds.len() == components.len(),
        forall|x: int, y: int|
            in_grid(w, h, x, y) ==> #[trigger] label_at(labels, w, x, y) <= components.len(),
        forall|label: usize|
            0 < label <= components.len() ==> #[trigger] label_closed(bitmap, labels, w, h, label),
{
    reveal(labelled);
}

/// Labelling one more part, and cutting it out, keeps the parts found so far
/// in step with the labels.
proof fn lemma_split_extended(
    bitmap: Seq<bool>,
    before: Seq<usize>,
    after: Seq<usize>,
    w: int,
    h: int,
    found: Seq<Component>,
    seeds: Seq<(int, int)>,
    component: Component,
    sx: int,
    sy: int,
)
    requires
        labelled(bitmap, before, w, h, found, seeds),
        read_up_to(bitmap, before, w, h, seeds, cell_index(w, sx, sy)),
        after.len() == before.len(),
        found.len() < usize::MAX,
        alive_at(bitmap, w, h, sx, sy),
        label_at(before, w, sx, sy) == 0,
        forall|cx: int, cy: int|
            in_grid(w, h, cx, cy) ==> {
                let was = label_at(before, w, cx, cy);
                let now = #[trigger] label_at(after, w, cx, cy);
                if was != 0 {
                    now == was
                } else {
                    now == 0 || (now == found.len() + 1 && alive_at(bitmap, w, h, cx, cy))
                }
            },
        label_at(after, w, sx, sy) == found.len() + 1,
        label_reaches(bitmap, after, w, h, (found.len() + 1) as usize, sx, sy),
        forall|label: usize|
            0 < label <= found.len() + 1 ==> #[trigger] label_closed(bitmap, after, w, h, label),
        component.0.len() == component.1 * component.2,
        component.1 > 0,
        component.2 > 0,
        label_box(
            after,
            w,
            h,
            (found.len() + 1) as usize,
            component.3.x as int,
            component.3.y as int,
            component.3.x + component.1 - 1,
            component.3.y + component.2 - 1,
        ),
        forall|lx: int, ly: int|
            in_grid(component.1 as int, component.2 as int, lx, ly)
                ==> #[trigger] component.0@[cell_index(component.1 as int, lx, ly)] == (label_at(
                after,
                w,
                component.3.x + lx,
                component.3.y + ly,
            ) == found.len() + 1),
    ensures
        labelled(bitmap, after, w, h, found.push(component), seeds.push((sx, sy))),
        read_up_to(
            bitmap,
            after,
            w,
            h,
            seeds.push((sx, sy)),
            cell_index(w, sx, sy) + 1,
        ),
{
    reveal(labelled);
    let all = found.push(component);
    let firsts = seeds.push((sx, sy));
    let label = (found.len() + 1) as usize;
    let min_x = component.3.x as int;
    let min_y = component.3.y as int;
    let max_x = component.3.x + component.1 - 1;
    let max_y = component.3.y + component.2 - 1;
    // The new cut-out holds the cells of the new label, and no others.
    assert forall|x: int, y: int| in_grid(w, h, x, y) implies (#[trigger] component_holds(
        component,
        x,
        y,
    ) <==> label_at(after, w, x, y) == label) by {
        if label_at(after, w, x, y) == label {
            assert(min_x <= x <= max_x && min_y <= y <= max_y);
        }
        let lx = x - min_x;
        let ly = y - min_y;
        if in_grid(component.1 as int, component.2 as int, lx, ly) {
            assert(component.0@[cell_index(component.1 as int, lx, ly)] == (label_at(
                after,
                w,
                component.3.x + lx,
                component.3.y + ly,
            ) == label));
        }
    }
    let at_min_x = choose|y: int|
        in_grid(w, h, min_x, y) && #[trigger] label_at(after, w, min_x, y) == label;
    let at_max_x = choose|y: int|
        in_grid(w, h, max_x, y) && #[trigger] label_at(after, w, max_x, y) == label;
    let at_min_y = choose|x: int|
        in_grid(w, h, x, min_y) && #[trigger] label_at(after, w, x, min_y) == label;
    let at_max_y = choose|x: int|
        in_grid(w, h, x, max_y) && #[trigger] label_at(after, w, x, max_y) == label;
    assert(component_holds(component, min_x, at_min_x));
    assert(component_holds(component, max_x, at_max_x));
    assert(component_holds(component, at_min_y, min_y));
    assert(component_holds(component, at_max_y, max_y));
    assert(component_tight(component));
    assert(component_shaped(component, w, h));
    assert forall|k: int| 0 <= k < all.len() implies component_shaped(#[trigger] all[k], w, h)
        && component_tight(all[k]) by {
        if k < found.len() {
            assert(all[k] == found[k]);
        }
    }
    assert forall|k: int, x: int, y: int| 0 <= k < all.len() && in_grid(w, h, x, y) implies (
    #[trigger] component_holds(all[k], x, y) <==> label_at(after, w, x, y) == k + 1) by {
        if k < found.len() {
            assert(all[k] == found[k]);
            assert(component_holds(found[k], x, y) <==> label_at(before, w, x, y) == k + 1);
        }
    }
    assert forall|k: int| 0 <= k < all.len() implies {
        &&& in_grid(w, h, (#[trigger] firsts[k]).0, firsts[k].1)
        &&& label_at(after, w, firsts[k].0, firsts[k].1) == k + 1
        &&& label_reaches(bitmap, after, w, h, (k + 1) as usize, firsts[k].0, firsts[k].1)
    } by {
        if k < found.len() {
            assert(firsts[k] == seeds[k]);
            assert(label_reaches(bitmap, before, w, h, (k + 1) as usize, seeds[k].0, seeds[k].1));
            assert forall|x: int, y: int|
                in_grid(w, h, x, y) && #[trigger] label_at(after, w, x, y) == (k
                    + 1) as usize implies connected(bitmap, w, h, seeds[k].0, seeds[k].1, x, y) by {
                assert(label_at(before, w, x, y) == (k + 1) as usize);
            }
        }
    }
    assert forall|x: int, y: int|
        in_grid(w, h, x, y) && #[trigger] label_at(after, w, x, y) != 0 implies cell_index(
        w,
        firsts[label_at(after, w, x, y) - 1].0,
        firsts[label_at(after, w, x, y) - 1].1,
    ) <= cell_index(w, x, y) by {
        let k = label_at(after, w, x, y) - 1;
        if k < found.len() {
            assert(firsts[k] == seeds[k]);
            assert(label_at(before, w, x, y) == k + 1);
        } else {
            assert(label_at(before, w, x, y) == 0);
            assert(alive_at(bitmap, w, h, x, y));
        }
    }
    assert forall|k: int, m: int| 0 <= k < m < all.len() implies cell_index(
        w,
        (#[trigger] firsts[k]).0,
        firsts[k].1,
    ) < cell_index(w, (#[trigger] firsts[m]).0, firsts[m].1) by {
        assert(firsts[k] == seeds[k]);
        if m < found.len() {
            assert(firsts[m] == seeds[m]);
        }
    }
    assert forall|x: int, y: int| in_grid(w, h, x, y) implies #[trigger] label_at(after, w, x, y)
        <= all.len() && (label_at(after, w, x, y) != 0 ==> alive_at(bitmap, w, h, x, y)) by {
        assert(label_at(before, w, x, y) <= found.len());
    }
    assert(labelled(bitmap, after, w, h, all, firsts));
    assert forall|k: int| 0 <= k < firsts.len() implies cell_index(
        w,
        (#[trigger] firsts[k]).0,
        firsts[k].1,
    ) < cell_index(w, sx, sy) + 1 by {
        if k < seeds.len() {
            assert(firsts[k] == seeds[k]);
        }
    }
    assert forall|x: int, y: int| #[trigger]
        alive_at(bitmap, w, h, x, y) && cell_index(w, x, y) < cell_index(w, sx, sy)
            + 1 implies label_at(after, w, x, y) != 0 by {
        if cell_index(w, x, y) == cell_index(w, sx, sy) {
            lemma_cell_index_injective(w, x, y, sx, sy);
        } else {
            assert(label_at(before, w, x, y) != 0);
        }
    }
}

/// Once the whole bitmap is read, every alive cell lies in a part.
proof fn lemma_split_covers(
    bitmap: Seq<bool>,
    labels: Seq<usize>,
    w: int,
    h: int,
    components: Seq<Component>,
    seeds: Seq<(int, int)>,
)
    requires
        labelled(bitmap, labels, w, h, components, seeds),
        read_up_to(bitmap, labels, w, h, seeds, cell_index(w, 0, h)),
        0 <= w,
        0 <= h,
    ensures
        forall|x: int, y: int| #[trigger]
            alive_at(bitmap, w, h, x, y) ==> exists|k: int|
                0 <= k < components.len() && #[trigger] component_holds(components[k], x, y),
{
    reveal(labelled);
    assert forall|x: int, y: int| #[trigger] alive_at(bitmap, w, h, x, y) implies exists|k: int|
        0 <= k < components.len() && #[trigger] component_holds(components[k], x, y) by {
        lemma_cell_index_in_range(w, h, x, y);
        assert(h * w == w * h) by (nonlinear_arith);
        let label = label_at(labels, w, x, y);
        assert(label != 0);
        assert(component_holds(components[label - 1], x, y));
    }
}

/// The cells of a part are cells of the grid, and carry the part's label.
proof fn lemma_part_label(
    bitmap: Seq<bool>,
    labels: Seq<usize>,
    w: int,
    h: int,
    components: Seq<Component>,
    seeds: Seq<(int, int)>,
    k: int,
    x: int,
    y: int,
)
    requires
        labelled(bitmap, labels, w, h, components, seeds),
        0 <= k < components.len(),
        component_holds(components[k], x, y),
    ensures
        in_grid(w, h, x, y),
        label_at(labels, w, x, y) == k + 1,
        alive_at(bitmap, w, h, x, y),
        component_shaped(components[k], w, h),
        component_tight(components[k]),
{
    reveal(labelled);
    assert(component_shaped(components[k], w, h));
}

/// What holds of part `k`, its first cell and its label.
proof fn lemma_part_seed(
    bitmap: Seq<bool>,
    labels: Seq<usize>,
    w: int,
    h: int,
    components: Seq<Component>,
    seeds: Seq<(int, int)>,
    k: int,
)
    requires
        labelled(bitmap, labels, w, h, components, seeds),
        0 <= k < components.len(),
    ensures
        seeds.len() == components.len(),
        component_holds(components[k], seeds[k].0, seeds[k].1),
        component_shaped(components[k], w, h),
        component_tight(components[k]),
        label_reaches(bitmap, labels, w, h, (k + 1) as usize, seeds[k].0, seeds[k].1),
        label_closed(bitmap, labels, w, h, (k + 1) as usize),
        forall|x: int, y: int|
            in_grid(w, h, x, y) && label_at(labels, w, x, y) == k + 1 ==>
                #[trigger] component_holds(
                components[k],
                x,
                y,
            ) && cell_index(w, seeds[k].0, seeds[k].1) <= cell_index(w, x, y),
        forall|m: int|
            k < m < components.len() ==> cell_index(w, seeds[k].0, seeds[k].1) < cell_index(
                w,
                (#[trigger] seeds[m]).0,
                seeds[m].1,
            ),
{
    reveal(labelled);
    assert(in_grid(w, h, seeds[k].0, seeds[k].1));
    assert forall|x: int, y: int|
        in_grid(w, h, x, y) && label_at(labels, w, x, y)
            == k + 1 implies #[trigger] component_holds(
        components[k],
        x,
        y,
    ) && cell_index(w, seeds[k].0, seeds[k].1) <= cell_index(w, x, y) by {
        assert(label_at(labels, w, x, y) != 0);
    }
}

/// Once the whole bitmap is read, the parts found are its connected parts.
proof fn lemma_split_complete(
    bitmap: Seq<bool>,
    labels: Seq<usize>,
    w: int,
    h: int,
    components: Seq<Component>,
    seeds: Seq<(int, int)>,
)
    requires
        labelled(bitmap, labels, w, h, components, seeds),
        read_up_to(bitmap, labels, w, h, seeds, cell_index(w, 0, h)),
        0 <= w,
        0 <= h,
    ensures
        is_component_split(bitmap, w, h, components),
{
    lemma_split_covers(bitmap, labels, w, h, components, seeds);
    assert forall|k: int| 0 <= k < components.len() implies component_shaped(
        #[trigger] components[k],
        w,
        h,
    ) && component_tight(components[k]) by {
        lemma_part_seed(bitmap, labels, w, h, components, seeds, k);
    }
    assert forall|k: int, x: int, y: int|
        0 <= k < components.len() && #[trigger] component_holds(
            components[k],
            x,
            y,
        ) implies alive_at(bitmap, w, h, x, y) by {
        lemma_part_label(bitmap, labels, w, h, components, seeds, k, x, y);
    }
    assert forall|k: int, m: int, x: int, y: int|
        0 <= k < components.len() && 0 <= m < components.len() && #[trigger] component_holds(
            components[k],
            x,
            y,
        ) && #[trigger] component_holds(components[m], x, y) implies k == m by {
        lemma_part_label(bitmap, labels, w, h, components, seeds, k, x, y);
        lemma_part_label(bitmap, labels, w, h, components, seeds, m, x, y);
    }
    assert forall|k: int, x1: int, y1: int, x2: int, y2: int|
        0 <= k < components.len() && #[trigger] component_holds(components[k], x1, y1)
            && #[trigger] component_holds(components[k], x2, y2) implies connected(
        bitmap,
        w,
        h,
        x1,
        y1,
        x2,
        y2,
    ) by {
        lemma_part_label(bitmap, labels, w, h, components, seeds, k, x1, y1);
        lemma_part_label(bitmap, labels, w, h, components, seeds, k, x2, y2);
        lemma_part_seed(bitmap, labels, w, h, components, seeds, k);
        let sx = seeds[k].0;
        let sy = seeds[k].1;
        assert(label_reaches(bitmap, labels, w, h, (k + 1) as usize, sx, sy));
        assert(label_at(labels, w, x1, y1) == (k + 1) as usize);
        assert(label_at(labels, w, x2, y2) == (k + 1) as usize);
        lemma_connected_symmetric(bitmap, w, h, sx, sy, x1, y1);
        lemma_connected_transitive(bitmap, w, h, x1, y1, sx, sy, x2, y2);
    }
    assert forall|k: int, x1: int, y1: int, x2: int, y2: int|
        0 <= k < components.len() && #[trigger] component_holds(components[k], x1, y1)
            && #[trigger] alive_at(bitmap, w, h, x2, y2) && touching(
            x1,
            y1,
            x2,
            y2,
        ) implies component_holds(components[k], x2, y2) by {
        lemma_part_label(bitmap, labels, w, h, components, seeds, k, x1, y1);
        lemma_part_seed(bitmap, labels, w, h, components, seeds, k);
        assert(label_closed(bitmap, labels, w, h, (k + 1) as usize));
        assert(label_at(labels, w, x1, y1) == (k + 1) as usize);
        assert(label_at(labels, w, x2, y2) == k + 1);
    }
    assert forall|k: int, m: int| 0 <= k < m < components.len() implies comes_before(
        #[trigger] components[k],
        #[trigger] components[m],
        w,
    ) by {
        let sx = seeds[k].0;
        let sy = seeds[k].1;
        lemma_part_seed(bitmap, labels, w, h, components, seeds, k);
        lemma_part_seed(bitmap, labels, w, h, components, seeds, m);
        assert(component_holds(components[k], sx, sy));
        assert(cell_index(w, seeds[k].0, seeds[k].1) < cell_index(w, seeds[m].0, seeds[m].1));
        assert forall|x: int, y: int| #[trigger]
            component_holds(components[m], x, y) implies cell_index(w, sx, sy) < cell_index(
            w,
            x,
            y,
        ) by {
            lemma_part_label(bitmap, labels, w, h, components, seeds, m, x, y);
            assert(cell_index(w, seeds[m].0, seeds[m].1) <= cell_index(w, x, y));
        }
    }
}

} // verus!
