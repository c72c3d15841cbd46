//! Painting matter into the canvas along a line, with a round or a square
//! brush.
use vstd::prelude::*;
use vstd::arithmetic::div_mod::lemma_fundamental_div_mod_converse;
use crate::geometry::{lemma_index_has_cell, IVec2};
use crate::simulation::ca_passes::CanvasGrid;
use crate::simulation::simulation_utils::{
    inside_sim_canvas, is_inside_sim_canvas, lemma_canvas_cells, within_world,
};

verus! {

/// The shape that is painted round every point of a line: a disc of a radius,
/// or a square of an edge.
#[derive(Debug, Clone, Copy, PartialEq, Eq, Structural)]
pub enum Brush {
    Round(u32),
    Square(u32),
}

/// Whether the brush, set down at `(px, py)`, covers the cell `(cx, cy)`. The
/// disc of radius `r` covers the cells whose distance, rounded to the nearest
/// whole number, is `r` or less; the square of edge `e` covers `e / 2` cells
/// to the left and below, the cell itself among them, and one fewer to the
/// right and above.
pub open spec fn in_brush(brush: Brush, cx: int, cy: int, px: int, py: int) -> bool {
    match brush {
        Brush::Round(radius) => (cx - px) * (cx - px) + (cy - py) * (cy - py) <= radius * radius
            + radius,
        Brush::Square(edge) => px - edge / 2 <= cx < px + edge / 2 && py - edge / 2 <= cy < py
            + edge / 2,
    }
}

/// How far the brush reaches from where it is set down.
pub open spec fn reach_of(brush: Brush) -> int {
    match brush {
        Brush::Round(radius) => radius as int,
        Brush::Square(edge) => (edge / 2) as int,
    }
}

/// A cell that the brush covers lies within its reach.
pub proof fn lemma_brush_reach(brush: Brush, cx: int, cy: int, px: int, py: int)
    requires
        in_brush(brush, cx, cy, px, py),
    ensures
        px - reach_of(brush) <= cx <= px + reach_of(brush),
        py - reach_of(brush) <= cy <= py + reach_of(brush),
{
    match brush {
        Brush::Round(radius) => {
            let r = radius as int;
            let dx = cx - px;
            let dy = cy - py;
            assert(-r <= dx <= r && -r <= dy <= r) by (nonlinear_arith)
                requires
                    dx * dx + dy * dy <= r * r + r,
                    0 <= r,
            ;
        },
        Brush::Square(edge) => {},
    }
}

/// Whether the brush, set down at one of the first `upto` points of `line`
/// that lie in the canvas, covers the cell `(cx, cy)`.
pub open spec fn covered(
    line: Seq<IVec2>,
    brush: Brush,
    camera: IVec2,
    size: u32,
    cx: int,
    cy: int,
    upto: int,
) -> bool
    decreases upto,
{
    if upto <= 0 {
        false
    } else {
        covered(line, brush, camera, size, cx, cy, upto - 1) || (inside_sim_canvas(
            line[upto - 1],
            camera,
            size,
        ) && in_brush(brush, cx, cy, line[upto - 1].x as int, line[upto - 1].y as int))
    }
}

/// What a cell holds after painting: `matter`, where the brush covered it
/// and it was empty, or where the brush covered it and what is painted is
/// the empty matter; otherwise what it held.
pub open spec fn paint_value(was: u32, empty: u32, matter: u32, covered: bool) -> u32 {
    if covered && (was == empty || matter == empty) {
        matter
    } else {
        was
    }
}

/// The column in the world of place `index` of the canvas.
pub open spec fn world_x(camera: IVec2, size: u32, index: int) -> int {
    index % (size as int) - (size / 2) as int + camera.x
}

/// The row in the world of place `index` of the canvas.
pub open spec fn world_y(camera: IVec2, size: u32, index: int) -> int {
    index / (size as int) - (size / 2) as int + camera.y
}

/// The matter of the canvas after the brush went along `line`.
pub open spec fn painted(
    was: Seq<u32>,
    line: Seq<IVec2>,
    brush: Brush,
    camera: IVec2,
    size: u32,
    empty: u32,
    matter: u32,
) -> Seq<u32> {
    Seq::new(
        was.len(),
        |i: int|
            paint_value(
                was[i],
                empty,
                matter,
                covered(
                    line,
                    brush,
                    camera,
                    size,
                    world_x(camera, size, i),
                    world_y(camera, size, i),
                    line.len() as int,
                ),
            ),
    )
}

/// Whether the brush, set down at `(px, py)`, covers the cell `(cx, cy)`.
pub fn brush_covers(brush: Brush, cx: i64, cy: i64, px: i64, py: i64) -> (covers: bool)
    requires
        -0x1_0000_0000 <= cx - px <= 0x1_0000_0000,
        -0x1_0000_0000 <= cy - py <= 0x1_0000_0000,
        -0x1_0000_0000 <= px <= 0x1_0000_0000,
        -0x1_0000_0000 <= py <= 0x1_0000_0000,
    ensures
        covers == in_brush(brush, cx as int, cy as int, px as int, py as int),
{
    match brush {
        Brush::Round(radius) => {
            let dx = (cx - px) as i128;
            let dy = (cy - py) as i128;
            let r = radius as i128;
            assert(0 <= dx * dx <= 0x1_0000_0000 * 0x1_0000_0000 && 0 <= dy * dy <= 0x1_0000_0000
                * 0x1_0000_0000 && 0 <= r * r <= 0x1_0000_0000 * 0x1_0000_0000)
                by (nonlinear_arith)
                requires
                    -0x1_0000_0000 <= dx <= 0x1_0000_0000,
                    -0x1_0000_0000 <= dy <= 0x1_0000_0000,
                    0 <= r <= 0x1_0000_0000,
            ;
            dx * dx + dy * dy <= r * r + r
        },
        Brush::Square(edge) => {
            let half = (edge / 2) as i64;
            px - half <= cx && cx < px + half && py - half <= cy && cy < py + half
        },
    }
}

/// Paints `matter` with the brush along `line`: round every point of the
/// line that lies in the canvas, the cells of the canvas that the brush
/// covers are painted, those that are empty, and all of them where what is
/// painted is the empty matter.
pub fn paint(grid: &mut CanvasGrid, line: &Vec<IVec2>, matter: u32, brush: Brush, camera: IVec2)
    requires
        old(grid).wf(),
        within_world(camera),
    ensures
        final(grid).wf(),
        final(grid).size == old(grid).size,
        final(grid).empty == old(grid).empty,
        final(grid).objects_matter == old(grid).objects_matter,
        final(grid).objects_color == old(grid).objects_color,
        final(grid).matter@ == painted(
            old(grid).matter@,
            line@,
            brush,
            camera,
            old(grid).size,
            old(grid).empty,
            matter,
        ),
{
    let size = grid.size;
    let empty = grid.empty;
    let s = size as i64;
    let ghost gs = size as int;
    let ghost was = grid.matter@;
    let reach: i64 = match brush {
        Brush::Round(radius) => radius as i64,
        Brush::Square(edge) => (edge / 2) as i64,
    };
    let low_x = camera.x as i64 - (size / 2) as i64;
    let low_y = camera.y as i64 - (size / 2) as i64;
    proof {
        lemma_canvas_cells(size);
    }
    let mut k: usize = 0;
    while k < line.len()
        invariant
            k <= line.len(),
            grid.wf(),
            grid.size == size,
            size == old(grid).size,
            grid.empty == empty,
            empty == old(grid).empty,
            grid.objects_matter == old(grid).objects_matter,
            grid.objects_color == old(grid).objects_color,
            within_world(camera),
            s == size,
            gs == size,
            reach == reach_of(brush),
            low_x == camera.x - (size / 2) as int,
            low_y == camera.y - (size / 2) as int,
            was == old(grid).matter@,
            was.len() == gs * gs,
            size * size <= 0x1000_0000,
            forall|i: int|
                0 <= i < gs * gs ==> #[trigger] grid.matter[i] == paint_value(
                    was[i],
                    empty,
                    matter,
                    covered(
                        line@,
                        brush,
                        camera,
                        size,
                        world_x(camera, size, i),
                        world_y(camera, size, i),
                        k as int,
                    ),
                ),
        decreases line.len() - k,
    {
        let pos = line[k];
        if is_inside_sim_canvas(pos, camera, size) {
            let px = pos.x as i64;
            let py = pos.y as i64;
            let y_start = if py - reach < low_y {
                low_y
            } else {
                py - reach
            };
            let y_end = if py + reach > low_y + s - 1 {
                low_y + s - 1
            } else {
                py + reach
            };
            let x_start = if px - reach < low_x {
                low_x
            } else {
                px - reach
            };
            let x_end = if px + reach > low_x + s - 1 {
                low_x + s - 1
            } else {
                px + reach
            };
            proof {
                assert forall|i: int| 0 <= i < gs * gs implies !(in_brush(
                    brush,
                    world_x(camera, size, i),
                    #[trigger] world_y(camera, size, i),
                    px as int,
                    py as int,
                ) && world_y(camera, size, i) < y_start) by {
                    lemma_index_has_cell(gs, gs, i);
                    if in_brush(
                        brush,
                        world_x(camera, size, i),
                        world_y(camera, size, i),
                        px as int,
                        py as int,
                    ) {
                        lemma_brush_reach(
                            brush,
                            world_x(camera, size, i),
                            world_y(camera, size, i),
                            px as int,
                            py as int,
                        );
                    }
                }
            }
            let mut y = y_start;
            while y <= y_end
                invariant
                    y_start <= y <= y_end + 1,
                    low_y <= y_start,
                    y_end <= low_y + s - 1,
                    low_x <= x_start,
                    x_end <= low_x + s - 1,
                    x_start <= x_end + 1,
                    y_start == low_y || y_start == py - reach,
                    y_end == low_y + s - 1 || y_end == py + reach,
                    x_start == low_x || x_start == px - reach,
                    x_end == low_x + s - 1 || x_end == px + reach,
                    k < line.len(),
                    pos == line[k as int],
                    px == pos.x,
                    py == pos.y,
                    inside_sim_canvas(pos, camera, size),
                    grid.wf(),
                    grid.size == size,
                    grid.empty == empty,
                    grid.objects_matter == old(grid).objects_matter,
                    grid.objects_color == old(grid).objects_color,
                    within_world(camera),
                    s == size,
                    gs == size,
                    reach == reach_of(brush),
                    low_x == camera.x - (size / 2) as int,
                    low_y == camera.y - (size / 2) as int,
                    size * size <= 0x1000_0000,
                    was.len() == gs * gs,
                    forall|i: int|
                        0 <= i < gs * gs ==> #[trigger] grid.matter[i] == paint_value(
                            was[i],
                            empty,
                            matter,
                            covered(
                                line@,
                                brush,
                                camera,
                                size,
                                world_x(camera, size, i),
                                world_y(camera, size, i),
                                k as int,
                            ) || (in_brush(
                                brush,
                                world_x(camera, size, i),
                                world_y(camera, size, i),
                                px as int,
                                py as int,
                            ) && world_y(camera, size, i) < y),
                        ),
                decreases y_end + 1 - y,
            {
                proof {
                    assert forall|i: int| 0 <= i < gs * gs implies !(in_brush(
                        brush,
                        world_x(camera, size, i),
                        #[trigger] world_y(camera, size, i),
                        px as int,
                        py as int,
                    ) && world_y(camera, size, i) == y && world_x(camera, size, i) < x_start) by {
                        lemma_index_has_cell(gs, gs, i);
                        if in_brush(
                            brush,
                            world_x(camera, size, i),
                            world_y(camera, size, i),
                            px as int,
                            py as int,
                        ) {
                            lemma_brush_reach(
                                brush,
                                world_x(camera, size, i),
                                world_y(camera, size, i),
                                px as int,
                                py as int,
                            );
                        }
                    }
                }
                let mut x = x_start;
                while x <= x_end
                    invariant
                        x_start <= x <= x_end + 1,
                        y_start <= y <= y_end,
                        low_y <= y_start,
                        y_end <= low_y + s - 1,
                        low_x <= x_start,
                        x_end <= low_x + s - 1,
                        x_end == low_x + s - 1 || x_end == px + reach,
                        k < line.len(),
                        pos == line[k as int],
                        px == pos.x,
                        py == pos.y,
                        inside_sim_canvas(pos, camera, size),
                        grid.wf(),
                        grid.size == size,
                        grid.empty == empty,
                        grid.objects_matter == old(grid).objects_matter,
                        grid.objects_color == old(grid).objects_color,
                        within_world(camera),
                        s == size,
                        gs == size,
                        reach == reach_of(brush),
                        low_x == camera.x - (size / 2) as int,
                        low_y == camera.y - (size / 2) as int,
                        size * size <= 0x1000_0000,
                        was.len() == gs * gs,
                        forall|i: int|
                            0 <= i < gs * gs ==> #[trigger] grid.matter[i] == paint_value(
                                was[i],
                                empty,
                                matter,
                                covered(
                                    line@,
                                    brush,
                                    camera,
                                    size,
                                    world_x(camera, size, i),
                                    world_y(camera, size, i),
                                    k as int,
                                ) || (in_brush(
                                    brush,
                                    world_x(camera, size, i),
                                    world_y(camera, size, i),
                                    px as int,
                                    py as int,
                                ) && (world_y(camera, size, i) < y || (world_y(camera, size, i)
                                    == y && world_x(camera, size, i) < x))),
                            ),
                    decreases x_end + 1 - x,
                {
                    let column = x - low_x;
                    let row = y - low_y;
                    proof {
                        crate::geometry::lemma_cell_index_in_range(gs, gs, column as int,
                            row as int);
                        lemma_fundamental_div_mod_converse(
                            row * s + column,
                            gs,
                            row as int,
                            column as int,
                        );
                    }
                    let index = (row * s + column) as usize;
                    let ghost before = grid.matter@;
                    if brush_covers(brush, x, y, px, py) {
                        if grid.matter[index] == empty || matter == empty {
                            grid.matter[index] = matter;
                        }
                    }
                    proof {
                        assert forall|i: int| 0 <= i < gs * gs implies #[trigger] grid.matter[i]
                            == paint_value(
                            was[i],
                            empty,
                            matter,
                            covered(
                                line@,
                                brush,
                                camera,
                                size,
                                world_x(camera, size, i),
                                world_y(camera, size, i),
                                k as int,
                            ) || (in_brush(
                                brush,
                                world_x(camera, size, i),
                                world_y(camera, size, i),
                                px as int,
                                py as int,
                            ) && (world_y(camera, size, i) < y || (world_y(camera, size, i) == y
                                && world_x(camera, size, i) < x + 1))),
                        ) by {
                            lemma_index_has_cell(gs, gs, i);
                            if i != index {
                                assert(grid.matter[i] == before[i]);
                                if world_y(camera, size, i) == y && world_x(camera, size, i) == x {
                                    lemma_fundamental_div_mod_converse(
                                        index as int,
                                        gs,
                                        i / gs,
                                        i % gs,
                                    );
                                }
                            }
                        }
                    }
                    x += 1;
                }
                proof {
                    assert forall|i: int| 0 <= i < gs * gs implies !(in_brush(
                        brush,
                        world_x(camera, size, i),
                        #[trigger] world_y(camera, size, i),
                        px as int,
                        py as int,
                    ) && world_y(camera, size, i) == y && world_x(camera, size, i) > x_end) by {
                        lemma_index_has_cell(gs, gs, i);
                        if in_brush(
                            brush,
                            world_x(camera, size, i),
                            world_y(camera, size, i),
                            px as int,
                            py as int,
                        ) {
                            lemma_brush_reach(
                                brush,
                                world_x(camera, size, i),
                                world_y(camera, size, i),
                                px as int,
                                py as int,
                            );
                        }
                    }
                }
                y += 1;
            }
            proof {
                assert forall|i: int| 0 <= i < gs * gs implies (in_brush(
                    brush,
                    world_x(camera, size, i),
                    #[trigger] world_y(camera, size, i),
                    px as int,
                    py as int,
                ) ==> world_y(camera, size, i) < y) by {
                    lemma_index_has_cell(gs, gs, i);
                    if in_brush(
                        brush,
                        world_x(camera, size, i),
                        world_y(camera, size, i),
                        px as int,
                        py as int,
                    ) {
                        lemma_brush_reach(
                            brush,
                            world_x(camera, size, i),
                            world_y(camera, size, i),
                            px as int,
                            py as int,
                        );
                    }
                }
            }
        }
        k += 1;
    }
    assert(grid.matter@ =~= painted(was, line@, brush, camera, size, empty, matter));
}

} // verus!
