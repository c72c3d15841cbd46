//! Where a cell of the world lies: in the canvas round the camera, and in the
//! buffers of the four chunks that are simulated together.
//!
//! A chunk is a square of `size` by `size` cells. Chunk `(cx, cy)` holds the
//! cells whose canvas coordinates lie from `c * size - size / 2` up to, and
//! not including, `c * size - size / 2 + size`, on both axes.
use vstd::prelude::*;
use vstd::arithmetic::div_mod::{lemma_fundamental_div_mod, lemma_fundamental_div_mod_converse};
use crate::color::{pack_rgba, u8_rgba_to_u32_rgba};
use crate::geometry::{cell_index, in_grid, lemma_cell_index_in_range, lemma_index_has_cell, IVec2};
use crate::object::pixels::{PixelData, TempPixel};
use crate::simulation::shear::{shear, shear_of, ShearRotation, TURN_LIMIT};

verus! {

/// The largest edge that a chunk can have.
pub const MAX_CANVAS_SIZE: u32 = 16_384;

/// Coordinates of the world stay within this distance from the origin, on
/// both axes.
pub const WORLD_LIMIT: i32 = 0x4000_0000;

/// Whether `size` can be the edge of a chunk.
pub open spec fn canvas_size_ok(size: u32) -> bool {
    0 < size <= MAX_CANVAS_SIZE
}

/// Whether a point lies within the bounds of the world.
pub open spec fn within_world(pos: IVec2) -> bool {
    -WORLD_LIMIT <= pos.x <= WORLD_LIMIT && -WORLD_LIMIT <= pos.y <= WORLD_LIMIT
}

/// Tells whether a point lies within the bounds of the world.
pub fn is_within_world(pos: IVec2) -> (within: bool)
    ensures
        within == within_world(pos),
{
    -WORLD_LIMIT <= pos.x && pos.x <= WORLD_LIMIT && -WORLD_LIMIT <= pos.y && pos.y <= WORLD_LIMIT
}

/// Whether a point lies within the bounds of the world, or no more than a few
/// chunks beyond them.
pub open spec fn near_world(pos: IVec2) -> bool {
    -WORLD_LIMIT - 65_536 <= pos.x <= WORLD_LIMIT + 65_536 && -WORLD_LIMIT - 65_536 <= pos.y
        <= WORLD_LIMIT + 65_536
}

/// The column of `canvas_pos` in the canvas round the camera.
pub open spec fn canvas_column(canvas_pos: IVec2, camera_canvas_pos: IVec2, size: u32) -> int {
    canvas_pos.x + (size / 2) as int - camera_canvas_pos.x
}

/// The row of `canvas_pos` in the canvas round the camera.
pub open spec fn canvas_row(canvas_pos: IVec2, camera_canvas_pos: IVec2, size: u32) -> int {
    canvas_pos.y + (size / 2) as int - camera_canvas_pos.y
}

/// Whether `canvas_pos` lies in the canvas of `size` by `size` cells round
/// the camera.
pub open spec fn inside_sim_canvas(canvas_pos: IVec2, camera_canvas_pos: IVec2, size: u32) -> bool {
    in_grid(
        size as int,
        size as int,
        canvas_column(canvas_pos, camera_canvas_pos, size),
        canvas_row(canvas_pos, camera_canvas_pos, size),
    )
}

/// Tells whether `canvas_pos` lies in the canvas round the camera.
#[verifier::when_used_as_spec(inside_sim_canvas)]
pub fn is_inside_sim_canvas(
    canvas_pos: IVec2,
    camera_canvas_pos: IVec2,
    size: u32,
) -> (inside: bool)
    ensures
        inside == inside_sim_canvas(canvas_pos, camera_canvas_pos, size),
{
    let half = (size / 2) as i64;
    let x = canvas_pos.x as i64 + half - camera_canvas_pos.x as i64;
    let y = canvas_pos.y as i64 + half - camera_canvas_pos.y as i64;
    x >= 0 && x < size as i64 && y >= 0 && y < size as i64
}

/// The place of `canvas_pos` in a buffer that holds the canvas round the
/// camera row by row.
pub fn sim_canvas_index(canvas_pos: IVec2, camera_canvas_pos: IVec2, size: u32) -> (index: usize)
    requires
        canvas_size_ok(size),
        inside_sim_canvas(canvas_pos, camera_canvas_pos, size),
    ensures
        index == cell_index(
            size as int,
            canvas_column(canvas_pos, camera_canvas_pos, size),
            canvas_row(canvas_pos, camera_canvas_pos, size),
        ),
        index < size * size,
{
    let half = (size / 2) as i64;
    let x = canvas_pos.x as i64 + half - camera_canvas_pos.x as i64;
    let y = canvas_pos.y as i64 + half - camera_canvas_pos.y as i64;
    proof {
        lemma_cell_index_in_range(size as int, size as int, x as int, y as int);
        lemma_canvas_cells(size);
    }
    (y * size as i64 + x) as usize
}

/// Whether `canvas_pos` lies in the two by two chunks whose first cell is
/// `chunk_start`.
pub open spec fn in_window(canvas_pos: IVec2, chunk_start: IVec2, size: u32) -> bool {
    in_grid(2 * size, 2 * size, canvas_pos.x - chunk_start.x, canvas_pos.y - chunk_start.y)
}

/// Which of the four chunks of the window holds `canvas_pos`: 0 and 1 are the
/// lower two, 2 and 3 the upper two, the left one first.
pub open spec fn window_chunk_index(canvas_pos: IVec2, chunk_start: IVec2, size: u32) -> int {
    (canvas_pos.y - chunk_start.y) / (size as int) * 2 + (canvas_pos.x - chunk_start.x) / (
    size as int)
}

/// The place of `canvas_pos` in the buffer of the chunk that holds it.
pub open spec fn window_cell_index(canvas_pos: IVec2, chunk_start: IVec2, size: u32) -> int {
    cell_index(
        size as int,
        (canvas_pos.x - chunk_start.x) % (size as int),
        (canvas_pos.y - chunk_start.y) % (size as int),
    )
}

/// The point that lies at place `index` of chunk `chunk_index` of the window.
pub open spec fn window_pos(chunk_index: int, index: int, chunk_start: IVec2, size: u32) -> (
    int,
    int,
) {
    (
        chunk_start.x + (chunk_index % 2) * size + index % (size as int),
        chunk_start.y + (chunk_index / 2) * size + index / (size as int),
    )
}

/// Returns the chunk index as well as index inside the chunk...
pub fn sim_chunk_canvas_index(canvas_pos: IVec2, chunk_start: IVec2, size: u32) -> (place: (
    usize,
    usize,
))
    requires
        canvas_size_ok(size),
        in_window(canvas_pos, chunk_start, size),
    ensures
        place.0 == window_chunk_index(canvas_pos, chunk_start, size),
        place.1 == window_cell_index(canvas_pos, chunk_start, size),
        place.0 < 4,
        place.1 < size * size,
{
    let s = size as i64;
    let diff_x = canvas_pos.x as i64 - chunk_start.x as i64;
    let diff_y = canvas_pos.y as i64 - chunk_start.y as i64;
    proof {
        lemma_window_place(diff_x as int, s as int);
        lemma_window_place(diff_y as int, s as int);
        lemma_cell_index_in_range(
            s as int,
            s as int,
            (diff_x as int) % (s as int),
            (diff_y as int) % (s as int),
        );
        lemma_canvas_cells(size);
    }
    let index = ((diff_y % s) * s + (diff_x % s)) as usize;
    let chunk_index = ((diff_y / s) * 2 + diff_x / s) as usize;
    (chunk_index, index)
}

/// The point of the window that lies at place `index` of chunk `chunk_index`:
/// what `sim_chunk_canvas_index` is undone by.
pub fn canvas_pos_of_chunk_index(
    chunk_index: usize,
    index: usize,
    chunk_start: IVec2,
    size: u32,
) -> (canvas_pos: IVec2)
    requires
        canvas_size_ok(size),
        chunk_index < 4,
        index < size * size,
        near_world(chunk_start),
    ensures
        (canvas_pos.x as int, canvas_pos.y as int) == window_pos(
            chunk_index as int,
            index as int,
            chunk_start,
            size,
        ),
        in_window(canvas_pos, chunk_start, size),
{
    let s = size as usize;
    proof {
        crate::geometry::lemma_index_has_cell(s as int, s as int, index as int);
        lemma_canvas_cells(size);
        assert((chunk_index % 2) * s <= s && (chunk_index / 2) * s <= s) by (nonlinear_arith)
            requires
                chunk_index < 4,
                0 <= s,
        ;
    }
    let x = chunk_start.x as i64 + ((chunk_index % 2) * s + index % s) as i64;
    let y = chunk_start.y as i64 + ((chunk_index / 2) * s + index / s) as i64;
    IVec2 { x: x as i32, y: y as i32 }
}

/// A chunk has no more cells than can be counted and indexed.
pub proof fn lemma_canvas_cells(size: u32)
    requires
        canvas_size_ok(size),
    ensures
        size * size <= 0x1000_0000,
        size * size * 4 <= 0x4000_0000,
{
    assert(size * size <= 16_384 * 16_384) by (nonlinear_arith)
        requires
            0 < size <= 16_384,
    ;
}

/// A distance from the first cell of the window splits into the chunk and the
/// place within the chunk.
proof fn lemma_window_place(d: int, s: int)
    requires
        0 < s,
        0 <= d < 2 * s,
    ensures
        0 <= d / s < 2,
        0 <= d % s < s,
        d == (d / s) * s + d % s,
{
    lemma_fundamental_div_mod(d, s);
    vstd::arithmetic::div_mod::lemma_mod_bound(d, s);
    assert(0 <= d / s < 2 && s * (d / s) == (d / s) * s) by (nonlinear_arith)
        requires
            0 < s,
            0 <= d < 2 * s,
            d == s * (d / s) + d % s,
            0 <= d % s < s,
    ;
}

/// Converting a point of the window to the chunk that holds it and its place
/// in that chunk, and back, gives the point.
pub proof fn lemma_canvas_index_round_trip(canvas_pos: IVec2, chunk_start: IVec2, size: u32)
    requires
        0 < size,
        in_window(canvas_pos, chunk_start, size),
    ensures
        0 <= window_chunk_index(canvas_pos, chunk_start, size) < 4,
        0 <= window_cell_index(canvas_pos, chunk_start, size) < size * size,
        window_pos(
            window_chunk_index(canvas_pos, chunk_start, size),
            window_cell_index(canvas_pos, chunk_start, size),
            chunk_start,
            size,
        ) == (canvas_pos.x as int, canvas_pos.y as int),
{
    let s = size as int;
    let dx = canvas_pos.x - chunk_start.x;
    let dy = canvas_pos.y - chunk_start.y;
    lemma_window_place(dx, s);
    lemma_window_place(dy, s);
    lemma_cell_index_in_range(s, s, dx % s, dy % s);
    let chunk = dy / s * 2 + dx / s;
    let index = (dy % s) * s + dx % s;
    assert(chunk % 2 == dx / s && chunk / 2 == dy / s);
    lemma_fundamental_div_mod_converse(index, s, dy % s, dx % s);
}

/// Converting a place in a chunk of the window to its point, and back, gives
/// the place.
pub proof fn lemma_canvas_pos_round_trip(
    chunk_index: int,
    index: int,
    chunk_start: IVec2,
    size: u32,
    canvas_pos: IVec2,
)
    requires
        0 < size,
        0 <= chunk_index < 4,
        0 <= index < size * size,
        (canvas_pos.x as int, canvas_pos.y as int) == window_pos(
            chunk_index,
            index,
            chunk_start,
            size,
        ),
    ensures
        in_window(canvas_pos, chunk_start, size),
        window_chunk_index(canvas_pos, chunk_start, size) == chunk_index,
        window_cell_index(canvas_pos, chunk_start, size) == index,
{
    let s = size as int;
    crate::geometry::lemma_index_has_cell(s, s, index);
    let dx = (chunk_index % 2) * s + index % s;
    let dy = (chunk_index / 2) * s + index / s;
    assert(0 <= (chunk_index % 2) * s <= s && 0 <= (chunk_index / 2) * s <= s
        && (chunk_index % 2) * s == s * (chunk_index % 2) && (chunk_index / 2) * s == s * (
    chunk_index / 2)) by (nonlinear_arith)
        requires
            0 <= chunk_index < 4,
            0 < s,
    ;
    assert(dx == canvas_pos.x - chunk_start.x);
    assert(dy == canvas_pos.y - chunk_start.y);
    lemma_fundamental_div_mod_converse(dx, s, chunk_index % 2, index % s);
    lemma_fundamental_div_mod_converse(dy, s, chunk_index / 2, index / s);
}

/// The cell at place `index` of an object as it lies on the canvas: turned
/// round the middle of the object by `rotation` and moved to `pos`, with the
/// colour of its pixel, alpha in the top byte.
pub open spec fn temp_pixel_of(
    pixel_data: PixelData,
    pos: IVec2,
    rotation: ShearRotation,
    entity: u64,
    index: int,
) -> TempPixel {
    let w = pixel_data.width as int;
    let h = pixel_data.height as int;
    let turned = shear_of(rotation, index % w - w / 2, index / w - h / 2);
    let pixel = pixel_data.pixels[index];
    let at = pixel.color_index * 4;
    TempPixel {
        pixel_index: index as usize,
        canvas_pos: IVec2 { x: (turned.0 + pos.x) as i32, y: (turned.1 + pos.y) as i32 },
        matter: pixel.matter,
        color: pack_rgba(
            pixel_data.image.data[at + 3],
            pixel_data.image.data[at + 2],
            pixel_data.image.data[at + 1],
            pixel_data.image.data[at],
        ),
        entity,
    }
}

/// The alive cells among the first `upto` cells of an object, as they lie on
/// the canvas.
pub open spec fn alive_pixels(
    pixel_data: PixelData,
    pos: IVec2,
    rotation: ShearRotation,
    entity: u64,
    upto: int,
) -> Seq<TempPixel>
    decreases upto,
{
    if upto <= 0 {
        Seq::empty()
    } else {
        let before = alive_pixels(pixel_data, pos, rotation, entity, upto - 1);
        if pixel_data.pixels[upto - 1].is_alive {
            before.push(temp_pixel_of(pixel_data, pos, rotation, entity, upto - 1))
        } else {
            before
        }
    }
}

/// The alive cells of an object as they lie on the canvas, when the middle of
/// the object lies at `pos` and the object is turned by `rotation`.
pub fn get_alive_pixels(
    pixel_data: &PixelData,
    pos: IVec2,
    rotation: ShearRotation,
    entity: u64,
) -> (pixels: Vec<TempPixel>)
    requires
        pixel_data.wf(),
        pixel_data.width <= TURN_LIMIT,
        pixel_data.height <= TURN_LIMIT,
        within_world(pos),
        rotation.wf(),
    ensures
        pixels@ == alive_pixels(
            *pixel_data,
            pos,
            rotation,
            entity,
            pixel_data.pixels.len() as int,
        ),
{
    let w = pixel_data.width as usize;
    let h = pixel_data.height as usize;
    let half_w = (pixel_data.width / 2) as i32;
    let half_h = (pixel_data.height / 2) as i32;
    let mut pixels: Vec<TempPixel> = Vec::new();
    let mut index: usize = 0;
    while index < pixel_data.pixels.len()
        invariant
            index <= pixel_data.pixels.len(),
            pixel_data.wf(),
            w == pixel_data.width,
            h == pixel_data.height,
            w <= TURN_LIMIT,
            h <= TURN_LIMIT,
            half_w == w / 2,
            half_h == h / 2,
            within_world(pos),
            rotation.wf(),
            pixels@ == alive_pixels(*pixel_data, pos, rotation, entity, index as int),
        decreases pixel_data.pixels.len() - index,
    {
        let pixel = pixel_data.pixels[index];
        if pixel.is_alive {
            proof {
                lemma_index_has_cell(w as int, h as int, index as int);
                assert(pixel.color_index < pixel_data.image.width * pixel_data.image.height);
            }
            let x = (index % w) as i32;
            let y = (index / w) as i32;
            let pixel_pos_relative_to_center = IVec2 { x: x - half_w, y: y - half_h };
            let new_pos = shear(rotation, pixel_pos_relative_to_center);
            let canvas_pos = IVec2 { x: new_pos.x + pos.x, y: new_pos.y + pos.y };
            let rgba_index = pixel.color_index * 4;
            let r = pixel_data.image.data[rgba_index];
            let g = pixel_data.image.data[rgba_index + 1];
            let b = pixel_data.image.data[rgba_index + 2];
            let a = pixel_data.image.data[rgba_index + 3];
            pixels.push(
                TempPixel {
                    pixel_index: index,
                    canvas_pos,
                    matter: pixel.matter,
                    color: u8_rgba_to_u32_rgba(a, b, g, r),
                    entity,
                },
            );
        }
        index += 1;
    }
    pixels
}

} // verus!
