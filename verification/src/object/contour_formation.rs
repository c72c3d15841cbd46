//! From an object's image to its cells, and the thinning of outlines.
use std::sync::Arc;
use vstd::prelude::*;
use crate::bitmap_image::BitmapImage;
use crate::geometry::{
    cell_index, in_grid, lemma_cell_index_in_range, lemma_cell_index_ordered, IVec2,
};
use crate::object::matter_pixel::MatterPixel;
use crate::object::pixels::{share_image, PixelData};

verus! {

/// The cell that the pixel in column `x` of row `row` of `image`, the rows
/// counted from the top, gives: alive and of `matter` unless the pixel is
/// fully transparent, and coloured by that pixel either way.
pub open spec fn cell_of_image_pixel(
    image: BitmapImage,
    matter: u32,
    empty_matter: u32,
    x: int,
    row: int,
) -> MatterPixel {
    let index = cell_index(image.width as int, x, row);
    if image.data[index * 4 + 3] == 0 {
        MatterPixel { matter: empty_matter, color_index: index as usize, is_alive: false }
    } else {
        MatterPixel { matter, color_index: index as usize, is_alive: true }
    }
}

/// Makes the cells of an object from its image, and the bitmap of the alive
/// ones, from which the outline of the object is traced. The cells are kept
/// from the bottom row up, so the image's top row comes last.
pub fn form_pixel_data_with_contours_from_image(
    image: &Arc<BitmapImage>,
    matter: u32,
    empty_matter: u32,
) -> (formed: (PixelData, Vec<bool>))
    requires
        image.wf(),
    ensures
        formed.0.wf(),
        formed.0.image == *image,
        formed.0.width == image.width,
        formed.0.height == image.height,
        formed.1.len() == image.width * image.height,
        forall|x: int, y: int|
            in_grid(image.width as int, image.height as int, x, y)
                ==> #[trigger] formed.0.pixels[cell_index(image.width as int, x, y)]
                == cell_of_image_pixel(**image, matter, empty_matter, x, image.height - 1 - y),
        forall|i: int|
            0 <= i < formed.1.len() ==> #[trigger] formed.1[i] == formed.0.pixels[i].is_alive,
{
    let w = image.width as usize;
    let h = image.height as usize;
    let ghost gw = image.width as int;
    let ghost gh = image.height as int;
    assert(gw * gh <= gw * gh * 4) by (nonlinear_arith)
        requires
            0 <= gw,
            0 <= gh,
    ;
    let mut bitmap: Vec<bool> = Vec::new();
    let mut pixels: Vec<MatterPixel> = Vec::new();
    let mut y: usize = 0;
    while y < h
        invariant
            y <= h,
            w == image.width,
            h == image.height,
            gw == w,
            gh == h,
            image.wf(),
            pixels.len() == y * w,
            bitmap.len() == pixels.len(),
            forall|i: int| 0 <= i < bitmap.len() ==> #[trigger] bitmap[i] == pixels[i].is_alive,
            forall|i: int|
                0 <= i < pixels.len() ==> (#[trigger] pixels[i]).color_index < gw * gh,
            forall|cx: int, cy: int|
                in_grid(gw, gh, cx, cy) && cy < y ==> #[trigger] pixels[cell_index(gw, cx, cy)]
                    == cell_of_image_pixel(**image, matter, empty_matter, cx, gh - 1 - cy),
        decreases h - y,
    {
        let mut x: usize = 0;
        while x < w
            invariant
                x <= w,
                y < h,
                w == image.width,
                h == image.height,
                gw == w,
                gh == h,
                image.wf(),
                pixels.len() == y * w + x,
                bitmap.len() == pixels.len(),
                forall|i: int| 0 <= i < bitmap.len() ==> #[trigger] bitmap[i] == pixels[i].is_alive,
                forall|i: int|
                    0 <= i < pixels.len() ==> (#[trigger] pixels[i]).color_index < gw * gh,
                forall|cx: int, cy: int|
                    in_grid(gw, gh, cx, cy) && (cy < y || (cy == y && cx < x))
                        ==> #[trigger] pixels[cell_index(gw, cx, cy)] == cell_of_image_pixel(
                        **image,
                        matter,
                        empty_matter,
                        cx,
                        gh - 1 - cy,
                    ),
            decreases w - x,
        {
            proof {
                lemma_cell_index_in_range(gw, gh, x as int, gh - 1 - y);
                assert forall|cx: int, cy: int|
                    in_grid(gw, gh, cx, cy) && (cy < y || (cy == y && cx < x)) implies cell_index(
                    gw,
                    cx,
                    cy,
                ) < pixels.len() by {
                    lemma_cell_index_ordered(gw, cx, cy, x as int, y as int);
                }
            }
            let index = (h - 1 - y) * w + x;
            let alpha = image.data[index * 4 + 3];
            if alpha == 0 {
                pixels.push(MatterPixel { matter: empty_matter, color_index: index,
                    is_alive: false });
                bitmap.push(false);
            } else {
                pixels.push(MatterPixel { matter, color_index: index, is_alive: true });
                bitmap.push(true);
            }
            x += 1;
        }
        assert(y * w + w == (y + 1) * w) by (nonlinear_arith);
        y += 1;
    }
    assert(h * w == w * h) by (nonlinear_arith);
    let pixel_data = PixelData {
        image: share_image(image),
        pixels,
        width: image.width,
        height: image.height,
    };
    (pixel_data, bitmap)
}

/// The coordinates of the vertices of an outline stay within this distance
/// from the origin.
pub const RING_LIMIT: i32 = 1_048_576;

/// Whether `ring` was traced in a bitmap of `width` by `height` blocks: its
/// vertices, in half blocks from the lower left corner of the bitmap, lie
/// within the bitmap.
pub open spec fn traced_in(ring: Seq<IVec2>, width: u32, height: u32) -> bool {
    forall|i: int|
        0 <= i < ring.len() ==> 0 <= (#[trigger] ring[i]).x <= 2 * width && 0 <= ring[i].y <= 2
            * height
}

/// A vertex of an outline seen from the position of a body of `width` by
/// `height` blocks of `ratio` by `ratio` cells, which is the middle of the
/// cell at its middle: in half cells.
pub open spec fn centered(vertex: IVec2, width: u32, height: u32, ratio: u32) -> IVec2 {
    IVec2 {
        x: ((vertex.x - width) * ratio - 1) as i32,
        y: ((vertex.y - height) * ratio - 1) as i32,
    }
}

/// Whether outlines can have been traced in a bitmap of `width` by `height`
/// blocks of `ratio` by `ratio` cells, and `rings` are such outlines.
pub open spec fn all_traced_in(
    rings: Seq<Vec<IVec2>>,
    width: u32,
    height: u32,
    ratio: u32,
) -> bool {
    &&& 0 < ratio
    &&& 2 * width * ratio < RING_LIMIT
    &&& 2 * height * ratio < RING_LIMIT
    &&& forall|i: int| 0 <= i < rings.len() ==> traced_in(#[trigger] rings[i]@, width, height)
}

/// Forms the contour vertices of a body from the outlines that were traced
/// in its bitmap of `width` by `height` blocks of `ratio` by `ratio` cells:
/// every vertex as it is seen from the position of the body. The vertices
/// are given in half blocks and returned in half cells. Outlines that were
/// not traced in such a bitmap give nothing.
pub fn form_contour_vertices(
    rings: &Vec<Vec<IVec2>>,
    width: u32,
    height: u32,
    ratio: u32,
) -> (formed: Option<Vec<Vec<IVec2>>>)
    ensures
        formed.is_some() <==> all_traced_in(rings@, width, height, ratio),
        formed matches Some(contours) ==> {
            &&& contours.len() == rings.len()
            &&& forall|i: int|
                0 <= i < rings.len() ==> (#[trigger] contours[i]).len() == rings[i].len()
                    && ring_bounded(contours[i]@)
            &&& forall|i: int, j: int|
                0 <= i < rings.len() && 0 <= j < rings[i].len() ==> (#[trigger] contours[i][j])
                    == centered(rings[i][j], width, height, ratio)
        },
{
    assert(width * ratio <= 0xffff_ffff * 0xffff_ffff && height * ratio <= 0xffff_ffff
        * 0xffff_ffff) by (nonlinear_arith)
        requires
            width <= 0xffff_ffff,
            height <= 0xffff_ffff,
            ratio <= 0xffff_ffff,
    ;
    assert(2 * width * ratio == 2 * (width * ratio) && 2 * height * ratio == 2 * (height * ratio))
        by (nonlinear_arith);
    if ratio == 0 || 2 * ((width as u128) * (ratio as u128)) >= 1_048_576 || 2 * ((height as u128)
        * (ratio as u128)) >= 1_048_576 {
        return None;
    }
    assert(width <= 2 * width * ratio && height <= 2 * height * ratio) by (nonlinear_arith)
        requires
            0 < ratio,
    ;
    let mut contours: Vec<Vec<IVec2>> = Vec::new();
    let mut i: usize = 0;
    while i < rings.len()
        invariant
            i <= rings.len(),
            0 < ratio,
            2 * width * ratio < RING_LIMIT,
            2 * height * ratio < RING_LIMIT,
            width < RING_LIMIT,
            height < RING_LIMIT,
            forall|k: int| 0 <= k < i ==> traced_in(#[trigger] rings[k]@, width, height),
            contours.len() == i,
            forall|k: int|
                0 <= k < i ==> (#[trigger] contours[k]).len() == rings[k].len() && ring_bounded(
                    contours[k]@,
                ),
            forall|k: int, j: int|
                0 <= k < i && 0 <= j < rings[k].len() ==> (#[trigger] contours[k][j]) == centered(
                    rings[k][j],
                    width,
                    height,
                    ratio,
                ),
        decreases rings.len() - i,
    {
        let ring = &rings[i];
        let mut contour: Vec<IVec2> = Vec::new();
        let mut j: usize = 0;
        while j < ring.len()
            invariant
                j <= ring.len(),
                i < rings.len(),
                ring@ == rings[i as int]@,
                0 < ratio,
                2 * width * ratio < RING_LIMIT,
                2 * height * ratio < RING_LIMIT,
                width < RING_LIMIT,
                height < RING_LIMIT,
                traced_in(ring@.subrange(0, j as int), width, height),
                contour.len() == j,
                ring_bounded(contour@),
                forall|k: int|
                    0 <= k < j ==> (#[trigger] contour[k])
                        == centered(ring[k], width, height, ratio),
            decreases ring.len() - j,
        {
            let vertex = ring[j];
            if vertex.x < 0 || vertex.x > 2 * (width as i32) || vertex.y < 0 || vertex.y > 2 * (
            height as i32) {
                assert(!traced_in(rings[i as int]@, width, height));
                return None;
            }
            proof {
                let before = ring@.subrange(0, j as int);
                let after = ring@.subrange(0, j + 1);
                assert forall|k: int| 0 <= k < after.len() implies 0 <= (#[trigger] after[k]).x <= 2
                    * width && 0 <= after[k].y <= 2 * height by {
                    if k < j {
                        assert(after[k] == before[k]);
                    }
                }
                lemma_centered_bounds(vertex.x as int, width as int, ratio as int);
                lemma_centered_bounds(vertex.y as int, height as int, ratio as int);
            }
            let x: i64 = (vertex.x as i64 - width as i64) * (ratio as i64) - 1;
            let y: i64 = (vertex.y as i64 - height as i64) * (ratio as i64) - 1;
            contour.push(IVec2 { x: x as i32, y: y as i32 });
            j += 1;
        }
        assert(ring@.subrange(0, ring.len() as int) =~= ring@);
        contours.push(contour);
        i += 1;
    }
    Some(contours)
}

/// A vertex within a bitmap stays within the limit when it is seen from the
/// middle.
proof fn lemma_centered_bounds(x: int, width: int, ratio: int)
    requires
        0 <= x <= 2 * width,
        0 < ratio,
        2 * width * ratio < RING_LIMIT,
    ensures
        -RING_LIMIT < (x - width) * ratio < RING_LIMIT,
{
    let d = x - width;
    let reach = width * ratio;
    assert(d * ratio <= reach) by (nonlinear_arith)
        requires
            d <= width,
            0 < ratio,
            reach == width * ratio,
    ;
    assert(d * ratio >= -reach) by (nonlinear_arith)
        requires
            d >= -width,
            0 < ratio,
            reach == width * ratio,
    ;
    assert(2 * width * ratio == 2 * reach && 0 <= reach) by (nonlinear_arith)
        requires
            0 <= width,
            0 < ratio,
            reach == width * ratio,
    ;
}

/// The outlines that the colliders of an object are made of: those with
/// three vertices or more, as they are.
pub open spec fn collider_outlines(rings: Seq<Seq<IVec2>>) -> Seq<Seq<IVec2>>
    decreases rings.len(),
{
    if rings.len() == 0 {
        Seq::empty()
    } else {
        let before = collider_outlines(rings.drop_last());
        if rings.last().len() < 3 {
            before
        } else {
            before.push(rings.last())
        }
    }
}

/// Leaves out the outlines that no collider can be made of.
pub fn create_object_outlines(rings: Vec<Vec<IVec2>>) -> (outlines: Vec<Vec<IVec2>>)
    ensures
        outlines_of(outlines@) == collider_outlines(outlines_of(rings@)),
{
    let ghost all = outlines_of(rings@);
    let mut rings = rings;
    let mut outlines: Vec<Vec<IVec2>> = Vec::new();
    let mut i: usize = 0;
    assert(outlines_of(outlines@) =~= Seq::<Seq<IVec2>>::empty());
    while i < rings.len()
        invariant
            i <= rings.len() == all.len(),
            forall|k: int| i <= k < rings.len() ==> (#[trigger] rings[k])@ == all[k],
            outlines_of(outlines@) == collider_outlines(all.subrange(0, i as int)),
        decreases rings.len() - i,
    {
        let ghost made = outlines_of(outlines@);
        proof {
            assert(all.subrange(0, i + 1).drop_last() =~= all.subrange(0, i as int));
            assert(all.subrange(0, i + 1).last() == all[i as int]);
        }
        if rings[i].len() >= 3 {
            let mut ring: Vec<IVec2> = Vec::new();
            core::mem::swap(&mut rings[i], &mut ring);
            outlines.push(ring);
            assert(outlines_of(outlines@) =~= made.push(all[i as int]));
        }
        i += 1;
    }
    assert(all.subrange(0, all.len() as int) =~= all);
    outlines
}

/// How far a vertex may lie from a chord and still be dropped: the square of
/// the distance, as the fraction `numer / denom`.
#[derive(Debug, Clone, Copy, PartialEq, Eq, Structural)]
pub struct Tolerance {
    pub numer: u32,
    pub denom: u32,
}

/// Whether the coordinates of every vertex are within the limit.
pub open spec fn ring_bounded(vertices: Seq<IVec2>) -> bool {
    forall|i: int|
        0 <= i < vertices.len() ==> -RING_LIMIT <= (#[trigger] vertices[i]).x <= RING_LIMIT
            && -RING_LIMIT <= vertices[i].y <= RING_LIMIT
}

/// The square of the length of the chord from `a` to `b`; 1 where the two
/// are one point, so that it can be divided by.
pub open spec fn chord_squared(a: IVec2, b: IVec2) -> int {
    if a == b {
        1
    } else {
        (b.x - a.x) * (b.x - a.x) + (b.y - a.y) * (b.y - a.y)
    }
}

/// How far `p` lies from the chord from `a` to `b`: the square of its
/// distance from the line through them, times the square of the length of
/// the chord. Where `a` and `b` are one point, it is the square of the
/// distance from that point.
pub open spec fn offset_measure(p: IVec2, a: IVec2, b: IVec2) -> int {
    if a == b {
        (p.x - a.x) * (p.x - a.x) + (p.y - a.y) * (p.y - a.y)
    } else {
        let cross = (b.y - a.y) * p.x - (b.x - a.x) * p.y + b.x * a.y - b.y * a.x;
        cross * cross
    }
}

/// Whether `p` lies farther from the chord from `a` to `b` than the
/// tolerance allows.
pub open spec fn too_far(p: IVec2, a: IVec2, b: IVec2, tolerance: Tolerance) -> bool {
    offset_measure(p, a, b) * tolerance.denom > tolerance.numer * chord_squared(a, b)
}

/// The first of the vertices after `lo` and before `upto` that none of them
/// lies farther than from the chord from vertex `lo` to vertex `hi`.
pub open spec fn farthest_between(vertices: Seq<IVec2>, lo: int, hi: int, upto: int) -> int
    decreases upto - lo,
{
    if upto <= lo + 2 {
        lo + 1
    } else {
        let before = farthest_between(vertices, lo, hi, upto - 1);
        if offset_measure(vertices[upto - 1], vertices[lo], vertices[hi]) > offset_measure(
            vertices[before],
            vertices[lo],
            vertices[hi],
        ) {
            upto - 1
        } else {
            before
        }
    }
}

/// The vertices after `lo`, up to `hi`, that are kept: where a vertex
/// between the two lies too far from their chord, the farthest is kept, and
/// so are those that are kept on either side of it; otherwise `hi` alone.
pub open spec fn kept_between(vertices: Seq<IVec2>, lo: int, hi: int, tolerance: Tolerance) -> Seq<
    IVec2,
>
    decreases hi - lo,
{
    if hi <= lo {
        Seq::empty()
    } else if hi == lo + 1 {
        seq![vertices[hi]]
    } else {
        let far = farthest_between(vertices, lo, hi, hi);
        if lo < far < hi && too_far(vertices[far], vertices[lo], vertices[hi], tolerance) {
            kept_between(vertices, lo, far, tolerance) + kept_between(vertices, far, hi, tolerance)
        } else {
            seq![vertices[hi]]
        }
    }
}

/// The outline with the vertices dropped that lie near enough to the chord
/// between the vertices that are kept round them. An outline of fewer than
/// four vertices is left as it is.
pub open spec fn simplified(vertices: Seq<IVec2>, tolerance: Tolerance) -> Seq<IVec2> {
    if vertices.len() < 4 {
        vertices
    } else {
        seq![vertices[0]] + kept_between(vertices, 0, vertices.len() - 1, tolerance)
    }
}

/// The farthest vertex lies between the two ends.
pub proof fn lemma_farthest_between(vertices: Seq<IVec2>, lo: int, hi: int, upto: int)
    requires
        lo + 2 <= upto,
    ensures
        lo < farthest_between(vertices, lo, hi, upto) < upto,
        forall|i: int|
            lo < i < upto ==> offset_measure(#[trigger] vertices[i], vertices[lo], vertices[hi])
                <= offset_measure(
                vertices[farthest_between(vertices, lo, hi, upto)],
                vertices[lo],
                vertices[hi],
            ),
    decreases upto - lo,
{
    if upto > lo + 2 {
        lemma_farthest_between(vertices, lo, hi, upto - 1);
    }
}

/// Of the vertices between two ends, the last is kept, and no more are kept
/// than there are.
pub proof fn lemma_kept_between(vertices: Seq<IVec2>, lo: int, hi: int, tolerance: Tolerance)
    requires
        0 <= lo < hi < vertices.len(),
    ensures
        0 < kept_between(vertices, lo, hi, tolerance).len() <= hi - lo,
        kept_between(vertices, lo, hi, tolerance).last() == vertices[hi],
    decreases hi - lo,
{
    if hi > lo + 1 {
        let far = farthest_between(vertices, lo, hi, hi);
        lemma_farthest_between(vertices, lo, hi, hi);
        if too_far(vertices[far], vertices[lo], vertices[hi], tolerance) {
            lemma_kept_between(vertices, lo, far, tolerance);
            lemma_kept_between(vertices, far, hi, tolerance);
        }
    }
}

/// The places in the outline of the vertices that `kept_between` keeps.
pub open spec fn kept_places(vertices: Seq<IVec2>, lo: int, hi: int, tolerance: Tolerance) -> Seq<
    int,
>
    decreases hi - lo,
{
    if hi <= lo {
        Seq::empty()
    } else if hi == lo + 1 {
        seq![hi]
    } else {
        let far = farthest_between(vertices, lo, hi, hi);
        if lo < far < hi && too_far(vertices[far], vertices[lo], vertices[hi], tolerance) {
            kept_places(vertices, lo, far, tolerance) + kept_places(vertices, far, hi, tolerance)
        } else {
            seq![hi]
        }
    }
}

/// Whether no vertex between the places `a` and `b` lies farther from the
/// chord between the two than the tolerance allows.
pub open spec fn near_chord(vertices: Seq<IVec2>, a: int, b: int, tolerance: Tolerance) -> bool {
    forall|i: int|
        a < i < b ==> !too_far(#[trigger] vertices[i], vertices[a], vertices[b], tolerance)
}

/// Whether the places `places` thin the outline out from place `lo` up to
/// place `hi`: they rise from after `lo` up to `hi`, and every vertex between
/// two of them that follow each other, `lo` being the first, lies near the
/// chord between the two.
pub open spec fn thins_out(
    vertices: Seq<IVec2>,
    lo: int,
    places: Seq<int>,
    hi: int,
    tolerance: Tolerance,
) -> bool {
    &&& places.len() > 0
    &&& places.last() == hi
    &&& lo < places[0]
    &&& near_chord(vertices, lo, places[0], tolerance)
    &&& forall|k: int|
        0 <= k < places.len() - 1 ==> (#[trigger] places[k]) < places[k + 1] && near_chord(
            vertices,
            places[k],
            places[k + 1],
            tolerance,
        )
}

/// The vertices that are kept between two ends are vertices of the outline,
/// in their order, and every vertex that is dropped lies no farther than the
/// tolerance allows from the chord between the kept vertices round it.
pub proof fn lemma_dropped_vertices_are_near(
    vertices: Seq<IVec2>,
    lo: int,
    hi: int,
    tolerance: Tolerance,
)
    requires
        0 <= lo < hi < vertices.len(),
    ensures
        thins_out(vertices, lo, kept_places(vertices, lo, hi, tolerance), hi, tolerance),
        kept_between(vertices, lo, hi, tolerance).len() == kept_places(
            vertices,
            lo,
            hi,
            tolerance,
        ).len(),
        forall|k: int|
            0 <= k < kept_places(vertices, lo, hi, tolerance).len() ==> kept_between(
                vertices,
                lo,
                hi,
                tolerance,
            )[k] == vertices[#[trigger] kept_places(vertices, lo, hi, tolerance)[k]],
    decreases hi - lo,
{
    let places = kept_places(vertices, lo, hi, tolerance);
    if hi > lo + 1 {
        let far = farthest_between(vertices, lo, hi, hi);
        lemma_farthest_between(vertices, lo, hi, hi);
        if too_far(vertices[far], vertices[lo], vertices[hi], tolerance) {
            lemma_dropped_vertices_are_near(vertices, lo, far, tolerance);
            lemma_dropped_vertices_are_near(vertices, far, hi, tolerance);
            let left = kept_places(vertices, lo, far, tolerance);
            let right = kept_places(vertices, far, hi, tolerance);
            assert(places == left + right);
            assert forall|k: int| 0 <= k < places.len() - 1 implies (#[trigger] places[k])
                < places[k + 1] && near_chord(vertices, places[k], places[k + 1], tolerance) by {
                if k < left.len() - 1 {
                    assert(places[k] == left[k] && places[k + 1] == left[k + 1]);
                } else if k == left.len() - 1 {
                    assert(places[k] == left.last() && places[k + 1] == right[0]);
                } else {
                    assert(places[k] == right[k - left.len()]);
                    assert(places[k + 1] == right[k - left.len() + 1]);
                }
            }
            assert(places[0] == left[0]);
            assert(places.last() == right.last());
        } else {
            let measure = offset_measure(vertices[far], vertices[lo], vertices[hi]);
            let allowed = tolerance.numer * chord_squared(vertices[lo], vertices[hi]);
            assert forall|i: int| lo < i < hi implies !too_far(
                #[trigger] vertices[i],
                vertices[lo],
                vertices[hi],
                tolerance,
            ) by {
                let nearer = offset_measure(vertices[i], vertices[lo], vertices[hi]);
                assert(nearer * tolerance.denom <= measure * tolerance.denom) by (nonlinear_arith)
                    requires
                        nearer <= measure,
                        0 <= tolerance.denom,
                ;
            }
        }
    }
}

/// The places in the outline of the vertices of the simplified outline.
pub open spec fn simplified_places(vertices: Seq<IVec2>, tolerance: Tolerance) -> Seq<int> {
    if vertices.len() < 4 {
        Seq::new(vertices.len(), |i: int| i)
    } else {
        seq![0int] + kept_places(vertices, 0, vertices.len() - 1, tolerance)
    }
}

/// A simplified outline holds vertices of the outline, in their order,
/// from the first to the last; and every vertex that it leaves out lies no
/// farther than the tolerance allows from the chord between the two vertices
/// round it that are kept.
pub proof fn lemma_simplified_stays_near(vertices: Seq<IVec2>, tolerance: Tolerance)
    requires
        vertices.len() > 0,
    ensures
        simplified(vertices, tolerance).len() == simplified_places(vertices, tolerance).len(),
        simplified_places(vertices, tolerance)[0] == 0,
        simplified_places(vertices, tolerance).last() == vertices.len() - 1,
        forall|k: int|
            0 <= k < simplified_places(vertices, tolerance).len() ==> simplified(
                vertices,
                tolerance,
            )[k] == vertices[#[trigger] simplified_places(vertices, tolerance)[k]],
        forall|k: int|
            0 <= k < simplified_places(vertices, tolerance).len() - 1 ==> (
            #[trigger] simplified_places(vertices, tolerance)[k]) < simplified_places(
                vertices,
                tolerance,
            )[k + 1] && near_chord(
                vertices,
                simplified_places(vertices, tolerance)[k],
                simplified_places(vertices, tolerance)[k + 1],
                tolerance,
            ),
{
    let places = simplified_places(vertices, tolerance);
    if vertices.len() >= 4 {
        let rest = kept_places(vertices, 0, vertices.len() - 1, tolerance);
        lemma_dropped_vertices_are_near(vertices, 0, vertices.len() - 1, tolerance);
        assert(places[0] == 0);
        assert(places.last() == rest.last());
        assert forall|k: int| 0 <= k < places.len() - 1 implies (#[trigger] places[k]) < places[k
            + 1] && near_chord(vertices, places[k], places[k + 1], tolerance) by {
            if k == 0 {
                assert(places[1] == rest[0]);
            } else {
                assert(places[k] == rest[k - 1] && places[k + 1] == rest[k]);
            }
        }
        assert forall|k: int| 0 <= k < places.len() implies simplified(vertices, tolerance)[k]
            == vertices[#[trigger] places[k]] by {
            if k > 0 {
                assert(places[k] == rest[k - 1]);
                assert(simplified(vertices, tolerance)[k] == kept_between(
                    vertices,
                    0,
                    vertices.len() - 1,
                    tolerance,
                )[k - 1]);
            }
        }
    }
}

/// A simplified outline starts and ends where the outline does, and has no
/// more vertices.
pub proof fn lemma_simplified_ends(vertices: Seq<IVec2>, tolerance: Tolerance)
    requires
        vertices.len() > 0,
    ensures
        0 < simplified(vertices, tolerance).len() <= vertices.len(),
        simplified(vertices, tolerance).first() == vertices.first(),
        simplified(vertices, tolerance).last() == vertices.last(),
{
    if vertices.len() >= 4 {
        lemma_kept_between(vertices, 0, vertices.len() - 1, tolerance);
    }
}

/// How far `p` lies from the chord from `a` to `b`.
fn measure_offset(p: IVec2, a: IVec2, b: IVec2) -> (measure: i128)
    requires
        -RING_LIMIT <= p.x <= RING_LIMIT && -RING_LIMIT <= p.y <= RING_LIMIT,
        -RING_LIMIT <= a.x <= RING_LIMIT && -RING_LIMIT <= a.y <= RING_LIMIT,
        -RING_LIMIT <= b.x <= RING_LIMIT && -RING_LIMIT <= b.y <= RING_LIMIT,
    ensures
        measure == offset_measure(p, a, b),
        0 <= measure <= 0x400000_0000_0000_0000_0000,
{
    if a.x == b.x && a.y == b.y {
        let dx = p.x as i128 - a.x as i128;
        let dy = p.y as i128 - a.y as i128;
        assert(0 <= dx * dx <= 0x20_0000 * 0x20_0000 && 0 <= dy * dy <= 0x20_0000 * 0x20_0000)
            by (nonlinear_arith)
            requires
                -0x20_0000 <= dx <= 0x20_0000,
                -0x20_0000 <= dy <= 0x20_0000,
        ;
        dx * dx + dy * dy
    } else {
        let x_diff = b.x as i128 - a.x as i128;
        let y_diff = b.y as i128 - a.y as i128;
        let px = p.x as i128;
        let py = p.y as i128;
        let ax = a.x as i128;
        let ay = a.y as i128;
        let bx = b.x as i128;
        let by = b.y as i128;
        assert(-0x200_0000_0000 <= y_diff * px <= 0x200_0000_0000 && -0x200_0000_0000 <= x_diff
            * py <= 0x200_0000_0000 && -0x200_0000_0000 <= bx * ay <= 0x200_0000_0000
            && -0x200_0000_0000 <= by * ax <= 0x200_0000_0000) by (nonlinear_arith)
            requires
                -0x20_0000 <= x_diff <= 0x20_0000,
                -0x20_0000 <= y_diff <= 0x20_0000,
                -0x10_0000 <= px <= 0x10_0000,
                -0x10_0000 <= py <= 0x10_0000,
                -0x10_0000 <= ax <= 0x10_0000,
                -0x10_0000 <= ay <= 0x10_0000,
                -0x10_0000 <= bx <= 0x10_0000,
                -0x10_0000 <= by <= 0x10_0000,
        ;
        let cross = y_diff * px - x_diff * py + bx * ay - by * ax;
        assert(0 <= cross * cross <= 0x400000_0000_0000_0000_0000) by (nonlinear_arith)
            requires
                -0x800_0000_0000 <= cross <= 0x800_0000_0000,
        ;
        cross * cross
    }
}

/// Whether a vertex with the offset `measure` from the chord from `a` to `b`
/// lies too far from it.
fn is_too_far(measure: i128, a: IVec2, b: IVec2, tolerance: Tolerance) -> (far: bool)
    requires
        0 <= measure <= 0x400000_0000_0000_0000_0000,
        -RING_LIMIT <= a.x <= RING_LIMIT && -RING_LIMIT <= a.y <= RING_LIMIT,
        -RING_LIMIT <= b.x <= RING_LIMIT && -RING_LIMIT <= b.y <= RING_LIMIT,
    ensures
        far == (measure * tolerance.denom > tolerance.numer * chord_squared(a, b)),
{
    let chord: i128 = if a.x == b.x && a.y == b.y {
        1
    } else {
        let dx = b.x as i128 - a.x as i128;
        let dy = b.y as i128 - a.y as i128;
        assert(0 <= dx * dx <= 0x20_0000 * 0x20_0000 && 0 <= dy * dy <= 0x20_0000 * 0x20_0000)
            by (nonlinear_arith)
            requires
                -0x20_0000 <= dx <= 0x20_0000,
                -0x20_0000 <= dy <= 0x20_0000,
        ;
        dx * dx + dy * dy
    };
    assert(0 <= measure * tolerance.denom <= 0x400000_0000_0000_0000_0000 * 0xffff_ffff && 0
        <= tolerance.numer * chord <= 0xffff_ffff * 0x800_0000_0000) by (nonlinear_arith)
        requires
            0 <= measure <= 0x400000_0000_0000_0000_0000,
            0 <= chord <= 0x800_0000_0000,
            tolerance.denom <= 0xffff_ffff,
            tolerance.numer <= 0xffff_ffff,
    ;
    measure * (tolerance.denom as i128) > (tolerance.numer as i128) * chord
}

/// Adds to `kept` the vertices after `lo`, up to `hi`, that are kept.
fn simplify_between(
    vertices: &Vec<IVec2>,
    lo: usize,
    hi: usize,
    tolerance: Tolerance,
    kept: &mut Vec<IVec2>,
)
    requires
        lo < hi < vertices.len(),
        ring_bounded(vertices@),
    ensures
        final(kept)@ == old(kept)@ + kept_between(vertices@, lo as int, hi as int, tolerance),
    decreases hi - lo,
{
    if hi == lo + 1 {
        kept.push(vertices[hi]);
        assert(kept@ =~= old(kept)@ + seq![vertices[hi as int]]);
        return ;
    }
    let a = vertices[lo];
    let b = vertices[hi];
    let mut farthest_point_index = lo + 1;
    let mut d_squared_max = measure_offset(vertices[lo + 1], a, b);
    let mut i = lo + 2;
    while i < hi
        invariant
            lo + 2 <= i <= hi,
            hi < vertices.len(),
            ring_bounded(vertices@),
            a == vertices[lo as int],
            b == vertices[hi as int],
            farthest_point_index == farthest_between(vertices@, lo as int, hi as int, i as int),
            lo < farthest_point_index < i,
            d_squared_max == offset_measure(vertices[farthest_point_index as int], a, b),
            0 <= d_squared_max <= 0x400000_0000_0000_0000_0000,
        decreases hi - i,
    {
        let d_squared = measure_offset(vertices[i], a, b);
        if d_squared > d_squared_max {
            farthest_point_index = i;
            d_squared_max = d_squared;
        }
        i += 1;
    }
    if is_too_far(d_squared_max, a, b, tolerance) {
        let ghost start = kept@;
        simplify_between(vertices, lo, farthest_point_index, tolerance, kept);
        simplify_between(vertices, farthest_point_index, hi, tolerance, kept);
        assert(kept@ =~= start + kept_between(vertices@, lo as int, hi as int, tolerance));
    } else {
        kept.push(b);
        assert(kept@ =~= old(kept)@ + seq![vertices[hi as int]]);
    }
}

/// The outline simplified, as `simplified` tells it.
pub fn simplify_outline(vertices: &Vec<IVec2>, tolerance: Tolerance) -> (outline: Vec<IVec2>)
    requires
        ring_bounded(vertices@),
    ensures
        outline@ == simplified(vertices@, tolerance),
{
    let mut outline: Vec<IVec2> = Vec::new();
    if vertices.len() < 4 {
        let mut i: usize = 0;
        while i < vertices.len()
            invariant
                i <= vertices.len(),
                outline@ == vertices@.subrange(0, i as int),
            decreases vertices.len() - i,
        {
            outline.push(vertices[i]);
            assert(outline@ =~= vertices@.subrange(0, i + 1));
            i += 1;
        }
        assert(outline@ =~= vertices@);
        return outline;
    }
    outline.push(vertices[0]);
    simplify_between(vertices, 0, vertices.len() - 1, tolerance, &mut outline);
    outline
}

/// Using recursive Ramer-Douglas-Peucker algorithm
/// https://en.wikipedia.org/wiki/Ramer%E2%80%93Douglas%E2%80%93Peucker_algorithm
/// Simplifies a set of consecutive vertices while the distance of a vertex
/// from the chord that replaces it is above the tolerance.
pub fn douglas_peucker_simplify(vertices: Vec<IVec2>, tolerance: Tolerance) -> (outline: Vec<IVec2>)
    requires
        ring_bounded(vertices@),
    ensures
        outline@ == simplified(vertices@, tolerance),
{
    if vertices.len() < 4 {
        return vertices;
    }
    simplify_outline(&vertices, tolerance)
}

/// What the outlines hold.
pub open spec fn outlines_of(rings: Seq<Vec<IVec2>>) -> Seq<Seq<IVec2>> {
    Seq::new(rings.len(), |i: int| rings[i]@)
}

/// The outlines that bodies are made of: every outline simplified, and
/// those left out that have fewer than three vertices then.
pub open spec fn boundary_outlines(rings: Seq<Seq<IVec2>>, tolerance: Tolerance) -> Seq<Seq<IVec2>>
    decreases rings.len(),
{
    if rings.len() == 0 {
        Seq::empty()
    } else {
        let before = boundary_outlines(rings.drop_last(), tolerance);
        let outline = simplified(rings.last(), tolerance);
        if outline.len() < 3 {
            before
        } else {
            before.push(outline)
        }
    }
}

/// The data of the bodies that bound one class of matter, from the outlines
/// that were traced round the blocks that hold it: one collider for each
/// outline, simplified, unless fewer than three of its vertices are left.
pub fn create_boundary_object_data(
    rings: &Vec<Vec<IVec2>>,
    tolerance: Tolerance,
) -> (outlines: Vec<Vec<IVec2>>)
    requires
        forall|i: int| 0 <= i < rings.len() ==> ring_bounded(#[trigger] rings[i]@),
    ensures
        outlines_of(outlines@) == boundary_outlines(outlines_of(rings@), tolerance),
{
    let ghost all = outlines_of(rings@);
    let mut outlines: Vec<Vec<IVec2>> = Vec::new();
    let mut i: usize = 0;
    assert(outlines_of(outlines@) =~= Seq::<Seq<IVec2>>::empty());
    while i < rings.len()
        invariant
            i <= rings.len(),
            all == outlines_of(rings@),
            forall|k: int| 0 <= k < rings.len() ==> ring_bounded(#[trigger] rings[k]@),
            outlines_of(outlines@) == boundary_outlines(all.subrange(0, i as int), tolerance),
        decreases rings.len() - i,
    {
        let ghost made = outlines_of(outlines@);
        let contour = simplify_outline(&rings[i], tolerance);
        proof {
            assert(all.subrange(0, i + 1).drop_last() =~= all.subrange(0, i as int));
            assert(all.subrange(0, i + 1).last() == rings[i as int]@);
        }
        if contour.len() >= 3 {
            outlines.push(contour);
            assert(outlines_of(outlines@) =~= made.push(simplified(rings[i as int]@, tolerance)));
        }
        i += 1;
    }
    assert(all.subrange(0, rings.len() as int) =~= all);
    outlines
}

} // verus!
