//! The bitmap of a pixel object, and its cells as they lie on the canvas.
use std::sync::Arc;
use vstd::prelude::*;
use crate::bitmap_image::BitmapImage;
use crate::geometry::{cell_index, in_grid, lemma_cell_index_in_range, IVec2};
use crate::object::matter_pixel::MatterPixel;

verus! {

/// One alive cell of an object as it lies on the canvas during a tick:
/// which cell of the object it is, where it lies, what it is made of, its
/// colour, and the identity of the object.
#[derive(Debug, Copy, Clone, PartialEq, Eq, Structural)]
pub struct TempPixel {
    pub pixel_index: usize,
    pub canvas_pos: IVec2,
    pub matter: u32,
    pub color: u32,
    pub entity: u64,
}

/// The cells of a pixel object, row by row from the bottom up, and the image
/// that their colours are taken from.
#[derive(Debug, Clone)]
pub struct PixelData {
    pub image: Arc<BitmapImage>,
    pub pixels: Vec<MatterPixel>,
    pub width: u32,
    pub height: u32,
}

/// A second handle on a shared image, by `Arc::clone`: it points to the same
/// image.
#[verifier::external_body]
pub(crate) fn share_image(image: &Arc<BitmapImage>) -> (shared: Arc<BitmapImage>)
    ensures
        shared == *image,
{
    Arc::clone(image)
}

impl PixelData {
    /// Whether there is a cell for every place of the grid, the image is
    /// whole, and every cell takes its colour from a pixel of the image.
    pub open spec fn wf(&self) -> bool {
        &&& self.pixels.len() == self.width * self.height
        &&& self.image.wf()
        &&& forall|i: int|
            0 <= i < self.pixels.len() ==> (#[trigger] self.pixels[i]).color_index
                < self.image.width * self.image.height
    }

    /// Tells whether the cells are whole: there is a cell for every place,
    /// the image is whole, and every cell takes its colour from a pixel of
    /// the image.
    pub fn is_wf(&self) -> (whole: bool)
        ensures
            whole == self.wf(),
    {
        assert(self.width * self.height <= 0xffff_ffff * 0xffff_ffff) by (nonlinear_arith)
            requires
                self.width <= 0xffff_ffff,
                self.height <= 0xffff_ffff,
        ;
        assert(self.image.width * self.image.height <= 0xffff_ffff * 0xffff_ffff)
            by (nonlinear_arith)
            requires
                self.image.width <= 0xffff_ffff,
                self.image.height <= 0xffff_ffff,
        ;
        if self.pixels.len() as u128 != (self.width as u128) * (self.height as u128)
            || !self.image.is_wf() {
            return false;
        }
        let limit: u64 = (self.image.width as u64) * (self.image.height as u64);
        let mut i: usize = 0;
        while i < self.pixels.len()
            invariant
                i <= self.pixels.len(),
                limit == self.image.width * self.image.height,
                forall|k: int| 0 <= k < i ==> (#[trigger] self.pixels[k]).color_index < limit,
            decreases self.pixels.len() - i,
        {
            if self.pixels[i].color_index as u64 >= limit {
                return false;
            }
            i += 1;
        }
        true
    }

    /// The object without cells.
    pub fn empty() -> (nothing: PixelData)
        ensures
            nothing.wf(),
            nothing.width == 0,
            nothing.height == 0,
            nothing.pixels.len() == 0,
            nothing.image.width == 0,
            nothing.image.height == 0,
            nothing.image.data.len() == 0,
    {
        PixelData {
            image: Arc::new(BitmapImage { data: Vec::new(), width: 0, height: 0 }),
            pixels: Vec::new(),
            width: 0,
            height: 0,
        }
    }

    /// Whether the object has no cells.
    pub open spec fn spec_is_empty(&self) -> bool {
        self.width == 0 || self.height == 0
    }

    /// Tells whether the object has no cells.
    #[verifier::when_used_as_spec(spec_is_empty)]
    pub fn is_empty(&self) -> (empty: bool)
        ensures
            empty == self.spec_is_empty(),
    {
        self.width == 0 || self.height == 0
    }

    /// The matter that an object is listed with: that of the first of
    /// `pixels` whose matter is not 0, and 0 where there is none.
    pub open spec fn spec_primary_matter(pixels: Seq<MatterPixel>) -> u32
        decreases pixels.len(),
    {
        if pixels.len() == 0 {
            0
        } else if pixels[0].matter != 0 {
            pixels[0].matter
        } else {
            PixelData::spec_primary_matter(pixels.skip(1))
        }
    }

    /// The matter that the object is listed with.
    pub fn primary_matter(&self) -> (matter: u32)
        ensures
            matter == PixelData::spec_primary_matter(self.pixels@),
            matter != 0 ==> exists|i: int|
                0 <= i < self.pixels.len() && (#[trigger] self.pixels[i]).matter == matter,
            matter == 0 ==> forall|i: int|
                0 <= i < self.pixels.len() ==> (#[trigger] self.pixels[i]).matter == 0,
    {
        let mut i: usize = 0;
        assert(self.pixels@.skip(0) =~= self.pixels@);
        while i < self.pixels.len()
            invariant
                i <= self.pixels.len(),
                PixelData::spec_primary_matter(self.pixels@) == PixelData::spec_primary_matter(
                    self.pixels@.skip(i as int),
                ),
                forall|k: int| 0 <= k < i ==> (#[trigger] self.pixels[k]).matter == 0,
            decreases self.pixels.len() - i,
        {
            let ghost rest = self.pixels@.skip(i as int);
            assert(rest[0] == self.pixels[i as int]);
            assert(rest.skip(1) =~= self.pixels@.skip(i + 1));
            if self.pixels[i].matter != 0 {
                return self.pixels[i].matter;
            }
            i += 1;
        }
        assert(self.pixels@.skip(i as int).len() == 0);
        0
    }

    /// The byte of channel `c` that cell `(x, y)` shows: that of its pixel in
    /// the image where the cell is alive, and zero where it is not.
    pub open spec fn shown_byte(&self, x: int, y: int, c: int) -> u8 {
        let pixel = self.pixels[cell_index(self.width as int, x, y)];
        if pixel.is_alive {
            self.image.data[pixel.color_index * 4 + c]
        } else {
            0
        }
    }

    /// The byte of channel `c` at column `x` of row `row` of the picture, the
    /// rows counted from the top.
    pub open spec fn picture_byte(&self, x: int, row: int, c: int) -> u8 {
        self.shown_byte(x, self.height - 1 - row, c)
    }

    /// The picture of the object: its alive cells in their colours, the dead
    /// ones clear, and the top row first.
    pub fn to_image(&self) -> (picture: BitmapImage)
        requires
            self.wf(),
            self.width * self.height * 4 <= usize::MAX,
        ensures
            picture.wf(),
            picture.width == self.width,
            picture.height == self.height,
            forall|x: int, y: int, c: int|
                in_grid(self.width as int, self.height as int, x, y) && 0 <= c < 4
                    ==> picture.data[cell_index(self.width as int, x, self.height - 1 - y) * 4 + c]
                    == #[trigger] self.shown_byte(x, y, c),
    {
        let w = self.width as usize;
        let h = self.height as usize;
        let ghost gw = self.width as int;
        let ghost gh = self.height as int;
        assert(gw * gh <= gw * gh * 4) by (nonlinear_arith)
            requires
                0 <= gw,
                0 <= gh,
        ;
        let mut rgba: Vec<u8> = Vec::new();
        let mut row: usize = 0;
        while row < h
            invariant
                row <= h,
                w == self.width,
                h == self.height,
                gw == w,
                gh == h,
                self.wf(),
                rgba.len() == row * w * 4,
                forall|cx: int, crow: int, c: int|
                    in_grid(gw, gh, cx, crow) && 0 <= c < 4 && crow < row ==> rgba[cell_index(
                        gw,
                        cx,
                        crow,
                    ) * 4 + c] == #[trigger] self.picture_byte(cx, crow, c),
            decreases h - row,
        {
            let y = h - 1 - row;
            let mut x: usize = 0;
            while x < w
                invariant
                    x <= w,
                    row < h,
                    y == h - 1 - row,
                    w == self.width,
                    h == self.height,
                    gw == w,
                    gh == h,
                    self.wf(),
                    rgba.len() == (row * w + x) * 4,
                    forall|cx: int, crow: int, c: int|
                        in_grid(gw, gh, cx, crow) && 0 <= c < 4 && (crow < row || (crow == row
                            && cx < x)) ==> rgba[cell_index(gw, cx, crow) * 4 + c]
                            == #[trigger] self.picture_byte(cx, crow, c),
                decreases w - x,
            {
                proof {
                    lemma_cell_index_in_range(gw, gh, x as int, y as int);
                    lemma_cell_index_in_range(gw, gh, x as int, row as int);
                    assert forall|cx: int, crow: int|
                        in_grid(gw, gh, cx, crow) && (crow < row || (crow == row && cx
                            < x)) implies cell_index(gw, cx, crow) * 4 + 3 < rgba.len() by {
                        crate::geometry::lemma_cell_index_ordered(
                            gw,
                            cx,
                            crow,
                            x as int,
                            row as int,
                        );
                    }
                }
                let pixel = self.pixels[y * w + x];
                if pixel.is_alive {
                    let old_index = pixel.color_index * 4;
                    rgba.push(self.image.data[old_index]);
                    rgba.push(self.image.data[old_index + 1]);
                    rgba.push(self.image.data[old_index + 2]);
                    rgba.push(self.image.data[old_index + 3]);
                } else {
                    rgba.push(0);
                    rgba.push(0);
                    rgba.push(0);
                    rgba.push(0);
                }
                x += 1;
            }
            assert((row * w + w) * 4 == (row + 1) * w * 4) by (nonlinear_arith);
            row += 1;
        }
        assert(h * w * 4 == w * h * 4) by (nonlinear_arith);
        proof {
            assert forall|x: int, y: int, c: int|
                in_grid(gw, gh, x, y) && 0 <= c < 4 implies rgba[cell_index(gw, x, gh - 1 - y) * 4
                + c] == #[trigger] self.shown_byte(x, y, c) by {
                assert(self.picture_byte(x, gh - 1 - y, c) == self.shown_byte(x, y, c));
            }
        }
        BitmapImage { data: rgba, width: self.width, height: self.height }
    }

    /// The part of `old_pixel_data` whose first column and row lie at
    /// `pixel_start` and which is `width` wide and `height` high: every cell
    /// as it was, but alive as `new_bitmap` says.
    pub fn split_by_bitmap(
        empty_matter: u32,
        old_pixel_data: &PixelData,
        new_bitmap: &[bool],
        width: u32,
        height: u32,
        pixel_start: IVec2,
    ) -> (part: PixelData)
        requires
            old_pixel_data.wf(),
            new_bitmap.len() == width * height,
            0 <= pixel_start.x,
            0 <= pixel_start.y,
            pixel_start.x + width <= old_pixel_data.width,
            pixel_start.y + height <= old_pixel_data.height,
        ensures
            part.wf(),
            part.width == width,
            part.height == height,
            part.image == old_pixel_data.image,
            forall|x: int, y: int|
                in_grid(width as int, height as int, x, y) ==> #[trigger] part.pixels[cell_index(
                    width as int,
                    x,
                    y,
                )] == (MatterPixel {
                    is_alive: new_bitmap[cell_index(width as int, x, y)],
                    ..old_pixel_data.pixels[cell_index(
                        old_pixel_data.width as int,
                        pixel_start.x + x,
                        pixel_start.y + y,
                    )]
                }),
    {
        let w = width as usize;
        let h = height as usize;
        let old_w = old_pixel_data.width as usize;
        let start_x = pixel_start.x as usize;
        let start_y = pixel_start.y as usize;
        let ghost gw = width as int;
        let ghost gh = height as int;
        let ghost ow = old_pixel_data.width as int;
        let ghost oh = old_pixel_data.height as int;
        let mut pixels: Vec<MatterPixel> = Vec::new();
        let mut y: usize = 0;
        while y < h
            invariant
                y <= h,
                w == width,
                h == height,
                gw == w,
                gh == h,
                ow == old_w,
                old_w == old_pixel_data.width,
                oh == old_pixel_data.height,
                start_x == pixel_start.x,
                start_y == pixel_start.y,
                start_x + w <= ow,
                start_y + h <= oh,
                old_pixel_data.wf(),
                new_bitmap.len() == w * h,
                pixels.len() == y * w,
                forall|cx: int, cy: int|
                    in_grid(gw, gh, cx, cy) && cy < y ==> #[trigger] pixels[cell_index(gw, cx, cy)]
                        == (MatterPixel {
                        is_alive: new_bitmap[cell_index(gw, cx, cy)],
                        ..old_pixel_data.pixels[cell_index(ow, start_x + cx, start_y + cy)]
                    }),
            decreases h - y,
        {
            let mut x: usize = 0;
            while x < w
                invariant
                    x <= w,
                    y < h,
                    w == width,
                    h == height,
                    gw == w,
                    gh == h,
                    ow == old_w,
                    old_w == old_pixel_data.width,
                    oh == old_pixel_data.height,
                    start_x == pixel_start.x,
                    start_y == pixel_start.y,
                    start_x + w <= ow,
                    start_y + h <= oh,
                    old_pixel_data.wf(),
                    new_bitmap.len() == w * h,
                    pixels.len() == y * w + x,
                    forall|cx: int, cy: int|
                        in_grid(gw, gh, cx, cy) && (cy < y || (cy == y && cx < x))
                            ==> #[trigger] pixels[cell_index(gw, cx, cy)] == (MatterPixel {
                            is_alive: new_bitmap[cell_index(gw, cx, cy)],
                            ..old_pixel_data.pixels[cell_index(ow, start_x + cx, start_y + cy)]
                        }),
                decreases w - x,
            {
                proof {
                    lemma_cell_index_in_range(gw, gh, x as int, y as int);
                    lemma_cell_index_in_range(ow, oh, start_x + x, start_y + y);
                    assert forall|cx: int, cy: int|
                        in_grid(gw, gh, cx, cy) && (cy < y || (cy == y
                            && cx < x)) implies cell_index(
                        gw,
                        cx,
                        cy,
                    ) < pixels.len() by {
                        crate::geometry::lemma_cell_index_ordered(gw, cx, cy, x as int, y as int);
                    }
                }
                let old_index = (start_y + y) * old_w + (start_x + x);
                let pixel_index = y * w + x;
                let old_pixel = old_pixel_data.pixels[old_index];
                pixels.push(
                    MatterPixel {
                        matter: old_pixel.matter,
                        color_index: old_pixel.color_index,
                        is_alive: new_bitmap[pixel_index],
                    },
                );
                x += 1;
            }
            assert(y * w + w == (y + 1) * w) by (nonlinear_arith);
            y += 1;
        }
        assert(h * w == w * h) by (nonlinear_arith);
        let part = PixelData { image: share_image(&old_pixel_data.image), pixels, width, height };
        proof {
            assert forall|i: int| 0 <= i < part.pixels.len() implies (
                #[trigger] part.pixels[i]).color_index
                < part.image.width * part.image.height by {
                crate::geometry::lemma_index_has_cell(gw, gh, i);
                let cx = i % gw;
                let cy = i / gw;
                assert(in_grid(gw, gh, cx, cy) && cell_index(gw, cx, cy) == i);
                lemma_cell_index_in_range(ow, oh, start_x + cx, start_y + cy);
            }
        }
        part
    }
}

} // verus!
