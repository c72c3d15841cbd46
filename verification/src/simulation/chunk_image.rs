//! A chunk as an image and as a grid of matter: every matter is drawn in its
//! colour, and every pixel is read as the first matter of its colour.
//!
//! The image holds its rows from the top down and the grid from the bottom
//! up, so row `y` of the one is row `size - 1 - y` of the other.
use vstd::prelude::*;
use crate::bitmap_image::BitmapImage;
use crate::color::{
    channel, lemma_packed_of_channels, pack_rgba, u32_rgba_to_u8_rgba, u8_rgba_to_u32_rgba,
};
use crate::geometry::{cell_index, lemma_cell_index_in_range, lemma_index_has_cell};
use crate::matter::matter_definition::{MatterDefinition, MatterDefinitions};
use crate::simulation::simulation_utils::{canvas_size_ok, lemma_canvas_cells};

verus! {

/// The index of the first definition from `from` on that has `color`, or the
/// length of the table where there is none.
pub open spec fn first_with_color(defs: Seq<MatterDefinition>, color: u32, from: int) -> int
    decreases defs.len() - from,
{
    if from >= defs.len() {
        defs.len() as int
    } else if defs[from].color == color {
        from
    } else {
        first_with_color(defs, color, from + 1)
    }
}

/// The matter that a pixel of `color` stands for: the id of the first
/// definition with that colour, and the empty matter where no definition has
/// it.
pub open spec fn matter_of_color(table: MatterDefinitions, color: u32) -> u32 {
    let found = first_with_color(table.definitions@, color, 0);
    if found < table.definitions.len() {
        table.definitions[found].id
    } else {
        table.empty
    }
}

/// The colour in which `matter` is drawn: that of its definition, and zero
/// for a matter that the table does not know.
pub open spec fn color_of_matter(table: MatterDefinitions, matter: u32) -> u32 {
    if matter < table.definitions.len() {
        table.definitions[matter as int].color
    } else {
        0
    }
}

/// The place in a chunk's storage of the cell that is mirrored, top to
/// bottom, to the cell at place `index`.
pub open spec fn mirrored(size: int, index: int) -> int {
    cell_index(size, index % size, size - 1 - index / size)
}

/// The bytes of the image of a chunk that holds `grid`.
pub open spec fn chunk_image_data(table: MatterDefinitions, grid: Seq<u32>, size: int) -> Seq<u8> {
    Seq::new(
        (size * size * 4) as nat,
        |k: int| channel(color_of_matter(table, grid[mirrored(size, k / 4)]), k % 4),
    )
}

/// The colour of pixel `index` of an image with the bytes `data`.
pub open spec fn color_at(data: Seq<u8>, index: int) -> u32 {
    pack_rgba(data[index * 4], data[index * 4 + 1], data[index * 4 + 2], data[index * 4 + 3])
}

/// The grid of the chunk whose image has the bytes `data`.
pub open spec fn chunk_matter_of_image(table: MatterDefinitions, data: Seq<u8>, size: int) -> Seq<
    u32,
> {
    Seq::new(
        (size * size) as nat,
        |j: int| matter_of_color(table, color_at(data, mirrored(size, j))),
    )
}

/// Mirroring a place of the chunk gives a place of the chunk, and mirroring
/// that gives the first.
pub proof fn lemma_mirrored(size: int, index: int)
    requires
        0 < size,
        0 <= index < size * size,
    ensures
        0 <= mirrored(size, index) < size * size,
        mirrored(size, mirrored(size, index)) == index,
        mirrored(size, index) == cell_index(size, index % size, size - 1 - index / size),
{
    lemma_index_has_cell(size, size, index);
    let x = index % size;
    let y = index / size;
    lemma_cell_index_in_range(size, size, x, size - 1 - y);
    let m = cell_index(size, x, size - 1 - y);
    vstd::arithmetic::div_mod::lemma_fundamental_div_mod_converse(m, size, size - 1 - y, x);
}

/// Finds the matter that a pixel of `color` stands for.
pub fn find_matter_of_color(matter_definitions: &MatterDefinitions, color: u32) -> (matter: u32)
    ensures
        matter == matter_of_color(*matter_definitions, color),
{
    let len = matter_definitions.definitions.len();
    let mut i: usize = 0;
    while i < len
        invariant
            i <= len,
            len == matter_definitions.definitions.len(),
            first_with_color(matter_definitions.definitions@, color, 0) == first_with_color(
                matter_definitions.definitions@,
                color,
                i as int,
            ),
        decreases len - i,
    {
        if matter_definitions.definitions[i].color == color {
            return matter_definitions.definitions[i].id;
        }
        i += 1;
    }
    matter_definitions.empty
}

/// Finds the colour in which `matter` is drawn.
pub fn find_color_of_matter(matter_definitions: &MatterDefinitions, matter: u32) -> (color: u32)
    ensures
        color == color_of_matter(*matter_definitions, matter),
{
    if (matter as usize) < matter_definitions.definitions.len() {
        matter_definitions.definitions[matter as usize].color
    } else {
        0
    }
}

/// Reads the image of a chunk into both of its matter buffers: every pixel
/// becomes the first matter of its colour, and the empty matter where no
/// matter has it.
pub fn write_matter_image_to_canvas_chunk(
    matter_image: &BitmapImage,
    matter_definitions: &MatterDefinitions,
    chunk_in: &mut Vec<u32>,
    chunk_out: &mut Vec<u32>,
    size: u32,
)
    requires
        canvas_size_ok(size),
        matter_image.wf(),
        matter_image.width == size,
        matter_image.height == size,
        old(chunk_in).len() == size * size,
        old(chunk_out).len() == size * size,
    ensures
        final(chunk_in)@ == chunk_matter_of_image(
            *matter_definitions,
            matter_image.data@,
            size as int,
        ),
        final(chunk_out)@ == final(chunk_in)@,
{
    let s = size as usize;
    let ghost gs = size as int;
    let ghost wanted = chunk_matter_of_image(*matter_definitions, matter_image.data@, gs);
    proof {
        lemma_canvas_cells(size);
    }
    let mut j: usize = 0;
    while j < s * s
        invariant
            j <= s * s,
            s == size,
            gs == size,
            canvas_size_ok(size),
            matter_image.wf(),
            matter_image.width == size,
            matter_image.height == size,
            s * s <= 0x1000_0000,
            chunk_in.len() == s * s,
            chunk_out.len() == s * s,
            wanted == chunk_matter_of_image(*matter_definitions, matter_image.data@, gs),
            forall|k: int| 0 <= k < j ==> chunk_in[k] == #[trigger] wanted[k],
            forall|k: int| 0 <= k < j ==> chunk_out[k] == #[trigger] wanted[k],
        decreases s * s - j,
    {
        proof {
            lemma_mirrored(gs, j as int);
            lemma_index_has_cell(gs, gs, j as int);
        }
        let x = j % s;
        let y = j / s;
        let index = (s - 1 - y) * s + x;
        let r = matter_image.data[index * 4];
        let g = matter_image.data[index * 4 + 1];
        let b = matter_image.data[index * 4 + 2];
        let a = matter_image.data[index * 4 + 3];
        let matter = find_matter_of_color(matter_definitions, u8_rgba_to_u32_rgba(r, g, b, a));
        chunk_in[j] = matter;
        chunk_out[j] = matter;
        j += 1;
    }
    assert(chunk_in@ =~= wanted);
    assert(chunk_out@ =~= wanted);
}

/// Draws the image of a chunk from its matter buffer: every cell in the
/// colour of its matter.
pub fn write_canvas_chunk_to_matter_image(
    matter_definitions: &MatterDefinitions,
    chunk: &Vec<u32>,
    size: u32,
) -> (image: BitmapImage)
    requires
        canvas_size_ok(size),
        chunk.len() == size * size,
    ensures
        image.wf(),
        image.width == size,
        image.height == size,
        image.data@ == chunk_image_data(*matter_definitions, chunk@, size as int),
{
    let s = size as usize;
    let ghost gs = size as int;
    let ghost wanted = chunk_image_data(*matter_definitions, chunk@, gs);
    proof {
        lemma_canvas_cells(size);
    }
    let mut data: Vec<u8> = Vec::new();
    let mut i: usize = 0;
    while i < s * s
        invariant
            i <= s * s,
            s == size,
            gs == size,
            canvas_size_ok(size),
            s * s <= 0x1000_0000,
            chunk.len() == s * s,
            data.len() == i * 4,
            wanted == chunk_image_data(*matter_definitions, chunk@, gs),
            forall|k: int| 0 <= k < data.len() ==> data[k] == #[trigger] wanted[k],
        decreases s * s - i,
    {
        proof {
            lemma_mirrored(gs, i as int);
            lemma_index_has_cell(gs, gs, i as int);
        }
        let x = i % s;
        let y = i / s;
        let matter = chunk[(s - 1 - y) * s + x];
        let color = u32_rgba_to_u8_rgba(find_color_of_matter(matter_definitions, matter));
        data.push(color[0]);
        data.push(color[1]);
        data.push(color[2]);
        data.push(color[3]);
        i += 1;
    }
    assert(data@ =~= wanted);
    BitmapImage { data, width: size, height: size }
}

/// Whether no two definitions of the table share a colour.
pub open spec fn distinct_colors(defs: Seq<MatterDefinition>) -> bool {
    forall|i: int, j: int|
        0 <= i < j < defs.len() ==> (#[trigger] defs[i]).color != (#[trigger] defs[j]).color
}

/// Whether every definition of the table sits at the index that is its id.
pub open spec fn dense(defs: Seq<MatterDefinition>) -> bool {
    forall|i: int| 0 <= i < defs.len() ==> (#[trigger] defs[i]).id == i
}

/// In a table without shared colours, the colour of a matter stands for that
/// matter.
pub proof fn lemma_matter_of_its_color(table: MatterDefinitions, matter: u32)
    requires
        dense(table.definitions@),
        distinct_colors(table.definitions@),
        matter < table.definitions.len(),
    ensures
        matter_of_color(table, color_of_matter(table, matter)) == matter,
{
    let defs = table.definitions@;
    let color = defs[matter as int].color;
    lemma_first_with_color(defs, color, 0, matter as int);
}

/// The first definition of a colour, sought from `from`, is the one at
/// `at`, when no definition before `at` has the colour.
proof fn lemma_first_with_color(defs: Seq<MatterDefinition>, color: u32, from: int, at: int)
    requires
        0 <= from <= at < defs.len(),
        defs[at].color == color,
        forall|k: int| from <= k < at ==> (#[trigger] defs[k]).color != color,
    ensures
        first_with_color(defs, color, from) == at,
    decreases at - from,
{
    if from < at {
        lemma_first_with_color(defs, color, from + 1, at);
    }
}

/// Drawing the grid of a chunk as an image and reading the image back gives
/// the grid, when no two matters share a colour and the grid holds matters of
/// the table only.
pub proof fn lemma_image_of_grid_reads_back(table: MatterDefinitions, grid: Seq<u32>, size: int)
    requires
        0 < size,
        grid.len() == size * size,
        dense(table.definitions@),
        distinct_colors(table.definitions@),
        forall|i: int| 0 <= i < grid.len() ==> #[trigger] grid[i] < table.definitions.len(),
    ensures
        chunk_matter_of_image(table, chunk_image_data(table, grid, size), size) == grid,
{
    let data = chunk_image_data(table, grid, size);
    let back = chunk_matter_of_image(table, data, size);
    assert forall|j: int| 0 <= j < grid.len() implies back[j] == grid[j] by {
        lemma_mirrored(size, j);
        let m = mirrored(size, j);
        let color = color_of_matter(table, grid[j]);
        assert(data[m * 4] == channel(color, 0));
        assert(data[m * 4 + 1] == channel(color, 1));
        assert(data[m * 4 + 2] == channel(color, 2));
        assert(data[m * 4 + 3] == channel(color, 3));
        lemma_packed_of_channels(color);
        assert(color_at(data, m) == color);
        lemma_matter_of_its_color(table, grid[j]);
    }
    assert(back =~= grid);
}

/// Reading an image gives matters of the table only, when the table is dense
/// and knows its empty matter.
pub proof fn lemma_read_matter_is_known(table: MatterDefinitions, color: u32)
    requires
        dense(table.definitions@),
        table.empty < table.definitions.len(),
    ensures
        matter_of_color(table, color) < table.definitions.len(),
{
    lemma_first_with_color_bounds(table.definitions@, color, 0);
}

/// The first definition with a colour lies between where the search began
/// and the end of the table.
proof fn lemma_first_with_color_bounds(defs: Seq<MatterDefinition>, color: u32, from: int)
    requires
        0 <= from,
    ensures
        from <= first_with_color(defs, color, from) || defs.len() <= from,
        first_with_color(defs, color, from) <= defs.len(),
    decreases defs.len() - from,
{
    if from < defs.len() && defs[from].color != color {
        lemma_first_with_color_bounds(defs, color, from + 1);
    }
}

/// Reading the image of a chunk into its buffers, drawing the image anew from
/// them, and reading that, gives the same buffers: unloading a chunk right
/// after it was loaded keeps its matter, when no two matters share a colour.
pub proof fn lemma_load_unload_keeps_matter(table: MatterDefinitions, data: Seq<u8>, size: int)
    requires
        0 < size,
        dense(table.definitions@),
        distinct_colors(table.definitions@),
        table.empty < table.definitions.len(),
    ensures
        chunk_matter_of_image(
            table,
            chunk_image_data(table, chunk_matter_of_image(table, data, size), size),
            size,
        ) == chunk_matter_of_image(table, data, size),
{
    let grid = chunk_matter_of_image(table, data, size);
    assert(size * size >= 0) by (nonlinear_arith)
        requires
            0 < size,
    ;
    assert forall|i: int| 0 <= i < grid.len() implies #[trigger] grid[i]
        < table.definitions.len() by {
        lemma_read_matter_is_known(table, color_at(data, mirrored(size, i)));
    }
    lemma_image_of_grid_reads_back(table, grid, size);
}

} // verus!
