//! Objects in the grid: their cells are written over the canvas before the
//! passes of a tick, looked for after them, and cleared again.
use vstd::prelude::*;
use crate::geometry::{cell_index, in_grid, IVec2};
use crate::object::deformation_utils::{
    alive_at, component_holds, component_shaped, extract_connected_components_from_bitmap,
    is_component_split, Component,
};
use crate::object::pixels::{PixelData, TempPixel};
use crate::simulation::ca_passes::{CanvasGrid, GridView};
use crate::simulation::simulation_utils::{
    canvas_column, canvas_row, inside_sim_canvas, is_inside_sim_canvas, sim_canvas_index,
};

verus! {

/// An object with this many cells or fewer left is destroyed.
pub const DESTROYED_THRESHOLD: usize = 4;

/// What lies over the canvas: for every cell the matter and the colour of
/// the object over it, and the identities of the objects that lie on it.
pub struct OverlayView {
    pub objects_matter: Seq<u32>,
    pub objects_color: Seq<u32>,
    pub occupants: Seq<Seq<u64>>,
}

/// What the lists of occupants hold.
pub open spec fn occupants_of(lists: Seq<Vec<u64>>) -> Seq<Seq<u64>> {
    Seq::new(lists.len(), |i: int| lists[i]@)
}

/// What lies over the canvas `grid` with the occupants `lists`.
pub open spec fn overlay_of(grid: GridView, lists: Seq<Vec<u64>>) -> OverlayView {
    OverlayView {
        objects_matter: grid.objects_matter,
        objects_color: grid.objects_color,
        occupants: occupants_of(lists),
    }
}

/// The place in the canvas of a cell of an object that lies inside it.
pub open spec fn place_of(pixel: TempPixel, camera: IVec2, size: u32) -> int {
    cell_index(
        size as int,
        canvas_column(pixel.canvas_pos, camera, size),
        canvas_row(pixel.canvas_pos, camera, size),
    )
}

/// What lies over the canvas once `pixel` is written: where the cell lies in
/// the canvas, its matter and colour take the place, and its object is added
/// to those that lie there. A cell beyond the canvas is not written.
pub open spec fn with_pixel(
    overlay: OverlayView,
    pixel: TempPixel,
    camera: IVec2,
    size: u32,
) -> OverlayView {
    if inside_sim_canvas(pixel.canvas_pos, camera, size) {
        let place = place_of(pixel, camera, size);
        OverlayView {
            objects_matter: overlay.objects_matter.update(place, pixel.matter),
            objects_color: overlay.objects_color.update(place, pixel.color),
            occupants: overlay.occupants.update(place, overlay.occupants[place].push(pixel.entity)),
        }
    } else {
        overlay
    }
}

/// What lies over the canvas once the first `upto` of `pixels` are written,
/// one after the other.
pub open spec fn overlay_written(
    overlay: OverlayView,
    pixels: Seq<TempPixel>,
    camera: IVec2,
    size: u32,
    upto: int,
) -> OverlayView
    decreases upto,
{
    if upto <= 0 {
        overlay
    } else {
        with_pixel(
            overlay_written(overlay, pixels, camera, size, upto - 1),
            pixels[upto - 1],
            camera,
            size,
        )
    }
}

/// The list without the entry at `at`: the last entry takes its place.
pub open spec fn swap_removed(list: Seq<u64>, at: int) -> Seq<u64> {
    list.update(at, list.last()).drop_last()
}

/// The place of the first `entity` in `list` from `from` on; the length of
/// the list where there is none.
pub open spec fn first_of(list: Seq<u64>, entity: u64, from: int) -> int
    decreases list.len() - from,
{
    if from >= list.len() {
        list.len() as int
    } else if list[from] == entity {
        from
    } else {
        first_of(list, entity, from + 1)
    }
}

/// The list without the first `entity` in it.
pub open spec fn without_first(list: Seq<u64>, entity: u64) -> Seq<u64> {
    let at = first_of(list, entity, 0);
    if 0 <= at < list.len() {
        swap_removed(list, at)
    } else {
        list
    }
}

/// What lies over the canvas once `pixel` is cleared: where the cell lies in
/// the canvas, the place holds no object, and the object of the cell is
/// taken from those that lie there, once.
pub open spec fn without_pixel(
    overlay: OverlayView,
    pixel: TempPixel,
    camera: IVec2,
    size: u32,
    empty: u32,
) -> OverlayView {
    if inside_sim_canvas(pixel.canvas_pos, camera, size) {
        let place = place_of(pixel, camera, size);
        OverlayView {
            objects_matter: overlay.objects_matter.update(place, empty),
            objects_color: overlay.objects_color.update(place, 0),
            occupants: overlay.occupants.update(
                place,
                without_first(overlay.occupants[place], pixel.entity),
            ),
        }
    } else {
        overlay
    }
}

/// What lies over the canvas once the first `upto` of `pixels` are cleared.
pub open spec fn overlay_cleared(
    overlay: OverlayView,
    pixels: Seq<TempPixel>,
    camera: IVec2,
    size: u32,
    empty: u32,
    upto: int,
) -> OverlayView
    decreases upto,
{
    if upto <= 0 {
        overlay
    } else {
        without_pixel(
            overlay_cleared(overlay, pixels, camera, size, empty, upto - 1),
            pixels[upto - 1],
            camera,
            size,
            empty,
        )
    }
}

/// Whether the cell `pixel` of an object, which lies in the canvas, is still
/// there: its object is among those that lie on its place, and the place
/// holds an object's matter.
pub open spec fn pixel_survives(
    grid: GridView,
    occupants: Seq<Seq<u64>>,
    pixel: TempPixel,
    camera: IVec2,
) -> bool {
    let place = place_of(pixel, camera, grid.size);
    occupants[place].contains(pixel.entity) && grid.objects_matter[place] != grid.empty
}

/// Whether the cell `pixel` died: it lies in the canvas and is not there any
/// more. What lies beyond the canvas cannot die.
pub open spec fn pixel_died(
    grid: GridView,
    occupants: Seq<Seq<u64>>,
    pixel: TempPixel,
    camera: IVec2,
) -> bool {
    inside_sim_canvas(pixel.canvas_pos, camera, grid.size) && !pixel_survives(
        grid,
        occupants,
        pixel,
        camera,
    )
}

/// The number of the first `upto` of `pixels` that died.
pub open spec fn dead_count(
    grid: GridView,
    occupants: Seq<Seq<u64>>,
    pixels: Seq<TempPixel>,
    camera: IVec2,
    upto: int,
) -> nat
    decreases upto,
{
    if upto <= 0 {
        0
    } else {
        dead_count(grid, occupants, pixels, camera, upto - 1) + if pixel_died(
            grid,
            occupants,
            pixels[upto - 1],
            camera,
        ) {
            1nat
        } else {
            0nat
        }
    }
}

/// The bitmap of an object in which those of the first `upto` of `pixels`
/// are set that lie in the canvas and are still there.
pub open spec fn alive_bitmap(
    cells: nat,
    grid: GridView,
    occupants: Seq<Seq<u64>>,
    pixels: Seq<TempPixel>,
    camera: IVec2,
    upto: int,
) -> Seq<bool>
    decreases upto,
{
    if upto <= 0 {
        Seq::new(cells, |i: int| false)
    } else {
        let before = alive_bitmap(cells, grid, occupants, pixels, camera, upto - 1);
        let pixel = pixels[upto - 1];
        if inside_sim_canvas(pixel.canvas_pos, camera, grid.size) && pixel_survives(
            grid,
            occupants,
            pixel,
            camera,
        ) {
            before.update(pixel.pixel_index as int, true)
        } else {
            before
        }
    }
}

/// How many of `bits` are set.
pub open spec fn count_set(bits: Seq<bool>) -> nat
    decreases bits.len(),
{
    if bits.len() == 0 {
        0
    } else {
        count_set(bits.drop_last()) + if bits.last() {
            1nat
        } else {
            0nat
        }
    }
}

/// Where no bit is set, none is counted.
pub proof fn lemma_count_of_none(bits: Seq<bool>)
    requires
        forall|i: int| 0 <= i < bits.len() ==> !bits[i],
    ensures
        count_set(bits) == 0,
    decreases bits.len(),
{
    if bits.len() > 0 {
        lemma_count_of_none(bits.drop_last());
    }
}

/// Setting one bit adds one to the count where the bit was not set, and
/// nothing where it was.
pub proof fn lemma_count_of_one_more(bits: Seq<bool>, i: int)
    requires
        0 <= i < bits.len(),
    ensures
        count_set(bits.update(i, true)) == count_set(bits) + if bits[i] {
            0nat
        } else {
            1nat
        },
    decreases bits.len(),
{
    let more = bits.update(i, true);
    if i == bits.len() - 1 {
        assert(more.drop_last() =~= bits.drop_last());
    } else {
        lemma_count_of_one_more(bits.drop_last(), i);
        assert(more.drop_last() =~= bits.drop_last().update(i, true));
    }
}

/// The cells that are left of an object are cells that were written, lie in
/// the canvas and are still there; and there are no more of them than cells
/// that were written and did not die.
pub proof fn lemma_cells_left(
    cells: nat,
    grid: GridView,
    occupants: Seq<Seq<u64>>,
    pixels: Seq<TempPixel>,
    camera: IVec2,
    upto: int,
)
    requires
        0 <= upto <= pixels.len(),
        forall|k: int| 0 <= k < upto ==> (#[trigger] pixels[k]).pixel_index < cells,
    ensures
        alive_bitmap(cells, grid, occupants, pixels, camera, upto).len() == cells,
        count_set(alive_bitmap(cells, grid, occupants, pixels, camera, upto)) + dead_count(
            grid,
            occupants,
            pixels,
            camera,
            upto,
        ) <= upto,
        forall|i: int|
            0 <= i < cells && #[trigger] alive_bitmap(
                cells,
                grid,
                occupants,
                pixels,
                camera,
                upto,
            )[i] ==> exists|k: int|
                0 <= k < upto && (#[trigger] pixels[k]).pixel_index == i && pixel_survives(
                    grid,
                    occupants,
                    pixels[k],
                    camera,
                ),
    decreases upto,
{
    if upto <= 0 {
        lemma_count_of_none(Seq::new(cells, |i: int| false));
    } else {
        lemma_cells_left(cells, grid, occupants, pixels, camera, upto - 1);
        let before = alive_bitmap(cells, grid, occupants, pixels, camera, upto - 1);
        let after = alive_bitmap(cells, grid, occupants, pixels, camera, upto);
        let pixel = pixels[upto - 1];
        if inside_sim_canvas(pixel.canvas_pos, camera, grid.size) && pixel_survives(
            grid,
            occupants,
            pixel,
            camera,
        ) {
            lemma_count_of_one_more(before, pixel.pixel_index as int);
        }
        assert forall|i: int| 0 <= i < cells && #[trigger] after[i] implies exists|k: int|
            0 <= k < upto && (#[trigger] pixels[k]).pixel_index == i && pixel_survives(
                grid,
                occupants,
                pixels[k],
                camera,
            ) by {
            if before[i] {
                let k = choose|k: int|
                    0 <= k < upto - 1 && (#[trigger] pixels[k]).pixel_index == i
                        && pixel_survives(grid, occupants, pixels[k], camera);
                assert(pixels[k].pixel_index == i);
            } else {
                assert(pixels[upto - 1].pixel_index == i);
            }
        }
    }
}

/// A cell of an object over which nothing lies any more died, if it lies in
/// the canvas.
pub proof fn lemma_taken_cell_died(
    grid: GridView,
    occupants: Seq<Seq<u64>>,
    pixel: TempPixel,
    camera: IVec2,
)
    requires
        inside_sim_canvas(pixel.canvas_pos, camera, grid.size),
        grid.objects_matter[place_of(pixel, camera, grid.size)] == grid.empty,
    ensures
        pixel_died(grid, occupants, pixel, camera),
{
}

/// Where a cell died, the count of the dead is one at least.
pub proof fn lemma_one_died(
    grid: GridView,
    occupants: Seq<Seq<u64>>,
    pixels: Seq<TempPixel>,
    camera: IVec2,
    upto: int,
    k: int,
)
    requires
        0 <= k < upto,
        pixel_died(grid, occupants, pixels[k], camera),
    ensures
        dead_count(grid, occupants, pixels, camera, upto) >= 1,
    decreases upto,
{
    if k < upto - 1 {
        lemma_one_died(grid, occupants, pixels, camera, upto - 1, k);
    }
}

/// An object of which few cells are left, or none, is destroyed, whatever
/// else holds of it.
pub proof fn lemma_few_cells_left_is_destroyed(pixel_count: nat, dead: nat)
    requires
        pixel_count - dead <= DESTROYED_THRESHOLD,
    ensures
        outcome_of(pixel_count, dead) == ObjectOutcome::Destroyed,
{
}

/// What becomes of an object after a tick.
#[derive(Debug, Clone, Copy, PartialEq, Eq, Structural)]
pub enum ObjectOutcome {
    /// No cell died: nothing is done.
    Intact,
    /// Few cells are left, or none: the object goes.
    Destroyed,
    /// Cells died: the object is cut anew into its connected parts.
    Deformed,
}

/// What becomes of an object of which `dead` of `pixel_count` cells died.
pub open spec fn outcome_of(pixel_count: nat, dead: nat) -> ObjectOutcome {
    if pixel_count - dead <= DESTROYED_THRESHOLD {
        ObjectOutcome::Destroyed
    } else if dead > 0 {
        ObjectOutcome::Deformed
    } else {
        ObjectOutcome::Intact
    }
}

/// An object of which no cell died, and which has more cells than the few
/// with which an object is destroyed, is left as it is: it is neither
/// destroyed nor cut anew.
pub proof fn lemma_intact_object_stays(pixel_count: nat, dead: nat)
    requires
        dead == 0,
        pixel_count > DESTROYED_THRESHOLD,
    ensures
        outcome_of(pixel_count, dead) == ObjectOutcome::Intact,
{
}

/// No more cells died than there are.
pub proof fn lemma_dead_count_bound(
    grid: GridView,
    occupants: Seq<Seq<u64>>,
    pixels: Seq<TempPixel>,
    camera: IVec2,
    upto: int,
)
    requires
        0 <= upto,
    ensures
        dead_count(grid, occupants, pixels, camera, upto) <= upto,
    decreases upto,
{
    if upto > 0 {
        lemma_dead_count_bound(grid, occupants, pixels, camera, upto - 1);
    }
}

/// Writes the cells of an object over the canvas.
pub fn write_object_pixels(
    grid: &mut CanvasGrid,
    occupants: &mut Vec<Vec<u64>>,
    pixels: &Vec<TempPixel>,
    camera: IVec2,
)
    requires
        old(grid).wf(),
        old(occupants).len() == old(grid).size * old(grid).size,
    ensures
        final(grid).wf(),
        final(grid).size == old(grid).size,
        final(grid).empty == old(grid).empty,
        final(grid).matter == old(grid).matter,
        final(occupants).len() == old(occupants).len(),
        overlay_of(final(grid)@, final(occupants)@) == overlay_written(
            overlay_of(old(grid)@, old(occupants)@),
            pixels@,
            camera,
            old(grid).size,
            pixels.len() as int,
        ),
{
    let size = grid.size;
    let ghost start = overlay_of(grid@, occupants@);
    let mut i: usize = 0;
    while i < pixels.len()
        invariant
            i <= pixels.len(),
            grid.wf(),
            grid.size == size,
            size == old(grid).size,
            grid.empty == old(grid).empty,
            grid.matter == old(grid).matter,
            occupants.len() == size * size,
            overlay_of(grid@, occupants@) == overlay_written(
                start,
                pixels@,
                camera,
                size,
                i as int,
            ),
        decreases pixels.len() - i,
    {
        let tmp_pixel = pixels[i];
        if is_inside_sim_canvas(tmp_pixel.canvas_pos, camera, size) {
            let place = sim_canvas_index(tmp_pixel.canvas_pos, camera, size);
            let ghost before = overlay_of(grid@, occupants@);
            grid.objects_matter[place] = tmp_pixel.matter;
            grid.objects_color[place] = tmp_pixel.color;
            occupants[place].push(tmp_pixel.entity);
            proof {
                assert(occupants_of(occupants@) =~= before.occupants.update(
                    place as int,
                    before.occupants[place as int].push(tmp_pixel.entity),
                ));
            }
        }
        i += 1;
    }
}

/// The place of the first `entity` in `list`, if there is one.
pub fn find_first(list: &Vec<u64>, entity: u64) -> (at: usize)
    ensures
        at == first_of(list@, entity, 0),
        at <= list.len(),
        at < list.len() ==> list[at as int] == entity,
        at == list.len() ==> !list@.contains(entity),
{
    let mut i: usize = 0;
    while i < list.len()
        invariant
            i <= list.len(),
            first_of(list@, entity, 0) == first_of(list@, entity, i as int),
            forall|k: int| 0 <= k < i ==> list[k] != entity,
        decreases list.len() - i,
    {
        if list[i] == entity {
            return i;
        }
        i += 1;
    }
    i
}

/// Clears the cells of an object from the canvas.
pub fn clear_object_pixels(
    grid: &mut CanvasGrid,
    occupants: &mut Vec<Vec<u64>>,
    pixels: &Vec<TempPixel>,
    camera: IVec2,
)
    requires
        old(grid).wf(),
        old(occupants).len() == old(grid).size * old(grid).size,
    ensures
        final(grid).wf(),
        final(grid).size == old(grid).size,
        final(grid).empty == old(grid).empty,
        final(grid).matter == old(grid).matter,
        final(occupants).len() == old(occupants).len(),
        overlay_of(final(grid)@, final(occupants)@) == overlay_cleared(
            overlay_of(old(grid)@, old(occupants)@),
            pixels@,
            camera,
            old(grid).size,
            old(grid).empty,
            pixels.len() as int,
        ),
{
    let size = grid.size;
    let empty = grid.empty;
    let ghost start = overlay_of(grid@, occupants@);
    let mut i: usize = 0;
    while i < pixels.len()
        invariant
            i <= pixels.len(),
            grid.wf(),
            grid.size == size,
            size == old(grid).size,
            grid.empty == empty,
            empty == old(grid).empty,
            grid.matter == old(grid).matter,
            occupants.len() == size * size,
            overlay_of(grid@, occupants@) == overlay_cleared(
                start,
                pixels@,
                camera,
                size,
                empty,
                i as int,
            ),
        decreases pixels.len() - i,
    {
        let tmp_pixel = pixels[i];
        if is_inside_sim_canvas(tmp_pixel.canvas_pos, camera, size) {
            let place = sim_canvas_index(tmp_pixel.canvas_pos, camera, size);
            let ghost before = overlay_of(grid@, occupants@);
            grid.objects_matter[place] = empty;
            grid.objects_color[place] = 0;
            let at = find_first(&occupants[place], tmp_pixel.entity);
            if at < occupants[place].len() {
                let _gone = occupants[place].swap_remove(at);
            }
            proof {
                assert(occupants[place as int]@ =~= without_first(
                    before.occupants[place as int],
                    tmp_pixel.entity,
                ));
                assert(occupants_of(occupants@) =~= before.occupants.update(
                    place as int,
                    without_first(before.occupants[place as int], tmp_pixel.entity),
                ));
            }
        }
        i += 1;
    }
}

/// Looks for the cells of an object after the passes of a tick: the bitmap
/// of the cells that lie in the canvas and are still there, and the number
/// of cells that died.
pub fn find_survivors(
    grid: &CanvasGrid,
    occupants: &Vec<Vec<u64>>,
    cells: usize,
    pixels: &Vec<TempPixel>,
    camera: IVec2,
) -> (found: (Vec<bool>, usize))
    requires
        grid.wf(),
        occupants.len() == grid.size * grid.size,
        forall|i: int| 0 <= i < pixels.len() ==> (#[trigger] pixels[i]).pixel_index < cells,
    ensures
        found.0@ == alive_bitmap(
            cells as nat,
            grid@,
            occupants_of(occupants@),
            pixels@,
            camera,
            pixels.len() as int,
        ),
        found.0.len() == cells,
        found.1 == dead_count(
            grid@,
            occupants_of(occupants@),
            pixels@,
            camera,
            pixels.len() as int,
        ),
        found.1 <= pixels.len(),
{
    let mut bitmap: Vec<bool> = vec![false; cells];
    let mut dead: usize = 0;
    let ghost lists = occupants_of(occupants@);
    assert(bitmap@ =~= alive_bitmap(cells as nat, grid@, lists, pixels@, camera, 0));
    let mut i: usize = 0;
    while i < pixels.len()
        invariant
            i <= pixels.len(),
            grid.wf(),
            occupants.len() == grid.size * grid.size,
            lists == occupants_of(occupants@),
            forall|k: int| 0 <= k < pixels.len() ==> (#[trigger] pixels[k]).pixel_index < cells,
            bitmap.len() == cells,
            bitmap@ == alive_bitmap(cells as nat, grid@, lists, pixels@, camera, i as int),
            dead == dead_count(grid@, lists, pixels@, camera, i as int),
            dead <= i,
        decreases pixels.len() - i,
    {
        let tmp_pixel = pixels[i];
        // Only look inside canvas, deformation can only take place inside it
        if is_inside_sim_canvas(tmp_pixel.canvas_pos, camera, grid.size) {
            let place = sim_canvas_index(tmp_pixel.canvas_pos, camera, grid.size);
            let at = find_first(&occupants[place], tmp_pixel.entity);
            assert(lists[place as int] == occupants[place as int]@);
            // If object exists in visible canvas grid, mark bitmap. Else object should be updated
            // (deformed)
            if at < occupants[place].len() && grid.objects_matter[place] != grid.empty {
                assert(occupants[place as int]@.contains(tmp_pixel.entity));
                bitmap[tmp_pixel.pixel_index] = true;
            } else {
                dead += 1;
            }
        }
        i += 1;
    }
    (bitmap, dead)
}

/// What becomes of an object of `pixel_count` cells of which `dead` died.
pub fn decide_outcome(pixel_count: usize, dead: usize) -> (outcome: ObjectOutcome)
    requires
        dead <= pixel_count,
    ensures
        outcome == outcome_of(pixel_count as nat, dead as nat),
{
    if pixel_count - dead <= DESTROYED_THRESHOLD {
        ObjectOutcome::Destroyed
    } else if dead > 0 {
        ObjectOutcome::Deformed
    } else {
        ObjectOutcome::Intact
    }
}

/// One of the parts that a deformed object is cut into: its cells, and where
/// its middle lies from the middle of the object, in half cells.
pub struct ObjectPart {
    pub pixel_data: PixelData,
    pub bitmap: Vec<bool>,
    pub doubled_offset: IVec2,
}

/// Whether `part` is the part of the object `old_pixel_data` that the
/// component `component` cuts out: its cells are those of the object within
/// the box of the component, alive where the component is set, and its
/// middle lies where the middle of the box does.
pub open spec fn part_of(
    old_pixel_data: PixelData,
    component: Component,
    part: ObjectPart,
) -> bool {
    &&& part.pixel_data.wf()
    &&& part.pixel_data.width == component.1
    &&& part.pixel_data.height == component.2
    &&& part.pixel_data.image == old_pixel_data.image
    &&& part.bitmap@ == component.0@
    &&& part.doubled_offset.x == 2 * component.3.x + component.1 - old_pixel_data.width
    &&& part.doubled_offset.y == 2 * component.3.y + component.2 - old_pixel_data.height
    &&& forall|x: int, y: int|
        in_grid(component.1 as int, component.2 as int, x, y)
            ==> #[trigger] part.pixel_data.pixels[cell_index(component.1 as int, x, y)]
            == (crate::object::matter_pixel::MatterPixel {
            is_alive: component.0@[cell_index(component.1 as int, x, y)],
            ..old_pixel_data.pixels[cell_index(
                old_pixel_data.width as int,
                component.3.x + x,
                component.3.y + y,
            )]
        })
}

/// An alive cell of a part of an object is a cell that is left of the
/// object, at the place where the part was cut out: cutting makes no cell
/// alive.
pub proof fn lemma_part_cells_are_left(
    old_pixel_data: PixelData,
    bitmap: Seq<bool>,
    components: Seq<Component>,
    k: int,
    part: ObjectPart,
    x: int,
    y: int,
)
    requires
        is_component_split(
            bitmap,
            old_pixel_data.width as int,
            old_pixel_data.height as int,
            components,
        ),
        0 <= k < components.len(),
        part_of(old_pixel_data, components[k], part),
        in_grid(part.pixel_data.width as int, part.pixel_data.height as int, x, y),
        part.pixel_data.pixels[cell_index(part.pixel_data.width as int, x, y)].is_alive,
    ensures
        alive_at(
            bitmap,
            old_pixel_data.width as int,
            old_pixel_data.height as int,
            components[k].3.x + x,
            components[k].3.y + y,
        ),
{
    assert(component_holds(components[k], components[k].3.x + x, components[k].3.y + y));
}

/// Cuts a deformed object into its connected parts: one part for each
/// connected part of the bitmap of the cells that are left, in the order in
/// which a reader of the bitmap meets them.
pub fn split_deformed_object(
    empty_matter: u32,
    pixel_data: &PixelData,
    bitmap: &Vec<bool>,
) -> (parts: Vec<ObjectPart>)
    requires
        pixel_data.wf(),
        bitmap.len() == pixel_data.width * pixel_data.height,
        pixel_data.width <= 0x1000_0000,
        pixel_data.height <= 0x1000_0000,
    ensures
        exists|components: Seq<Component>|
            #![trigger is_component_split(
                bitmap@,
                pixel_data.width as int,
                pixel_data.height as int,
                components,
            )]
            is_component_split(
                bitmap@,
                pixel_data.width as int,
                pixel_data.height as int,
                components,
            ) && components.len() == parts.len() && forall|k: int|
                0 <= k < parts.len() ==> part_of(*pixel_data, components[k], #[trigger] parts[k]),
{
    let new_bitmaps = extract_connected_components_from_bitmap(
        bitmap.as_slice(),
        pixel_data.width,
        pixel_data.height,
    );
    let ghost components = new_bitmaps@;
    let mut parts: Vec<ObjectPart> = Vec::new();
    let mut k: usize = 0;
    while k < new_bitmaps.len()
        invariant
            k <= new_bitmaps.len(),
            components == new_bitmaps@,
            pixel_data.wf(),
            pixel_data.width <= 0x1000_0000,
            pixel_data.height <= 0x1000_0000,
            is_component_split(
                bitmap@,
                pixel_data.width as int,
                pixel_data.height as int,
                components,
            ),
            parts.len() == k,
            forall|j: int| 0 <= j < k ==> part_of(*pixel_data, components[j], #[trigger] parts[j]),
        decreases new_bitmaps.len() - k,
    {
        let component = &new_bitmaps[k];
        assert(component_shaped(
            components[k as int],
            pixel_data.width as int,
            pixel_data.height as int,
        ));
        let part_data = PixelData::split_by_bitmap(
            empty_matter,
            pixel_data,
            component.0.as_slice(),
            component.1,
            component.2,
            component.3,
        );
        let doubled_offset = IVec2 {
            x: 2 * component.3.x + component.1 as i32 - pixel_data.width as i32,
            y: 2 * component.3.y + component.2 as i32 - pixel_data.height as i32,
        };
        let part = ObjectPart {
            pixel_data: part_data,
            bitmap: crate::simulation::boundaries::copy_bitmap(&component.0),
            doubled_offset,
        };
        assert(part_of(*pixel_data, components[k as int], part));
        parts.push(part);
        k += 1;
    }
    parts
}

} // verus!
