//! The objects of the world as the grid sees them, and what a tick does to
//! all of them.
use vstd::prelude::*;
use crate::geometry::IVec2;
use crate::object::pixels::{PixelData, TempPixel};
use crate::simulation::ca_passes::{CanvasGrid, GridView};
use crate::simulation::ca_react::{lemma_sure_reaction_takes_the_cell, reacted, rule_applies};
use crate::simulation::ca_simulator::MatterArrays;
use crate::simulation::object_grid::{
    alive_bitmap, clear_object_pixels, count_set, dead_count, decide_outcome, find_survivors,
    lemma_cells_left, lemma_one_died, lemma_taken_cell_died, occupants_of, outcome_of,
    overlay_cleared, overlay_of, overlay_written, pixel_died, pixel_survives, write_object_pixels,
    ObjectOutcome, OverlayView, DESTROYED_THRESHOLD,
};
use crate::simulation::shear::{ShearRotation, TURN_LIMIT};
use crate::simulation::simulation_utils::{
    alive_pixels, canvas_column, canvas_row, get_alive_pixels, inside_sim_canvas, is_within_world,
    within_world,
};

verus! {

/// An object as the grid sees it: its identity, its cells, the cells as they
/// lay on the canvas when they were last written, where its middle lies, and
/// how it is turned.
pub struct PixelObject {
    pub entity: u64,
    pub pixel_data: PixelData,
    pub temp_pixels: Vec<TempPixel>,
    pub canvas_pos: IVec2,
    pub rotation: ShearRotation,
}

impl PixelObject {
    /// Whether the object can be written to the grid: its cells are whole, it
    /// is no larger than can be turned, and it lies within the world.
    pub open spec fn wf(&self) -> bool {
        &&& self.pixel_data.wf()
        &&& self.pixel_data.width <= TURN_LIMIT
        &&& self.pixel_data.height <= TURN_LIMIT
        &&& within_world(self.canvas_pos)
        &&& self.rotation.wf()
    }

    /// Tells whether the object can be written to the grid.
    pub fn is_wf(&self) -> (whole: bool)
        ensures
            whole == self.wf(),
    {
        self.pixel_data.is_wf() && self.pixel_data.width <= TURN_LIMIT as u32
            && self.pixel_data.height <= TURN_LIMIT as u32 && is_within_world(self.canvas_pos)
                && ShearRotation::new(
            self.rotation.flip,
            self.rotation.alpha,
            self.rotation.beta,
        ).is_some()
    }

    /// The object `entity` with the cells `pixel_data`, its middle at
    /// `canvas_pos` and turned by `rotation`, with no cells written; nothing
    /// where such an object cannot be written to the grid.
    pub fn new(
        entity: u64,
        pixel_data: PixelData,
        canvas_pos: IVec2,
        rotation: ShearRotation,
    ) -> (made: Option<PixelObject>)
        ensures
            made.is_some() <==> pixel_data.wf() && pixel_data.width <= TURN_LIMIT
                && pixel_data.height <= TURN_LIMIT && within_world(canvas_pos) && rotation.wf(),
            made matches Some(object) ==> object.wf() && object.entity == entity
                && object.pixel_data
                == pixel_data && object.canvas_pos == canvas_pos && object.rotation == rotation
                && object.temp_pixels.len() == 0,
    {
        let object = PixelObject {
            entity,
            pixel_data,
            temp_pixels: Vec::new(),
            canvas_pos,
            rotation,
        };
        if object.is_wf() {
            Some(object)
        } else {
            None
        }
    }

    /// Whether the cells that were written are cells of the object.
    pub open spec fn placed(&self) -> bool {
        forall|i: int|
            0 <= i < self.temp_pixels.len() ==> (#[trigger] self.temp_pixels[i]).pixel_index
                < self.pixel_data.pixels.len()
    }

    /// The alive cells of the object as they lie on the canvas.
    pub open spec fn pixels(&self) -> Seq<TempPixel> {
        alive_pixels(
            self.pixel_data,
            self.canvas_pos,
            self.rotation,
            self.entity,
            self.pixel_data.pixels.len() as int,
        )
    }

    /// Whether `other` is this object with its cells written anew.
    pub open spec fn written_as(&self, other: PixelObject) -> bool {
        &&& other.entity == self.entity
        &&& other.pixel_data == self.pixel_data
        &&& other.canvas_pos == self.canvas_pos
        &&& other.rotation == self.rotation
        &&& other.temp_pixels@ == self.pixels()
    }

    /// Whether `other` is this object with no cells written.
    pub open spec fn cleared_as(&self, other: PixelObject) -> bool {
        &&& other.entity == self.entity
        &&& other.pixel_data == self.pixel_data
        &&& other.canvas_pos == self.canvas_pos
        &&& other.rotation == self.rotation
        &&& other.temp_pixels.len() == 0
    }
}

/// The alive cells of an object are cells of the object.
pub proof fn lemma_alive_pixels_placed(
    pixel_data: PixelData,
    pos: IVec2,
    rotation: ShearRotation,
    entity: u64,
    upto: int,
)
    requires
        0 <= upto <= pixel_data.pixels.len(),
    ensures
        alive_pixels(pixel_data, pos, rotation, entity, upto).len() <= upto,
        forall|i: int|
            0 <= i < alive_pixels(pixel_data, pos, rotation, entity, upto).len()
                ==> (#[trigger] alive_pixels(pixel_data, pos, rotation, entity,
                    upto)[i]).pixel_index
                < upto,
    decreases upto,
{
    if upto > 0 {
        lemma_alive_pixels_placed(pixel_data, pos, rotation, entity, upto - 1);
    }
}

/// What lies over the canvas once the first `upto` of `objects` are written,
/// one after the other.
pub open spec fn written_all(
    overlay: OverlayView,
    objects: Seq<PixelObject>,
    camera: IVec2,
    size: u32,
    upto: int,
) -> OverlayView
    decreases upto,
{
    if upto <= 0 {
        overlay
    } else {
        let pixels = objects[upto - 1].pixels();
        overlay_written(
            written_all(overlay, objects, camera, size, upto - 1),
            pixels,
            camera,
            size,
            pixels.len() as int,
        )
    }
}

/// What lies over the canvas once the cells that were written for the first
/// `upto` of `objects` are cleared.
pub open spec fn cleared_all(
    overlay: OverlayView,
    objects: Seq<PixelObject>,
    camera: IVec2,
    size: u32,
    empty: u32,
    upto: int,
) -> OverlayView
    decreases upto,
{
    if upto <= 0 {
        overlay
    } else {
        let pixels = objects[upto - 1].temp_pixels@;
        overlay_cleared(
            cleared_all(overlay, objects, camera, size, empty, upto - 1),
            pixels,
            camera,
            size,
            empty,
            pixels.len() as int,
        )
    }
}

/// Writes the alive cells of every object over the canvas, and notes for
/// every object where its cells lie.
pub fn write_objects(
    grid: &mut CanvasGrid,
    occupants: &mut Vec<Vec<u64>>,
    objects: &mut Vec<PixelObject>,
    camera: IVec2,
)
    requires
        old(grid).wf(),
        old(occupants).len() == old(grid).size * old(grid).size,
        forall|i: int| 0 <= i < old(objects).len() ==> (#[trigger] old(objects)[i]).wf(),
    ensures
        final(grid).wf(),
        final(grid).size == old(grid).size,
        final(grid).empty == old(grid).empty,
        final(grid).matter == old(grid).matter,
        final(occupants).len() == old(occupants).len(),
        final(objects).len() == old(objects).len(),
        forall|i: int|
            0 <= i < old(objects).len() ==> old(objects)[i].written_as(#[trigger] final(objects)[i])
                && final(objects)[i].placed() && final(objects)[i].wf(),
        overlay_of(final(grid)@, final(occupants)@) == written_all(
            overlay_of(old(grid)@, old(occupants)@),
            old(objects)@,
            camera,
            old(grid).size,
            old(objects).len() as int,
        ),
{
    let ghost start = overlay_of(grid@, occupants@);
    let ghost before = objects@;
    let size = grid.size;
    let mut i: usize = 0;
    while i < objects.len()
        invariant
            i <= objects.len(),
            objects.len() == before.len(),
            before == old(objects)@,
            grid.wf(),
            grid.size == size,
            size == old(grid).size,
            grid.empty == old(grid).empty,
            grid.matter == old(grid).matter,
            occupants.len() == size * size,
            forall|k: int| 0 <= k < before.len() ==> (#[trigger] before[k]).wf(),
            forall|k: int| i <= k < objects.len() ==> #[trigger] objects[k] == before[k],
            forall|k: int|
                0 <= k < i ==> before[k].written_as(#[trigger] objects[k]) && objects[k].placed()
                    && objects[k].wf(),
            overlay_of(grid@, occupants@) == written_all(start, before, camera, size, i as int),
        decreases objects.len() - i,
    {
        let ghost earlier = objects@;
        assert(objects[i as int] == before[i as int]);
        let pixels = get_alive_pixels(
            &objects[i].pixel_data,
            objects[i].canvas_pos,
            objects[i].rotation,
            objects[i].entity,
        );
        proof {
            lemma_alive_pixels_placed(
                before[i as int].pixel_data,
                before[i as int].canvas_pos,
                before[i as int].rotation,
                before[i as int].entity,
                before[i as int].pixel_data.pixels.len() as int,
            );
        }
        write_object_pixels(grid, occupants, &pixels, camera);
        objects[i].temp_pixels = pixels;
        proof {
            assert forall|k: int| i < k < objects.len() implies #[trigger] objects[k]
                == before[k] by {
                assert(objects[k] == earlier[k]);
            }
            assert forall|k: int| 0 <= k < i implies before[k].written_as(#[trigger] objects[k])
                && objects[k].placed() && objects[k].wf() by {
                assert(objects[k] == earlier[k]);
            }
        }
        i += 1;
    }
}

/// Clears the cells that were written for every object from the canvas; no
/// object has cells on the canvas then.
pub fn clear_objects(
    grid: &mut CanvasGrid,
    occupants: &mut Vec<Vec<u64>>,
    objects: &mut Vec<PixelObject>,
    camera: IVec2,
)
    requires
        old(grid).wf(),
        old(occupants).len() == old(grid).size * old(grid).size,
    ensures
        final(grid).wf(),
        final(grid).size == old(grid).size,
        final(grid).empty == old(grid).empty,
        final(grid).matter == old(grid).matter,
        final(occupants).len() == old(occupants).len(),
        final(objects).len() == old(objects).len(),
        forall|i: int|
            0 <= i < old(objects).len() ==>
                old(objects)[i].cleared_as(#[trigger] final(objects)[i]),
        overlay_of(final(grid)@, final(occupants)@) == cleared_all(
            overlay_of(old(grid)@, old(occupants)@),
            old(objects)@,
            camera,
            old(grid).size,
            old(grid).empty,
            old(objects).len() as int,
        ),
{
    let ghost start = overlay_of(grid@, occupants@);
    let ghost before = objects@;
    let size = grid.size;
    let empty = grid.empty;
    let mut i: usize = 0;
    while i < objects.len()
        invariant
            i <= objects.len(),
            objects.len() == before.len(),
            before == old(objects)@,
            grid.wf(),
            grid.size == size,
            size == old(grid).size,
            grid.empty == empty,
            empty == old(grid).empty,
            grid.matter == old(grid).matter,
            occupants.len() == size * size,
            forall|k: int| i <= k < objects.len() ==> #[trigger] objects[k] == before[k],
            forall|k: int| 0 <= k < i ==> before[k].cleared_as(#[trigger] objects[k]),
            overlay_of(grid@, occupants@) == cleared_all(
                start,
                before,
                camera,
                size,
                empty,
                i as int,
            ),
        decreases objects.len() - i,
    {
        let ghost earlier = objects@;
        assert(objects[i as int] == before[i as int]);
        clear_object_pixels(grid, occupants, &objects[i].temp_pixels, camera);
        objects[i].temp_pixels = Vec::new();
        proof {
            assert forall|k: int| i < k < objects.len() implies #[trigger] objects[k]
                == before[k] by {
                assert(objects[k] == earlier[k]);
            }
            assert forall|k: int| 0 <= k < i implies before[k].cleared_as(
                #[trigger] objects[k]) by {
                assert(objects[k] == earlier[k]);
            }
        }
        i += 1;
    }
}

/// What a tick did to an object that did not stay intact: which of the
/// objects it is, its identity, what becomes of it, and, where it is
/// deformed, the bitmap of the cells that are left. The bitmap of an object
/// that is destroyed is empty.
pub struct DeformedObjectData {
    pub index: usize,
    pub entity: u64,
    pub outcome: ObjectOutcome,
    pub bitmap: Vec<bool>,
}

/// Whether `data` tells what the tick did to object `index`, which is
/// `object`, on the canvas `grid` with the occupants `occupants`.
pub open spec fn tells_of(
    data: DeformedObjectData,
    index: int,
    object: PixelObject,
    grid: GridView,
    occupants: Seq<Seq<u64>>,
    camera: IVec2,
) -> bool {
    let pixels = object.temp_pixels@;
    let dead = dead_count(grid, occupants, pixels, camera, pixels.len() as int);
    &&& data.index == index
    &&& data.entity == object.entity
    &&& data.outcome == outcome_of(pixels.len(), dead)
    &&& data.outcome != ObjectOutcome::Intact
    &&& data.bitmap@ == if data.outcome == ObjectOutcome::Destroyed {
        Seq::<bool>::empty()
    } else {
        alive_bitmap(
            object.pixel_data.pixels.len() as nat,
            grid,
            occupants,
            pixels,
            camera,
            pixels.len() as int,
        )
    }
}

/// Whether object `index`, which is `object`, stayed intact.
pub open spec fn stayed_intact(
    object: PixelObject,
    grid: GridView,
    occupants: Seq<Seq<u64>>,
    camera: IVec2,
) -> bool {
    let pixels = object.temp_pixels@;
    outcome_of(
        pixels.len(),
        dead_count(grid, occupants, pixels, camera, pixels.len() as int),
    ) == ObjectOutcome::Intact
}

/// Whether `found` tells of the first `upto` of `objects`, in their order,
/// what the tick did to those that did not stay intact, and of no others.
pub open spec fn surveyed(
    found: Seq<DeformedObjectData>,
    objects: Seq<PixelObject>,
    grid: GridView,
    occupants: Seq<Seq<u64>>,
    camera: IVec2,
    upto: int,
) -> bool {
    &&& forall|k: int|
        0 <= k < found.len() ==> 0 <= (#[trigger] found[k]).index < upto && tells_of(
            found[k],
            found[k].index as int,
            objects[found[k].index as int],
            grid,
            occupants,
            camera,
        )
    &&& forall|k: int, m: int|
        0 <= k < m < found.len() ==> (#[trigger] found[k]).index < (#[trigger] found[m]).index
    &&& forall|i: int|
        0 <= i < upto && !stayed_intact(#[trigger] objects[i], grid, occupants, camera)
            ==> exists|k: int| 0 <= k < found.len() && (#[trigger] found[k]).index == i
}

/// The cells of an object, each told by whether it is alive.
pub open spec fn alive_flags(pixel_data: PixelData) -> Seq<bool> {
    Seq::new(pixel_data.pixels.len() as nat, |i: int| pixel_data.pixels[i].is_alive)
}

/// The cells that are written for an object are alive cells of it, and there
/// are as many of them as alive cells.
pub proof fn lemma_written_cells_are_alive(
    pixel_data: PixelData,
    pos: IVec2,
    rotation: ShearRotation,
    entity: u64,
    upto: int,
)
    requires
        0 <= upto <= pixel_data.pixels.len(),
    ensures
        alive_pixels(pixel_data, pos, rotation, entity, upto).len() == count_set(
            alive_flags(pixel_data).take(upto),
        ),
        forall|k: int|
            0 <= k < alive_pixels(pixel_data, pos, rotation, entity, upto).len() ==> (
            #[trigger] alive_pixels(pixel_data, pos, rotation, entity, upto)[k]).pixel_index < upto
                && pixel_data.pixels[alive_pixels(
                pixel_data,
                pos,
                rotation,
                entity,
                upto,
            )[k].pixel_index as int].is_alive,
    decreases upto,
{
    if upto > 0 {
        lemma_written_cells_are_alive(pixel_data, pos, rotation, entity, upto - 1);
        assert(alive_flags(pixel_data).take(upto).drop_last() =~= alive_flags(pixel_data).take(
            upto - 1,
        ));
    }
}

/// No cell of an object revives in a tick. Of an object that is deformed,
/// every cell that is left was alive before, and the cells that are left and
/// the cells that died are together no more than the alive cells were: the
/// object has shrunk by what died, at least.
pub proof fn lemma_no_cell_revives(
    data: DeformedObjectData,
    index: int,
    object: PixelObject,
    grid: GridView,
    occupants: Seq<Seq<u64>>,
    camera: IVec2,
)
    requires
        tells_of(data, index, object, grid, occupants, camera),
        object.temp_pixels@ == object.pixels(),
        data.outcome == ObjectOutcome::Deformed,
    ensures
        data.bitmap.len() == object.pixel_data.pixels.len(),
        forall|i: int|
            0 <= i < data.bitmap.len() && #[trigger] data.bitmap[i]
                ==> object.pixel_data.pixels[i].is_alive,
        count_set(data.bitmap@) + dead_count(
            grid,
            occupants,
            object.temp_pixels@,
            camera,
            object.temp_pixels.len() as int,
        ) <= count_set(alive_flags(object.pixel_data)),
{
    let pixels = object.temp_pixels@;
    let cells = object.pixel_data.pixels.len();
    lemma_written_cells_are_alive(
        object.pixel_data,
        object.canvas_pos,
        object.rotation,
        object.entity,
        cells as int,
    );
    assert(alive_flags(object.pixel_data).take(cells as int) =~= alive_flags(object.pixel_data));
    lemma_cells_left(cells as nat, grid, occupants, pixels, camera, pixels.len() as int);
    assert forall|i: int| 0 <= i < data.bitmap.len() && #[trigger] data.bitmap[i]
        implies object.pixel_data.pixels[i].is_alive by {
        let k = choose|k: int|
            0 <= k < pixels.len() && (#[trigger] pixels[k]).pixel_index == i && pixel_survives(
                grid,
                occupants,
                pixels[k],
                camera,
            );
        assert(object.pixel_data.pixels[pixels[k].pixel_index as int].is_alive);
    }
}

/// An object shrinks in every tick in which one of its cells meets a sure
/// reaction. Where cell `k` of the cells that were written lies in the
/// canvas, and rule `rule` of the matter that the canvas shows there has the
/// probability one and applies when the reactions run, on the canvas
/// `settled`, the cell dies: the object does not stay intact, and fewer cells
/// are left of it than it had.
pub proof fn lemma_sure_reaction_shrinks_the_object(
    arrays: MatterArrays,
    settled: GridView,
    seed: u32,
    step: u32,
    object: PixelObject,
    occupants: Seq<Seq<u64>>,
    camera: IVec2,
    k: int,
    rule: int,
)
    requires
        settled.wf(),
        object.temp_pixels@ == object.pixels(),
        0 <= k < object.temp_pixels.len(),
        inside_sim_canvas(object.temp_pixels[k].canvas_pos, camera, settled.size),
        0 <= rule < 5,
        ({
            let x = canvas_column(object.temp_pixels[k].canvas_pos, camera, settled.size);
            let y = canvas_row(object.temp_pixels[k].canvas_pos, camera, settled.size);
            let reaction = arrays.rule_of(settled.shown_matter(x, y), rule);
            rule_applies(arrays, settled, reaction, x, y, 8) && reaction.probability >= 1_000_000
        }),
    ensures
        ({
            let run = reacted(arrays, settled, seed, step);
            let pixels = object.temp_pixels@;
            let dead = dead_count(run, occupants, pixels, camera, pixels.len() as int);
            let left = alive_bitmap(
                object.pixel_data.pixels.len() as nat,
                run,
                occupants,
                pixels,
                camera,
                pixels.len() as int,
            );
            &&& pixel_died(run, occupants, pixels[k], camera)
            &&& dead >= 1
            &&& !stayed_intact(object, run, occupants, camera)
            &&& count_set(left) < count_set(alive_flags(object.pixel_data))
        }),
{
    let run = reacted(arrays, settled, seed, step);
    let pixels = object.temp_pixels@;
    let cells = object.pixel_data.pixels.len();
    let x = canvas_column(pixels[k].canvas_pos, camera, settled.size);
    let y = canvas_row(pixels[k].canvas_pos, camera, settled.size);
    lemma_sure_reaction_takes_the_cell(arrays, settled, seed, step, x, y, rule);
    lemma_taken_cell_died(run, occupants, pixels[k], camera);
    lemma_one_died(run, occupants, pixels, camera, pixels.len() as int, k);
    lemma_written_cells_are_alive(
        object.pixel_data,
        object.canvas_pos,
        object.rotation,
        object.entity,
        cells as int,
    );
    assert(alive_flags(object.pixel_data).take(cells as int) =~= alive_flags(object.pixel_data));
    lemma_cells_left(cells as nat, run, occupants, pixels, camera, pixels.len() as int);
}

/// An object of which no cell died, and which has more cells on the canvas
/// than the few with which an object is destroyed, is not among those that
/// the tick did something to: it is neither removed nor made anew nor cut
/// into parts.
pub proof fn lemma_unharmed_object_is_left(
    found: Seq<DeformedObjectData>,
    objects: Seq<PixelObject>,
    grid: GridView,
    occupants: Seq<Seq<u64>>,
    camera: IVec2,
    index: int,
)
    requires
        surveyed(found, objects, grid, occupants, camera, objects.len() as int),
        0 <= index < objects.len(),
        dead_count(
            grid,
            occupants,
            objects[index].temp_pixels@,
            camera,
            objects[index].temp_pixels.len() as int,
        ) == 0,
        objects[index].temp_pixels.len() > DESTROYED_THRESHOLD,
    ensures
        forall|k: int| 0 <= k < found.len() ==> (#[trigger] found[k]).index != index,
{
    assert forall|k: int| 0 <= k < found.len() implies (#[trigger] found[k]).index != index by {
        if found[k].index == index {
            assert(tells_of(
                found[k],
                found[k].index as int,
                objects[found[k].index as int],
                grid,
                occupants,
                camera,
            ));
        }
    }
}

/// Looks, after the passes of a tick, for what became of every object: the
/// objects of which cells died, or of which few are left, are told of.
pub fn survey_objects(
    grid: &CanvasGrid,
    occupants: &Vec<Vec<u64>>,
    objects: &Vec<PixelObject>,
    camera: IVec2,
) -> (found: Vec<DeformedObjectData>)
    requires
        grid.wf(),
        occupants.len() == grid.size * grid.size,
        forall|i: int| 0 <= i < objects.len() ==> (#[trigger] objects[i]).placed(),
    ensures
        surveyed(
            found@,
            objects@,
            grid@,
            occupants_of(occupants@),
            camera,
            objects.len() as int,
        ),
{
    let ghost lists = occupants_of(occupants@);
    let mut found: Vec<DeformedObjectData> = Vec::new();
    let mut i: usize = 0;
    while i < objects.len()
        invariant
            i <= objects.len(),
            grid.wf(),
            occupants.len() == grid.size * grid.size,
            lists == occupants_of(occupants@),
            forall|k: int| 0 <= k < objects.len() ==> (#[trigger] objects[k]).placed(),
            surveyed(found@, objects@, grid@, lists, camera, i as int),
        decreases objects.len() - i,
    {
        let object = &objects[i];
        let ghost earlier = found@;
        let (bitmap, dead) = find_survivors(
            grid,
            occupants,
            object.pixel_data.pixels.len(),
            &object.temp_pixels,
            camera,
        );
        let outcome = decide_outcome(object.temp_pixels.len(), dead);
        match outcome {
            ObjectOutcome::Intact => {
                proof {
                    assert(stayed_intact(objects[i as int], grid@, lists, camera));
                    assert forall|n: int|
                        0 <= n < i + 1 && !stayed_intact(
                            #[trigger] objects[n],
                            grid@,
                            lists,
                            camera,
                        ) implies exists|k: int|
                        0 <= k < found.len() && (#[trigger] found[k]).index == n by {
                        assert(n < i);
                    }
                }
            },
            ObjectOutcome::Destroyed => {
                let data = DeformedObjectData {
                    index: i,
                    entity: object.entity,
                    outcome,
                    bitmap: Vec::new(),
                };
                found.push(data);
                proof {
                    lemma_survey_grows(earlier, found@, objects@, grid@, lists, camera, i as int);
                }
            },
            ObjectOutcome::Deformed => {
                let data = DeformedObjectData { index: i, entity: object.entity, outcome, bitmap };
                found.push(data);
                proof {
                    lemma_survey_grows(earlier, found@, objects@, grid@, lists, camera, i as int);
                }
            },
        }
        i += 1;
    }
    found
}

/// A survey of the first objects, with what the tick did to the next one
/// added, is a survey of one object more.
proof fn lemma_survey_grows(
    earlier: Seq<DeformedObjectData>,
    found: Seq<DeformedObjectData>,
    objects: Seq<PixelObject>,
    grid: GridView,
    occupants: Seq<Seq<u64>>,
    camera: IVec2,
    index: int,
)
    requires
        surveyed(earlier, objects, grid, occupants, camera, index),
        0 <= index < objects.len(),
        found.len() == earlier.len() + 1,
        forall|k: int| 0 <= k < earlier.len() ==> found[k] == earlier[k],
        tells_of(found.last(), index, objects[index], grid, occupants, camera),
    ensures
        surveyed(found, objects, grid, occupants, camera, index + 1),
{
    let last = found.len() - 1;
    assert forall|k: int| 0 <= k < found.len() implies 0 <= (#[trigger] found[k]).index < index + 1
        && tells_of(
        found[k],
        found[k].index as int,
        objects[found[k].index as int],
        grid,
        occupants,
        camera,
    ) by {
        if k < last {
            assert(found[k] == earlier[k]);
        } else {
            assert(found[k] == found.last());
        }
    }
    assert forall|k: int, m: int| 0 <= k < m < found.len() implies (#[trigger] found[k]).index < (
    #[trigger] found[m]).index by {
        assert(found[k] == earlier[k]);
        if m < last {
            assert(found[m] == earlier[m]);
        } else {
            assert(found[m] == found.last());
        }
    }
    assert forall|i: int|
        0 <= i < index + 1 && !stayed_intact(
            #[trigger] objects[i],
            grid,
            occupants,
            camera,
        ) implies exists|k: int| 0 <= k < found.len() && (#[trigger] found[k]).index == i by {
        if i < index {
            let k = choose|k: int| 0 <= k < earlier.len() && (#[trigger] earlier[k]).index == i;
            assert(found[k] == earlier[k]);
        } else {
            assert(found[last].index == i);
        }
    }
}

} // verus!
