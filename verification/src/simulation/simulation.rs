//! The simulation: the chunks of the world, the cellular automaton, the
//! objects in the grid and the boundaries, in the order of a tick.
use vstd::prelude::*;
use crate::bitmap_image::BitmapImage;
use crate::geometry::IVec2;
use crate::matter::matter_definition::{
    table_valid, validate_matter_definitions, with_definition, without_definition,
    MatterDefinition, MatterDefinitions, MatterTableError,
};
use crate::settings::AppSettings;
use crate::simulation::boundaries::{classes_changed, BoundaryPlan, PhysicsBoundaries};
use crate::simulation::ca_passes::{CanvasGrid, GridView};
use crate::simulation::ca_react::{occupancy, ratio_ok, MatterClass};
use crate::simulation::ca_simulator::{class_bitmap, ticked, CASimulator};
use crate::simulation::canvas_window::{layer_of, window_wf, CanvasFrame, Layer};
use crate::simulation::chunk_window::{anchor_of, lemma_canvas_in_window};
use crate::simulation::object_grid::{overlay_of, OverlayView};
use crate::simulation::painting::{paint, painted, Brush};
use crate::simulation::pixel_objects::{
    clear_objects, cleared_all, survey_objects, surveyed, write_objects, written_all,
    DeformedObjectData, PixelObject,
};
use crate::simulation::simulation_chunk_manager::{ChunkError, GpuChunk, SimulationChunkManager};
use crate::simulation::simulation_utils::{
    canvas_size_ok, inside_sim_canvas, is_inside_sim_canvas, lemma_canvas_cells, sim_canvas_index,
    sim_chunk_canvas_index, window_cell_index, window_chunk_index, within_world,
};

verus! {

/// Why a simulation cannot be made, or cannot go on.
#[derive(Debug, Clone, PartialEq, Eq)]
pub enum SimulationError {
    /// The matter table is not valid.
    InvalidMatterTable(MatterTableError),
    /// A canvas cannot have this size, or blocks of this size.
    InvalidSize,
    /// The pool of buffers cannot hold the chunks round the camera.
    PoolTooSmall,
}

/// What a tick leaves to be done by the program round the simulation: the
/// objects that are to be removed or made anew, and the bodies of the
/// boundaries that are to be removed and made anew.
pub struct StepOutcome {
    pub deformed: Vec<DeformedObjectData>,
    pub boundaries: BoundaryPlan,
}

/// The simulation.
pub struct Simulation {
    pub ca_simulator: CASimulator,
    pub boundaries: PhysicsBoundaries,
    pub object_pixel_query: Option<(u32, Vec<u64>)>,
    pub camera_canvas_pos: IVec2,
    pub chunk_manager: SimulationChunkManager,
    pub tmp_object_ids: Vec<Vec<u64>>,
    pub matter_definitions: MatterDefinitions,
}

impl Simulation {
    /// Whether the parts of the simulation fit together: the automaton and
    /// the chunk manager have one size, the window is chosen round the
    /// camera, there is a list of occupants for every cell of the canvas, the
    /// bitmaps of the boundaries have a bit for every block, and the
    /// automaton holds the matter table.
    pub open spec fn parts_wf(&self) -> bool {
        &&& self.ca_simulator.wf()
        &&& self.chunk_manager.wf()
        &&& self.chunk_manager.is_ready()
        &&& self.chunk_manager.spec_size() == self.ca_simulator.size
        &&& self.chunk_manager.spec_canvas_pos() == self.camera_canvas_pos
        &&& self.tmp_object_ids.len() == self.ca_simulator.size * self.ca_simulator.size
        &&& self.boundaries.wf(self.ca_simulator.bitmap.len() as int)
        &&& self.ca_simulator.arrays.holds(self.matter_definitions.definitions@)
        &&& self.ca_simulator.empty == self.matter_definitions.empty
    }

    /// Whether the simulation is consistent, and at rest between two
    /// operations.
    pub open spec fn wf(&self) -> bool {
        self.parts_wf() && !self.chunk_manager.is_lent()
    }

    /// Where the canvas round the camera lies.
    pub open spec fn frame(&self) -> CanvasFrame {
        self.chunk_manager.frame()
    }

    /// The canvas round the camera.
    pub open spec fn canvas(&self) -> GridView {
        self.ca_simulator.canvas_of(self.frame(), self.chunk_manager.window_buffers())
    }

    /// Whether `simulation` is what a map gives: a simulation that has made
    /// no tick yet, with the camera at `player_pos`, whose chunk manager held
    /// the map `chunks` and then brought the camera there.
    pub open spec fn made_of_map(
        simulation: &Simulation,
        size: u32,
        bitmap_ratio: u32,
        capacity: usize,
        matter_definitions: MatterDefinitions,
        chunks: Seq<(IVec2, Option<BitmapImage>)>,
        player_pos: IVec2,
    ) -> bool {
        &&& simulation.wf()
        &&& simulation.ca_simulator.size == size
        &&& simulation.ca_simulator.bitmap_ratio == bitmap_ratio
        &&& simulation.ca_simulator.sim_steps == 0
        &&& simulation.camera_canvas_pos == player_pos
        &&& simulation.matter_definitions == matter_definitions
        &&& simulation.object_pixel_query.is_none()
        &&& exists|mid: SimulationChunkManager|
            mid.spec_size() == size && #[trigger] mid.holds_map(chunks, capacity)
                && mid.camera_moved(&simulation.chunk_manager, player_pos, matter_definitions)
    }

    /// A simulation of a world of chunks of `size` by `size` cells, with the
    /// camera at the origin and the nine chunks round it resident, read from
    /// blank images. The matter table must be valid, a canvas must be able to
    /// have the size and blocks of `bitmap_ratio` by `bitmap_ratio` cells,
    /// and the pool of `capacity` buffer sets must hold nine chunks.
    pub fn new(
        size: u32,
        bitmap_ratio: u32,
        capacity: usize,
        matter_definitions: MatterDefinitions,
    ) -> (made: Result<Simulation, SimulationError>)
        ensures
            made.is_ok() <==> table_valid(matter_definitions.definitions@) && canvas_size_ok(size)
                && ratio_ok(size, bitmap_ratio) && capacity >= 9,
            made matches Ok(simulation) ==> Simulation::made_of_map(
                &simulation,
                size,
                bitmap_ratio,
                capacity,
                matter_definitions,
                Seq::empty(),
                IVec2 { x: 0, y: 0 },
            ),
            made matches Err(error) ==> match error {
                SimulationError::InvalidMatterTable(_) => !table_valid(
                    matter_definitions.definitions@,
                ),
                SimulationError::InvalidSize => table_valid(matter_definitions.definitions@) && !(
                canvas_size_ok(size) && ratio_ok(size, bitmap_ratio)),
                SimulationError::PoolTooSmall => table_valid(matter_definitions.definitions@)
                    && canvas_size_ok(size) && ratio_ok(size, bitmap_ratio) && capacity < 9,
            },
    {
        Simulation::load_map_from_disk(
            size,
            bitmap_ratio,
            capacity,
            matter_definitions,
            Vec::new(),
            IVec2 { x: 0, y: 0 },
        )
    }

    /// A simulation of the world of a map, with the camera at `player_pos`
    /// and the nine chunks round it resident. Each entry of `chunks` is the
    /// position of a chunk and the image that was read for it; of two
    /// entries for one position the later counts, and an image that is
    /// missing or is not the image of a chunk gives a blank chunk. The
    /// matter table, the sizes and the pool are held to what `new` asks.
    pub fn load_map_from_disk(
        size: u32,
        bitmap_ratio: u32,
        capacity: usize,
        matter_definitions: MatterDefinitions,
        chunks: Vec<(IVec2, Option<BitmapImage>)>,
        player_pos: IVec2,
    ) -> (made: Result<Simulation, SimulationError>)
        requires
            within_world(player_pos),
        ensures
            made.is_ok() <==> table_valid(matter_definitions.definitions@) && canvas_size_ok(size)
                && ratio_ok(size, bitmap_ratio) && capacity >= 9,
            made matches Ok(simulation) ==> Simulation::made_of_map(
                &simulation,
                size,
                bitmap_ratio,
                capacity,
                matter_definitions,
                chunks@,
                player_pos,
            ),
            made matches Err(error) ==> match error {
                SimulationError::InvalidMatterTable(_) => !table_valid(
                    matter_definitions.definitions@,
                ),
                SimulationError::InvalidSize => table_valid(matter_definitions.definitions@) && !(
                canvas_size_ok(size) && ratio_ok(size, bitmap_ratio)),
                SimulationError::PoolTooSmall => table_valid(matter_definitions.definitions@)
                    && canvas_size_ok(size) && ratio_ok(size, bitmap_ratio) && capacity < 9,
            },
    {
        match validate_matter_definitions(&matter_definitions) {
            Ok(()) => {},
            Err(error) => {
                return Err(SimulationError::InvalidMatterTable(error));
            },
        }
        let mut ca_simulator = match CASimulator::new(size, bitmap_ratio,
            matter_definitions.empty) {
            Some(simulator) => simulator,
            None => {
                return Err(SimulationError::InvalidSize);
            },
        };
        ca_simulator.update_matter_data(&matter_definitions);
        let mut chunk_manager = match SimulationChunkManager::new(size, capacity) {
            Ok(manager) => manager,
            Err(_) => {
                return Err(SimulationError::InvalidSize);
            },
        };
        let ghost fresh = chunk_manager;
        proof {
            fresh.lemma_resident();
            assert(!fresh.map_meets_resident(chunks@)) by {
                if fresh.map_meets_resident(chunks@) {
                    let i = choose|i: int|
                        0 <= i < chunks@.len() && fresh.is_resident((#[trigger] chunks@[i]).0);
                    assert(fresh.resident().contains(chunks@[i].0));
                }
            }
        }
        let done = chunk_manager.load_map_from_disk(chunks, player_pos, &matter_definitions);
        let ghost mid = choose|mid: SimulationChunkManager|
            {
                &&& fresh.map_put(&mid, chunks@)
                &&& done.is_ok() <==> mid.wanted(anchor_of(player_pos, mid.spec_size())).len()
                    <= mid.pool().len() + mid.evictable(
                    anchor_of(player_pos, mid.spec_size()),
                ).len()
                &&& match done {
                    Ok(_) => mid.camera_moved(&chunk_manager, player_pos, matter_definitions),
                    Err(error) => error == ChunkError::PoolTooSmall && chunk_manager == mid,
                }
            };
        proof {
            fresh.lemma_map_put_in_fresh(&mid, chunks@, capacity);
            crate::simulation::chunk_window::lemma_round_div_bounds(
                player_pos.x as int,
                size as int,
                crate::simulation::simulation_utils::WORLD_LIMIT as int,
            );
            crate::simulation::chunk_window::lemma_round_div_bounds(
                player_pos.y as int,
                size as int,
                crate::simulation::simulation_utils::WORLD_LIMIT as int,
            );
            mid.lemma_map_needs_nine(chunks@, capacity, anchor_of(player_pos, size));
        }
        match done {
            Ok(()) => {},
            Err(_) => {
                return Err(SimulationError::PoolTooSmall);
            },
        }
        proof {
            lemma_canvas_cells(size);
        }
        let cells = (size as usize) * (size as usize);
        let mut tmp_object_ids: Vec<Vec<u64>> = Vec::new();
        let mut i: usize = 0;
        while i < cells
            invariant
                i <= cells,
                tmp_object_ids.len() == i,
            decreases cells - i,
        {
            tmp_object_ids.push(Vec::new());
            i += 1;
        }
        Ok(
            Simulation {
                ca_simulator,
                boundaries: PhysicsBoundaries::new(size, bitmap_ratio),
                object_pixel_query: None,
                camera_canvas_pos: player_pos,
                chunk_manager,
                tmp_object_ids,
                matter_definitions,
            },
        )
    }

    /// Begins anew: the world is forgotten, and the simulation is what `new`
    /// makes of its sizes, its matter table and a pool of `capacity` buffer
    /// sets. Where `new` would refuse, nothing is changed and the error says
    /// why.
    pub fn reset(&mut self, capacity: usize) -> (done: Result<(), SimulationError>)
        requires
            old(self).wf(),
        ensures
            done.is_ok() <==> table_valid(old(self).matter_definitions.definitions@) && capacity
                >= 9,
            done matches Err(error) ==> *final(self) == *old(self) && match error {
                SimulationError::InvalidMatterTable(_) => !table_valid(
                    old(self).matter_definitions.definitions@,
                ),
                SimulationError::InvalidSize => false,
                SimulationError::PoolTooSmall => table_valid(
                    old(self).matter_definitions.definitions@,
                ) && capacity < 9,
            },
            done.is_ok() ==> Simulation::made_of_map(
                final(self),
                old(self).ca_simulator.size,
                old(self).ca_simulator.bitmap_ratio,
                capacity,
                old(self).matter_definitions,
                Seq::empty(),
                IVec2 { x: 0, y: 0 },
            ),
    {
        match validate_matter_definitions(&self.matter_definitions) {
            Ok(()) => {},
            Err(error) => {
                return Err(SimulationError::InvalidMatterTable(error));
            },
        }
        if capacity < 9 {
            return Err(SimulationError::PoolTooSmall);
        }
        let mut table = MatterDefinitions { definitions: Vec::new(), empty: 0 };
        core::mem::swap(&mut self.matter_definitions, &mut table);
        let size = self.ca_simulator.size;
        let bitmap_ratio = self.ca_simulator.bitmap_ratio;
        match Simulation::new(size, bitmap_ratio, capacity, table) {
            Ok(simulation) => {
                *self = simulation;
                Ok(())
            },
            Err(error) => Err(error),
        }
    }

    /// Takes the buffers of the window from the chunk manager and reads the
    /// canvas out of them.
    fn take_canvas(&mut self) -> (taken: (CanvasFrame, Vec<GpuChunk>, CanvasGrid))
        requires
            old(self).wf(),
        ensures
            final(self).parts_wf(),
            final(self).chunk_manager.is_lent(),
            final(self).ca_simulator == old(self).ca_simulator,
            final(self).boundaries == old(self).boundaries,
            final(self).object_pixel_query == old(self).object_pixel_query,
            final(self).camera_canvas_pos == old(self).camera_canvas_pos,
            final(self).tmp_object_ids == old(self).tmp_object_ids,
            final(self).matter_definitions == old(self).matter_definitions,
            final(self).chunk_manager.window() == old(self).chunk_manager.window(),
            final(self).chunk_manager.positions() == old(self).chunk_manager.positions(),
            final(self).chunk_manager.pool() == old(self).chunk_manager.pool(),
            forall|pos: IVec2|
                !old(self).chunk_manager.window().contains(pos) ==>
                    #[trigger] final(self).chunk_manager.chunk_at(pos)
                    == old(self).chunk_manager.chunk_at(pos),
            forall|k: int|
                0 <= k < 4 ==> (#[trigger] final(self).chunk_manager.chunk_at(
                    old(self).chunk_manager.window()[k],
                )).unwrap().image == old(self).chunk_manager.chunk_at(
                    old(self).chunk_manager.window()[k],
                ).unwrap().image,
            taken.0 == old(self).frame(),
            taken.0.wf(),
            taken.0.size == old(self).ca_simulator.size,
            taken.1@ =~= old(self).chunk_manager.window_buffers(),
            window_wf(taken.1@, taken.0.size),
            taken.2.wf(),
            taken.2@ == old(self).canvas(),
    {
        let (chunk_start, chunks) = self.chunk_manager.get_chunks_for_compute();
        let frame = CanvasFrame {
            camera: self.camera_canvas_pos,
            chunk_start,
            size: self.ca_simulator.size,
        };
        let grid = CanvasGrid {
            size: self.ca_simulator.size,
            empty: self.ca_simulator.empty,
            matter: frame.gather_layer(&chunks, Layer::MatterIn),
            objects_matter: frame.gather_layer(&chunks, Layer::ObjectsMatter),
            objects_color: frame.gather_layer(&chunks, Layer::ObjectsColor),
        };
        (frame, chunks, grid)
    }

    /// Writes the canvas back into the buffers of the window and hands them
    /// back to the chunk manager.
    fn put_canvas(&mut self, frame: CanvasFrame, chunks: Vec<GpuChunk>, grid: &CanvasGrid)
        requires
            old(self).parts_wf(),
            old(self).chunk_manager.is_lent(),
            frame == old(self).frame(),
            window_wf(chunks@, frame.size),
            grid.wf(),
            grid.size == old(self).ca_simulator.size,
            grid.empty == old(self).ca_simulator.empty,
        ensures
            final(self).wf(),
            final(self).ca_simulator == old(self).ca_simulator,
            final(self).boundaries == old(self).boundaries,
            final(self).object_pixel_query == old(self).object_pixel_query,
            final(self).camera_canvas_pos == old(self).camera_canvas_pos,
            final(self).tmp_object_ids == old(self).tmp_object_ids,
            final(self).matter_definitions == old(self).matter_definitions,
            final(self).chunk_manager.window() == old(self).chunk_manager.window(),
            final(self).chunk_manager.positions() == old(self).chunk_manager.positions(),
            final(self).chunk_manager.pool() == old(self).chunk_manager.pool(),
            forall|pos: IVec2|
                !old(self).chunk_manager.window().contains(pos) ==>
                    #[trigger] final(self).chunk_manager.chunk_at(pos)
                    == old(self).chunk_manager.chunk_at(pos),
            final(self).canvas() == grid@,
            final(self).frame() == frame,
            forall|k: int|
                0 <= k < 4 ==> (#[trigger] final(self).chunk_manager.chunk_at(
                    old(self).chunk_manager.window()[k],
                )).unwrap().image == old(self).chunk_manager.chunk_at(
                    old(self).chunk_manager.window()[k],
                ).unwrap().image,
            forall|k: int, j: int, layer: Layer|
                0 <= k < 4 && 0 <= j < frame.size * frame.size ==> #[trigger] layer_of(
                    final(self).chunk_manager.window_buffers()[k],
                    layer,
                )[j] == put_value(frame, chunks@, grid@, layer, k, j),
    {
        let mut chunks = chunks;
        let ghost start = chunks@;
        frame.scatter_layer(&mut chunks, Layer::MatterIn, &grid.matter);
        let ghost first = chunks@;
        frame.scatter_layer(&mut chunks, Layer::MatterOut, &grid.matter);
        let ghost second = chunks@;
        frame.scatter_layer(&mut chunks, Layer::ObjectsMatter, &grid.objects_matter);
        let ghost third = chunks@;
        frame.scatter_layer(&mut chunks, Layer::ObjectsColor, &grid.objects_color);
        let ghost done = chunks@;
        proof {
            frame.lemma_gather_scattered(start, first, Layer::MatterIn, grid.matter@);
            frame.lemma_gather_scattered(first, second, Layer::MatterOut, grid.matter@);
            frame.lemma_gather_scattered(second, third, Layer::ObjectsMatter, grid.objects_matter@);
            frame.lemma_gather_scattered(third, done, Layer::ObjectsColor, grid.objects_color@);
            assert(frame.gathered(done, Layer::MatterIn) == grid.matter@);
            assert(frame.gathered(done, Layer::ObjectsMatter) == grid.objects_matter@);
            assert(frame.gathered(done, Layer::ObjectsColor) == grid.objects_color@);
        }
        self.chunk_manager.update_compute_chunks(chunks);
        proof {
            assert(done =~= self.chunk_manager.window_buffers());
        }
    }

    /// Whether `after` is this simulation with the matter table `table`, laid
    /// out for the automaton, and everything else as it was.
    pub open spec fn table_changed_to(
        &self,
        after: &Simulation,
        table: Seq<MatterDefinition>,
    ) -> bool {
        &&& after.wf()
        &&& after.matter_definitions.definitions@ == table
        &&& after.matter_definitions.empty == self.matter_definitions.empty
        &&& after.ca_simulator.arrays.holds(table)
        &&& after.ca_simulator.bitmap == self.ca_simulator.bitmap
        &&& after.ca_simulator.sim_steps == self.ca_simulator.sim_steps
        &&& after.ca_simulator.size == self.ca_simulator.size
        &&& after.ca_simulator.bitmap_ratio == self.ca_simulator.bitmap_ratio
        &&& after.ca_simulator.empty == self.ca_simulator.empty
        &&& after.boundaries == self.boundaries
        &&& after.object_pixel_query == self.object_pixel_query
        &&& after.camera_canvas_pos == self.camera_canvas_pos
        &&& after.chunk_manager == self.chunk_manager
        &&& after.tmp_object_ids == self.tmp_object_ids
    }

    /// Removes matter `id` from the table and lays the table out anew for the
    /// automaton. The matters behind it move down by one; the reactions are
    /// left as they are. The empty matter and a matter that the table does
    /// not hold are not removed.
    pub fn remove_matter_definition(&mut self, id: u32) -> (done: Result<(), MatterTableError>)
        requires
            old(self).wf(),
        ensures
            done.is_ok() <==> id != old(self).matter_definitions.empty && id < old(
                self,
            ).matter_definitions.definitions.len(),
            done matches Err(error) ==> error == if id == old(self).matter_definitions.empty {
                MatterTableError::ReservedEmpty
            } else {
                MatterTableError::UnknownId { id }
            },
            old(self).table_changed_to(
                final(self),
                if done.is_ok() {
                    without_definition(old(self).matter_definitions.definitions@, id as int)
                } else {
                    old(self).matter_definitions.definitions@
                },
            ),
    {
        let done = self.matter_definitions.remove(id);
        self.ca_simulator.update_matter_data(&self.matter_definitions);
        done
    }

    /// Adds a matter to the table, or puts it in place of the one with its
    /// id, and lays the table out anew for the automaton. A matter whose id
    /// lies beyond the end of the table is refused.
    pub fn add_matter_to_definitions(
        &mut self,
        matter_definition: MatterDefinition,
    ) -> (done: Result<(), MatterTableError>)
        requires
            old(self).wf(),
        ensures
            done.is_ok() <==> matter_definition.id <= old(self).matter_definitions.definitions.len(
                ),
            done matches Err(error) ==> error == (MatterTableError::UnknownId {
                id: matter_definition.id,
            }),
            old(self).table_changed_to(
                final(self),
                with_definition(old(self).matter_definitions.definitions@, matter_definition),
            ),
    {
        let done = self.matter_definitions.add_or_update(matter_definition);
        self.ca_simulator.update_matter_data(&self.matter_definitions);
        done
    }

    /// Whether `after` is this simulation with `matter` painted with `brush`
    /// along `line` into the canvas: the matter of the canvas is painted,
    /// and everything else is as it was. In the buffers of the window, the
    /// places in the canvas hold what the canvas holds, and the others what
    /// they held.
    pub open spec fn painted_to(
        &self,
        after: &Simulation,
        line: Seq<IVec2>,
        matter: u32,
        brush: Brush,
    ) -> bool {
        &&& after.wf()
        &&& after.ca_simulator == self.ca_simulator
        &&& after.boundaries == self.boundaries
        &&& after.object_pixel_query == self.object_pixel_query
        &&& after.camera_canvas_pos == self.camera_canvas_pos
        &&& after.tmp_object_ids == self.tmp_object_ids
        &&& after.matter_definitions == self.matter_definitions
        &&& after.frame() == self.frame()
        &&& after.canvas() == (GridView {
            matter: painted(
                self.canvas().matter,
                line,
                brush,
                self.camera_canvas_pos,
                self.ca_simulator.size,
                self.ca_simulator.empty,
                matter,
            ),
            ..self.canvas()
        })
        &&& self.rest_kept(after)
        &&& forall|k: int, j: int, layer: Layer|
            0 <= k < 4 && 0 <= j < self.ca_simulator.size * self.ca_simulator.size
                ==> #[trigger] layer_of(after.chunk_manager.window_buffers()[k], layer)[j]
                == put_value(
                self.frame(),
                self.chunk_manager.window_buffers(),
                after.canvas(),
                layer,
                k,
                j,
            )
    }

    /// Paints `matter` with `brush` along `line` into the canvas.
    pub fn paint_line(&mut self, line: &Vec<IVec2>, matter: u32, brush: Brush)
        requires
            old(self).wf(),
        ensures
            old(self).painted_to(final(self), line@, matter, brush),
    {
        let ghost before = *self;
        let (frame, chunks, mut grid) = self.take_canvas();
        let ghost lent = *self;
        let ghost taken = chunks@;
        paint(&mut grid, line, matter, brush, self.camera_canvas_pos);
        self.put_canvas(frame, chunks, &grid);
        proof {
            assert(taken == before.chunk_manager.window_buffers());
            assert forall|k: int| 0 <= k < 4 implies (#[trigger] self.chunk_manager.chunk_at(
                before.chunk_manager.window()[k],
            )).unwrap().image == before.chunk_manager.chunk_at(
                before.chunk_manager.window()[k],
            ).unwrap().image by {
                assert(lent.chunk_manager.chunk_at(before.chunk_manager.window()[k]).unwrap().image
                    == before.chunk_manager.chunk_at(
                    before.chunk_manager.window()[k],
                ).unwrap().image);
            }
            assert(before.rest_kept(self));
        }
    }

    /// Paints `matter` along `line` with a round brush of `radius`.
    pub fn paint_round(&mut self, line: &Vec<IVec2>, matter: u32, radius: u32)
        requires
            old(self).wf(),
        ensures
            old(self).painted_to(final(self), line@, matter, Brush::Round(radius)),
    {
        self.paint_line(line, matter, Brush::Round(radius));
    }

    /// Paints `matter` along `line` with a square brush of the edge `size`.
    pub fn paint_square(&mut self, line: &Vec<IVec2>, matter: u32, size: u32)
        requires
            old(self).wf(),
        ensures
            old(self).painted_to(final(self), line@, matter, Brush::Square(size)),
    {
        self.paint_line(line, matter, Brush::Square(size));
    }

    /// What `layer` holds at the point `pos` of the world, which lies in the
    /// canvas.
    pub open spec fn value_at(&self, layer: Layer, pos: IVec2) -> u32 {
        crate::simulation::canvas_window::layer_of(
            self.chunk_manager.window_buffers()[window_chunk_index(
                pos,
                self.frame().chunk_start,
                self.ca_simulator.size,
            )],
            layer,
        )[window_cell_index(pos, self.frame().chunk_start, self.ca_simulator.size)]
    }

    /// Query cell via GUI: the matter at `mouse_pos`, if that lies in the
    /// canvas.
    pub fn query_matter(&self, mouse_pos: IVec2) -> (matter: Option<u32>)
        requires
            self.wf(),
        ensures
            matter.is_some() <==> inside_sim_canvas(
                mouse_pos,
                self.camera_canvas_pos,
                self.ca_simulator.size,
            ),
            matter matches Some(found) ==> found == self.value_at(Layer::MatterIn, mouse_pos),
    {
        if !is_inside_sim_canvas(mouse_pos, self.camera_canvas_pos, self.ca_simulator.size) {
            return None;
        }
        proof {
            lemma_canvas_in_window(self.camera_canvas_pos, self.ca_simulator.size, mouse_pos);
        }
        let chunk_start = self.chunk_manager.chunk_start();
        let (chunk_index, grid_index) = sim_chunk_canvas_index(
            mouse_pos,
            chunk_start,
            self.ca_simulator.size,
        );
        Some(self.chunk_manager.read_window(Layer::MatterIn, chunk_index, grid_index))
    }

    /// The objects that lie on the cell at `mouse_pos`, with the matter that
    /// the cell shows of them, if that lies in the canvas and an object lies
    /// there.
    pub fn query_object(&self, mouse_pos: IVec2) -> (found: Option<(u32, Vec<u64>)>)
        requires
            self.wf(),
        ensures
            found.is_some() <==> inside_sim_canvas(
                mouse_pos,
                self.camera_canvas_pos,
                self.ca_simulator.size,
            ) && self.value_at(Layer::ObjectsMatter, mouse_pos) != self.matter_definitions.empty,
            found matches Some(object) ==> object.0 == self.value_at(
                Layer::ObjectsMatter,
                mouse_pos,
            ) && object.1@ == self.tmp_object_ids[sim_canvas_place(
                mouse_pos,
                self.camera_canvas_pos,
                self.ca_simulator.size,
            )]@,
    {
        if !is_inside_sim_canvas(mouse_pos, self.camera_canvas_pos, self.ca_simulator.size) {
            return None;
        }
        proof {
            lemma_canvas_in_window(self.camera_canvas_pos, self.ca_simulator.size, mouse_pos);
        }
        let chunk_start = self.chunk_manager.chunk_start();
        let (chunk_index, grid_index) = sim_chunk_canvas_index(
            mouse_pos,
            chunk_start,
            self.ca_simulator.size,
        );
        let matter = self.chunk_manager.read_window(Layer::ObjectsMatter, chunk_index, grid_index);
        if matter == self.matter_definitions.empty {
            None
        } else {
            let place = sim_canvas_index(mouse_pos, self.camera_canvas_pos, self.ca_simulator.size);
            let list = &self.tmp_object_ids[place];
            let mut object_ids: Vec<u64> = Vec::new();
            let mut i: usize = 0;
            while i < list.len()
                invariant
                    i <= list.len(),
                    object_ids@ == list@.subrange(0, i as int),
                decreases list.len() - i,
            {
                object_ids.push(list[i]);
                assert(object_ids@ =~= list@.subrange(0, i + 1));
                i += 1;
            }
            assert(object_ids@ =~= list@);
            Some((matter, object_ids))
        }
    }

    /// Writes the alive cells of every object over the canvas, and notes for
    /// every object where its cells lie.
    pub fn write_pixel_objects_to_grid(&mut self, objects: &mut Vec<PixelObject>)
        requires
            old(self).wf(),
            forall|i: int| 0 <= i < old(objects).len() ==> (#[trigger] old(objects)[i]).wf(),
        ensures
            final(self).wf(),
            final(self).ca_simulator == old(self).ca_simulator,
            final(self).camera_canvas_pos == old(self).camera_canvas_pos,
            final(self).frame() == old(self).frame(),
            final(self).canvas().matter == old(self).canvas().matter,
            final(objects).len() == old(objects).len(),
            forall|i: int|
                0 <= i < old(objects).len() ==> old(objects)[i].written_as(
                    #[trigger] final(objects)[i],
                ) && final(objects)[i].placed() && final(objects)[i].wf(),
            overlay_of(final(self).canvas(), final(self).tmp_object_ids@) == written_all(
                overlay_of(old(self).canvas(), old(self).tmp_object_ids@),
                old(objects)@,
                old(self).camera_canvas_pos,
                old(self).ca_simulator.size,
                old(objects).len() as int,
            ),
    {
        let (frame, chunks, mut grid) = self.take_canvas();
        write_objects(&mut grid, &mut self.tmp_object_ids, objects, self.camera_canvas_pos);
        self.put_canvas(frame, chunks, &grid);
    }

    /// 1. Compare temp pixels that were written to canvas before ca simulation now after simulation
    /// 2. If they changed, object is determined to be deformed
    /// 3. Clear the objects from the canvas
    /// What became of the objects that did not stay intact is returned.
    pub fn update_objects_from_grid(&mut self, objects: &mut Vec<PixelObject>) -> (deformed: Vec<
        DeformedObjectData,
    >)
        requires
            old(self).wf(),
            forall|i: int| 0 <= i < old(objects).len() ==> (#[trigger] old(objects)[i]).placed(),
        ensures
            final(self).wf(),
            final(self).ca_simulator == old(self).ca_simulator,
            final(self).camera_canvas_pos == old(self).camera_canvas_pos,
            final(self).frame() == old(self).frame(),
            final(self).canvas().matter == old(self).canvas().matter,
            final(objects).len() == old(objects).len(),
            forall|i: int|
                0 <= i < old(objects).len() ==> old(objects)[i].cleared_as(
                    #[trigger] final(objects)[i],
                ),
            surveyed(
                deformed@,
                old(objects)@,
                old(self).canvas(),
                crate::simulation::object_grid::occupants_of(old(self).tmp_object_ids@),
                old(self).camera_canvas_pos,
                old(objects).len() as int,
            ),
            overlay_of(final(self).canvas(), final(self).tmp_object_ids@) == cleared_all(
                overlay_of(old(self).canvas(), old(self).tmp_object_ids@),
                old(objects)@,
                old(self).camera_canvas_pos,
                old(self).ca_simulator.size,
                old(self).ca_simulator.empty,
                old(objects).len() as int,
            ),
    {
        let (frame, chunks, mut grid) = self.take_canvas();
        let deformed = survey_objects(&grid, &self.tmp_object_ids, objects, self.camera_canvas_pos);
        clear_objects(&mut grid, &mut self.tmp_object_ids, objects, self.camera_canvas_pos);
        self.put_canvas(frame, chunks, &grid);
        deformed
    }

    /// Reads the occupancy bitmap of the last tick into the bitmaps of the
    /// boundaries, and takes note of what is to be done: for every class of
    /// matter whose bitmap changed, its bodies are to be removed and made
    /// anew from the bitmap; for the other classes nothing is done.
    pub fn update_physics_boundaries(&mut self) -> (plan: BoundaryPlan)
        requires
            old(self).wf(),
        ensures
            final(self).wf(),
            final(self).ca_simulator == old(self).ca_simulator,
            final(self).chunk_manager == old(self).chunk_manager,
            final(self).camera_canvas_pos == old(self).camera_canvas_pos,
            final(self).object_pixel_query == old(self).object_pixel_query,
            final(self).tmp_object_ids == old(self).tmp_object_ids,
            final(self).matter_definitions == old(self).matter_definitions,
            old(self).boundaries_renewed(&final(self).boundaries, &plan),
    {
        self.ca_simulator.update_bitmaps(
            &mut self.boundaries.solid_bitmap,
            &mut self.boundaries.powder_bitmap,
            &mut self.boundaries.liquid_bitmap,
            &mut self.boundaries.solids_changed,
            &mut self.boundaries.powders_changed,
            &mut self.boundaries.liquids_changed,
        );
        self.boundaries.take_changes()
    }

    /// The canvas with the objects written over it that the passes of a tick
    /// start from.
    pub open spec fn canvas_with(&self, overlay: OverlayView) -> GridView {
        GridView {
            size: self.ca_simulator.size,
            empty: self.ca_simulator.empty,
            matter: self.canvas().matter,
            objects_matter: overlay.objects_matter,
            objects_color: overlay.objects_color,
        }
    }

    /// Whether `after`, `objects_after` and `outcome` are what one tick
    /// without a move of the camera makes of this simulation and
    /// `objects_before`, in this order: the objects are written over the
    /// canvas, the passes of the automaton run, the objects are looked for,
    /// the objects are cleared from the canvas, and the boundaries are
    /// renewed.
    pub open spec fn ticked_to(
        &self,
        after: &Simulation,
        objects_before: Seq<PixelObject>,
        objects_after: Seq<PixelObject>,
        settings: AppSettings,
        mouse_on_canvas: IVec2,
        seed: u32,
        outcome: &StepOutcome,
    ) -> bool {
        let camera = self.camera_canvas_pos;
        let size = self.ca_simulator.size;
        let count = objects_before.len() as int;
        let laid = written_all(
            overlay_of(self.canvas(), self.tmp_object_ids@),
            objects_before,
            camera,
            size,
            count,
        );
        let run = ticked(
            self.ca_simulator.arrays,
            self.canvas_with(laid),
            settings,
            self.ca_simulator.sim_steps,
            seed,
        );
        &&& after.wf()
        &&& after.camera_canvas_pos == camera
        &&& after.frame() == self.frame()
        &&& after.matter_definitions == self.matter_definitions
        &&& after.ca_simulator.arrays == self.ca_simulator.arrays
        &&& after.ca_simulator.size == size
        &&& after.ca_simulator.sim_steps == if self.ca_simulator.sim_steps == u32::MAX {
            0
        } else {
            self.ca_simulator.sim_steps + 1
        }
        &&& after.ca_simulator.bitmap@ == occupancy(
            self.ca_simulator.arrays,
            run,
            self.ca_simulator.bitmap_ratio as int,
        )
        &&& query_holds(
            after.object_pixel_query,
            queried(run, laid.occupants, camera, mouse_on_canvas),
        )
        &&& self.rest_kept(after)
        &&& objects_after.len() == count
        &&& forall|i: int|
            0 <= i < count ==> objects_before[i].cleared_as(#[trigger] objects_after[i])
        &&& exists|written: Seq<PixelObject>|
            #![trigger surveyed(outcome.deformed@, written, run, laid.occupants, camera, count)]
            written.len() == count && (forall|i: int|
                0 <= i < count ==> objects_before[i].written_as(#[trigger] written[i])) && surveyed(
                outcome.deformed@,
                written,
                run,
                laid.occupants,
                camera,
                count,
            ) && after.canvas().matter == run.matter && overlay_of(
                after.canvas(),
                after.tmp_object_ids@,
            ) == cleared_all(
                OverlayView {
                    objects_matter: run.objects_matter,
                    objects_color: run.objects_color,
                    occupants: laid.occupants,
                },
                written,
                camera,
                size,
                self.ca_simulator.empty,
                count,
            ) && self.window_written(
                after,
                run,
                cleared_all(
                    OverlayView {
                        objects_matter: run.objects_matter,
                        objects_color: run.objects_color,
                        occupants: laid.occupants,
                    },
                    written,
                    camera,
                    size,
                    self.ca_simulator.empty,
                    count,
                ),
            )
        &&& after.boundaries_follow(self, &outcome.boundaries)
    }

    /// Whether the chunks beyond the window, the images of the chunks of the
    /// window, the chunks that the world has met and the pool of `after` are
    /// those of this simulation.
    pub open spec fn rest_kept(&self, after: &Simulation) -> bool {
        &&& after.chunk_manager.positions() == self.chunk_manager.positions()
        &&& after.chunk_manager.pool() == self.chunk_manager.pool()
        &&& after.chunk_manager.window() == self.chunk_manager.window()
        &&& forall|pos: IVec2|
            !self.chunk_manager.window().contains(pos)
                ==> #[trigger] after.chunk_manager.chunk_at(pos) == self.chunk_manager.chunk_at(
                pos,
            )
        &&& forall|k: int|
            0 <= k < 4 ==> (#[trigger] after.chunk_manager.chunk_at(
                self.chunk_manager.window()[k],
            )).unwrap().image == self.chunk_manager.chunk_at(
                self.chunk_manager.window()[k],
            ).unwrap().image
    }

    /// Whether the buffers of the window of `after` are those of this
    /// simulation with the canvas of a tick written over them: over the
    /// canvas every buffer holds what the tick left for it, and beyond the
    /// canvas what it held.
    pub open spec fn window_written(
        &self,
        after: &Simulation,
        run: GridView,
        cleared: OverlayView,
    ) -> bool {
        forall|k: int, j: int, layer: Layer|
            0 <= k < 4 && 0 <= j < self.ca_simulator.size * self.ca_simulator.size
                ==> #[trigger] layer_of(after.chunk_manager.window_buffers()[k], layer)[j]
                == self.frame().scattered_value(
                self.chunk_manager.window_buffers(),
                layer,
                tick_values(self.ca_simulator.arrays, run, cleared, layer),
                k,
                j,
            )
    }

    /// Whether the boundaries of this simulation and `plan` are what the
    /// occupancy bitmap of the last tick leaves of the boundaries of
    /// `before`.
    pub open spec fn boundaries_follow(&self, before: &Simulation, plan: &BoundaryPlan) -> bool {
        let renewed = Simulation {
            ca_simulator: self.ca_simulator,
            boundaries: before.boundaries,
            object_pixel_query: before.object_pixel_query,
            camera_canvas_pos: before.camera_canvas_pos,
            chunk_manager: before.chunk_manager,
            tmp_object_ids: before.tmp_object_ids,
            matter_definitions: before.matter_definitions,
        };
        renewed.boundaries_renewed(&self.boundaries, plan)
    }

    /// One tick without a move of the camera.
    pub fn step_in_place(
        &mut self,
        objects: &mut Vec<PixelObject>,
        settings: AppSettings,
        mouse_on_canvas: IVec2,
        seed: u32,
    ) -> (outcome: StepOutcome)
        requires
            old(self).wf(),
            forall|i: int| 0 <= i < old(objects).len() ==> (#[trigger] old(objects)[i]).wf(),
        ensures
            old(self).ticked_to(
                final(self),
                old(objects)@,
                final(objects)@,
                settings,
                mouse_on_canvas,
                seed,
                &outcome,
            ),
            final(self).wf(),
    {
        let ghost before = *self;
        let ghost objects_before = objects@;
        let ghost count = objects@.len() as int;
        let camera = self.camera_canvas_pos;
        let (frame, mut chunks, mut grid) = self.take_canvas();
        let ghost start = overlay_of(grid@, self.tmp_object_ids@);
        // 1. Write objects to CA grid
        write_objects(&mut grid, &mut self.tmp_object_ids, objects, camera);
        let ghost written = objects@;
        let ghost laid = overlay_of(grid@, self.tmp_object_ids@);
        assert(grid@ == before.canvas_with(laid));
        // 2. Step CA (multiple steps if needed). Updates solid etc. bitmaps
        let image = self.ca_simulator.tick(&mut grid, settings, seed);
        let ghost run = grid@;
        self.object_pixel_query = None;
        proof {
            if inside_sim_canvas(mouse_on_canvas, camera, self.ca_simulator.size) {
                crate::geometry::lemma_cell_index_in_range(
                    self.ca_simulator.size as int,
                    self.ca_simulator.size as int,
                    crate::simulation::simulation_utils::canvas_column(
                        mouse_on_canvas,
                        camera,
                        self.ca_simulator.size,
                    ),
                    crate::simulation::simulation_utils::canvas_row(
                        mouse_on_canvas,
                        camera,
                        self.ca_simulator.size,
                    ),
                );
            }
        }
        if is_inside_sim_canvas(mouse_on_canvas, camera, self.ca_simulator.size) {
            let place = sim_canvas_index(mouse_on_canvas, camera, self.ca_simulator.size);
            if grid.objects_matter[place] != grid.empty {
                let list = &self.tmp_object_ids[place];
                let mut object_ids: Vec<u64> = Vec::new();
                let mut i: usize = 0;
                while i < list.len()
                    invariant
                        i <= list.len(),
                        object_ids@ == list@.subrange(0, i as int),
                    decreases list.len() - i,
                {
                    object_ids.push(list[i]);
                    assert(object_ids@ =~= list@.subrange(0, i + 1));
                    i += 1;
                }
                assert(object_ids@ =~= list@);
                self.object_pixel_query = Some((grid.objects_matter[place], object_ids));
            }
        }
        // 3. Look for what became of the objects, and clear them from the grid
        let ghost query = self.object_pixel_query;
        assert(query_holds(query, queried(run, laid.occupants, camera, mouse_on_canvas)));
        let deformed = survey_objects(&grid, &self.tmp_object_ids, objects, camera);
        clear_objects(&mut grid, &mut self.tmp_object_ids, objects, camera);
        let ghost taken = chunks@;
        frame.scatter_layer(&mut chunks, Layer::Image, &image);
        let ghost drawn = chunks@;
        let ghost lent = *self;
        self.put_canvas(frame, chunks, &grid);
        let ghost canvas_done = *self;
        let ghost cleared = overlay_of(grid@, self.tmp_object_ids@);
        proof {
            assert forall|k: int, j: int, layer: Layer|
                0 <= k < 4 && 0 <= j < self.ca_simulator.size * self.ca_simulator.size implies
                    #[trigger] layer_of(
                self.chunk_manager.window_buffers()[k],
                layer,
            )[j] == frame.scattered_value(
                taken,
                layer,
                tick_values(self.ca_simulator.arrays, run, cleared, layer),
                k,
                j,
            ) by {
                assert(layer_of(self.chunk_manager.window_buffers()[k], layer)[j] == put_value(
                    frame,
                    drawn,
                    grid@,
                    layer,
                    k,
                    j,
                ));
                if layer != Layer::Image {
                    assert(layer_of(drawn[k], layer) == layer_of(taken[k], layer));
                }
            }
        }
        // 4. Form contours & physics boundaries from CA Grid
        let boundaries = self.update_physics_boundaries();
        let outcome = StepOutcome { deformed, boundaries };
        proof {
            assert(self.canvas() == canvas_done.canvas());
            assert(taken == before.chunk_manager.window_buffers());
            assert(before.rest_kept(self)) by {
                assert forall|k: int| 0 <= k < 4 implies (#[trigger] self.chunk_manager.chunk_at(
                    before.chunk_manager.window()[k],
                )).unwrap().image == before.chunk_manager.chunk_at(
                    before.chunk_manager.window()[k],
                ).unwrap().image by {
                    assert(lent.chunk_manager.chunk_at(
                        before.chunk_manager.window()[k],
                    ).unwrap().image == before.chunk_manager.chunk_at(
                        before.chunk_manager.window()[k],
                    ).unwrap().image);
                }
            }
            assert(query_holds(
                self.object_pixel_query,
                queried(run, laid.occupants, camera, mouse_on_canvas),
            ));
            assert(before.window_written(self, run, cleared));
            assert forall|i: int| 0 <= i < count implies objects_before[i].cleared_as(
                #[trigger] objects@[i],
            ) by {
                assert(objects_before[i].written_as(written[i]));
                assert(written[i].cleared_as(objects@[i]));
            }
            assert(overlay_of(run, self.tmp_object_ids@).occupants == overlay_of(
                self.canvas(),
                self.tmp_object_ids@,
            ).occupants);
            assert(surveyed(outcome.deformed@, written, run, laid.occupants, camera, count));
            assert(self.boundaries_follow(&before, &outcome.boundaries)) by {
                let renewed = Simulation {
                    ca_simulator: self.ca_simulator,
                    boundaries: before.boundaries,
                    object_pixel_query: before.object_pixel_query,
                    camera_canvas_pos: before.camera_canvas_pos,
                    chunk_manager: before.chunk_manager,
                    tmp_object_ids: before.tmp_object_ids,
                    matter_definitions: before.matter_definitions,
                };
                assert(canvas_done.boundaries == before.boundaries);
                assert(forall|class: MatterClass|
                    #[trigger] renewed.class_changed(class) == canvas_done.class_changed(class));
                assert(renewed.boundaries_renewed(&self.boundaries, &outcome.boundaries));
            }
        }
        outcome
    }

    /// One tick of the world: the camera comes to `camera_canvas_pos`, where
    /// the chunk manager makes the chunks round it resident; then the objects
    /// are written over the canvas, the passes of the automaton run, the
    /// objects are looked for and cleared again, and the boundaries are
    /// renewed. Where the pool cannot hold the chunks round the camera,
    /// nothing is changed and the error says so.
    pub fn step(
        &mut self,
        objects: &mut Vec<PixelObject>,
        settings: AppSettings,
        camera_canvas_pos: IVec2,
        mouse_on_canvas: IVec2,
        seed: u32,
    ) -> (done: Result<StepOutcome, SimulationError>)
        requires
            old(self).wf(),
            within_world(camera_canvas_pos),
            forall|i: int| 0 <= i < old(objects).len() ==> (#[trigger] old(objects)[i]).wf(),
        ensures
            final(self).wf(),
            done.is_ok() <==> old(self).chunk_manager.wanted(
                anchor_of(camera_canvas_pos, old(self).ca_simulator.size),
            ).len() <= old(self).chunk_manager.pool().len() + old(self).chunk_manager.evictable(
                anchor_of(camera_canvas_pos, old(self).ca_simulator.size),
            ).len(),
            done matches Err(error) ==> error == SimulationError::PoolTooSmall && *final(self)
                == *old(self) && *final(objects) == *old(objects),
            done.is_ok() ==> exists|moved: Simulation|
                #![trigger moved.ticked_to(
                    final(self),
                    old(objects)@,
                    final(objects)@,
                    settings,
                    mouse_on_canvas,
                    seed,
                    &done.unwrap(),
                )]
                old(self).camera_moved_to(&moved, camera_canvas_pos) && moved.ticked_to(
                    final(self),
                    old(objects)@,
                    final(objects)@,
                    settings,
                    mouse_on_canvas,
                    seed,
                    &done.unwrap(),
                ),
    {
        match self.chunk_manager.update_chunks(camera_canvas_pos, &self.matter_definitions) {
            Ok(()) => {},
            Err(_) => {
                return Err(SimulationError::PoolTooSmall);
            },
        }
        self.camera_canvas_pos = camera_canvas_pos;
        let ghost moved = *self;
        let outcome = self.step_in_place(objects, settings, mouse_on_canvas, seed);
        let done: Result<StepOutcome, SimulationError> = Ok(outcome);
        proof {
            assert(old(self).camera_moved_to(&moved, camera_canvas_pos));
            assert(moved.ticked_to(
                self,
                old(objects)@,
                objects@,
                settings,
                mouse_on_canvas,
                seed,
                &done.unwrap(),
            ));
        }
        done
    }

    /// Whether `moved` is this simulation once the camera has come to
    /// `camera_canvas_pos` and the chunks round it are resident.
    pub open spec fn camera_moved_to(&self, moved: &Simulation, camera_canvas_pos: IVec2) -> bool {
        &&& moved.wf()
        &&& moved.camera_canvas_pos == camera_canvas_pos
        &&& moved.ca_simulator == self.ca_simulator
        &&& moved.boundaries == self.boundaries
        &&& moved.object_pixel_query == self.object_pixel_query
        &&& moved.tmp_object_ids == self.tmp_object_ids
        &&& moved.matter_definitions == self.matter_definitions
        &&& self.chunk_manager.camera_moved(
            &moved.chunk_manager,
            camera_canvas_pos,
            self.matter_definitions,
        )
    }

    /// Whether the bitmap of the class with the bit `mask` in the occupancy
    /// bitmap is to be taken as changed: it was noted as changed, or it is
    /// another than the boundaries hold.
    pub open spec fn class_changed(&self, class: MatterClass) -> bool {
        self.boundaries.changed(class) || class_bitmap(
            self.ca_simulator.bitmap@,
            mask_of(class),
        ) != self.boundaries.bitmap_of(class)
    }

    /// Whether `after` and `plan` are the boundaries and the plan that the
    /// occupancy bitmap of the last tick leaves: every bitmap is renewed; a
    /// class whose bitmap changed loses its bodies, which are to be removed,
    /// and is to get new ones, made from its bitmap, sensors unless the class
    /// is the solid one; no class is noted as changed any more.
    pub open spec fn boundaries_renewed(
        &self,
        after: &PhysicsBoundaries,
        plan: &BoundaryPlan,
    ) -> bool {
        &&& after.wf(self.ca_simulator.bitmap.len() as int)
        &&& !after.solids_changed && !after.powders_changed && !after.liquids_changed
        &&& forall|class: MatterClass|
            #[trigger] after.bitmap_of(class) == class_bitmap(
                self.ca_simulator.bitmap@,
                mask_of(class),
            )
        &&& forall|class: MatterClass|
            #[trigger] after.objects_of(class) == if self.class_changed(class) {
                Seq::empty()
            } else {
                self.boundaries.objects_of(class)
            }
        &&& plan.remove_objects@ == self.removed_objects(MatterClass::Solid)
            + self.removed_objects(MatterClass::Powder) + self.removed_objects(MatterClass::Liquid)
        &&& plan.rebuilds.len() == classes_changed(
            self.class_changed(MatterClass::Solid),
            self.class_changed(MatterClass::Powder),
            self.class_changed(MatterClass::Liquid),
        ).len()
        &&& forall|i: int|
            0 <= i < plan.rebuilds.len() ==> (#[trigger] plan.rebuilds[i]).class == classes_changed(
                self.class_changed(MatterClass::Solid),
                self.class_changed(MatterClass::Powder),
                self.class_changed(MatterClass::Liquid),
            )[i] && plan.rebuilds[i].bitmap@ == after.bitmap_of(plan.rebuilds[i].class)
                && plan.rebuilds[i].sensor == (plan.rebuilds[i].class != MatterClass::Solid)
    }

    /// The bodies of `class` that are to be removed.
    pub open spec fn removed_objects(&self, class: MatterClass) -> Seq<u64> {
        if self.class_changed(class) {
            self.boundaries.objects_of(class)
        } else {
            Seq::empty()
        }
    }
}

/// The bit of a class of matter in the occupancy bitmap.
pub open spec fn mask_of(class: MatterClass) -> u32 {
    match class {
        MatterClass::Solid => 1,
        MatterClass::Powder => 2,
        MatterClass::Liquid => 4,
    }
}

/// What place `j` of buffer `layer` of chunk `k` holds once the canvas `grid`
/// is written into the buffers `chunks` of the window: the matter of the
/// canvas in both matter buffers and what lies over it in the buffers of the
/// objects, where the place lies in the canvas; what it held where it does
/// not, and in the image.
pub open spec fn put_value(
    frame: CanvasFrame,
    chunks: Seq<GpuChunk>,
    grid: GridView,
    layer: Layer,
    k: int,
    j: int,
) -> u32 {
    match layer {
        Layer::MatterIn => frame.scattered_value(chunks, layer, grid.matter, k, j),
        Layer::MatterOut => frame.scattered_value(chunks, layer, grid.matter, k, j),
        Layer::ObjectsMatter => frame.scattered_value(chunks, layer, grid.objects_matter, k, j),
        Layer::ObjectsColor => frame.scattered_value(chunks, layer, grid.objects_color, k, j),
        Layer::Image => layer_of(chunks[k], layer)[j],
    }
}

/// What a tick writes over the canvas in `layer`: the matter that the passes
/// left in both matter buffers, what is left lying over the canvas once the
/// objects are cleared in the buffers of the objects, and in the image the
/// colours of the canvas as the passes left it, with the objects on it.
pub open spec fn tick_values(
    arrays: crate::simulation::ca_simulator::MatterArrays,
    run: GridView,
    cleared: OverlayView,
    layer: Layer,
) -> Seq<u32> {
    match layer {
        Layer::MatterIn => run.matter,
        Layer::MatterOut => run.matter,
        Layer::ObjectsMatter => cleared.objects_matter,
        Layer::ObjectsColor => cleared.objects_color,
        Layer::Image => crate::simulation::ca_react::colored(arrays, run),
    }
}

/// The objects on the cell at `mouse` of the canvas `run` with the occupants
/// `occupants`, with the matter that the cell shows of them: none where the
/// cell lies beyond the canvas or no object lies on it.
pub open spec fn queried(
    run: GridView,
    occupants: Seq<Seq<u64>>,
    camera: IVec2,
    mouse: IVec2,
) -> Option<(u32, Seq<u64>)> {
    let place = sim_canvas_place(mouse, camera, run.size);
    if inside_sim_canvas(mouse, camera, run.size) && run.objects_matter[place] != run.empty {
        Some((run.objects_matter[place], occupants[place]))
    } else {
        None
    }
}

/// Whether `query` holds what was `found`.
pub open spec fn query_holds(
    query: Option<(u32, Vec<u64>)>,
    found: Option<(u32, Seq<u64>)>,
) -> bool {
    match query {
        Some(object) => found == Some((object.0, object.1@)),
        None => found.is_none(),
    }
}

/// The place in the canvas of a point that lies in it.
pub open spec fn sim_canvas_place(pos: IVec2, camera: IVec2, size: u32) -> int {
    crate::geometry::cell_index(
        size as int,
        crate::simulation::simulation_utils::canvas_column(pos, camera, size),
        crate::simulation::simulation_utils::canvas_row(pos, camera, size),
    )
}

} // verus!
