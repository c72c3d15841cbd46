//! The chunks of the world: cold as images, and a bounded pool of buffer
//! sets that the chunks round the camera are resident in.
use std::collections::VecDeque;
use vstd::prelude::*;
use crate::bitmap_image::BitmapImage;
use crate::geometry::IVec2;
use crate::matter::matter_definition::MatterDefinitions;
use crate::simulation::chunk_image::{
    chunk_image_data, chunk_matter_of_image, write_canvas_chunk_to_matter_image,
    write_matter_image_to_canvas_chunk,
};
use crate::simulation::chunk_window::{
    add_farthest_chunks_for_unloading, anchor_of, distance_squared, farthest_first, kept_after,
    lemma_given_up_or_kept, get_nearest_four_chunks,
    get_nearest_nine_chunks, is_hot, lemma_farthest_are_given_up, lemma_farthest_no_duplicates,
    lemma_nine_around, lemma_window_is_hot, nearest_chunk, nine_around, window_chunks,
    window_origin, window_start,
};
use crate::simulation::simulation_utils::{canvas_size_ok, lemma_canvas_cells, within_world};

verus! {

/// Whether every number of `buffer` is zero.
pub open spec fn all_zero(buffer: Seq<u32>) -> bool {
    forall|i: int| 0 <= i < buffer.len() ==> #[trigger] buffer[i] == 0
}

/// A buffer of `len` zeros.
pub fn zeros(len: usize) -> (buffer: Vec<u32>)
    ensures
        buffer.len() == len,
        all_zero(buffer@),
{
    vec![0u32; len]
}

/// Sets every number of `buffer` to zero.
pub fn clear_buffer(buffer: &mut Vec<u32>)
    ensures
        final(buffer).len() == old(buffer).len(),
        all_zero(final(buffer)@),
{
    let mut i: usize = 0;
    while i < buffer.len()
        invariant
            i <= buffer.len(),
            buffer.len() == old(buffer).len(),
            forall|k: int| 0 <= k < i ==> #[trigger] buffer[k] == 0,
        decreases buffer.len() - i,
    {
        buffer[i] = 0;
        i += 1;
    }
}

/// The buffers of a resident chunk, one number for each cell, row by row
/// from the bottom up: the matter as it is and as the pass at work writes
/// it, the matter and the colour of the objects that lie over it, and the
/// colour that is shown.
#[derive(Debug, Clone)]
pub struct GpuChunk {
    pub matter_in: Vec<u32>,
    pub matter_out: Vec<u32>,
    pub objects_matter: Vec<u32>,
    pub objects_color: Vec<u32>,
    pub image: Vec<u32>,
}

impl GpuChunk {
    /// Whether every buffer holds a chunk of `size` by `size` cells.
    pub open spec fn wf(&self, size: u32) -> bool {
        &&& self.matter_in.len() == size * size
        &&& self.matter_out.len() == size * size
        &&& self.objects_matter.len() == size * size
        &&& self.objects_color.len() == size * size
        &&& self.image.len() == size * size
    }

    /// Whether every buffer is zero throughout.
    pub open spec fn cleared(&self) -> bool {
        &&& all_zero(self.matter_in@)
        &&& all_zero(self.matter_out@)
        &&& all_zero(self.objects_matter@)
        &&& all_zero(self.objects_color@)
        &&& all_zero(self.image@)
    }

    /// A cleared set of buffers for a chunk of `size` by `size` cells.
    pub fn new(size: u32) -> (chunk: GpuChunk)
        requires
            canvas_size_ok(size),
        ensures
            chunk.wf(size),
            chunk.cleared(),
    {
        proof {
            lemma_canvas_cells(size);
        }
        let cells = (size as usize) * (size as usize);
        GpuChunk {
            matter_in: zeros(cells),
            matter_out: zeros(cells),
            objects_matter: zeros(cells),
            objects_color: zeros(cells),
            image: zeros(cells),
        }
    }

    /// Sets every buffer to zero throughout.
    pub fn clear_data(&mut self)
        ensures
            final(self).cleared(),
            final(self).matter_in.len() == old(self).matter_in.len(),
            final(self).matter_out.len() == old(self).matter_out.len(),
            final(self).objects_matter.len() == old(self).objects_matter.len(),
            final(self).objects_color.len() == old(self).objects_color.len(),
            final(self).image.len() == old(self).image.len(),
    {
        clear_buffer(&mut self.matter_in);
        clear_buffer(&mut self.matter_out);
        clear_buffer(&mut self.objects_matter);
        clear_buffer(&mut self.objects_color);
        clear_buffer(&mut self.image);
    }

    /// The matter buffer that a tick reads.
    pub fn get_matter_input(&self) -> (buffer: &Vec<u32>)
        ensures
            buffer == &self.matter_in,
    {
        &self.matter_in
    }

    /// The matter buffer that a tick writes.
    pub fn get_matter_output(&self) -> (buffer: &Vec<u32>)
        ensures
            buffer == &self.matter_out,
    {
        &self.matter_out
    }
}

/// A chunk of the world: its image, which is what is kept of it while it is
/// cold, and its buffers while it is resident.
#[derive(Debug, Clone)]
pub struct WorldChunk {
    pub image: BitmapImage,
    pub gpu_chunk: Option<GpuChunk>,
}

impl WorldChunk {
    /// Whether the image, and the buffers if there are any, hold a chunk of
    /// `size` by `size` cells.
    pub open spec fn wf(&self, size: u32) -> bool {
        &&& self.image.wf()
        &&& self.image.width == size
        &&& self.image.height == size
        &&& self.gpu_chunk matches Some(chunk) ==> chunk.wf(size)
    }

    /// Whether this is the cold chunk that the image `loaded` gives: it has
    /// the image where that is the image of a chunk, and a blank image
    /// otherwise.
    pub open spec fn kept_in(&self, loaded: Option<BitmapImage>, size: u32) -> bool {
        &&& self.wf(size)
        &&& self.gpu_chunk.is_none()
        &&& match loaded {
            Some(image) if image.wf() && image.width == size && image.height == size => self.image
                == image,
            _ => forall|i: int| 0 <= i < self.image.data.len() ==> self.image.data[i] == 0,
        }
    }

    /// The chunk that nothing was ever put in.
    pub fn empty(size: u32) -> (chunk: WorldChunk)
        requires
            canvas_size_ok(size),
        ensures
            chunk.wf(size),
            chunk.gpu_chunk.is_none(),
            forall|i: int| 0 <= i < chunk.image.data.len() ==> chunk.image.data[i] == 0,
    {
        proof {
            lemma_canvas_cells(size);
        }
        WorldChunk { image: BitmapImage::empty(size, size), gpu_chunk: None }
    }

    /// The chunk that is kept in the image `loaded`. An image that is missing,
    /// or that is not the image of a chunk, gives the empty chunk.
    pub fn load_from_disk(loaded: Option<BitmapImage>, size: u32) -> (chunk: WorldChunk)
        requires
            canvas_size_ok(size),
        ensures
            chunk.wf(size),
            chunk.gpu_chunk.is_none(),
            match loaded {
                Some(image) if image.wf() && image.width == size && image.height == size
                    => chunk.image == image,
                _ => forall|i: int|
                    0 <= i < chunk.image.data.len() ==> chunk.image.data[i] == 0,
            },
    {
        proof {
            lemma_canvas_cells(size);
        }
        match loaded {
            Some(image) => {
                if image.width == size && image.height == size && image.data.len() == (
                size as usize) * (size as usize) * 4 {
                    WorldChunk { image, gpu_chunk: None }
                } else {
                    WorldChunk::empty(size)
                }
            },
            None => WorldChunk::empty(size),
        }
    }

    /// Adds gpu chunk to use by this world chunk and fills it with the
    /// content from Bitmap Image: both matter buffers get the matter that the
    /// image shows, and the other buffers stay as they come.
    pub fn write_to_gpu(
        &mut self,
        matter_definitions: &MatterDefinitions,
        chunk: GpuChunk,
        size: u32,
    )
        requires
            canvas_size_ok(size),
            old(self).wf(size),
            chunk.wf(size),
        ensures
            final(self).wf(size),
            final(self).image == old(self).image,
            final(self).gpu_chunk matches Some(filled) && filled.matter_in@
                == chunk_matter_of_image(
                *matter_definitions,
                old(self).image.data@,
                size as int,
            ) && filled.matter_out@ == filled.matter_in@ && filled.objects_matter
                == chunk.objects_matter && filled.objects_color == chunk.objects_color
                && filled.image == chunk.image,
    {
        let mut chunk = chunk;
        write_matter_image_to_canvas_chunk(
            &self.image,
            matter_definitions,
            &mut chunk.matter_in,
            &mut chunk.matter_out,
            size,
        );
        self.gpu_chunk = Some(chunk);
    }

    /// Writes gpu content to Bitmap Image and returns the gpu chunk removing
    /// it from use by this world chunk. The chunk that is returned is
    /// cleared. A chunk that is not resident stays as it is, and nothing is
    /// returned.
    pub fn unload_from_gpu(
        &mut self,
        matter_definitions: &MatterDefinitions,
        size: u32,
    ) -> (freed: Option<GpuChunk>)
        requires
            canvas_size_ok(size),
            old(self).wf(size),
        ensures
            final(self).wf(size),
            final(self).gpu_chunk.is_none(),
            freed.is_some() == old(self).gpu_chunk.is_some(),
            freed matches Some(chunk) ==> chunk.wf(size) && chunk.cleared()
                && final(self).image.data@ == chunk_image_data(
                *matter_definitions,
                old(self).gpu_chunk.unwrap().matter_in@,
                size as int,
            ),
            freed.is_none() ==> final(self).image == old(self).image,
    {
        match self.gpu_chunk.take() {
            Some(chunk) => {
                let mut chunk = chunk;
                self.image = write_canvas_chunk_to_matter_image(
                    matter_definitions,
                    &chunk.matter_in,
                    size,
                );
                chunk.clear_data();
                Some(chunk)
            },
            None => None,
        }
    }

    /// Draws the image anew from the buffers of a resident chunk; a chunk
    /// that is not resident keeps its image.
    pub fn write_to_cpu(&mut self, matter_definitions: &MatterDefinitions, size: u32)
        requires
            canvas_size_ok(size),
            old(self).wf(size),
        ensures
            final(self).wf(size),
            final(self).gpu_chunk == old(self).gpu_chunk,
            match old(self).gpu_chunk {
                Some(chunk) => final(self).image.data@ == chunk_image_data(
                    *matter_definitions,
                    chunk.matter_in@,
                    size as int,
                ),
                None => final(self).image == old(self).image,
            },
    {
        match &self.gpu_chunk {
            Some(chunk) => {
                let image = write_canvas_chunk_to_matter_image(
                    matter_definitions,
                    &chunk.matter_in,
                    size,
                );
                self.image = image;
            },
            None => {},
        }
    }
}

/// Why the chunk manager refuses what it is asked.
#[derive(Debug, Clone, Copy, PartialEq, Eq, Structural)]
pub enum ChunkError {
    /// A chunk cannot have this edge.
    InvalidSize,
    /// The pool cannot hold the chunks round the camera, not even when every
    /// other chunk is given up.
    PoolTooSmall,
    /// The chunk is resident, and cannot be replaced.
    ChunkInUse,
}

/// The chunk manager: every chunk that the world has met so far, the pool of
/// buffer sets that are free, and the window that is simulated.
pub struct SimulationChunkManager {
    size: u32,
    canvas_pos: IVec2,
    chunk_pos: IVec2,
    // An infinite amount (create as we go). They will own gpu chunks while they are in use "around
    // player"
    chunk_positions: Vec<IVec2>,
    world_chunks: Vec<WorldChunk>,
    // A finite amount
    gpu_chunk_pool: VecDeque<GpuChunk>,
    // Chunks that are to be written to by world interaction
    interaction_chunks: Vec<IVec2>,
    interaction_slots: Vec<usize>,
    ready: bool,
    lent: bool,
}

/// What the map `chunks` holds for the chunk at `pos`: the image of its
/// last entry for `pos`, which may be missing; `None` where it has no entry.
pub open spec fn map_entry(chunks: Seq<(IVec2, Option<BitmapImage>)>, pos: IVec2) -> Option<
    Option<BitmapImage>,
>
    decreases chunks.len(),
{
    if chunks.len() == 0 {
        None
    } else if chunks.last().0 == pos {
        Some(chunks.last().1)
    } else {
        map_entry(chunks.drop_last(), pos)
    }
}

/// The positions of the chunks that are resident, in the order of
/// `positions`.
pub open spec fn resident_positions(positions: Seq<IVec2>, chunks: Seq<WorldChunk>) -> Seq<IVec2>
    decreases positions.len(),
{
    if positions.len() == 0 || chunks.len() != positions.len() {
        Seq::empty()
    } else {
        let before = resident_positions(positions.drop_last(), chunks.drop_last());
        if chunks.last().gpu_chunk.is_some() {
            before.push(positions.last())
        } else {
            before
        }
    }
}

/// Those of `positions` that are not among the nine chunks round `anchor`.
pub open spec fn outside_hot(positions: Seq<IVec2>, anchor: IVec2) -> Seq<IVec2>
    decreases positions.len(),
{
    if positions.len() == 0 {
        Seq::empty()
    } else {
        let before = outside_hot(positions.drop_last(), anchor);
        if is_hot(anchor, positions.last()) {
            before
        } else {
            before.push(positions.last())
        }
    }
}

impl SimulationChunkManager {
    /// The edge of a chunk, in cells.
    pub closed spec fn spec_size(&self) -> u32 {
        self.size
    }

    /// The positions of the chunks that the world has met, in the order in
    /// which it met them.
    pub closed spec fn positions(&self) -> Seq<IVec2> {
        self.chunk_positions@
    }

    /// The chunks that the world has met, in the order of `positions`.
    pub closed spec fn chunks(&self) -> Seq<WorldChunk> {
        self.world_chunks@
    }

    /// The buffer sets that are free.
    pub closed spec fn pool(&self) -> Seq<GpuChunk> {
        self.gpu_chunk_pool@
    }

    /// The position that the window was last chosen for.
    pub closed spec fn spec_canvas_pos(&self) -> IVec2 {
        self.canvas_pos
    }

    /// The chunk nearest to that position.
    pub closed spec fn spec_chunk_pos(&self) -> IVec2 {
        self.chunk_pos
    }

    /// Whether a window has been chosen and the chunks round the camera are
    /// resident.
    pub closed spec fn is_ready(&self) -> bool {
        self.ready
    }

    /// Whether the buffers of the window are handed out.
    pub closed spec fn is_lent(&self) -> bool {
        self.lent
    }

    /// The four chunks of the window that is simulated.
    pub closed spec fn window(&self) -> Seq<IVec2> {
        self.interaction_chunks@
    }

    /// The places of the four chunks of the window among the chunks.
    pub closed spec fn slots(&self) -> Seq<usize> {
        self.interaction_slots@
    }

    /// The chunk at `pos`, if the world has met it.
    pub open spec fn chunk_at(&self, pos: IVec2) -> Option<WorldChunk> {
        if self.positions().contains(pos) {
            Some(self.chunks()[self.positions().index_of(pos)])
        } else {
            None
        }
    }

    /// Whether the chunk at `pos` is resident.
    pub open spec fn is_resident(&self, pos: IVec2) -> bool {
        self.chunk_at(pos) matches Some(chunk) && chunk.gpu_chunk.is_some()
    }

    /// The positions of the chunks that are resident.
    pub open spec fn resident(&self) -> Seq<IVec2> {
        resident_positions(self.positions(), self.chunks())
    }

    /// Whether the chunks and the pool are consistent: no position is met
    /// twice, every chunk and every free buffer set has the manager's size,
    /// and the free buffer sets are cleared.
    pub open spec fn stores_wf(&self) -> bool {
        &&& canvas_size_ok(self.spec_size())
        &&& self.positions().len() == self.chunks().len()
        &&& self.positions().no_duplicates()
        &&& forall|i: int|
            0 <= i < self.chunks().len() ==> (#[trigger] self.chunks()[i]).wf(self.spec_size())
        &&& forall|i: int|
            0 <= i < self.pool().len() ==> (#[trigger] self.pool()[i]).wf(self.spec_size())
                && self.pool()[i].cleared()
    }

    /// Whether the manager is consistent: its chunks and its pool are, and,
    /// once a window is chosen, the window is the one round the camera, and
    /// the nine chunks round the camera are resident, but for the four of the
    /// window while their buffers are handed out.
    pub open spec fn wf(&self) -> bool {
        &&& self.stores_wf()
        &&& self.is_lent() ==> self.is_ready()
        &&& self.is_ready() ==> {
            &&& within_world(self.spec_canvas_pos())
            &&& self.spec_chunk_pos() == anchor_of(self.spec_canvas_pos(), self.spec_size())
            &&& self.window() == window_chunks(
                window_origin(self.spec_canvas_pos(), self.spec_size()),
            )
            &&& self.slots().len() == 4
            &&& forall|k: int|
                0 <= k < 4 ==> (#[trigger] self.slots()[k]) < self.positions().len()
                    && self.positions()[self.slots()[k] as int] == self.window()[k]
            &&& forall|pos: IVec2|
                is_hot(self.spec_chunk_pos(), pos) ==> (#[trigger] self.is_resident(pos) <==> !(
                self.is_lent() && self.window().contains(pos)))
            &&& forall|pos: IVec2|
                is_hot(self.spec_chunk_pos(), pos) ==> #[trigger] self.positions().contains(pos)
        }
    }

    /// Whether the two managers have one size, one camera and one window.
    pub closed spec fn same_settings(&self, other: &SimulationChunkManager) -> bool {
        &&& self.size == other.size
        &&& self.canvas_pos == other.canvas_pos
        &&& self.chunk_pos == other.chunk_pos
        &&& self.interaction_chunks@ == other.interaction_chunks@
        &&& self.interaction_slots@ == other.interaction_slots@
        &&& self.ready == other.ready
        &&& self.lent == other.lent
    }

    /// A manager for chunks of `size` by `size` cells with `capacity` buffer
    /// sets, all of them free. The world has met the chunk at the origin
    /// only, and no window is chosen yet.
    pub fn new(size: u32, capacity: usize) -> (made: Result<SimulationChunkManager, ChunkError>)
        ensures
            made.is_ok() <==> canvas_size_ok(size),
            made matches Err(error) ==> error == ChunkError::InvalidSize,
            made matches Ok(manager) ==> manager.wf() && manager.spec_size() == size
                && !manager.is_ready() && manager.pool().len() == capacity && manager.positions()
                == seq![IVec2 { x: 0, y: 0 }] && manager.resident().len() == 0
                && manager.holds_map(Seq::empty(), capacity),
    {
        if size == 0 || size > crate::simulation::simulation_utils::MAX_CANVAS_SIZE {
            return Err(ChunkError::InvalidSize);
        }
        let mut gpu_chunk_pool: VecDeque<GpuChunk> = VecDeque::new();
        let mut i: usize = 0;
        while i < capacity
            invariant
                i <= capacity,
                canvas_size_ok(size),
                gpu_chunk_pool@.len() == i,
                forall|k: int|
                    0 <= k < gpu_chunk_pool@.len() ==> (#[trigger] gpu_chunk_pool@[k]).wf(size)
                        && gpu_chunk_pool@[k].cleared(),
            decreases capacity - i,
        {
            gpu_chunk_pool.push_back(GpuChunk::new(size));
            i += 1;
        }
        let mut chunk_positions: Vec<IVec2> = Vec::new();
        chunk_positions.push(IVec2 { x: 0, y: 0 });
        let mut world_chunks: Vec<WorldChunk> = Vec::new();
        world_chunks.push(WorldChunk::empty(size));
        let manager = SimulationChunkManager {
            size,
            canvas_pos: IVec2 { x: 0, y: 0 },
            chunk_pos: IVec2 { x: 0, y: 0 },
            chunk_positions,
            world_chunks,
            gpu_chunk_pool,
            interaction_chunks: Vec::new(),
            interaction_slots: Vec::new(),
            ready: false,
            lent: false,
        };
        proof {
            assert(manager.positions() =~= seq![IVec2 { x: 0, y: 0 }]);
            reveal_with_fuel(resident_positions, 2);
            assert(manager.positions().drop_last() =~= Seq::<IVec2>::empty());
            manager.lemma_chunk_at_index(0);
        }
        Ok(manager)
    }

    /// The edge of a chunk, in cells.
    pub fn size(&self) -> (size: u32)
        ensures
            size == self.spec_size(),
    {
        self.size
    }

    /// The number of buffer sets that are free.
    pub fn free_chunks(&self) -> (free: usize)
        ensures
            free == self.pool().len(),
    {
        self.gpu_chunk_pool.len()
    }

    /// The place of the chunk at `pos` among the chunks that the world has
    /// met.
    pub fn find(&self, pos: IVec2) -> (found: Option<usize>)
        requires
            self.positions().len() == self.chunks().len(),
        ensures
            match found {
                Some(i) => i < self.positions().len() && self.positions()[i as int] == pos,
                None => !self.positions().contains(pos),
            },
    {
        let mut i: usize = 0;
        while i < self.chunk_positions.len()
            invariant
                i <= self.chunk_positions.len(),
                forall|k: int| 0 <= k < i ==> self.chunk_positions[k] != pos,
            decreases self.chunk_positions.len() - i,
        {
            let at = self.chunk_positions[i];
            if at.x == pos.x && at.y == pos.y {
                return Some(i);
            }
            i += 1;
        }
        None
    }

    /// The chunk at a place among the chunks is the chunk at its position.
    pub proof fn lemma_chunk_at_index(&self, i: int)
        requires
            self.stores_wf(),
            0 <= i < self.positions().len(),
        ensures
            self.chunk_at(self.positions()[i]) == Some(self.chunks()[i]),
            self.positions().contains(self.positions()[i]),
            self.positions().index_of(self.positions()[i]) == i,
    {
        let pos = self.positions()[i];
        assert(self.positions().contains(pos));
        let found = self.positions().index_of(pos);
        assert(0 <= found < self.positions().len() && self.positions()[found] == pos);
    }

    /// Writes the chunk at `chunk_pos` back to its image and puts its
    /// buffers, cleared, at the end of the pool.
    pub fn remove_gpu_chunk_from_world_use(
        &mut self,
        chunk_pos: IVec2,
        matter_definitions: &MatterDefinitions,
    )
        requires
            old(self).stores_wf(),
            old(self).is_resident(chunk_pos),
        ensures
            final(self).stores_wf(),
            final(self).same_settings(old(self)),
            final(self).positions() == old(self).positions(),
            forall|pos: IVec2|
                pos != chunk_pos ==> #[trigger] final(self).chunk_at(pos) == old(self).chunk_at(
                    pos,
                ),
            final(self).chunk_at(chunk_pos) matches Some(chunk) && unloaded_from(
                old(self).chunk_at(chunk_pos).unwrap(),
                chunk,
                *matter_definitions,
                final(self).spec_size(),
            ),
            final(self).pool().len() == old(self).pool().len() + 1,
    {
        let found = self.find(chunk_pos);
        let index = found.unwrap();
        proof {
            self.lemma_chunk_at_index(index as int);
        }
        let size = self.size;
        let freed = self.world_chunks[index].unload_from_gpu(matter_definitions, size);
        self.gpu_chunk_pool.push_back(freed.unwrap());
        proof {
            assert forall|i: int| 0 <= i < self.pool().len() implies (#[trigger] self.pool()[i]).wf(
                self.spec_size(),
            ) && self.pool()[i].cleared() by {
                if i < old(self).pool().len() {
                    assert(self.pool()[i] == old(self).pool()[i]);
                }
            }
            assert forall|i: int| 0 <= i < self.chunks().len() implies (
            #[trigger] self.chunks()[i]).wf(self.spec_size()) by {
                if i != index {
                    assert(self.chunks()[i] == old(self).chunks()[i]);
                }
            }
            assert forall|pos: IVec2| pos != chunk_pos implies #[trigger] self.chunk_at(pos)
                == old(self).chunk_at(pos) by {
                if self.positions().contains(pos) {
                    let i = self.positions().index_of(pos);
                    assert(i != index);
                }
            }
            self.lemma_chunk_at_index(index as int);
        }
    }

    /// Makes the chunk at `chunk_pos` resident: takes the first buffer set of
    /// the pool and reads the chunk's image into it. A position that the
    /// world has not met is met now, as an empty chunk. A chunk that is
    /// resident already stays as it is.
    pub fn add_gpu_chunk_to_world_use(
        &mut self,
        chunk_pos: IVec2,
        matter_definitions: &MatterDefinitions,
    )
        requires
            old(self).stores_wf(),
            old(self).pool().len() > 0 || old(self).is_resident(chunk_pos),
        ensures
            final(self).stores_wf(),
            final(self).same_settings(old(self)),
            forall|pos: IVec2|
                pos != chunk_pos ==> #[trigger] final(self).chunk_at(pos) == old(self).chunk_at(
                    pos,
                ),
            forall|pos: IVec2|
                #[trigger] final(self).positions().contains(pos) <==>
                    (old(self).positions().contains(pos) || pos == chunk_pos),
            old(self).is_resident(chunk_pos) ==>
                final(self).chunk_at(chunk_pos) == old(self).chunk_at(chunk_pos)
                && final(self).pool() == old(self).pool(),
            !old(self).is_resident(chunk_pos) ==>
                final(self).pool().len() == old(self).pool().len() - 1
                && (final(self).chunk_at(chunk_pos) matches Some(chunk)
                && loaded_from(
                old(self).chunk_at(chunk_pos),
                chunk,
                *matter_definitions,
                final(self).spec_size(),
            )),
    {
        let size = self.size;
        let index = match self.find(chunk_pos) {
            Some(index) => {
                proof {
                    self.lemma_chunk_at_index(index as int);
                }
                if self.world_chunks[index].gpu_chunk.is_some() {
                    return ;
                }
                index
            },
            None => {
                // If world chunk didn't exist at requested chunk pos, we just create it (empty)
                self.chunk_positions.push(chunk_pos);
                self.world_chunks.push(WorldChunk::empty(size));
                proof {
                    assert forall|pos: IVec2|
                        #[trigger] self.positions().contains(pos) <==>
                            (old(self).positions().contains(pos) || pos == chunk_pos) by {
                        if old(self).positions().contains(pos) {
                            let i = old(self).positions().index_of(pos);
                            assert(self.positions()[i] == pos);
                        }
                        if pos == chunk_pos {
                            assert(self.positions()[self.positions().len() - 1] == pos);
                        }
                        if self.positions().contains(pos) {
                            let i = self.positions().index_of(pos);
                            if i < old(self).positions().len() {
                                assert(old(self).positions()[i] == pos);
                            }
                        }
                    }
                    assert forall|pos: IVec2| pos != chunk_pos implies #[trigger] self.chunk_at(
                        pos,
                    ) == old(self).chunk_at(pos) by {
                        if old(self).positions().contains(pos) {
                            let i = old(self).positions().index_of(pos);
                            assert(self.positions()[i] == pos);
                            self.lemma_chunk_at_index(i);
                        }
                    }
                }
                self.chunk_positions.len() - 1
            },
        };
        let ghost met = *self;
        proof {
            self.lemma_chunk_at_index(index as int);
        }
        // Write world chunk image to gpu
        let gpu_chunk = self.gpu_chunk_pool.pop_front().unwrap();
        assert(gpu_chunk == met.pool()[0]);
        self.world_chunks[index].write_to_gpu(matter_definitions, gpu_chunk, size);
        proof {
            assert forall|pos: IVec2| pos != chunk_pos implies #[trigger] self.chunk_at(pos)
                == met.chunk_at(pos) by {
                if self.positions().contains(pos) {
                    let i = self.positions().index_of(pos);
                    assert(i != index);
                }
            }
            self.lemma_chunk_at_index(index as int);
            assert forall|i: int| 0 <= i < self.pool().len() implies (#[trigger] self.pool()[i]).wf(
                self.spec_size(),
            ) && self.pool()[i].cleared() by {
                assert(self.pool()[i] == met.pool()[i + 1]);
            }
        }
    }

    /// Those of `nine` whose chunks are not resident, in their order.
    pub open spec fn wanted_of(&self, nine: Seq<IVec2>) -> Seq<IVec2>
        decreases nine.len(),
    {
        if nine.len() == 0 {
            Seq::empty()
        } else {
            let before = self.wanted_of(nine.drop_last());
            if self.is_resident(nine.last()) {
                before
            } else {
                before.push(nine.last())
            }
        }
    }

    /// The chunks round `anchor` that are not resident: those that must be
    /// made resident when the camera comes to `anchor`.
    pub open spec fn wanted(&self, anchor: IVec2) -> Seq<IVec2> {
        self.wanted_of(nine_around(anchor))
    }

    /// The resident chunks that are not among the nine round `anchor`: those
    /// that can be given up.
    pub open spec fn evictable(&self, anchor: IVec2) -> Seq<IVec2> {
        outside_hot(self.resident(), anchor)
    }

    /// The number of buffer sets that the pool lacks for the chunks that are
    /// wanted round `anchor`.
    pub open spec fn shortage(&self, anchor: IVec2) -> nat {
        if self.wanted(anchor).len() > self.pool().len() {
            (self.wanted(anchor).len() - self.pool().len()) as nat
        } else {
            0
        }
    }

    /// The chunks that are given up when the camera comes to `anchor`: as
    /// many as the pool lacks, the farthest first.
    pub open spec fn given_up(&self, anchor: IVec2) -> Seq<IVec2> {
        farthest_first(self.evictable(anchor), anchor, self.shortage(anchor))
    }

    /// No chunk that is given up when the camera comes to `anchor` lies nearer
    /// to `anchor` than any chunk that stays resident.
    pub proof fn lemma_no_nearer_chunk_is_given_up(&self, anchor: IVec2, given: IVec2, kept: IVec2)
        requires
            self.stores_wf(),
            self.given_up(anchor).contains(given),
            self.is_resident(kept),
            !self.given_up(anchor).contains(kept),
        ensures
            distance_squared(given, anchor) >= distance_squared(kept, anchor),
    {
        self.lemma_given_up(anchor);
        let evictable = self.evictable(anchor);
        let count = self.shortage(anchor);
        lemma_farthest_are_given_up(evictable, anchor, count);
        let gx = given.x - anchor.x;
        let gy = given.y - anchor.y;
        let kx = kept.x - anchor.x;
        let ky = kept.y - anchor.y;
        if is_hot(anchor, kept) {
            assert(!is_hot(anchor, given));
            assert(gx * gx + gy * gy >= 4 && kx * kx + ky * ky <= 2) by (nonlinear_arith)
                requires
                    !(-1 <= gx <= 1 && -1 <= gy <= 1),
                    -1 <= kx <= 1 && -1 <= ky <= 1,
            ;
        } else {
            assert(evictable.contains(kept));
            lemma_given_up_or_kept(evictable, anchor, count, kept);
            let picked = farthest_first(evictable, anchor, count);
            let rest = kept_after(evictable, anchor, count);
            let i = choose|i: int| 0 <= i < picked.len() && picked[i] == given;
            let j = choose|j: int| 0 <= j < rest.len() && rest[j] == kept;
            assert(distance_squared(picked[i], anchor) >= distance_squared(rest[j], anchor));
        }
    }

    /// Those of `nine` whose chunks are not resident.
    fn chunks_wanted(&self, nine: &Vec<IVec2>) -> (wanted: Vec<IVec2>)
        requires
            self.stores_wf(),
        ensures
            wanted@ == self.wanted_of(nine@),
    {
        let mut wanted: Vec<IVec2> = Vec::new();
        let mut k: usize = 0;
        while k < nine.len()
            invariant
                k <= nine.len(),
                self.stores_wf(),
                wanted@ == self.wanted_of(nine@.subrange(0, k as int)),
            decreases nine.len() - k,
        {
            let pos = nine[k];
            proof {
                assert(nine@.subrange(0, k + 1).drop_last() =~= nine@.subrange(0, k as int));
                assert(nine@.subrange(0, k + 1).last() == pos);
            }
            let resident = match self.find(pos) {
                Some(index) => {
                    proof {
                        self.lemma_chunk_at_index(index as int);
                    }
                    self.world_chunks[index].gpu_chunk.is_some()
                },
                None => false,
            };
            if !resident {
                wanted.push(pos);
            }
            k += 1;
        }
        assert(nine@.subrange(0, nine.len() as int) =~= nine@);
        wanted
    }

    /// The positions of the chunks that the world has met, in the order in
    /// which it met them.
    pub fn known_chunks(&self) -> (known: &Vec<IVec2>)
        ensures
            known@ == self.positions(),
    {
        &self.chunk_positions
    }

    /// The positions of the chunks that are resident.
    pub fn chunks_in_use(&self) -> (in_use: Vec<IVec2>)
        requires
            self.stores_wf(),
        ensures
            in_use@ == self.resident(),
    {
        let mut in_use: Vec<IVec2> = Vec::new();
        let mut i: usize = 0;
        while i < self.chunk_positions.len()
            invariant
                i <= self.chunk_positions.len(),
                self.stores_wf(),
                in_use@ == resident_positions(
                    self.positions().subrange(0, i as int),
                    self.chunks().subrange(0, i as int),
                ),
            decreases self.chunk_positions.len() - i,
        {
            proof {
                assert(self.positions().subrange(0, i
                    + 1).drop_last() =~= self.positions().subrange(
                    0,
                    i as int,
                ));
                assert(self.chunks().subrange(0, i + 1).drop_last() =~= self.chunks().subrange(
                    0,
                    i as int,
                ));
            }
            if self.world_chunks[i].gpu_chunk.is_some() {
                in_use.push(self.chunk_positions[i]);
            }
            i += 1;
        }
        assert(self.positions().subrange(0, self.positions().len() as int) =~= self.positions());
        assert(self.chunks().subrange(0, self.chunks().len() as int) =~= self.chunks());
        in_use
    }

    /// The resident chunks with their buffers, for drawing: the positions in
    /// the order of `chunks_in_use`, each with the buffers of the chunk
    /// there.
    pub fn get_chunks_for_render(&self) -> (drawn: Vec<(IVec2, &GpuChunk)>)
        requires
            self.stores_wf(),
        ensures
            drawn.len() == self.resident().len(),
            forall|k: int|
                0 <= k < drawn.len() ==> (#[trigger] drawn[k]).0 == self.resident()[k]
                    && self.chunk_at(drawn[k].0).is_some() && self.chunk_at(
                    drawn[k].0,
                ).unwrap().gpu_chunk == Some(*drawn[k].1),
    {
        let mut drawn: Vec<(IVec2, &GpuChunk)> = Vec::new();
        let mut i: usize = 0;
        while i < self.chunk_positions.len()
            invariant
                i <= self.chunk_positions.len(),
                self.stores_wf(),
                drawn.len() == resident_positions(
                    self.positions().subrange(0, i as int),
                    self.chunks().subrange(0, i as int),
                ).len(),
                forall|k: int|
                    0 <= k < drawn.len() ==> (#[trigger] drawn[k]).0 == resident_positions(
                        self.positions().subrange(0, i as int),
                        self.chunks().subrange(0, i as int),
                    )[k] && self.chunk_at(drawn[k].0).is_some() && self.chunk_at(
                        drawn[k].0,
                    ).unwrap().gpu_chunk == Some(*drawn[k].1),
            decreases self.chunk_positions.len() - i,
        {
            proof {
                assert(self.positions().subrange(0, i + 1).drop_last()
                    =~= self.positions().subrange(0, i as int));
                assert(self.chunks().subrange(0, i + 1).drop_last() =~= self.chunks().subrange(
                    0,
                    i as int,
                ));
                self.lemma_chunk_at_index(i as int);
            }
            match &self.world_chunks[i].gpu_chunk {
                Some(chunk) => {
                    drawn.push((self.chunk_positions[i], chunk));
                },
                None => {},
            }
            i += 1;
        }
        assert(self.positions().subrange(0, self.positions().len() as int) =~= self.positions());
        assert(self.chunks().subrange(0, self.chunks().len() as int) =~= self.chunks());
        drawn
    }

    /// What the resident chunks are: every one is the position of a chunk
    /// with buffers, and no position comes twice.
    pub proof fn lemma_resident(&self)
        requires
            self.stores_wf(),
        ensures
            self.resident().no_duplicates(),
            forall|pos: IVec2| #[trigger] self.resident().contains(pos) <==> self.is_resident(pos),
    {
        lemma_resident_positions(self.positions(), self.chunks());
        assert forall|pos: IVec2| #[trigger] self.resident().contains(pos) <==> self.is_resident(
            pos,
        ) by {
            if self.resident().contains(pos) {
                let i = choose|i: int|
                    0 <= i < self.positions().len() && self.positions()[i] == pos
                        && self.chunks()[i].gpu_chunk.is_some();
                self.lemma_chunk_at_index(i);
            }
            if self.is_resident(pos) {
                let i = self.positions().index_of(pos);
                assert(self.positions()[i] == pos && self.chunks()[i].gpu_chunk.is_some());
            }
        }
    }

    /// What the wanted chunks are: the chunks round `anchor` that are not
    /// resident, each once.
    pub proof fn lemma_wanted(&self, anchor: IVec2)
        requires
            self.stores_wf(),
            within_world(anchor),
        ensures
            self.wanted(anchor).no_duplicates(),
            forall|pos: IVec2| #[trigger]
                self.wanted(anchor).contains(pos) <==> is_hot(anchor, pos) && !self.is_resident(
                    pos,
                ),
    {
        lemma_nine_around(anchor);
        self.lemma_wanted_of(nine_around(anchor));
    }

    /// What is wanted of `nine`: those of them that are not resident, each
    /// once.
    proof fn lemma_wanted_of(&self, nine: Seq<IVec2>)
        requires
            nine.no_duplicates(),
        ensures
            self.wanted_of(nine).no_duplicates(),
            forall|pos: IVec2| #[trigger]
                self.wanted_of(nine).contains(pos) <==> nine.contains(pos) && !self.is_resident(
                    pos,
                ),
        decreases nine.len(),
    {
        if nine.len() > 0 {
            let shorter = nine.drop_last();
            self.lemma_wanted_of(shorter);
            let before = self.wanted_of(shorter);
            let all = self.wanted_of(nine);
            assert forall|pos: IVec2| #[trigger] all.contains(pos) <==> nine.contains(pos)
                && !self.is_resident(pos) by {
                if all.contains(pos) {
                    let i = choose|i: int| 0 <= i < all.len() && all[i] == pos;
                    if i < before.len() {
                        assert(before[i] == pos);
                        assert(before.contains(pos));
                        let k = choose|k: int| 0 <= k < shorter.len() && shorter[k] == pos;
                        assert(nine[k] == pos);
                    } else {
                        assert(nine[nine.len() - 1] == pos);
                    }
                }
                if nine.contains(pos) && !self.is_resident(pos) {
                    let k = choose|k: int| 0 <= k < nine.len() && nine[k] == pos;
                    if k < shorter.len() {
                        assert(shorter[k] == pos);
                        assert(before.contains(pos));
                        let i = choose|i: int| 0 <= i < before.len() && before[i] == pos;
                        assert(all[i] == pos);
                    } else {
                        assert(all[all.len() - 1] == pos);
                    }
                }
            }
            assert forall|i: int, j: int|
                0 <= i < all.len() && 0 <= j < all.len() && i != j implies all[i] != all[j] by {
                if i < before.len() && j < before.len() {
                    assert(before[i] == all[i] && before[j] == all[j]);
                } else {
                    let inner = if i < j {
                        i
                    } else {
                        j
                    };
                    assert(before[inner] == all[inner]);
                    assert(before.contains(all[inner]));
                    let k = choose|k: int| 0 <= k < shorter.len() && shorter[k] == all[inner];
                    assert(nine[k] == all[inner]);
                    assert(nine[nine.len() - 1] == nine.last());
                }
            }
        }
    }

    /// What the chunks that are given up are: resident chunks that are not
    /// among the nine round `anchor`, each once.
    pub proof fn lemma_given_up(&self, anchor: IVec2)
        requires
            self.stores_wf(),
        ensures
            self.given_up(anchor).no_duplicates(),
            forall|pos: IVec2| #[trigger]
                self.given_up(anchor).contains(pos) ==> self.is_resident(pos) && !is_hot(
                    anchor,
                    pos,
                ),
            self.evictable(anchor).no_duplicates(),
            forall|pos: IVec2| #[trigger]
                self.evictable(anchor).contains(pos) <==> self.is_resident(pos) && !is_hot(
                    anchor,
                    pos,
                ),
    {
        self.lemma_resident();
        lemma_outside_hot(self.resident(), anchor);
        lemma_farthest_no_duplicates(self.evictable(anchor), anchor, self.shortage(anchor));
        lemma_farthest_are_given_up(self.evictable(anchor), anchor, self.shortage(anchor));
        let given_up = self.given_up(anchor);
        assert forall|pos: IVec2| #[trigger] given_up.contains(pos) implies self.is_resident(pos)
            && !is_hot(anchor, pos) by {
            let i = choose|i: int| 0 <= i < given_up.len() && given_up[i] == pos;
            assert(self.evictable(anchor).contains(given_up[i]));
        }
    }

    /// Whether `after` is this manager once the camera has come to
    /// `player_pos`: the window is chosen round it, every chunk that is given
    /// up is written back to its image, every chunk that is wanted is made
    /// resident, and every other chunk is as it was.
    pub open spec fn camera_moved(
        &self,
        after: &SimulationChunkManager,
        player_pos: IVec2,
        table: MatterDefinitions,
    ) -> bool {
        let anchor = anchor_of(player_pos, self.spec_size());
        &&& after.wf()
        &&& after.is_ready()
        &&& !after.is_lent()
        &&& after.spec_size() == self.spec_size()
        &&& after.spec_canvas_pos() == player_pos
        &&& after.pool().len() + self.wanted(anchor).len() == self.pool().len() + self.given_up(
            anchor,
        ).len()
        &&& forall|pos: IVec2|
            updated_chunk(
                self.chunk_at(pos),
                #[trigger] after.chunk_at(pos),
                self.given_up(anchor).contains(pos),
                self.wanted(anchor).contains(pos),
                table,
                self.spec_size(),
            )
    }

    /// Brings the manager to the position `player_pos` of the camera: it
    /// finds the chunk nearest to it and the window that is simulated round
    /// it, and makes the nine chunks round the nearest chunk resident. For
    /// those that are not resident it takes free buffer sets; where the pool
    /// has too few, it first gives up as many resident chunks as it lacks,
    /// the farthest from the nearest chunk first, never one of the nine.
    /// Where even that is not enough, nothing is changed and the error says
    /// so.
    pub fn update_chunks(
        &mut self,
        player_pos: IVec2,
        matter_definitions: &MatterDefinitions,
    ) -> (done: Result<(), ChunkError>)
        requires
            old(self).wf(),
            !old(self).is_lent(),
            within_world(player_pos),
        ensures
            final(self).wf(),
            !final(self).is_lent(),
            final(self).spec_size() == old(self).spec_size(),
            done.is_ok() <==> old(self).wanted(anchor_of(player_pos, old(self).spec_size())).len()
                <= old(self).pool().len() + old(self).evictable(
                anchor_of(player_pos, old(self).spec_size()),
            ).len(),
            done matches Err(error) ==> error == ChunkError::PoolTooSmall
                && *final(self) == *old(self),
            done.is_ok() ==> final(self).is_ready() && final(self).spec_canvas_pos() == player_pos
                && final(self).pool().len() + old(self).wanted(
                anchor_of(player_pos, old(self).spec_size()),
            ).len() == old(self).pool().len() + old(self).given_up(
                anchor_of(player_pos, old(self).spec_size()),
            ).len(),
            done.is_ok() ==> forall|pos: IVec2|
                updated_chunk(
                    old(self).chunk_at(pos),
                    #[trigger] final(self).chunk_at(pos),
                    old(self).given_up(anchor_of(player_pos, old(self).spec_size())).contains(pos),
                    old(self).wanted(anchor_of(player_pos, old(self).spec_size())).contains(pos),
                    *matter_definitions,
                    old(self).spec_size(),
                ),
            done.is_ok() ==> old(self).camera_moved(final(self), player_pos, *matter_definitions),
    {
        let size = self.size;
        let chunk_pos = nearest_chunk(player_pos, size);
        let four = get_nearest_four_chunks(player_pos, chunk_pos, size);
        let nine = get_nearest_nine_chunks(chunk_pos);
        let to_load = self.chunks_wanted(&nine);
        let in_use = self.chunks_in_use();
        let evictable = outside_of_hot(&in_use, chunk_pos);
        let free = self.gpu_chunk_pool.len();
        if to_load.len() > free && to_load.len() - free > evictable.len() {
            return Err(ChunkError::PoolTooSmall);
        }
        // If we ran out of chunks, start unloading chunks farther than one
        let count = if to_load.len() > free {
            to_load.len() - free
        } else {
            0
        };
        let victims = add_farthest_chunks_for_unloading(&evictable, chunk_pos, count);
        let ghost before = *self;
        proof {
            before.lemma_given_up(chunk_pos);
            before.lemma_wanted(chunk_pos);
            lemma_farthest_are_given_up(evictable@, chunk_pos, count as nat);
            assert(victims@ == before.given_up(chunk_pos));
            assert(to_load@ == before.wanted(chunk_pos));
        }
        let mut j: usize = 0;
        while j < victims.len()
            invariant
                j <= victims.len(),
                before.stores_wf(),
                self.stores_wf(),
                self.same_settings(&before),
                self.spec_size() == before.spec_size(),
                self.positions() == before.positions(),
                victims@ == before.given_up(chunk_pos),
                victims@.no_duplicates(),
                forall|pos: IVec2| #[trigger] victims@.contains(pos) ==> before.is_resident(pos),
                self.pool().len() == before.pool().len() + j,
                forall|pos: IVec2|
                    if among_first(victims@, j as int, pos) {
                        #[trigger] self.chunk_at(pos) matches Some(chunk) && unloaded_from(
                            before.chunk_at(pos).unwrap(),
                            chunk,
                            *matter_definitions,
                            before.spec_size(),
                        )
                    } else {
                        self.chunk_at(pos) == before.chunk_at(pos)
                    },
            decreases victims.len() - j,
        {
            let victim = victims[j];
            proof {
                assert(victims@.contains(victim));
                assert(!among_first(victims@, j as int, victim));
                assert(self.chunk_at(victim) == before.chunk_at(victim));
            }
            let ghost earlier = *self;
            self.remove_gpu_chunk_from_world_use(victim, matter_definitions);
            proof {
                assert forall|pos: IVec2|
                    if among_first(victims@, j + 1, pos) {
                        #[trigger] self.chunk_at(pos) matches Some(chunk) && unloaded_from(
                            before.chunk_at(pos).unwrap(),
                            chunk,
                            *matter_definitions,
                            before.spec_size(),
                        )
                    } else {
                        self.chunk_at(pos) == before.chunk_at(pos)
                    } by {
                    if pos != victim {
                        assert(self.chunk_at(pos) == earlier.chunk_at(pos));
                        assert(among_first(victims@, j + 1, pos) == among_first(
                            victims@,
                            j as int,
                            pos,
                        ));
                    } else {
                        assert(among_first(victims@, j + 1, pos));
                    }
                }
            }
            j += 1;
        }
        let ghost evicted = *self;
        let mut k: usize = 0;
        while k < to_load.len()
            invariant
                k <= to_load.len(),
                before.stores_wf(),
                self.stores_wf(),
                self.same_settings(&before),
                self.spec_size() == before.spec_size(),
                victims@ == before.given_up(chunk_pos),
                to_load@ == before.wanted(chunk_pos),
                to_load@.no_duplicates(),
                forall|pos: IVec2| #[trigger]
                    to_load@.contains(pos) <==> is_hot(chunk_pos, pos) && !before.is_resident(pos),
                forall|pos: IVec2| #[trigger]
                    victims@.contains(pos) ==> before.is_resident(pos) && !is_hot(chunk_pos, pos),
                self.pool().len() + k == before.pool().len() + victims.len(),
                to_load.len() <= before.pool().len() + victims.len(),
                forall|pos: IVec2|
                    #[trigger] self.positions().contains(pos) <==> (
                    before.positions().contains(pos) || among_first(to_load@, k as int, pos)),
                forall|pos: IVec2|
                    if victims@.contains(pos) {
                        #[trigger] self.chunk_at(pos) matches Some(chunk) && unloaded_from(
                            before.chunk_at(pos).unwrap(),
                            chunk,
                            *matter_definitions,
                            before.spec_size(),
                        )
                    } else if among_first(to_load@, k as int, pos) {
                        self.chunk_at(pos) matches Some(chunk) && loaded_from(
                            before.chunk_at(pos),
                            chunk,
                            *matter_definitions,
                            before.spec_size(),
                        )
                    } else {
                        self.chunk_at(pos) == before.chunk_at(pos)
                    },
            decreases to_load.len() - k,
        {
            let chunk = to_load[k];
            proof {
                assert(to_load@.contains(chunk));
                assert(!among_first(to_load@, k as int, chunk));
                assert(!victims@.contains(chunk));
                assert(self.chunk_at(chunk) == before.chunk_at(chunk));
            }
            let ghost earlier = *self;
            self.add_gpu_chunk_to_world_use(chunk, matter_definitions);
            proof {
                assert forall|pos: IVec2|
                    #[trigger] self.positions().contains(pos) <==> (
                    before.positions().contains(pos) || among_first(to_load@, k + 1, pos)) by {
                    assert(among_first(to_load@, k + 1, pos) == (among_first(
                        to_load@,
                        k as int,
                        pos,
                    ) || pos == chunk));
                    assert(earlier.positions().contains(pos) <==> (
                    before.positions().contains(pos) || among_first(to_load@, k as int, pos)));
                }
                assert forall|pos: IVec2|
                    if victims@.contains(pos) {
                        #[trigger] self.chunk_at(pos) matches Some(chunk) && unloaded_from(
                            before.chunk_at(pos).unwrap(),
                            chunk,
                            *matter_definitions,
                            before.spec_size(),
                        )
                    } else if among_first(to_load@, k + 1, pos) {
                        self.chunk_at(pos) matches Some(chunk) && loaded_from(
                            before.chunk_at(pos),
                            chunk,
                            *matter_definitions,
                            before.spec_size(),
                        )
                    } else {
                        self.chunk_at(pos) == before.chunk_at(pos)
                    } by {
                    assert(among_first(to_load@, k + 1, pos) == (among_first(
                        to_load@,
                        k as int,
                        pos,
                    ) || pos == chunk));
                    if pos != chunk {
                        assert(self.chunk_at(pos) == earlier.chunk_at(pos));
                    }
                }
            }
            k += 1;
        }
        proof {
            assert forall|pos: IVec2| among_first(to_load@, to_load.len() as int, pos)
                == to_load@.contains(pos) by {}
            lemma_window_is_hot(player_pos, size);
            assert forall|pos: IVec2| is_hot(chunk_pos, pos) implies #[trigger] self.is_resident(
                pos,
            ) && self.positions().contains(pos) by {
                if !before.is_resident(pos) {
                    assert(to_load@.contains(pos));
                    assert(among_first(to_load@, to_load.len() as int, pos));
                } else {
                    assert(!victims@.contains(pos));
                    assert(!to_load@.contains(pos));
                    assert(self.chunk_at(pos) == before.chunk_at(pos));
                }
            }
        }
        proof {
            assert forall|m: int| 0 <= m < 4 implies #[trigger] self.positions().contains(
                four[m],
            ) by {
                assert(is_hot(chunk_pos, window_chunks(window_origin(player_pos, size))[m]));
                assert(self.is_resident(four[m]));
            }
        }
        let ghost loaded = *self;
        let mut slots: Vec<usize> = Vec::new();
        let mut n: usize = 0;
        while n < 4
            invariant
                n <= 4,
                four.len() == 4,
                slots.len() == n,
                self.stores_wf(),
                *self == loaded,
                forall|m: int|
                    0 <= m < 4 ==> #[trigger] self.positions().contains(four[m]),
                forall|m: int|
                    0 <= m < n ==> (#[trigger] slots[m]) < self.positions().len()
                        && self.positions()[slots[m] as int] == four[m],
            decreases 4 - n,
        {
            assert(self.positions().contains(four[n as int]));
            let found = self.find(four[n]);
            slots.push(found.unwrap());
            n += 1;
        }
        self.canvas_pos = player_pos;
        self.chunk_pos = chunk_pos;
        self.interaction_chunks = four;
        self.interaction_slots = slots;
        self.ready = true;
        self.lent = false;
        proof {
            assert(self.positions() == loaded.positions());
            assert(self.chunks() == loaded.chunks());
            assert(self.pool() == loaded.pool());
            assert forall|pos: IVec2| is_hot(self.spec_chunk_pos(), pos) implies (
            #[trigger] self.is_resident(pos) <==> !(self.is_lent() && self.window().contains(
                pos,
            ))) by {
                assert(loaded.is_resident(pos));
            }
            assert forall|pos: IVec2|
                is_hot(self.spec_chunk_pos(), pos) implies #[trigger] self.positions().contains(
                pos,
            ) by {
                assert(loaded.is_resident(pos));
            }
            assert forall|pos: IVec2|
                updated_chunk(
                    before.chunk_at(pos),
                    #[trigger] self.chunk_at(pos),
                    victims@.contains(pos),
                    to_load@.contains(pos),
                    *matter_definitions,
                    before.spec_size(),
                ) by {
                assert(among_first(to_load@, to_load.len() as int, pos) == to_load@.contains(pos));
            }
        }
        Ok(())
    }

    /// Where the canvas round the camera lies.
    pub open spec fn frame(&self) -> crate::simulation::canvas_window::CanvasFrame {
        crate::simulation::canvas_window::CanvasFrame {
            camera: self.spec_canvas_pos(),
            chunk_start: window_start(
                window_origin(self.spec_canvas_pos(), self.spec_size()),
                self.spec_size(),
            ),
            size: self.spec_size(),
        }
    }

    /// The buffers of the four chunks of the window.
    pub open spec fn window_buffers(&self) -> Seq<GpuChunk> {
        Seq::new(4, |k: int| self.chunk_at(self.window()[k]).unwrap().gpu_chunk.unwrap())
    }

    /// The position that the window was last chosen for.
    pub fn canvas_pos(&self) -> (pos: IVec2)
        ensures
            pos == self.spec_canvas_pos(),
    {
        self.canvas_pos
    }

    /// The chunk nearest to that position.
    pub fn chunk_pos(&self) -> (pos: IVec2)
        ensures
            pos == self.spec_chunk_pos(),
    {
        self.chunk_pos
    }

    /// The four chunks of the window that is simulated.
    pub fn interaction_chunks(&self) -> (window: &Vec<IVec2>)
        ensures
            window@ == self.window(),
    {
        &self.interaction_chunks
    }

    /// The four chunks of the window are four different chunks.
    pub proof fn lemma_window_distinct(&self)
        requires
            self.wf(),
            self.is_ready(),
        ensures
            self.window().len() == 4,
            self.window().no_duplicates(),
            forall|k: int, m: int|
                0 <= k < 4 && 0 <= m < 4 && k != m ==> self.slots()[k] != self.slots()[m],
            forall|k: int| 0 <= k < 4 ==>
                is_hot(self.spec_chunk_pos(), #[trigger] self.window()[k]),
    {
        let pos = self.spec_canvas_pos();
        let size = self.spec_size();
        crate::simulation::chunk_window::lemma_round_div_bounds(
            pos.x as int,
            size as int,
            crate::simulation::simulation_utils::WORLD_LIMIT as int,
        );
        crate::simulation::chunk_window::lemma_round_div_bounds(
            pos.y as int,
            size as int,
            crate::simulation::simulation_utils::WORLD_LIMIT as int,
        );
        lemma_window_is_hot(pos, size);
        let window = self.window();
        assert(window[0] != window[1] && window[0] != window[2] && window[0] != window[3]
            && window[1] != window[2] && window[1] != window[3] && window[2] != window[3]);
    }

    /// The first cell of the window that is simulated.
    pub fn chunk_start(&self) -> (start: IVec2)
        requires
            self.wf(),
            self.is_ready(),
        ensures
            start == window_start(
                window_origin(self.spec_canvas_pos(), self.spec_size()),
                self.spec_size(),
            ),
    {
        let origin = self.interaction_chunks[0];
        proof {
            crate::simulation::chunk_window::lemma_canvas_in_window(
                self.canvas_pos,
                self.size,
                self.canvas_pos,
            );
        }
        let half = (self.size / 2) as i64;
        let x = origin.x as i64 * self.size as i64 - half;
        let y = origin.y as i64 * self.size as i64 - half;
        IVec2 { x: x as i32, y: y as i32 }
    }

    /// Hands out the buffers of the four chunks of the window, with the first
    /// cell of the window. Until they are handed back, with
    /// `update_compute_chunks`, the four chunks are without buffers.
    pub fn get_chunks_for_compute(&mut self) -> (lent: (IVec2, Vec<GpuChunk>))
        requires
            old(self).wf(),
            old(self).is_ready(),
            !old(self).is_lent(),
        ensures
            final(self).wf(),
            final(self).is_lent(),
            final(self).spec_size() == old(self).spec_size(),
            final(self).spec_canvas_pos() == old(self).spec_canvas_pos(),
            final(self).window() == old(self).window(),
            final(self).positions() == old(self).positions(),
            final(self).pool() == old(self).pool(),
            lent.0 == window_start(
                window_origin(old(self).spec_canvas_pos(), old(self).spec_size()),
                old(self).spec_size(),
            ),
            lent.1.len() == 4,
            forall|k: int|
                0 <= k < 4 ==> (#[trigger] lent.1[k]).wf(old(self).spec_size()) && Some(lent.1[k])
                    == old(self).chunk_at(old(self).window()[k]).unwrap().gpu_chunk,
            forall|pos: IVec2|
                !old(self).window().contains(pos) ==>
                    #[trigger] final(self).chunk_at(pos) == old(self).chunk_at(pos),
            forall|k: int|
                0 <= k < 4 ==> (#[trigger] final(self).chunk_at(old(self).window()[k])
                    matches Some(chunk) && chunk.gpu_chunk.is_none()
                        && chunk.image == old(self).chunk_at(old(self).window()[k]).unwrap().image),
    {
        let start = self.chunk_start();
        let ghost before = *self;
        proof {
            self.lemma_window_distinct();
            assert forall|k: int| 0 <= k < 4 implies (
            #[trigger] self.chunks()[self.slots()[k] as int]).gpu_chunk.is_some() by {
                self.lemma_chunk_at_index(self.slots()[k] as int);
                assert(self.is_resident(self.window()[k]));
            }
        }
        let mut chunks: Vec<GpuChunk> = Vec::new();
        let mut k: usize = 0;
        while k < 4
            invariant
                k <= 4,
                before.wf(),
                before.is_ready(),
                !before.is_lent(),
                self.stores_wf(),
                self.same_settings(&before),
                self.positions() == before.positions(),
                self.pool() == before.pool(),
                self.chunks().len() == before.chunks().len(),
                chunks.len() == k,
                forall|a: int, b: int|
                    0 <= a < 4 && 0 <= b < 4 && a != b ==> before.slots()[a] != before.slots()[b],
                forall|m: int|
                    0 <= m < 4 ==> (#[trigger] before.chunks()[before.slots(
                        )[m] as int]).gpu_chunk.is_some(),
                forall|m: int|
                    0 <= m < k ==> Some(#[trigger] chunks[m])
                        == before.chunks()[before.slots()[m] as int].gpu_chunk,
                forall|i: int|
                    0 <= i < self.chunks().len() ==> #[trigger] self.chunks()[i] == if exists|
                        m: int,
                    |
                        0 <= m < k && before.slots()[m] == i {
                        WorldChunk { gpu_chunk: None, ..before.chunks()[i] }
                    } else {
                        before.chunks()[i]
                    },
            decreases 4 - k,
        {
            let index = self.interaction_slots[k];
            assert(!(exists|m: int| 0 <= m < k && before.slots()[m] == index));
            assert(self.chunks()[index as int] == before.chunks()[index as int]);
            let taken = self.world_chunks[index].gpu_chunk.take();
            chunks.push(taken.unwrap());
            proof {
                assert forall|i: int| 0 <= i < self.chunks().len() implies #[trigger] self.chunks(
                    )[i]
                    == if exists|m: int| 0 <= m < k + 1 && before.slots()[m] == i {
                    WorldChunk { gpu_chunk: None, ..before.chunks()[i] }
                } else {
                    before.chunks()[i]
                } by {
                    if i == index {
                        assert(before.slots()[k as int] == i);
                    } else if exists|m: int| 0 <= m < k + 1 && before.slots()[m] == i {
                        let m = choose|m: int| 0 <= m < k + 1 && before.slots()[m] == i;
                        assert(m < k);
                    }
                }
            }
            k += 1;
        }
        self.lent = true;
        proof {
            assert forall|i: int| 0 <= i < self.chunks().len() implies (
            #[trigger] self.chunks()[i]).wf(self.spec_size()) by {
                assert(before.chunks()[i].wf(self.spec_size()));
            }
            assert forall|pos: IVec2| !before.window().contains(
                pos) implies #[trigger] self.chunk_at(
                pos,
            ) == before.chunk_at(pos) by {
                if self.positions().contains(pos) {
                    let i = self.positions().index_of(pos);
                    if exists|m: int| 0 <= m < 4 && before.slots()[m] == i {
                        let m = choose|m: int| 0 <= m < 4 && before.slots()[m] == i;
                        assert(before.window()[m] == pos);
                    }
                }
            }
            assert forall|m: int| 0 <= m < 4 implies (#[trigger] self.chunk_at(before.window()[m])
                matches Some(chunk) && chunk.gpu_chunk.is_none() && chunk.image
                == before.chunk_at(before.window()[m]).unwrap().image) && Some(chunks[m])
                == before.chunk_at(before.window()[m]).unwrap().gpu_chunk by {
                let i = before.slots()[m] as int;
                self.lemma_chunk_at_index(i);
                before.lemma_chunk_at_index(i);
            }
            assert forall|pos: IVec2| is_hot(self.spec_chunk_pos(), pos) implies (
            #[trigger] self.is_resident(pos) <==> !(self.is_lent() && self.window().contains(
                pos,
            ))) by {
                assert(before.is_resident(pos));
                if before.window().contains(pos) {
                    let m = choose|m: int| 0 <= m < 4 && before.window()[m] == pos;
                    assert(self.chunk_at(before.window()[m]).unwrap().gpu_chunk.is_none());
                }
            }
            assert forall|pos: IVec2|
                is_hot(self.spec_chunk_pos(), pos) implies #[trigger] self.positions().contains(
                pos,
            ) by {
                assert(before.positions().contains(pos));
            }
        }
        (start, chunks)
    }

    /// Takes back the buffers of the four chunks of the window, in the order
    /// in which they were handed out.
    pub fn update_compute_chunks(&mut self, chunks: Vec<GpuChunk>)
        requires
            old(self).wf(),
            old(self).is_lent(),
            chunks.len() == 4,
            forall|k: int| 0 <= k < 4 ==> (#[trigger] chunks[k]).wf(old(self).spec_size()),
        ensures
            final(self).wf(),
            final(self).is_ready(),
            !final(self).is_lent(),
            final(self).spec_size() == old(self).spec_size(),
            final(self).spec_canvas_pos() == old(self).spec_canvas_pos(),
            final(self).window() == old(self).window(),
            final(self).positions() == old(self).positions(),
            final(self).pool() == old(self).pool(),
            forall|pos: IVec2|
                !old(self).window().contains(pos) ==>
                    #[trigger] final(self).chunk_at(pos) == old(self).chunk_at(pos),
            forall|k: int|
                0 <= k < 4 ==> (#[trigger] final(self).chunk_at(old(self).window()[k])
                    matches Some(chunk) && chunk.gpu_chunk == Some(chunks[k]) && chunk.image
                    == old(self).chunk_at(old(self).window()[k]).unwrap().image),
    {
        let ghost before = *self;
        proof {
            self.lemma_window_distinct();
        }
        let mut chunks = chunks;
        let ghost given = chunks@;
        let mut k: usize = 4;
        while k > 0
            invariant
                k <= 4,
                before.wf(),
                before.is_ready(),
                before.is_lent(),
                self.stores_wf(),
                self.same_settings(&before),
                self.positions() == before.positions(),
                self.pool() == before.pool(),
                self.chunks().len() == before.chunks().len(),
                given.len() == 4,
                chunks@ == given.subrange(0, k as int),
                forall|m: int| 0 <= m < 4 ==> (#[trigger] given[m]).wf(before.spec_size()),
                forall|a: int, b: int|
                    0 <= a < 4 && 0 <= b < 4 && a != b ==> before.slots()[a] != before.slots()[b],
                forall|i: int|
                    0 <= i < self.chunks().len() ==> #[trigger] self.chunks()[i] == if exists|
                        m: int,
                    |
                        k <= m < 4 && before.slots()[m] == i {
                        WorldChunk {
                            gpu_chunk: Some(
                                given[choose|m: int| k <= m < 4 && before.slots()[m] == i],
                            ),
                            ..before.chunks()[i]
                        }
                    } else {
                        before.chunks()[i]
                    },
            decreases k,
        {
            let chunk = chunks.pop().unwrap();
            k -= 1;
            assert(chunk == given[k as int]);
            let index = self.interaction_slots[k];
            self.world_chunks[index].gpu_chunk = Some(chunk);
            proof {
                assert(chunks@ =~= given.subrange(0, k as int));
                assert forall|i: int| 0 <= i < self.chunks().len() implies #[trigger] self.chunks(
                    )[i]
                    == if exists|m: int| k <= m < 4 && before.slots()[m] == i {
                    WorldChunk {
                        gpu_chunk: Some(given[choose|m: int| k <= m < 4 && before.slots()[m] == i]),
                        ..before.chunks()[i]
                    }
                } else {
                    before.chunks()[i]
                } by {
                    if i == index {
                        assert(before.slots()[k as int] == i);
                        let m = choose|m: int| k <= m < 4 && before.slots()[m] == i;
                        assert(m == k);
                    } else if exists|m: int| k <= m < 4 && before.slots()[m] == i {
                        let m = choose|m: int| k <= m < 4 && before.slots()[m] == i;
                        assert(k + 1 <= m);
                        let n = choose|n: int| k + 1 <= n < 4 && before.slots()[n] == i;
                        assert(n == m);
                    }
                }
                assert forall|i: int| 0 <= i < self.chunks().len() implies (
                #[trigger] self.chunks()[i]).wf(self.spec_size()) by {
                    assert(before.chunks()[i].wf(self.spec_size()));
                }
            }
        }
        self.lent = false;
        proof {
            assert forall|pos: IVec2| !before.window().contains(
                pos) implies #[trigger] self.chunk_at(
                pos,
            ) == before.chunk_at(pos) by {
                if self.positions().contains(pos) {
                    let i = self.positions().index_of(pos);
                    if exists|m: int| 0 <= m < 4 && before.slots()[m] == i {
                        let m = choose|m: int| 0 <= m < 4 && before.slots()[m] == i;
                        assert(before.window()[m] == pos);
                    }
                }
            }
            assert forall|m: int| 0 <= m < 4 implies (#[trigger] self.chunk_at(before.window()[m])
                matches Some(chunk) && chunk.gpu_chunk == Some(given[m]) && chunk.image
                == before.chunk_at(before.window()[m]).unwrap().image) by {
                let i = before.slots()[m] as int;
                self.lemma_chunk_at_index(i);
                before.lemma_chunk_at_index(i);
                let n = choose|n: int| 0 <= n < 4 && before.slots()[n] == i;
                assert(n == m);
            }
            assert forall|pos: IVec2| is_hot(self.spec_chunk_pos(), pos) implies (
            #[trigger] self.is_resident(pos) <==> !(self.is_lent() && self.window().contains(
                pos,
            ))) by {
                if before.window().contains(pos) {
                    let m = choose|m: int| 0 <= m < 4 && before.window()[m] == pos;
                    assert(self.chunk_at(before.window()[m]).unwrap().gpu_chunk.is_some());
                } else {
                    assert(before.is_resident(pos));
                }
            }
            assert forall|pos: IVec2|
                is_hot(self.spec_chunk_pos(), pos) implies #[trigger] self.positions().contains(
                pos,
            ) by {
                assert(before.positions().contains(pos));
            }
        }
    }

    /// A manager in which no chunk is resident wants all nine chunks round a
    /// position, and has none to give up.
    pub proof fn lemma_fresh_needs_nine(&self, anchor: IVec2)
        requires
            self.stores_wf(),
            within_world(anchor),
            self.resident().len() == 0,
        ensures
            self.wanted(anchor).len() == 9,
            self.evictable(anchor).len() == 0,
    {
        self.lemma_resident();
        assert forall|pos: IVec2| !self.is_resident(pos) by {
            if self.is_resident(pos) {
                assert(self.resident().contains(pos));
            }
        }
        self.lemma_wanted_all(nine_around(anchor));
        assert(self.resident() =~= Seq::<IVec2>::empty());
    }

    /// Where nothing is resident, all of `nine` are wanted.
    proof fn lemma_wanted_all(&self, nine: Seq<IVec2>)
        requires
            forall|pos: IVec2| !self.is_resident(pos),
        ensures
            self.wanted_of(nine) == nine,
        decreases nine.len(),
    {
        if nine.len() > 0 {
            self.lemma_wanted_all(nine.drop_last());
            assert(nine.drop_last().push(nine.last()) =~= nine);
        } else {
            assert(nine =~= Seq::<IVec2>::empty());
        }
    }

    /// The chunk at `pos`, if the world has met it.
    pub fn world_chunk(&self, pos: IVec2) -> (chunk: Option<&WorldChunk>)
        requires
            self.stores_wf(),
        ensures
            match chunk {
                Some(found) => self.chunk_at(pos) == Some(*found),
                None => self.chunk_at(pos).is_none(),
            },
    {
        match self.find(pos) {
            Some(index) => {
                proof {
                    self.lemma_chunk_at_index(index as int);
                }
                Some(&self.world_chunks[index])
            },
            None => None,
        }
    }

    /// What `layer` of chunk `k` of the window holds at place `j`.
    pub fn read_window(
        &self,
        layer: crate::simulation::canvas_window::Layer,
        k: usize,
        j: usize,
    ) -> (value: u32)
        requires
            self.wf(),
            self.is_ready(),
            !self.is_lent(),
            k < 4,
            j < self.spec_size() * self.spec_size(),
        ensures
            value == crate::simulation::canvas_window::layer_of(
                self.window_buffers()[k as int],
                layer,
            )[j as int],
    {
        proof {
            self.lemma_window_distinct();
            self.lemma_chunk_at_index(self.slots()[k as int] as int);
            assert(self.is_resident(self.window()[k as int]));
        }
        let index = self.interaction_slots[k];
        match &self.world_chunks[index].gpu_chunk {
            Some(chunk) => match layer {
                crate::simulation::canvas_window::Layer::MatterIn => chunk.matter_in[j],
                crate::simulation::canvas_window::Layer::MatterOut => chunk.matter_out[j],
                crate::simulation::canvas_window::Layer::ObjectsMatter => chunk.objects_matter[j],
                crate::simulation::canvas_window::Layer::ObjectsColor => chunk.objects_color[j],
                crate::simulation::canvas_window::Layer::Image => chunk.image[j],
            },
            None => 0,
        }
    }

    /// Puts the chunk that is kept in the image `loaded` at `pos`, in place
    /// of the chunk there if the world has met one. An image that is missing,
    /// or is not the image of a chunk, gives the empty chunk. A chunk that is
    /// resident is not replaced.
    pub fn insert_world_chunk(&mut self, pos: IVec2, loaded: Option<BitmapImage>) -> (done: Result<
        (),
        ChunkError,
    >)
        requires
            old(self).wf(),
            !old(self).is_lent(),
        ensures
            final(self).wf(),
            final(self).same_settings(old(self)),
            final(self).pool() == old(self).pool(),
            done.is_ok() <==> !old(self).is_resident(pos),
            done matches Err(error) ==> error == ChunkError::ChunkInUse
                && *final(self) == *old(self),
            forall|other: IVec2|
                other != pos ==> #[trigger] final(self).chunk_at(other) == old(self).chunk_at(
                    other,
                ),
            done.is_ok() ==> (final(self).chunk_at(pos) matches Some(chunk)
                && chunk.gpu_chunk.is_none() && chunk.wf(final(self).spec_size()) && match loaded {
                Some(image) if image.wf() && image.width == old(self).spec_size() && image.height
                    == old(self).spec_size() => chunk.image == image,
                _ => forall|i: int| 0 <= i < chunk.image.data.len() ==> chunk.image.data[i] == 0,
            }),
    {
        let size = self.size;
        match self.find(pos) {
            Some(index) => {
                proof {
                    self.lemma_chunk_at_index(index as int);
                }
                if self.world_chunks[index].gpu_chunk.is_some() {
                    return Err(ChunkError::ChunkInUse);
                }
                self.world_chunks[index] = WorldChunk::load_from_disk(loaded, size);
                proof {
                    assert forall|i: int| 0 <= i < self.chunks().len() implies (
                    #[trigger] self.chunks()[i]).wf(self.spec_size()) by {
                        if i != index {
                            assert(self.chunks()[i] == old(self).chunks()[i]);
                        }
                    }
                    assert forall|i: int| 0 <= i < self.pool().len() implies (
                    #[trigger] self.pool()[i]).wf(self.spec_size()) && self.pool()[i].cleared() by {
                        assert(self.pool()[i] == old(self).pool()[i]);
                    }
                    assert(self.stores_wf());
                    self.lemma_chunk_at_index(index as int);
                    assert forall|other: IVec2| other != pos implies #[trigger] self.chunk_at(other)
                        == old(self).chunk_at(other) by {
                        if self.positions().contains(other) {
                            let i = self.positions().index_of(other);
                            assert(i != index);
                        }
                    }
                    assert forall|other: IVec2| #[trigger]
                        self.is_resident(other) == old(self).is_resident(other) by {
                        if other != pos {
                            assert(self.chunk_at(other) == old(self).chunk_at(other));
                        }
                    }
                }
            },
            None => {
                self.chunk_positions.push(pos);
                self.world_chunks.push(WorldChunk::load_from_disk(loaded, size));
                proof {
                    let last = self.positions().len() - 1;
                    assert(self.positions()[last] == pos);
                    assert forall|i: int| 0 <= i < self.chunks().len() implies (
                    #[trigger] self.chunks()[i]).wf(self.spec_size()) by {
                        if i != last {
                            assert(self.chunks()[i] == old(self).chunks()[i]);
                        }
                    }
                    assert forall|a: int, b: int|
                        0 <= a < self.positions().len() && 0 <= b < self.positions().len() && a
                            != b implies self.positions()[a] != self.positions()[b] by {
                        if a < last {
                            assert(self.positions()[a] == old(self).positions()[a]);
                        }
                        if b < last {
                            assert(self.positions()[b] == old(self).positions()[b]);
                        }
                    }
                    assert forall|i: int| 0 <= i < self.pool().len() implies (
                    #[trigger] self.pool()[i]).wf(self.spec_size()) && self.pool()[i].cleared() by {
                        assert(self.pool()[i] == old(self).pool()[i]);
                    }
                    assert(self.stores_wf());
                    assert forall|other: IVec2| other != pos implies #[trigger] self.chunk_at(other)
                        == old(self).chunk_at(other) by {
                        if old(self).positions().contains(other) {
                            let i = old(self).positions().index_of(other);
                            assert(self.positions()[i] == other);
                            self.lemma_chunk_at_index(i);
                        }
                        if self.positions().contains(other) {
                            let i = self.positions().index_of(other);
                            assert(i < last);
                            assert(old(self).positions()[i] == other);
                        }
                    }
                    self.lemma_chunk_at_index(last);
                    assert forall|other: IVec2| #[trigger]
                        self.is_resident(other) == old(self).is_resident(other) by {
                        if other != pos {
                            assert(self.chunk_at(other) == old(self).chunk_at(other));
                        }
                    }
                    assert forall|other: IVec2|
                        old(self).positions().contains(
                            other,
                        ) implies #[trigger] self.positions().contains(other) by {
                        let i = old(self).positions().index_of(other);
                        assert(self.positions()[i] == other);
                    }
                }
            },
        }
        Ok(())
    }

    /// Whether `after` is this manager with the chunks of the map `chunks`
    /// put in: every chunk that the map has an entry for is cold and is what
    /// the entry gives, every other chunk is as it was, and so are the pool
    /// and the window.
    pub open spec fn map_put(
        &self,
        after: &SimulationChunkManager,
        chunks: Seq<(IVec2, Option<BitmapImage>)>,
    ) -> bool {
        &&& after.wf()
        &&& after.same_settings(self)
        &&& after.pool() == self.pool()
        &&& forall|pos: IVec2|
            match map_entry(chunks, pos) {
                Some(loaded) => (#[trigger] after.chunk_at(pos)) matches Some(chunk)
                    && chunk.kept_in(loaded, self.spec_size()),
                None => after.chunk_at(pos) == self.chunk_at(pos),
            }
    }

    /// Whether this is a manager that has chosen no window yet, with
    /// `capacity` free buffer sets, in which no chunk is resident and the
    /// world is that of the map `chunks`: the chunks that the map has an entry
    /// for, and a blank chunk at the origin if the map has none for it.
    pub open spec fn holds_map(
        &self,
        chunks: Seq<(IVec2, Option<BitmapImage>)>,
        capacity: usize,
    ) -> bool {
        &&& self.wf()
        &&& !self.is_ready()
        &&& !self.is_lent()
        &&& self.pool().len() == capacity
        &&& forall|pos: IVec2|
            match map_entry(chunks, pos) {
                Some(loaded) => (#[trigger] self.chunk_at(pos)) matches Some(chunk)
                    && chunk.kept_in(loaded, self.spec_size()),
                None => if pos == (IVec2 { x: 0, y: 0 }) {
                    self.chunk_at(pos) matches Some(chunk) && chunk.kept_in(None, self.spec_size())
                } else {
                    self.chunk_at(pos).is_none()
                },
            }
    }

    /// A manager that holds a map and nothing else wants all nine chunks
    /// round a position, and has none to give up.
    pub proof fn lemma_map_needs_nine(
        &self,
        chunks: Seq<(IVec2, Option<BitmapImage>)>,
        capacity: usize,
        anchor: IVec2,
    )
        requires
            self.holds_map(chunks, capacity),
            within_world(anchor),
        ensures
            self.wanted(anchor).len() == 9,
            self.evictable(anchor).len() == 0,
    {
        self.lemma_resident();
        assert forall|pos: IVec2| !self.is_resident(pos) by {
            assert(map_entry(chunks, pos).is_some() || map_entry(chunks, pos).is_none());
            let _ = self.chunk_at(pos);
        }
        if self.resident().len() > 0 {
            assert(self.resident().contains(self.resident()[0]));
        }
        self.lemma_fresh_needs_nine(anchor);
    }

    /// Putting a map into a manager that holds no map gives a manager that
    /// holds that map.
    pub proof fn lemma_map_put_in_fresh(
        &self,
        after: &SimulationChunkManager,
        chunks: Seq<(IVec2, Option<BitmapImage>)>,
        capacity: usize,
    )
        requires
            self.holds_map(Seq::empty(), capacity),
            self.map_put(after, chunks),
        ensures
            after.holds_map(chunks, capacity),
            after.spec_size() == self.spec_size(),
    {
        assert forall|pos: IVec2|
            match map_entry(chunks, pos) {
                Some(loaded) => (#[trigger] after.chunk_at(pos)) matches Some(chunk)
                    && chunk.kept_in(loaded, after.spec_size()),
                None => if pos == (IVec2 { x: 0, y: 0 }) {
                    after.chunk_at(pos) matches Some(chunk) && chunk.kept_in(
                        None,
                        after.spec_size(),
                    )
                } else {
                    after.chunk_at(pos).is_none()
                },
            } by {
            assert(map_entry(Seq::<(IVec2, Option<BitmapImage>)>::empty(), pos).is_none());
            let _ = self.chunk_at(pos);
        }
    }

    /// Whether one of the entries of `chunks` is for a chunk that is
    /// resident.
    pub open spec fn map_meets_resident(&self, chunks: Seq<(IVec2, Option<BitmapImage>)>) -> bool {
        exists|i: int| 0 <= i < chunks.len() && self.is_resident((#[trigger] chunks[i]).0)
    }

    /// Puts the chunks of a map into the world and brings the camera to
    /// `player_pos`. Each entry of `chunks` is the position of a chunk and the
    /// image that was read for it; of two entries for one position the later
    /// counts. A map with an entry for a resident chunk is refused, and
    /// nothing is changed. Where the pool is too small for the chunks round
    /// the camera, the chunks of the map are in the world, and the camera is
    /// where it was.
    pub fn load_map_from_disk(
        &mut self,
        chunks: Vec<(IVec2, Option<BitmapImage>)>,
        player_pos: IVec2,
        matter_definitions: &MatterDefinitions,
    ) -> (done: Result<(), ChunkError>)
        requires
            old(self).wf(),
            !old(self).is_lent(),
            within_world(player_pos),
        ensures
            final(self).wf(),
            !final(self).is_lent(),
            final(self).spec_size() == old(self).spec_size(),
            done == Err::<(), ChunkError>(ChunkError::ChunkInUse) <==> old(self).map_meets_resident(
                chunks@,
            ),
            old(self).map_meets_resident(chunks@) ==> *final(self) == *old(self),
            !old(self).map_meets_resident(chunks@) ==> exists|mid: SimulationChunkManager|
                {
                    &&& old(self).map_put(&mid, chunks@)
                    &&& done.is_ok() <==> mid.wanted(anchor_of(player_pos, mid.spec_size())).len()
                        <= mid.pool().len() + mid.evictable(
                        anchor_of(player_pos, mid.spec_size()),
                    ).len()
                    &&& match done {
                        Ok(_) => mid.camera_moved(final(self), player_pos, *matter_definitions),
                        Err(error) => error == ChunkError::PoolTooSmall && *final(self) == mid,
                    }
                },
    {
        let ghost given = chunks@;
        let mut rest = chunks;
        let mut i: usize = 0;
        while i < rest.len()
            invariant
                i <= rest.len(),
                rest@ == given,
                given == chunks@,
                *self == *old(self),
                self.wf(),
                !self.is_lent(),
                forall|k: int| 0 <= k < i ==> !self.is_resident((#[trigger] given[k]).0),
            decreases rest.len() - i,
        {
            let resident = match self.world_chunk(rest[i].0) {
                Some(chunk) => chunk.gpu_chunk.is_some(),
                None => false,
            };
            if resident {
                assert(old(self).is_resident(given[i as int].0));
                assert(old(self).map_meets_resident(given));
                return Err(ChunkError::ChunkInUse);
            }
            i += 1;
        }
        assert(!old(self).map_meets_resident(given));
        let mut i: usize = 0;
        while i < rest.len()
            invariant
                i <= rest.len() == given.len(),
                given == chunks@,
                forall|k: int| i <= k < given.len() ==> #[trigger] rest@[k] == given[k],
                forall|k: int| 0 <= k < given.len() ==> (#[trigger] rest@[k]).0 == given[k].0,
                forall|k: int| 0 <= k < given.len() ==> !self.is_resident((#[trigger] given[k]).0),
                !self.is_lent(),
                old(self).map_put(self, given.take(i as int)),
            decreases rest.len() - i,
        {
            let pos = rest[i].0;
            let loaded = rest[i].1.take();
            let ghost before = *self;
            let put = self.insert_world_chunk(pos, loaded);
            proof {
                assert(put.is_ok());
                assert(given.take(i + 1).drop_last() =~= given.take(i as int));
                assert(given.take(i + 1).last() == given[i as int]);
                assert forall|other: IVec2|
                    match map_entry(given.take(i + 1), other) {
                        Some(image) => (#[trigger] self.chunk_at(other)) matches Some(chunk)
                            && chunk.kept_in(image, old(self).spec_size()),
                        None => self.chunk_at(other) == old(self).chunk_at(other),
                    } by {
                    if other != pos {
                        assert(self.chunk_at(other) == before.chunk_at(other));
                    }
                }
                assert forall|k: int| 0 <= k < given.len() implies !self.is_resident(
                    (#[trigger] given[k]).0,
                ) by {
                    if given[k].0 != pos {
                        assert(self.chunk_at(given[k].0) == before.chunk_at(given[k].0));
                    }
                }
            }
            i += 1;
        }
        assert(given.take(given.len() as int) =~= given);
        let ghost mid = *self;
        let done = self.update_chunks(player_pos, matter_definitions);
        proof {
            assert(old(self).map_put(&mid, given));
            if done.is_ok() {
                assert(mid.camera_moved(self, player_pos, *matter_definitions));
            }
        }
        done
    }

    /// Draws the image of every resident chunk anew from its buffers, so that
    /// the images show the world as it is.
    pub fn write_chunks_to_cpu(&mut self, matter_definitions: &MatterDefinitions)
        requires
            old(self).wf(),
        ensures
            final(self).wf(),
            final(self).same_settings(old(self)),
            final(self).positions() == old(self).positions(),
            final(self).pool() == old(self).pool(),
            forall|i: int|
                0 <= i < old(self).chunks().len() ==> (#[trigger] final(self).chunks()[i]).gpu_chunk
                    == old(self).chunks()[i].gpu_chunk && match old(self).chunks()[i].gpu_chunk {
                    Some(chunk) => final(self).chunks()[i].image.data@ == chunk_image_data(
                        *matter_definitions,
                        chunk.matter_in@,
                        old(self).spec_size() as int,
                    ),
                    None => final(self).chunks()[i].image == old(self).chunks()[i].image,
                },
    {
        let size = self.size;
        let mut i: usize = 0;
        while i < self.world_chunks.len()
            invariant
                i <= self.world_chunks.len(),
                size == self.spec_size(),
                old(self).wf(),
                self.stores_wf(),
                self.same_settings(old(self)),
                self.positions() == old(self).positions(),
                self.pool() == old(self).pool(),
                self.chunks().len() == old(self).chunks().len(),
                forall|k: int|
                    i <= k < self.chunks().len() ==>
                        #[trigger] self.chunks()[k] == old(self).chunks()[k],
                forall|k: int|
                    0 <= k < self.chunks().len() ==>
                        (#[trigger] self.chunks()[k]).gpu_chunk == old(self).chunks()[k].gpu_chunk,
                forall|k: int|
                    0 <= k < i ==> match old(self).chunks()[k].gpu_chunk {
                        Some(chunk) => (#[trigger] self.chunks()[k]).image.data@
                            == chunk_image_data(
                            *matter_definitions,
                            chunk.matter_in@,
                            old(self).spec_size() as int,
                        ),
                        None => self.chunks()[k].image == old(self).chunks()[k].image,
                    },
            decreases self.world_chunks.len() - i,
        {
            let ghost earlier = self.chunks();
            self.world_chunks[i].write_to_cpu(matter_definitions, size);
            proof {
                assert forall|k: int| 0 <= k < self.chunks().len() implies (
                #[trigger] self.chunks()[k]).wf(self.spec_size()) by {
                    if k != i {
                        assert(self.chunks()[k] == earlier[k]);
                    }
                }
            }
            i += 1;
        }
        proof {
            assert forall|pos: IVec2| #[trigger] self.is_resident(pos) == old(self).is_resident(
                pos,
            ) by {
                if self.positions().contains(pos) {
                    let k = self.positions().index_of(pos);
                    assert(self.chunks()[k].gpu_chunk == old(self).chunks()[k].gpu_chunk);
                }
            }
        }
    }
}

/// Whether `after` is what the resident chunk `before` becomes when it is
/// given up: its image is drawn from its matter, and its buffers are gone.
pub open spec fn unloaded_from(
    before: WorldChunk,
    after: WorldChunk,
    table: MatterDefinitions,
    size: u32,
) -> bool {
    &&& before.gpu_chunk.is_some()
    &&& after.gpu_chunk.is_none()
    &&& after.wf(size)
    &&& after.image.data@ == chunk_image_data(
        table,
        before.gpu_chunk.unwrap().matter_in@,
        size as int,
    )
}

/// Whether `after` is what the chunk `before` becomes when it is made
/// resident: the image stays, both matter buffers hold the matter that the
/// image shows, and the other buffers are clear. A chunk that the world had
/// not met starts from the image in which every byte is zero.
pub open spec fn loaded_from(
    before: Option<WorldChunk>,
    after: WorldChunk,
    table: MatterDefinitions,
    size: u32,
) -> bool {
    &&& after.wf(size)
    &&& match before {
        Some(chunk) => after.image == chunk.image,
        None => forall|i: int| 0 <= i < after.image.data.len() ==> after.image.data[i] == 0,
    }
    &&& after.gpu_chunk matches Some(filled) && filled.matter_in@ == chunk_matter_of_image(
        table,
        after.image.data@,
        size as int,
    ) && filled.matter_out@ == filled.matter_in@ && all_zero(filled.objects_matter@) && all_zero(
        filled.objects_color@,
    ) && all_zero(filled.image@)
}

/// What the positions of resident chunks are.
pub proof fn lemma_resident_positions(positions: Seq<IVec2>, chunks: Seq<WorldChunk>)
    requires
        positions.len() == chunks.len(),
        positions.no_duplicates(),
    ensures
        resident_positions(positions, chunks).no_duplicates(),
        forall|pos: IVec2| #[trigger]
            resident_positions(positions, chunks).contains(pos) <==> exists|i: int|
                0 <= i < positions.len() && positions[i] == pos && chunks[i].gpu_chunk.is_some(),
    decreases positions.len(),
{
    if positions.len() > 0 {
        let shorter = positions.drop_last();
        let fewer = chunks.drop_last();
        lemma_resident_positions(shorter, fewer);
        let before = resident_positions(shorter, fewer);
        let all = resident_positions(positions, chunks);
        let last = positions.len() - 1;
        assert forall|pos: IVec2| #[trigger] all.contains(pos) <==> exists|i: int|
            0 <= i < positions.len() && positions[i] == pos
                && chunks[i].gpu_chunk.is_some() by {
            if all.contains(pos) {
                let k = choose|k: int| 0 <= k < all.len() && all[k] == pos;
                if k < before.len() {
                    assert(before[k] == pos);
                    assert(before.contains(pos));
                    let i = choose|i: int|
                        0 <= i < shorter.len() && shorter[i] == pos
                            && fewer[i].gpu_chunk.is_some();
                    assert(positions[i] == pos && chunks[i].gpu_chunk.is_some());
                } else {
                    assert(positions[last] == pos && chunks[last].gpu_chunk.is_some());
                }
            }
            if exists|i: int|
                0 <= i < positions.len() && positions[i] == pos && chunks[i].gpu_chunk.is_some() {
                let i = choose|i: int|
                    0 <= i < positions.len() && positions[i] == pos
                        && chunks[i].gpu_chunk.is_some();
                if i < last {
                    assert(shorter[i] == pos && fewer[i].gpu_chunk.is_some());
                    assert(before.contains(pos));
                    let k = choose|k: int| 0 <= k < before.len() && before[k] == pos;
                    assert(all[k] == pos);
                } else {
                    assert(all[all.len() - 1] == pos);
                }
            }
        }
        assert forall|i: int, j: int|
            0 <= i < all.len() && 0 <= j < all.len() && i != j implies all[i] != all[j] by {
            if i < before.len() && j < before.len() {
                assert(before[i] == all[i] && before[j] == all[j]);
            } else {
                let inner = if i < j {
                    i
                } else {
                    j
                };
                assert(before[inner] == all[inner]);
                assert(before.contains(all[inner]));
                let k = choose|k: int|
                    0 <= k < shorter.len() && shorter[k] == all[inner]
                        && fewer[k].gpu_chunk.is_some();
                assert(positions[k] == all[inner]);
            }
        }
    }
}

/// What the positions outside the nine round `anchor` are.
pub proof fn lemma_outside_hot(positions: Seq<IVec2>, anchor: IVec2)
    requires
        positions.no_duplicates(),
    ensures
        outside_hot(positions, anchor).no_duplicates(),
        forall|pos: IVec2| #[trigger]
            outside_hot(positions, anchor).contains(pos) <==> positions.contains(pos) && !is_hot(
                anchor,
                pos,
            ),
    decreases positions.len(),
{
    if positions.len() > 0 {
        let shorter = positions.drop_last();
        lemma_outside_hot(shorter, anchor);
        let before = outside_hot(shorter, anchor);
        let all = outside_hot(positions, anchor);
        let last = positions.len() - 1;
        assert forall|pos: IVec2| #[trigger] all.contains(pos) <==> positions.contains(pos)
            && !is_hot(anchor, pos) by {
            if all.contains(pos) {
                let k = choose|k: int| 0 <= k < all.len() && all[k] == pos;
                if k < before.len() {
                    assert(before[k] == pos);
                    assert(before.contains(pos));
                    let i = choose|i: int| 0 <= i < shorter.len() && shorter[i] == pos;
                    assert(positions[i] == pos);
                } else {
                    assert(positions[last] == pos);
                }
            }
            if positions.contains(pos) && !is_hot(anchor, pos) {
                let i = choose|i: int| 0 <= i < positions.len() && positions[i] == pos;
                if i < last {
                    assert(shorter[i] == pos);
                    assert(before.contains(pos));
                    let k = choose|k: int| 0 <= k < before.len() && before[k] == pos;
                    assert(all[k] == pos);
                } else {
                    assert(all[all.len() - 1] == pos);
                }
            }
        }
        assert forall|i: int, j: int|
            0 <= i < all.len() && 0 <= j < all.len() && i != j implies all[i] != all[j] by {
            if i < before.len() && j < before.len() {
                assert(before[i] == all[i] && before[j] == all[j]);
            } else {
                let inner = if i < j {
                    i
                } else {
                    j
                };
                assert(before[inner] == all[inner]);
                assert(before.contains(all[inner]));
                let k = choose|k: int| 0 <= k < shorter.len() && shorter[k] == all[inner];
                assert(positions[k] == all[inner]);
            }
        }
    }
}

/// Those of `positions` that are not among the nine chunks round `anchor`.
pub fn outside_of_hot(positions: &Vec<IVec2>, anchor: IVec2) -> (outside: Vec<IVec2>)
    ensures
        outside@ == outside_hot(positions@, anchor),
{
    let mut outside: Vec<IVec2> = Vec::new();
    let mut i: usize = 0;
    while i < positions.len()
        invariant
            i <= positions.len(),
            outside@ == outside_hot(positions@.subrange(0, i as int), anchor),
        decreases positions.len() - i,
    {
        let pos = positions[i];
        proof {
            assert(positions@.subrange(0, i + 1).drop_last() =~= positions@.subrange(0, i as int));
            assert(positions@.subrange(0, i + 1).last() == pos);
        }
        let dx = pos.x as i64 - anchor.x as i64;
        let dy = pos.y as i64 - anchor.y as i64;
        if !(-1 <= dx && dx <= 1 && -1 <= dy && dy <= 1) {
            outside.push(pos);
        }
        i += 1;
    }
    assert(positions@.subrange(0, positions.len() as int) =~= positions@);
    outside
}

/// Whether `pos` is one of the first `count` of `list`.
pub open spec fn among_first(list: Seq<IVec2>, count: int, pos: IVec2) -> bool {
    exists|i: int| 0 <= i < count && i < list.len() && #[trigger] list[i] == pos
}

/// Whether `after` is what the chunk `before` becomes when the camera moves:
/// a chunk that is given up is written back to its image, a chunk that is
/// wanted is made resident, and every other chunk stays as it is.
pub open spec fn updated_chunk(
    before: Option<WorldChunk>,
    after: Option<WorldChunk>,
    given_up: bool,
    wanted: bool,
    table: MatterDefinitions,
    size: u32,
) -> bool {
    if given_up {
        before.is_some() && (after matches Some(chunk) && unloaded_from(
            before.unwrap(),
            chunk,
            table,
            size,
        ))
    } else if wanted {
        after matches Some(chunk) && loaded_from(before, chunk, table, size)
    } else {
        after == before
    }
}

} // verus!
