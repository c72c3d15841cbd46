//! Reading the canvas round the camera out of the buffers of the four
//! chunks of the window, and writing it back.
use vstd::prelude::*;
use crate::geometry::{cell_index, lemma_index_has_cell, IVec2};
use crate::simulation::chunk_window::{lemma_canvas_in_window, window_origin, window_start};
use crate::simulation::simulation_chunk_manager::GpuChunk;
use crate::simulation::simulation_utils::{
    canvas_column, canvas_pos_of_chunk_index, canvas_row, canvas_size_ok, in_window,
    inside_sim_canvas, is_inside_sim_canvas, lemma_canvas_cells, sim_canvas_index,
    near_world, sim_chunk_canvas_index, window_cell_index, window_chunk_index, window_pos,
    within_world,
};

verus! {

/// The buffers of a resident chunk.
#[derive(Debug, Clone, Copy, PartialEq, Eq, Structural)]
pub enum Layer {
    MatterIn,
    MatterOut,
    ObjectsMatter,
    ObjectsColor,
    Image,
}

/// The buffer of `chunk` that `layer` names.
pub open spec fn layer_of(chunk: GpuChunk, layer: Layer) -> Seq<u32> {
    match layer {
        Layer::MatterIn => chunk.matter_in@,
        Layer::MatterOut => chunk.matter_out@,
        Layer::ObjectsMatter => chunk.objects_matter@,
        Layer::ObjectsColor => chunk.objects_color@,
        Layer::Image => chunk.image@,
    }
}

/// Whether `chunks` are the buffers of a window of chunks of `size` by `size`
/// cells.
pub open spec fn window_wf(chunks: Seq<GpuChunk>, size: u32) -> bool {
    chunks.len() == 4 && forall|k: int| 0 <= k < 4 ==> (#[trigger] chunks[k]).wf(size)
}

/// Where the canvas round the camera lies: the place of the camera, the
/// first cell of the window that is simulated round it, and the edge of a
/// chunk.
#[derive(Debug, Clone, Copy, PartialEq, Eq, Structural)]
pub struct CanvasFrame {
    pub camera: IVec2,
    pub chunk_start: IVec2,
    pub size: u32,
}

impl CanvasFrame {
    /// Whether the window is the one that is simulated round the camera.
    pub open spec fn wf(&self) -> bool {
        &&& canvas_size_ok(self.size)
        &&& within_world(self.camera)
        &&& self.chunk_start == window_start(window_origin(self.camera, self.size), self.size)
    }

    /// The point of the world that lies at place `index` of the canvas.
    pub open spec fn world_pos(&self, index: int) -> IVec2 {
        IVec2 {
            x: (index % (self.size as int) - (self.size / 2) as int + self.camera.x) as i32,
            y: (index / (self.size as int) - (self.size / 2) as int + self.camera.y) as i32,
        }
    }

    /// What `layer` holds at place `index` of the canvas.
    pub open spec fn canvas_value(&self, chunks: Seq<GpuChunk>, layer: Layer, index: int) -> u32 {
        let pos = self.world_pos(index);
        layer_of(
            chunks[window_chunk_index(pos, self.chunk_start, self.size)],
            layer,
        )[window_cell_index(pos, self.chunk_start, self.size)]
    }

    /// `layer` over the canvas, row by row from the bottom up.
    pub open spec fn gathered(&self, chunks: Seq<GpuChunk>, layer: Layer) -> Seq<u32> {
        Seq::new(
            (self.size * self.size) as nat,
            |index: int| self.canvas_value(chunks, layer, index),
        )
    }

    /// What place `j` of chunk `k` holds in `layer` once `values` are written
    /// over the canvas: the value for its cell where it lies in the canvas,
    /// and what it held where it does not.
    pub open spec fn scattered_value(
        &self,
        chunks: Seq<GpuChunk>,
        layer: Layer,
        values: Seq<u32>,
        k: int,
        j: int,
    ) -> u32 {
        let at = window_pos(k, j, self.chunk_start, self.size);
        let pos = IVec2 { x: at.0 as i32, y: at.1 as i32 };
        if inside_sim_canvas(pos, self.camera, self.size) {
            values[cell_index(
                self.size as int,
                canvas_column(pos, self.camera, self.size),
                canvas_row(pos, self.camera, self.size),
            )]
        } else {
            layer_of(chunks[k], layer)[j]
        }
    }

    /// Whether `after` are the buffers `before` with `values` written over
    /// the canvas in `layer`, and nothing else changed.
    pub open spec fn scattered(
        &self,
        before: Seq<GpuChunk>,
        after: Seq<GpuChunk>,
        layer: Layer,
        values: Seq<u32>,
    ) -> bool {
        &&& window_wf(after, self.size)
        &&& forall|k: int, j: int|
            0 <= k < 4 && 0 <= j < self.size * self.size ==> #[trigger] layer_of(after[k], layer)[j]
                == self.scattered_value(before, layer, values, k, j)
        &&& forall|k: int, other: Layer|
            0 <= k < 4 && other != layer ==> #[trigger] layer_of(after[k], other) == layer_of(
                before[k],
                other,
            )
    }

    /// The point of the world that lies at place `index` of the canvas lies
    /// in the canvas, at that place, and in the window.
    pub proof fn lemma_world_pos(&self, index: int)
        requires
            self.wf(),
            0 <= index < self.size * self.size,
        ensures
            inside_sim_canvas(self.world_pos(index), self.camera, self.size),
            in_window(self.world_pos(index), self.chunk_start, self.size),
            canvas_column(self.world_pos(index), self.camera, self.size) == index % (
            self.size as int),
            canvas_row(self.world_pos(index), self.camera, self.size) == index / (self.size as int),
            self.world_pos(index).x == index % (self.size as int) - (self.size / 2) as int
                + self.camera.x,
            self.world_pos(index).y == index / (self.size as int) - (self.size / 2) as int
                + self.camera.y,
    {
        lemma_index_has_cell(self.size as int, self.size as int, index);
        lemma_canvas_in_window(self.camera, self.size, self.world_pos(index));
    }

    /// Reads `layer` over the canvas.
    pub fn gather_layer(&self, chunks: &Vec<GpuChunk>, layer: Layer) -> (values: Vec<u32>)
        requires
            self.wf(),
            window_wf(chunks@, self.size),
        ensures
            values@ == self.gathered(chunks@, layer),
            values.len() == self.size * self.size,
    {
        let size = self.size as usize;
        let half = (self.size / 2) as i32;
        let ghost wanted = self.gathered(chunks@, layer);
        proof {
            lemma_canvas_cells(self.size);
        }
        let mut values: Vec<u32> = Vec::new();
        let mut index: usize = 0;
        while index < size * size
            invariant
                index <= size * size,
                size == self.size,
                half == self.size / 2,
                size * size <= 0x1000_0000,
                self.wf(),
                window_wf(chunks@, self.size),
                values.len() == index,
                wanted == self.gathered(chunks@, layer),
                forall|i: int| 0 <= i < index ==> values[i] == #[trigger] wanted[i],
            decreases size * size - index,
        {
            proof {
                self.lemma_world_pos(index as int);
                lemma_index_has_cell(size as int, size as int, index as int);
            }
            let pos = IVec2 {
                x: (index % size) as i32 - half + self.camera.x,
                y: (index / size) as i32 - half + self.camera.y,
            };
            let (k, j) = sim_chunk_canvas_index(pos, self.chunk_start, self.size);
            let value = match layer {
                Layer::MatterIn => chunks[k].matter_in[j],
                Layer::MatterOut => chunks[k].matter_out[j],
                Layer::ObjectsMatter => chunks[k].objects_matter[j],
                Layer::ObjectsColor => chunks[k].objects_color[j],
                Layer::Image => chunks[k].image[j],
            };
            values.push(value);
            index += 1;
        }
        assert(values@ =~= wanted);
        values
    }

    /// Writes `values` over the canvas in `layer`.
    pub fn scatter_layer(&self, chunks: &mut Vec<GpuChunk>, layer: Layer, values: &Vec<u32>)
        requires
            self.wf(),
            window_wf(old(chunks)@, self.size),
            values.len() == self.size * self.size,
        ensures
            self.scattered(old(chunks)@, final(chunks)@, layer, values@),
    {
        let size = self.size as usize;
        let ghost before = chunks@;
        proof {
            lemma_canvas_cells(self.size);
            lemma_canvas_in_window(self.camera, self.size, self.camera);
        }
        let mut k: usize = 0;
        while k < 4
            invariant
                k <= 4,
                size == self.size,
                size * size <= 0x1000_0000,
                self.wf(),
                near_world(self.chunk_start),
                window_wf(before, self.size),
                window_wf(chunks@, self.size),
                values.len() == size * size,
                forall|c: int, j: int|
                    0 <= c < 4 && 0 <= j < size * size ==> #[trigger] layer_of(chunks[c], layer)[j]
                        == if c < k {
                        self.scattered_value(before, layer, values@, c, j)
                    } else {
                        layer_of(before[c], layer)[j]
                    },
                forall|c: int, other: Layer|
                    0 <= c < 4 && other != layer ==> #[trigger] layer_of(chunks[c], other)
                        == layer_of(before[c], other),
            decreases 4 - k,
        {
            let mut j: usize = 0;
            while j < size * size
                invariant
                    j <= size * size,
                    k < 4,
                    size == self.size,
                    size * size <= 0x1000_0000,
                    self.wf(),
                    near_world(self.chunk_start),
                    window_wf(before, self.size),
                    window_wf(chunks@, self.size),
                    values.len() == size * size,
                    forall|c: int, i: int|
                        0 <= c < 4 && 0 <= i < size * size ==> #[trigger] layer_of(
                            chunks[c],
                            layer,
                        )[i] == if c < k || (c == k && i < j) {
                            self.scattered_value(before, layer, values@, c, i)
                        } else {
                            layer_of(before[c], layer)[i]
                        },
                    forall|c: int, other: Layer|
                        0 <= c < 4 && other != layer ==> #[trigger] layer_of(chunks[c], other)
                            == layer_of(before[c], other),
                decreases size * size - j,
            {
                let pos = canvas_pos_of_chunk_index(k, j, self.chunk_start, self.size);
                if is_inside_sim_canvas(pos, self.camera, self.size) {
                    let value = values[sim_canvas_index(pos, self.camera, self.size)];
                    let ghost earlier = chunks@;
                    match layer {
                        Layer::MatterIn => {
                            chunks[k].matter_in[j] = value;
                        },
                        Layer::MatterOut => {
                            chunks[k].matter_out[j] = value;
                        },
                        Layer::ObjectsMatter => {
                            chunks[k].objects_matter[j] = value;
                        },
                        Layer::ObjectsColor => {
                            chunks[k].objects_color[j] = value;
                        },
                        Layer::Image => {
                            chunks[k].image[j] = value;
                        },
                    }
                    proof {
                        assert forall|c: int| 0 <= c < 4 implies (#[trigger] chunks[c]).wf(
                            self.size,
                        ) by {
                            assert(earlier[c].wf(self.size));
                        }
                        assert forall|c: int, other: Layer|
                            0 <= c < 4 && other != layer implies #[trigger] layer_of(
                            chunks[c],
                            other,
                        ) == layer_of(before[c], other) by {
                            assert(layer_of(earlier[c], other) == layer_of(before[c], other));
                        }
                        assert forall|c: int, i: int|
                            0 <= c < 4 && 0 <= i < size * size implies #[trigger] layer_of(
                            chunks[c],
                            layer,
                        )[i] == if c < k || (c == k && i < j + 1) {
                            self.scattered_value(before, layer, values@, c, i)
                        } else {
                            layer_of(before[c], layer)[i]
                        } by {
                            if c == k && i == j {
                            } else {
                                assert(layer_of(chunks[c], layer)[i] == layer_of(
                                    earlier[c],
                                    layer,
                                )[i]);
                            }
                        }
                    }
                }
                j += 1;
            }
            k += 1;
        }
    }

    /// What was written over the canvas in a layer is what is read there, and
    /// the other layers read as before.
    pub proof fn lemma_gather_scattered(
        &self,
        before: Seq<GpuChunk>,
        after: Seq<GpuChunk>,
        layer: Layer,
        values: Seq<u32>,
    )
        requires
            self.wf(),
            window_wf(before, self.size),
            values.len() == self.size * self.size,
            self.scattered(before, after, layer, values),
        ensures
            self.gathered(after, layer) == values,
            forall|other: Layer|
                other != layer ==> #[trigger] self.gathered(after, other) == self.gathered(
                    before,
                    other,
                ),
    {
        let s = self.size as int;
        assert forall|index: int| 0 <= index < s * s implies self.canvas_value(
            after,
            layer,
            index,
        ) == values[index] by {
            self.lemma_world_pos(index);
            let pos = self.world_pos(index);
            crate::simulation::simulation_utils::lemma_canvas_index_round_trip(
                pos,
                self.chunk_start,
                self.size,
            );
            let k = window_chunk_index(pos, self.chunk_start, self.size);
            let j = window_cell_index(pos, self.chunk_start, self.size);
            assert(layer_of(after[k], layer)[j] == self.scattered_value(
                before,
                layer,
                values,
                k,
                j,
            ));
            lemma_index_has_cell(s, s, index);
        }
        assert(self.gathered(after, layer) =~= values);
        assert forall|other: Layer| other != layer implies #[trigger] self.gathered(after, other)
            == self.gathered(before, other) by {
            assert forall|index: int| 0 <= index < s * s implies self.canvas_value(
                after,
                other,
                index,
            ) == self.canvas_value(before, other, index) by {
                self.lemma_world_pos(index);
                let pos = self.world_pos(index);
                crate::simulation::simulation_utils::lemma_canvas_index_round_trip(
                    pos,
                    self.chunk_start,
                    self.size,
                );
                let k = window_chunk_index(pos, self.chunk_start, self.size);
                assert(layer_of(after[k], other) == layer_of(before[k], other));
            }
            assert(self.gathered(after, other) =~= self.gathered(before, other));
        }
    }
}

} // verus!
