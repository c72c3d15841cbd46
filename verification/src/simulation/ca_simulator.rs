//! The cellular automaton: the matter table laid out for the passes, and the
//! ordered passes of one tick over the canvas round the camera.
use vstd::prelude::*;
use crate::color::{reversed_bytes, u32_rgba_to_u32_abgr};
use crate::geometry::IVec2;
use crate::matter::matter_definition::{
    MatterDefinition, MatterDefinitions, MatterReaction, MAX_NUM_MATTERS, MAX_TRANSITIONS,
};
use crate::matter::matter_state::{Direction, MatterCharacteristic, MatterState};
use crate::settings::AppSettings;
use crate::simulation::ca_passes::{moved, run_move_pass, CanvasGrid, GridView, MovePass, Movement};
use crate::simulation::ca_react::{
    colored, occupancy, ratio_ok, reacted, run_bitmap_pass, run_color_pass, run_react_pass,
};
use crate::simulation::canvas_window::{window_wf, CanvasFrame, Layer, layer_of};
use crate::simulation::simulation_chunk_manager::{zeros, GpuChunk, SimulationChunkManager};
use crate::simulation::simulation_utils::{canvas_size_ok, lemma_canvas_cells};

verus! {

/// The matter table as the passes read it: one array for each field, with
/// room for `MAX_NUM_MATTERS` matters, and the reactions flattened to
/// `MAX_TRANSITIONS` numbers for each matter. Matters that the table does not
/// hold are all zero: empty, weightless and inert.
pub struct MatterArrays {
    pub color: Vec<u32>,
    pub state: Vec<u32>,
    pub weight: Vec<u32>,
    pub dispersion: Vec<u32>,
    pub characteristics: Vec<u32>,
    pub reaction_with: Vec<u32>,
    pub reaction_direction: Vec<u32>,
    pub reaction_probability: Vec<u32>,
    pub reaction_transition: Vec<u32>,
}

impl MatterArrays {
    /// Whether every array has room for every matter.
    pub open spec fn wf(&self) -> bool {
        &&& self.color.len() == 256
        &&& self.state.len() == 256
        &&& self.weight.len() == 256
        &&& self.dispersion.len() == 256
        &&& self.characteristics.len() == 256
        &&& self.reaction_with.len() == 1280
        &&& self.reaction_direction.len() == 1280
        &&& self.reaction_probability.len() == 1280
        &&& self.reaction_transition.len() == 1280
    }

    /// Whether the arrays hold the table `defs`.
    pub open spec fn holds(&self, defs: Seq<MatterDefinition>) -> bool {
        &&& self.color@ == matter_array(defs, MatterField::Color)
        &&& self.state@ == matter_array(defs, MatterField::State)
        &&& self.weight@ == matter_array(defs, MatterField::Weight)
        &&& self.dispersion@ == matter_array(defs, MatterField::Dispersion)
        &&& self.characteristics@ == matter_array(defs, MatterField::Characteristics)
        &&& self.reaction_with@ == rule_array(defs, RuleField::Reacts)
        &&& self.reaction_direction@ == rule_array(defs, RuleField::Direction)
        &&& self.reaction_probability@ == rule_array(defs, RuleField::Probability)
        &&& self.reaction_transition@ == rule_array(defs, RuleField::Becomes)
    }

    /// The arrays of the table without matters.
    pub fn new() -> (arrays: MatterArrays)
        ensures
            arrays.wf(),
            arrays.holds(Seq::empty()),
    {
        let arrays = MatterArrays {
            color: zeros(256),
            state: zeros(256),
            weight: zeros(256),
            dispersion: zeros(256),
            characteristics: zeros(256),
            reaction_with: zeros(1280),
            reaction_direction: zeros(1280),
            reaction_probability: zeros(1280),
            reaction_transition: zeros(1280),
        };
        proof {
            let none = Seq::<MatterDefinition>::empty();
            assert(arrays.color@ =~= matter_array(none, MatterField::Color));
            assert(arrays.state@ =~= matter_array(none, MatterField::State));
            assert(arrays.weight@ =~= matter_array(none, MatterField::Weight));
            assert(arrays.dispersion@ =~= matter_array(none, MatterField::Dispersion));
            assert(arrays.characteristics@ =~= matter_array(none, MatterField::Characteristics));
            assert(arrays.reaction_with@ =~= rule_array(none, RuleField::Reacts));
            assert(arrays.reaction_direction@ =~= rule_array(none, RuleField::Direction));
            assert(arrays.reaction_probability@ =~= rule_array(none, RuleField::Probability));
            assert(arrays.reaction_transition@ =~= rule_array(none, RuleField::Becomes));
        }
        arrays
    }

    /// The state of `matter`; a matter beyond the arrays is empty.
    pub open spec fn state_of(&self, matter: u32) -> MatterState {
        if matter < MAX_NUM_MATTERS {
            MatterState::spec_from_bits_or_empty(self.state[matter as int])
        } else {
            MatterState::Empty
        }
    }

    /// The weight of `matter`.
    pub open spec fn weight_of(&self, matter: u32) -> u32 {
        if matter < MAX_NUM_MATTERS {
            self.weight[matter as int]
        } else {
            0
        }
    }

    /// The number of dispersion steps of a tick in which `matter` spreads.
    pub open spec fn dispersion_of(&self, matter: u32) -> u32 {
        if matter < MAX_NUM_MATTERS {
            self.dispersion[matter as int]
        } else {
            0
        }
    }

    /// The capabilities of `matter`.
    pub open spec fn characteristics_of(&self, matter: u32) -> u32 {
        if matter < MAX_NUM_MATTERS {
            self.characteristics[matter as int]
        } else {
            0
        }
    }

    /// The colour of `matter` as it is shown, alpha in the top byte.
    pub open spec fn color_of(&self, matter: u32) -> u32 {
        if matter < MAX_NUM_MATTERS {
            self.color[matter as int]
        } else {
            0
        }
    }

    /// Rule `rule` of `matter`; a matter beyond the arrays has none that
    /// fires.
    pub open spec fn rule_of(&self, matter: u32, rule: int) -> MatterReaction {
        if matter < MAX_NUM_MATTERS {
            MatterReaction {
                reacts: MatterCharacteristic {
                    bits: self.reaction_with[rule_index(matter as int, rule)],
                },
                direction: Direction {
                    bits: self.reaction_direction[rule_index(matter as int, rule)],
                },
                probability: self.reaction_probability[rule_index(matter as int, rule)],
                becomes: self.reaction_transition[rule_index(matter as int, rule)],
            }
        } else {
            MatterReaction {
                reacts: MatterCharacteristic { bits: 0 },
                direction: Direction { bits: 0 },
                probability: 0,
                becomes: 0,
            }
        }
    }

    /// The state of `matter`.
    pub fn get_state(&self, matter: u32) -> (state: MatterState)
        requires
            self.wf(),
        ensures
            state == self.state_of(matter),
    {
        if matter < MAX_NUM_MATTERS {
            match MatterState::from_bits(self.state[matter as usize]) {
                Some(state) => state,
                None => MatterState::Empty,
            }
        } else {
            MatterState::Empty
        }
    }

    /// The weight of `matter`, in thousandths.
    pub fn get_weight(&self, matter: u32) -> (weight: u32)
        requires
            self.wf(),
        ensures
            weight == self.weight_of(matter),
    {
        if matter < MAX_NUM_MATTERS {
            self.weight[matter as usize]
        } else {
            0
        }
    }

    /// How far `matter` spreads to the side in one step.
    pub fn get_dispersion(&self, matter: u32) -> (dispersion: u32)
        requires
            self.wf(),
        ensures
            dispersion == self.dispersion_of(matter),
    {
        if matter < MAX_NUM_MATTERS {
            self.dispersion[matter as usize]
        } else {
            0
        }
    }

    /// The characteristics of `matter`, as bits.
    pub fn get_characteristics(&self, matter: u32) -> (characteristics: u32)
        requires
            self.wf(),
        ensures
            characteristics == self.characteristics_of(matter),
    {
        if matter < MAX_NUM_MATTERS {
            self.characteristics[matter as usize]
        } else {
            0
        }
    }

    /// The colour of `matter`.
    pub fn get_color(&self, matter: u32) -> (color: u32)
        requires
            self.wf(),
        ensures
            color == self.color_of(matter),
    {
        if matter < MAX_NUM_MATTERS {
            self.color[matter as usize]
        } else {
            0
        }
    }

    /// Reaction `rule` of `matter`.
    pub fn get_rule(&self, matter: u32, rule: usize) -> (reaction: MatterReaction)
        requires
            self.wf(),
            rule < MAX_TRANSITIONS,
        ensures
            reaction == self.rule_of(matter, rule as int),
    {
        if matter < MAX_NUM_MATTERS {
            let at = matter as usize * 5 + rule;
            MatterReaction {
                reacts: MatterCharacteristic { bits: self.reaction_with[at] },
                direction: Direction { bits: self.reaction_direction[at] },
                probability: self.reaction_probability[at],
                becomes: self.reaction_transition[at],
            }
        } else {
            MatterReaction {
                reacts: MatterCharacteristic { bits: 0 },
                direction: Direction { bits: 0 },
                probability: 0,
                becomes: 0,
            }
        }
    }

    /// Lays the table out anew: every field of every matter, and nothing for
    /// the matters that the table does not hold. A table with more matters
    /// than there is room for is cut off.
    pub fn update_matter_data(&mut self, matter_definitions: &MatterDefinitions)
        ensures
            final(self).holds(matter_definitions.definitions@),
            final(self).wf(),
    {
        self.color = fill_matter_array(matter_definitions, MatterField::Color);
        self.state = fill_matter_array(matter_definitions, MatterField::State);
        self.weight = fill_matter_array(matter_definitions, MatterField::Weight);
        self.dispersion = fill_matter_array(matter_definitions, MatterField::Dispersion);
        self.characteristics = fill_matter_array(matter_definitions, MatterField::Characteristics);
        self.reaction_with = fill_rule_array(matter_definitions, RuleField::Reacts);
        self.reaction_direction = fill_rule_array(matter_definitions, RuleField::Direction);
        self.reaction_probability = fill_rule_array(matter_definitions, RuleField::Probability);
        self.reaction_transition = fill_rule_array(matter_definitions, RuleField::Becomes);
    }
}

/// The fields of a matter that are laid out as arrays.
#[derive(Debug, Clone, Copy, PartialEq, Eq, Structural)]
pub enum MatterField {
    Color,
    State,
    Weight,
    Dispersion,
    Characteristics,
}

/// The fields of a reaction that are laid out as arrays.
#[derive(Debug, Clone, Copy, PartialEq, Eq, Structural)]
pub enum RuleField {
    Reacts,
    Direction,
    Probability,
    Becomes,
}

/// The number that stands for `field` of `matter` in its array: the colour
/// with its bytes reversed, the state by its bit, and the rest as they are.
pub open spec fn matter_field(matter: MatterDefinition, field: MatterField) -> u32 {
    match field {
        MatterField::Color => reversed_bytes(matter.color),
        MatterField::State => matter.state.spec_bits(),
        MatterField::Weight => matter.weight,
        MatterField::Dispersion => matter.dispersion,
        MatterField::Characteristics => matter.characteristics.bits,
    }
}

/// The number that stands for `field` of `rule` in its array.
pub open spec fn rule_field(rule: MatterReaction, field: RuleField) -> u32 {
    match field {
        RuleField::Reacts => rule.reacts.bits,
        RuleField::Direction => rule.direction.bits,
        RuleField::Probability => rule.probability,
        RuleField::Becomes => rule.becomes,
    }
}

/// The array of `field` for the table `defs`: zero for the matters that the
/// table does not hold.
pub open spec fn matter_array(defs: Seq<MatterDefinition>, field: MatterField) -> Seq<u32> {
    Seq::new(
        256,
        |i: int|
            if i < defs.len() {
                matter_field(defs[i], field)
            } else {
                0
            },
    )
}

/// The array of `field` of the reactions for the table `defs`.
pub open spec fn rule_array(defs: Seq<MatterDefinition>, field: RuleField) -> Seq<u32> {
    Seq::new(
        1280,
        |k: int|
            if k / 5 < defs.len() {
                rule_field(defs[k / 5].reactions[k % 5], field)
            } else {
                0
            },
    )
}

/// The array of `field`, with a number for every matter that there is room
/// for.
fn fill_matter_array(matter_definitions: &MatterDefinitions, field: MatterField) -> (array: Vec<
    u32,
>)
    ensures
        array@ == matter_array(matter_definitions.definitions@, field),
{
    let ghost wanted = matter_array(matter_definitions.definitions@, field);
    let mut array: Vec<u32> = Vec::new();
    let mut i: usize = 0;
    while i < 256
        invariant
            i <= 256,
            array.len() == i,
            wanted == matter_array(matter_definitions.definitions@, field),
            forall|k: int| 0 <= k < i ==> array[k] == #[trigger] wanted[k],
        decreases 256 - i,
    {
        let value = if i < matter_definitions.definitions.len() {
            let matter = &matter_definitions.definitions[i];
            match field {
                MatterField::Color => u32_rgba_to_u32_abgr(matter.color),
                MatterField::State => matter.state.bits(),
                MatterField::Weight => matter.weight,
                MatterField::Dispersion => matter.dispersion,
                MatterField::Characteristics => matter.characteristics.bits,
            }
        } else {
            0
        };
        array.push(value);
        i += 1;
    }
    assert(array@ =~= wanted);
    array
}

/// The array of `field` of the reactions, with a number for every reaction
/// of every matter that there is room for.
fn fill_rule_array(matter_definitions: &MatterDefinitions, field: RuleField) -> (array: Vec<u32>)
    ensures
        array@ == rule_array(matter_definitions.definitions@, field),
{
    let ghost wanted = rule_array(matter_definitions.definitions@, field);
    let mut array: Vec<u32> = Vec::new();
    let mut k: usize = 0;
    while k < 1280
        invariant
            k <= 1280,
            array.len() == k,
            wanted == rule_array(matter_definitions.definitions@, field),
            forall|n: int| 0 <= n < k ==> array[n] == #[trigger] wanted[n],
        decreases 1280 - k,
    {
        let value = if k / 5 < matter_definitions.definitions.len() {
            let rule = matter_definitions.definitions[k / 5].reactions[k % 5];
            match field {
                RuleField::Reacts => rule.reacts.bits,
                RuleField::Direction => rule.direction.bits,
                RuleField::Probability => rule.probability,
                RuleField::Becomes => rule.becomes,
            }
        } else {
            0
        };
        array.push(value);
        k += 1;
    }
    assert(array@ =~= wanted);
    array
}

/// The place of rule `rule` of matter `matter` in the flattened reactions.
pub open spec fn rule_index(matter: int, rule: int) -> int {
    matter * 5 + rule
}

/// The canvas after one pass that moves matter.
pub open spec fn after_move(arrays: MatterArrays, grid: GridView, pass: MovePass) -> GridView {
    GridView { matter: moved(arrays, grid, pass), ..grid }
}

/// The side that round `round` of a tick tries first, when the tick starts on
/// the side `bias`: the rounds take turns.
pub open spec fn round_bias(bias: bool, round: u32) -> bool {
    if round % 2 == 0 {
        bias
    } else {
        !bias
    }
}

/// The canvas after one movement round: what falls falls, what rises rises,
/// and what slides slides, in this order.
pub open spec fn after_round(
    arrays: MatterArrays,
    grid: GridView,
    bias: bool,
    round: u32,
) -> GridView {
    let side = round_bias(bias, round);
    let fallen = after_move(
        arrays,
        grid,
        MovePass { kind: Movement::Fall, bias: side, step: round },
    );
    let risen = after_move(
        arrays,
        fallen,
        MovePass { kind: Movement::Rise, bias: side, step: round },
    );
    after_move(arrays, risen, MovePass { kind: Movement::SlideDown, bias: side, step: round })
}

/// The canvas after the movement rounds from `from` up to, and not
/// including, `upto`.
pub open spec fn after_rounds(
    arrays: MatterArrays,
    grid: GridView,
    bias: bool,
    from: u32,
    upto: u32,
) -> GridView
    decreases upto,
{
    if upto <= from {
        grid
    } else {
        after_round(
            arrays,
            after_rounds(arrays, grid, bias, from, (upto - 1) as u32),
            bias,
            (upto - 1) as u32,
        )
    }
}

/// The canvas after the first `steps` spreading steps towards `bias`.
pub open spec fn after_dispersion(
    arrays: MatterArrays,
    grid: GridView,
    bias: bool,
    steps: u32,
) -> GridView
    decreases steps,
{
    if steps == 0 {
        grid
    } else {
        after_move(
            arrays,
            after_dispersion(arrays, grid, bias, (steps - 1) as u32),
            MovePass { kind: Movement::Disperse, bias, step: (steps - 1) as u32 },
        )
    }
}

/// The canvas after the passes of tick `sim_steps` that move and change
/// matter, in their order: a movement round, the spreading towards the side
/// of the tick, the other movement rounds, the spreading towards the other
/// side, and the reactions. The side of a tick is the right in even ticks and
/// the left in odd ones.
pub open spec fn ticked(
    arrays: MatterArrays,
    grid: GridView,
    settings: AppSettings,
    sim_steps: u32,
    seed: u32,
) -> GridView {
    let bias = sim_steps % 2 == 0;
    let first = after_round(arrays, grid, bias, 0);
    let spread = after_dispersion(arrays, first, bias, settings.dispersion_steps);
    let settled = after_rounds(arrays, spread, bias, 1, settings.movement_steps);
    let spread_back = after_dispersion(arrays, settled, !bias, settings.dispersion_steps);
    reacted(arrays, spread_back, seed, sim_steps)
}

/// The cellular automaton: the matter table as the passes read it, the
/// occupancy bitmap of the last tick, and the count of the ticks.
pub struct CASimulator {
    pub arrays: MatterArrays,
    pub bitmap: Vec<u32>,
    pub tmp_matter: Vec<u32>,
    pub sim_steps: u32,
    pub size: u32,
    pub bitmap_ratio: u32,
    pub empty: u32,
}

impl CASimulator {
    /// Whether the simulator is fit for its canvas.
    pub open spec fn wf(&self) -> bool {
        &&& self.arrays.wf()
        &&& canvas_size_ok(self.size)
        &&& ratio_ok(self.size, self.bitmap_ratio)
        &&& self.bitmap.len() == (self.size / self.bitmap_ratio) * (self.size / self.bitmap_ratio)
        &&& forall|i: int| 0 <= i < self.bitmap.len() ==> #[trigger] self.bitmap[i] < 8
    }

    /// A simulator for a canvas of `size` by `size` cells whose occupancy
    /// bitmap has one number for each block of `bitmap_ratio` by
    /// `bitmap_ratio` cells, with a table without matters. There is none
    /// where a canvas cannot have this size or these blocks.
    pub fn new(size: u32, bitmap_ratio: u32, empty: u32) -> (made: Option<CASimulator>)
        ensures
            made.is_some() <==> canvas_size_ok(size) && ratio_ok(size, bitmap_ratio),
            made matches Some(simulator) ==> simulator.wf() && simulator.size == size
                && simulator.bitmap_ratio == bitmap_ratio && simulator.empty == empty
                && simulator.sim_steps == 0 && simulator.arrays.holds(Seq::empty()) && forall|
                i: int,
            | 0 <= i < simulator.bitmap.len() ==> #[trigger] simulator.bitmap[i] == 0,
    {
        if size == 0 || size > crate::simulation::simulation_utils::MAX_CANVAS_SIZE
            || bitmap_ratio == 0 || bitmap_ratio > size || size % bitmap_ratio != 0 {
            return None;
        }
        let blocks = (size / bitmap_ratio) as usize;
        proof {
            lemma_canvas_cells(size);
            assert(blocks * blocks <= size * size) by (nonlinear_arith)
                requires
                    blocks <= size,
            ;
        }
        Some(
            CASimulator {
                arrays: MatterArrays::new(),
                bitmap: zeros(blocks * blocks),
                tmp_matter: Vec::new(),
                sim_steps: 0,
                size,
                bitmap_ratio,
                empty,
            },
        )
    }

    /// Lays the matter table out anew for the passes.
    pub fn update_matter_data(&mut self, matter_definitions: &MatterDefinitions)
        requires
            old(self).wf(),
        ensures
            final(self).wf(),
            final(self).arrays.holds(matter_definitions.definitions@),
            final(self).bitmap == old(self).bitmap,
            final(self).sim_steps == old(self).sim_steps,
            final(self).size == old(self).size,
            final(self).bitmap_ratio == old(self).bitmap_ratio,
            final(self).empty == old(self).empty,
    {
        self.arrays.update_matter_data(matter_definitions);
    }

    /// One movement round.
    fn move_once(&mut self, grid: &mut CanvasGrid, bias: bool, step: u32)
        requires
            old(self).wf(),
            old(grid).wf(),
        ensures
            final(self).wf(),
            final(self).arrays == old(self).arrays,
            final(self).bitmap == old(self).bitmap,
            final(self).sim_steps == old(self).sim_steps,
            final(self).size == old(self).size,
            final(self).bitmap_ratio == old(self).bitmap_ratio,
            final(self).empty == old(self).empty,
            final(grid).wf(),
            final(grid).size == old(grid).size,
            final(grid).empty == old(grid).empty,
            final(grid)@ == after_round(old(self).arrays, old(grid)@, bias, step),
    {
        let side = if step % 2 == 0 {
            bias
        } else {
            !bias
        };
        // Anything that falls
        run_move_pass(
            &self.arrays,
            grid,
            MovePass { kind: Movement::Fall, bias: side, step },
            &mut self.tmp_matter,
        );
        // Risers
        run_move_pass(
            &self.arrays,
            grid,
            MovePass { kind: Movement::Rise, bias: side, step },
            &mut self.tmp_matter,
        );
        // Sliders
        run_move_pass(
            &self.arrays,
            grid,
            MovePass { kind: Movement::SlideDown, bias: side, step },
            &mut self.tmp_matter,
        );
    }

    /// The spreading steps of one block, all towards one side.
    fn disperse(&mut self, grid: &mut CanvasGrid, bias: bool, dispersion_steps: u32)
        requires
            old(self).wf(),
            old(grid).wf(),
        ensures
            final(self).wf(),
            final(self).arrays == old(self).arrays,
            final(self).bitmap == old(self).bitmap,
            final(self).sim_steps == old(self).sim_steps,
            final(self).size == old(self).size,
            final(self).bitmap_ratio == old(self).bitmap_ratio,
            final(self).empty == old(self).empty,
            final(grid).wf(),
            final(grid).size == old(grid).size,
            final(grid).empty == old(grid).empty,
            final(grid)@ == after_dispersion(old(self).arrays, old(grid)@, bias, dispersion_steps),
    {
        let ghost start = grid@;
        let ghost arrays = self.arrays;
        let mut dispersion_step: u32 = 0;
        while dispersion_step < dispersion_steps
            invariant
                dispersion_step <= dispersion_steps,
                self.wf(),
                self.arrays == arrays,
                self.bitmap == old(self).bitmap,
                self.sim_steps == old(self).sim_steps,
                self.size == old(self).size,
                self.bitmap_ratio == old(self).bitmap_ratio,
                self.empty == old(self).empty,
                grid.wf(),
                grid.size == old(grid).size,
                grid.empty == old(grid).empty,
                grid@ == after_dispersion(arrays, start, bias, dispersion_step),
            decreases dispersion_steps - dispersion_step,
        {
            run_move_pass(
                &self.arrays,
                grid,
                MovePass { kind: Movement::Disperse, bias, step: dispersion_step },
                &mut self.tmp_matter,
            );
            dispersion_step += 1;
        }
    }

    /// The passes of one tick over the canvas, in their order; the colours of
    /// the canvas are returned, and the occupancy bitmap is renewed.
    pub fn tick(&mut self, grid: &mut CanvasGrid, settings: AppSettings, seed: u32) -> (image: Vec<
        u32,
    >)
        requires
            old(self).wf(),
            old(grid).wf(),
            old(grid).size == old(self).size,
        ensures
            final(self).wf(),
            final(self).arrays == old(self).arrays,
            final(self).size == old(self).size,
            final(self).bitmap_ratio == old(self).bitmap_ratio,
            final(self).empty == old(self).empty,
            final(self).sim_steps == if old(self).sim_steps == u32::MAX {
                0
            } else {
                old(self).sim_steps + 1
            },
            final(grid).wf(),
            final(grid).size == old(grid).size,
            final(grid).empty == old(grid).empty,
            final(grid)@ == ticked(
                old(self).arrays,
                old(grid)@,
                settings,
                old(self).sim_steps,
                seed,
            ),
            final(self).bitmap@ == occupancy(
                old(self).arrays,
                final(grid)@,
                old(self).bitmap_ratio as int,
            ),
            image@ == colored(old(self).arrays, final(grid)@),
    {
        let ghost start = grid@;
        let ghost arrays = self.arrays;
        // Inits
        self.tmp_matter.clear();
        let bias = self.sim_steps % 2 == 0;
        // Movement
        // ------
        self.move_once(grid, bias, 0);
        self.disperse(grid, bias, settings.dispersion_steps);
        let ghost spread = grid@;
        assert(after_rounds(arrays, spread, bias, 1, 1) == spread);
        assert(after_rounds(arrays, spread, bias, 1, 0) == spread);
        let mut round: u32 = 1;
        while round < settings.movement_steps
            invariant
                1 <= round,
                round <= settings.movement_steps || settings.movement_steps == 0,
                settings.movement_steps == 0 ==> round == 1,
                self.wf(),
                self.arrays == arrays,
                self.sim_steps == old(self).sim_steps,
                self.size == old(self).size,
                self.bitmap_ratio == old(self).bitmap_ratio,
                self.empty == old(self).empty,
                grid.wf(),
                grid.size == self.size,
                grid.empty == old(grid).empty,
                grid@ == after_rounds(arrays, spread, bias, 1, round),
            decreases settings.movement_steps - round,
        {
            self.move_once(grid, bias, round);
            round += 1;
        }
        assert(grid@ == after_rounds(arrays, spread, bias, 1, settings.movement_steps));
        self.disperse(grid, !bias, settings.dispersion_steps);
        // ------
        // React
        run_react_pass(&self.arrays, grid, seed, self.sim_steps);
        // Finish
        self.bitmap = run_bitmap_pass(&self.arrays, grid, self.bitmap_ratio);
        let image = run_color_pass(&self.arrays, grid);
        self.sim_steps = if self.sim_steps == u32::MAX {
            0
        } else {
            self.sim_steps + 1
        };
        image
    }

    /// The canvas that the passes of a tick start from: what the buffers of
    /// the window hold over the canvas round the camera.
    pub open spec fn canvas_of(&self, frame: CanvasFrame, chunks: Seq<GpuChunk>) -> GridView {
        GridView {
            size: self.size,
            empty: self.empty,
            matter: frame.gathered(chunks, Layer::MatterIn),
            objects_matter: frame.gathered(chunks, Layer::ObjectsMatter),
            objects_color: frame.gathered(chunks, Layer::ObjectsColor),
        }
    }

    /// What `layer` holds over the canvas after the tick that starts from the
    /// buffers `chunks`.
    pub open spec fn layer_after_tick(
        &self,
        frame: CanvasFrame,
        chunks: Seq<GpuChunk>,
        settings: AppSettings,
        seed: u32,
        layer: Layer,
    ) -> Seq<u32> {
        let after = ticked(
            self.arrays,
            self.canvas_of(frame, chunks),
            settings,
            self.sim_steps,
            seed,
        );
        match layer {
            Layer::MatterIn => after.matter,
            Layer::MatterOut => after.matter,
            Layer::ObjectsMatter => after.objects_matter,
            Layer::ObjectsColor => after.objects_color,
            Layer::Image => colored(self.arrays, after),
        }
    }

    /// Whether `after` are the buffers `before` one tick later: over the
    /// canvas every buffer holds what the tick made of it, both matter
    /// buffers alike, and beyond the canvas every buffer holds what it held.
    pub open spec fn stepped(
        &self,
        frame: CanvasFrame,
        before: Seq<GpuChunk>,
        after: Seq<GpuChunk>,
        settings: AppSettings,
        seed: u32,
    ) -> bool {
        &&& window_wf(after, self.size)
        &&& forall|k: int, j: int, layer: Layer|
            0 <= k < 4 && 0 <= j < self.size * self.size ==> #[trigger] layer_of(after[k], layer)[j]
                == frame.scattered_value(
                before,
                layer,
                self.layer_after_tick(frame, before, settings, seed, layer),
                k,
                j,
            )
    }

    /// One tick over the canvas round the camera, on the buffers of the
    /// window.
    pub fn step_chunks(
        &mut self,
        settings: AppSettings,
        frame: CanvasFrame,
        chunks: &mut Vec<GpuChunk>,
        seed: u32,
    )
        requires
            old(self).wf(),
            frame.wf(),
            frame.size == old(self).size,
            window_wf(old(chunks)@, frame.size),
        ensures
            final(self).wf(),
            final(self).arrays == old(self).arrays,
            final(self).size == old(self).size,
            final(self).bitmap_ratio == old(self).bitmap_ratio,
            final(self).empty == old(self).empty,
            final(self).sim_steps == if old(self).sim_steps == u32::MAX {
                0
            } else {
                old(self).sim_steps + 1
            },
            old(self).stepped(frame, old(chunks)@, final(chunks)@, settings, seed),
            final(self).bitmap@ == occupancy(
                old(self).arrays,
                ticked(
                    old(self).arrays,
                    old(self).canvas_of(frame, old(chunks)@),
                    settings,
                    old(self).sim_steps,
                    seed,
                ),
                old(self).bitmap_ratio as int,
            ),
    {
        let ghost before = chunks@;
        let mut grid = CanvasGrid {
            size: self.size,
            empty: self.empty,
            matter: frame.gather_layer(chunks, Layer::MatterIn),
            objects_matter: frame.gather_layer(chunks, Layer::ObjectsMatter),
            objects_color: frame.gather_layer(chunks, Layer::ObjectsColor),
        };
        assert(grid@ == self.canvas_of(frame, before));
        let image = self.tick(&mut grid, settings, seed);
        frame.scatter_layer(chunks, Layer::MatterIn, &grid.matter);
        let ghost first = chunks@;
        frame.scatter_layer(chunks, Layer::MatterOut, &grid.matter);
        let ghost second = chunks@;
        frame.scatter_layer(chunks, Layer::ObjectsMatter, &grid.objects_matter);
        let ghost third = chunks@;
        frame.scatter_layer(chunks, Layer::ObjectsColor, &grid.objects_color);
        let ghost fourth = chunks@;
        frame.scatter_layer(chunks, Layer::Image, &image);
        proof {
            assert forall|k: int, j: int, layer: Layer|
                0 <= k < 4 && 0 <= j < self.size * self.size implies #[trigger] layer_of(
                chunks[k],
                layer,
            )[j] == frame.scattered_value(
                before,
                layer,
                old(self).layer_after_tick(frame, before, settings, seed, layer),
                k,
                j,
            ) by {
                match layer {
                    Layer::MatterIn => {
                        assert(layer_of(chunks[k], layer) == layer_of(fourth[k], layer));
                        assert(layer_of(fourth[k], layer) == layer_of(third[k], layer));
                        assert(layer_of(third[k], layer) == layer_of(second[k], layer));
                        assert(layer_of(second[k], layer) == layer_of(first[k], layer));
                    },
                    Layer::MatterOut => {
                        assert(layer_of(chunks[k], layer) == layer_of(fourth[k], layer));
                        assert(layer_of(fourth[k], layer) == layer_of(third[k], layer));
                        assert(layer_of(third[k], layer) == layer_of(second[k], layer));
                        assert(layer_of(first[k], layer) == layer_of(before[k], layer));
                    },
                    Layer::ObjectsMatter => {
                        assert(layer_of(chunks[k], layer) == layer_of(fourth[k], layer));
                        assert(layer_of(fourth[k], layer) == layer_of(third[k], layer));
                        assert(layer_of(second[k], layer) == layer_of(first[k], layer));
                        assert(layer_of(first[k], layer) == layer_of(before[k], layer));
                    },
                    Layer::ObjectsColor => {
                        assert(layer_of(chunks[k], layer) == layer_of(fourth[k], layer));
                        assert(layer_of(third[k], layer) == layer_of(second[k], layer));
                        assert(layer_of(second[k], layer) == layer_of(first[k], layer));
                        assert(layer_of(first[k], layer) == layer_of(before[k], layer));
                    },
                    Layer::Image => {
                        assert(layer_of(fourth[k], layer) == layer_of(third[k], layer));
                        assert(layer_of(third[k], layer) == layer_of(second[k], layer));
                        assert(layer_of(second[k], layer) == layer_of(first[k], layer));
                        assert(layer_of(first[k], layer) == layer_of(before[k], layer));
                    },
                }
            }
        }
    }

    /// One tick of the world: the buffers of the window are taken from the
    /// chunk manager, the passes run over the canvas round the camera, and
    /// the buffers are given back.
    pub fn step(
        &mut self,
        settings: AppSettings,
        sim_pos_offset: IVec2,
        chunk_manager: &mut SimulationChunkManager,
        seed: u32,
    )
        requires
            old(self).wf(),
            old(chunk_manager).wf(),
            old(chunk_manager).is_ready(),
            !old(chunk_manager).is_lent(),
            old(chunk_manager).spec_size() == old(self).size,
            old(chunk_manager).spec_canvas_pos() == sim_pos_offset,
        ensures
            final(self).wf(),
            final(self).arrays == old(self).arrays,
            final(self).size == old(self).size,
            final(self).bitmap_ratio == old(self).bitmap_ratio,
            final(self).empty == old(self).empty,
            final(self).sim_steps == if old(self).sim_steps == u32::MAX {
                0
            } else {
                old(self).sim_steps + 1
            },
            final(chunk_manager).wf(),
            final(chunk_manager).is_ready(),
            !final(chunk_manager).is_lent(),
            final(chunk_manager).spec_size() == old(chunk_manager).spec_size(),
            final(chunk_manager).spec_canvas_pos() == old(chunk_manager).spec_canvas_pos(),
            final(chunk_manager).window() == old(chunk_manager).window(),
            final(chunk_manager).positions() == old(chunk_manager).positions(),
            final(chunk_manager).pool() == old(chunk_manager).pool(),
            forall|pos: IVec2|
                !old(chunk_manager).window().contains(pos) ==>
                    #[trigger] final(chunk_manager).chunk_at(pos)
                    == old(chunk_manager).chunk_at(pos),
            forall|k: int|
                0 <= k < 4 ==> (#[trigger] final(chunk_manager).chunk_at(
                    old(chunk_manager).window()[k],
                )).unwrap().image == old(chunk_manager).chunk_at(
                    old(chunk_manager).window()[k],
                ).unwrap().image,
            old(self).stepped(
                old(chunk_manager).frame(),
                old(chunk_manager).window_buffers(),
                final(chunk_manager).window_buffers(),
                settings,
                seed,
            ),
            final(self).bitmap@ == occupancy(
                old(self).arrays,
                ticked(
                    old(self).arrays,
                    old(self).canvas_of(
                        old(chunk_manager).frame(),
                        old(chunk_manager).window_buffers(),
                    ),
                    settings,
                    old(self).sim_steps,
                    seed,
                ),
                old(self).bitmap_ratio as int,
            ),
    {
        // Get chunks for compute
        let (chunk_start, mut chunks) = chunk_manager.get_chunks_for_compute();
        let frame = CanvasFrame { camera: sim_pos_offset, chunk_start, size: self.size };
        let ghost lent = chunks@;
        assert(lent =~= old(chunk_manager).window_buffers());
        // Run ca simulation
        self.step_chunks(settings, frame, &mut chunks, seed);
        let ghost done = chunks@;
        // Step flips matter grids, thus update mutated matter grids back to chunk manager after
        chunk_manager.update_compute_chunks(chunks);
        assert(done =~= chunk_manager.window_buffers());
    }

    /// Reads the occupancy bitmap of the last tick into the three bitmaps of
    /// the classes of matter, and notes for each class whether its bitmap is
    /// another than it was. A class that was noted as changed before stays
    /// so.
    pub fn update_bitmaps(
        &self,
        solid_bitmap: &mut Vec<bool>,
        powder_bitmap: &mut Vec<bool>,
        liquid_bitmap: &mut Vec<bool>,
        solids_changed: &mut bool,
        powders_changed: &mut bool,
        liquids_changed: &mut bool,
    )
        requires
            old(solid_bitmap).len() == self.bitmap.len(),
            old(powder_bitmap).len() == self.bitmap.len(),
            old(liquid_bitmap).len() == self.bitmap.len(),
        ensures
            final(solid_bitmap)@ == class_bitmap(self.bitmap@, 1),
            final(powder_bitmap)@ == class_bitmap(self.bitmap@, 2),
            final(liquid_bitmap)@ == class_bitmap(self.bitmap@, 4),
            *final(solids_changed) == (*old(solids_changed)
                || final(solid_bitmap)@ != old(solid_bitmap)@),
            *final(powders_changed) == (*old(powders_changed)
                || final(powder_bitmap)@ != old(powder_bitmap)@),
            *final(liquids_changed) == (*old(liquids_changed)
                || final(liquid_bitmap)@ != old(liquid_bitmap)@),
    {
        let len = self.bitmap.len();
        let mut i: usize = 0;
        while i < len
            invariant
                i <= len,
                len == self.bitmap.len(),
                solid_bitmap.len() == len,
                powder_bitmap.len() == len,
                liquid_bitmap.len() == len,
                old(solid_bitmap).len() == len,
                old(powder_bitmap).len() == len,
                old(liquid_bitmap).len() == len,
                forall|k: int|
                    0 <= k < len ==> #[trigger] solid_bitmap[k] == if k < i {
                        class_bitmap(self.bitmap@, 1)[k]
                    } else {
                        old(solid_bitmap)[k]
                    },
                forall|k: int|
                    0 <= k < len ==> #[trigger] powder_bitmap[k] == if k < i {
                        class_bitmap(self.bitmap@, 2)[k]
                    } else {
                        old(powder_bitmap)[k]
                    },
                forall|k: int|
                    0 <= k < len ==> #[trigger] liquid_bitmap[k] == if k < i {
                        class_bitmap(self.bitmap@, 4)[k]
                    } else {
                        old(liquid_bitmap)[k]
                    },
                *solids_changed == (*old(solids_changed) || exists|k: int|
                    0 <= k < i && #[trigger] class_bitmap(self.bitmap@,
                        1)[k] != old(solid_bitmap)[k]),
                *powders_changed == (*old(powders_changed) || exists|k: int|
                    0 <= k < i && #[trigger] class_bitmap(self.bitmap@,
                        2)[k] != old(powder_bitmap)[k]),
                *liquids_changed == (*old(liquids_changed) || exists|k: int|
                    0 <= k < i && #[trigger] class_bitmap(self.bitmap@,
                        4)[k] != old(liquid_bitmap)[k]),
            decreases len - i,
        {
            let gpu_val = self.bitmap[i];
            let old_solid = solid_bitmap[i];
            let old_powder = powder_bitmap[i];
            let old_liquid = liquid_bitmap[i];

            let new_solid = gpu_val & 1 != 0;
            let new_powder = gpu_val & 2 != 0;
            let new_liquid = gpu_val & 4 != 0;

            solid_bitmap[i] = new_solid;
            powder_bitmap[i] = new_powder;
            liquid_bitmap[i] = new_liquid;

            let ghost solids_before = *solids_changed;
            let ghost powders_before = *powders_changed;
            let ghost liquids_before = *liquids_changed;
            if !*solids_changed {
                *solids_changed = old_solid != new_solid;
            }
            if !*powders_changed {
                *powders_changed = old_powder != new_powder;
            }
            if !*liquids_changed {
                *liquids_changed = old_liquid != new_liquid;
            }
            proof {
                let at = i as int;
                assert(class_bitmap(self.bitmap@, 1)[at] == new_solid);
                assert(class_bitmap(self.bitmap@, 2)[at] == new_powder);
                assert(class_bitmap(self.bitmap@, 4)[at] == new_liquid);
                assert(old(solid_bitmap)[at] == old_solid);
                assert(old(powder_bitmap)[at] == old_powder);
                assert(old(liquid_bitmap)[at] == old_liquid);
                lemma_differs_grows(
                    class_bitmap(self.bitmap@, 1),
                    old(solid_bitmap)@,
                    at,
                    *old(solids_changed),
                    solids_before,
                    *solids_changed,
                );
                lemma_differs_grows(
                    class_bitmap(self.bitmap@, 2),
                    old(powder_bitmap)@,
                    at,
                    *old(powders_changed),
                    powders_before,
                    *powders_changed,
                );
                lemma_differs_grows(
                    class_bitmap(self.bitmap@, 4),
                    old(liquid_bitmap)@,
                    at,
                    *old(liquids_changed),
                    liquids_before,
                    *liquids_changed,
                );
            }
            i += 1;
        }
        proof {
            assert(solid_bitmap@ =~= class_bitmap(self.bitmap@, 1));
            assert(powder_bitmap@ =~= class_bitmap(self.bitmap@, 2));
            assert(liquid_bitmap@ =~= class_bitmap(self.bitmap@, 4));
            if solid_bitmap@ != old(solid_bitmap)@ {
                assert(!(solid_bitmap@ =~= old(solid_bitmap)@));
            }
            if powder_bitmap@ != old(powder_bitmap)@ {
                assert(!(powder_bitmap@ =~= old(powder_bitmap)@));
            }
            if liquid_bitmap@ != old(liquid_bitmap)@ {
                assert(!(liquid_bitmap@ =~= old(liquid_bitmap)@));
            }
        }
    }
}

/// A flag that says whether two bitmaps differ among their first cells says
/// so for one cell more, once that cell is looked at.
proof fn lemma_differs_grows(
    now: Seq<bool>,
    was: Seq<bool>,
    at: int,
    start: bool,
    before: bool,
    after: bool,
)
    requires
        0 <= at < now.len(),
        now.len() == was.len(),
        before == (start || exists|k: int| 0 <= k < at && #[trigger] now[k] != was[k]),
        after == (before || now[at] != was[at]),
    ensures
        after == (start || exists|k: int| 0 <= k < at + 1 && #[trigger] now[k] != was[k]),
{
    if after && !start {
        if before {
            let k = choose|k: int| 0 <= k < at && #[trigger] now[k] != was[k];
            assert(0 <= k < at + 1 && now[k] != was[k]);
        } else {
            assert(now[at] != was[at]);
        }
    }
    if exists|k: int| 0 <= k < at + 1 && #[trigger] now[k] != was[k] {
        let k = choose|k: int| 0 <= k < at + 1 && #[trigger] now[k] != was[k];
        if k < at {
            assert(before);
        }
    }
}

/// The bitmap of one class of matter: for every block, whether the bit
/// `mask` of its number in the occupancy bitmap is set.
pub open spec fn class_bitmap(bitmap: Seq<u32>, mask: u32) -> Seq<bool> {
    Seq::new(bitmap.len(), |i: int| bitmap[i] & mask != 0)
}

} // verus!
