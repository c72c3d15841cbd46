//! The settings of the simulation.
use vstd::prelude::*;

verus! {

/// The number of spreading steps of a tick, to begin with.
pub const INIT_DISPERSION_STEPS: u32 = 10;

/// The number of movement rounds of a tick, to begin with.
pub const INIT_MOVEMENT_STEPS: u32 = 3;

/// How the simulation runs: the spreading steps and the movement rounds of
/// a tick, the ticks in a second, and whether the world is followed by the
/// camera.
#[derive(Debug, Clone, Copy, PartialEq, Eq, Structural)]
pub struct AppSettings {
    pub dispersion_steps: u32,
    pub movement_steps: u32,
    pub sim_fps: u32,
    pub print_performance: bool,
    pub chunked_simulation: bool,
}

impl AppSettings {
    /// The settings to begin with.
    pub fn new() -> (settings: AppSettings)
        ensures
            settings == (AppSettings {
                dispersion_steps: INIT_DISPERSION_STEPS,
                movement_steps: INIT_MOVEMENT_STEPS,
                sim_fps: 60,
                print_performance: false,
                chunked_simulation: false,
            }),
    {
        AppSettings {
            dispersion_steps: INIT_DISPERSION_STEPS,
            movement_steps: INIT_MOVEMENT_STEPS,
            sim_fps: 60,
            print_performance: false,
            chunked_simulation: false,
        }
    }

    /// The settings that a device can bear: fewer steps without a discrete
    /// graphics card or with less than two thousand megabytes of memory, and
    /// fewer steps and ticks for the large canvas.
    pub open spec fn reduced_for(
        self,
        discrete_gpu: bool,
        max_mem_mb: u32,
        canvas_size: u32,
    ) -> AppSettings {
        let device = if !discrete_gpu {
            AppSettings { dispersion_steps: 4, movement_steps: 1, sim_fps: 30, ..self }
        } else if max_mem_mb < 2000 {
            AppSettings { dispersion_steps: 4, movement_steps: 2, ..self }
        } else {
            self
        };
        if canvas_size == 1024 {
            AppSettings { dispersion_steps: 4, movement_steps: 1, sim_fps: 30, ..device }
        } else {
            device
        }
    }

    /// Lowers the settings for a device that is weak for a canvas of
    /// `canvas_size` by `canvas_size` cells, as `reduced_for` tells it.
    pub fn update_based_on_device_info_and_env(
        &mut self,
        discrete_gpu: bool,
        max_mem_mb: u32,
        canvas_size: u32,
    )
        ensures
            *final(self) == old(self).reduced_for(discrete_gpu, max_mem_mb, canvas_size),
    {
        if !discrete_gpu {
            self.dispersion_steps = 4;
            self.movement_steps = 1;
            self.sim_fps = 30;
        } else if max_mem_mb < 2000 {
            self.dispersion_steps = 4;
            self.movement_steps = 2;
        }
        if canvas_size == 1024 {
            self.dispersion_steps = 4;
            self.movement_steps = 1;
            self.sim_fps = 30;
        }
    }
}

} // verus!
