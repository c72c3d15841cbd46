//! The simulated world: its chunks, its passes, and the objects in it.
pub mod boundaries;
pub mod ca_passes;
pub mod ca_react;
pub mod ca_simulator;
pub mod canvas_window;
pub mod chunk_image;
pub mod chunk_window;
pub mod map_files;
pub mod object_grid;
pub mod painting;
pub mod pixel_objects;
pub mod shear;
pub mod simulation;
pub mod simulation_chunk_manager;
pub mod simulation_utils;
