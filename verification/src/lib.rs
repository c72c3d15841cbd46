//! A chunk-streamed cellular-automaton world in which loose matter and rigid
//! pixel objects share one grid.
//!
//! The crate holds the rules of that world: the matter table, the paging of
//! chunks between cold images and resident buffers, the ordered passes of one
//! simulation tick, the bridge that writes objects into the grid and reads
//! their damage back, and the preparation of boundary outlines. Windowing,
//! drawing and rigid-body integration are left to the program around it.
pub mod bitmap_image;
pub mod color;
pub mod geometry;
pub mod matter;
pub mod object;
pub mod settings;
pub mod simulation;
