//! Pixel objects: their bitmaps, and what becomes of them when cells die.
pub mod deformation_utils;
pub mod matter_pixel;
pub mod pixels;
pub mod contour_formation;
