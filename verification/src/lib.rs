pub mod buffer_utils;
pub mod color;
pub mod color_buffer;
pub mod z_buffer;
pub mod render;
pub mod mesh;
pub mod triangle;
pub mod vector;
pub mod obj;
pub mod controls;
pub mod clipping;
