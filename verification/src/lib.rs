//! A 2x pixel-art upscaling filter of the xBR family.
//!
//! A bitmap of packed RGB pixels is doubled in width and height. Each source
//! pixel yields a 2x2 block of destination pixels; every pixel of the block is
//! either the source pixel itself or an even mix of it with one of its direct
//! neighbours, depending on where the local colour contrast puts an edge.
//!
//! The contrast is measured in single-precision arithmetic, which is carried
//! out here on integers: every rounding is part of the filter's definition, and
//! the filter's result is a mathematical function of its input.

pub mod color;
pub mod single;
pub mod metric;
pub mod blend;
pub mod sampler;
pub mod rules;
pub mod scan;
pub mod facts;
pub mod codec;

pub use crate::color::color_u8_to_u32;
pub use crate::scan::{apply, get_buffer_for_size};
