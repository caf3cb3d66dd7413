//! Structural parsing of MPEG-1 Layer III audio streams.

pub mod bits;
pub mod buffer;
pub mod error;
pub mod frame;
pub mod header;
pub mod side_info;
