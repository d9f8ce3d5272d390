//! Frames as text.

pub mod calendar;
pub mod frame;
pub mod render;
pub mod rows;
pub mod value;

pub use frame::{FrameFormat, FrameFormatter};
pub use value::{FieldValue, FrameDecoder};
