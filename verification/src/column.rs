//! Decoders for column values.

pub mod time_value;
