//! Decoders for event bodies.

pub mod gtid_event;
