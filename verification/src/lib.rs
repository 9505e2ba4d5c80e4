//! Decoders for two binary payloads of a MySQL replication log.
//!
//! * [`event::gtid_event`] decodes the body of a GTID event: a flag byte, the
//!   identifier of the source server and the sequence number of the
//!   transaction, rendered as `<uuid>:<sequence>`.
//! * [`column::time_value`] decodes a TIME column value to text of the form
//!   `HH:MM:SS.FFFFFF`, whatever fractional precision the column stores.
//!
//! Both read through [`byte_cursor::ByteCursor`], which checks every read
//! against the end of the buffer, and render through [`text`]. Each decoder
//! is specified by a function from the bytes to the result, and proved to
//! compute it. Taken on trust are the byte-order conversions of the
//! `byteorder` crate (in [`endian`]) and `String::push` (in [`text`]).

pub mod binlog_error;
pub mod byte_cursor;
pub mod column;
pub mod endian;
pub mod event;
pub mod text;
