//! The protobuf wire format: varints, little-endian fixed-width values, keys and
//! whole field records, with their byte-level specifications.

pub mod fields;
pub mod fixed;
pub mod varint;
