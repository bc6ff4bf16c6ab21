//! A small persistence format for a hierarchical inventory/material model.
//!
//! Records are encoded big-endian with length-prefixed sequences and
//! signed 64-bit byte-offset "pointers" (sentinel `NIL` = -1 for "absent").
//! Every record type implements the [`util::Serializable`] codec contract:
//! an exact size, a byte-for-byte specified encoding, and a decoder whose
//! result (value, consumed length, or error) is pinned by a specification
//! level parser.

pub mod errors;
pub mod heap;
pub mod material;
pub mod meta;
pub mod storage;
pub mod util;
pub mod wire;
