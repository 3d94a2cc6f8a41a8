//! HPACK, the header compression format of RFC 7541. Every connection keeps
//! one decoder, because the dynamic table is state of the connection.

use vstd::prelude::*;

pub mod decoder;
pub mod huffman;
pub mod huffman_table;
pub mod integers;
pub mod table;

verus! {

/// The size of the dynamic table before any setting changes it
/// (`SETTINGS_HEADER_TABLE_SIZE`).
pub const DEFAULT_SIZE: usize = 4096;

} // verus!
