//! Decoding engine for the HTTP/2 wire protocol: the binary framing layer
//! (RFC 7540) and the HPACK header compression format (RFC 7541).
//!
//! Octets of a connection go through the modules in this order:
//!
//! - `frame` reads the header of nine octets that every frame starts with,
//!   and `frame::frame_types` maps out the payload of each frame type;
//! - `frame::block` puts the fragments of a header block together;
//! - `header::hpack::decoder` decodes the block into a header list, with
//!   the integer codec, the Huffman codec and the header tables beside it;
//! - `header::list` holds the header list.
//!
//! `bytes`, `borrow_iter` and `bititor` are the cursors that the decoders
//! read with.
//!
//! Every function carries a contract over a mathematical model of the octets
//! it reads or writes; the contracts are proved, so no function panics and no
//! arithmetic overflows.

pub mod bititor;
pub mod borrow_iter;
pub mod buf;
pub mod bytes;
pub mod error;
pub mod frame;
pub mod header;
pub mod krserr;
pub mod request;
