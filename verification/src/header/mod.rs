//! Header lists and the HPACK codec that produces them.

pub mod hpack;
pub mod list;

pub use crate::header::hpack::decoder::Decoder;
pub use crate::header::list::HeaderEntry;
pub use crate::header::list::HeaderList;
