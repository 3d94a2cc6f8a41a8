//! The static table of RFC 7541, Appendix A: 61 header fields that every
//! connection shares and nobody changes.

use vstd::prelude::*;
use vstd::slice::slice_to_vec;
use vstd::string::StringSliceAdditionalSpecFns;

verus! {

/// The static table. Row `i` is the entry with the HPACK index `i + 1`.
pub const STATIC_TABLE: [(&'static str, &'static str); 61] = [
    (":authority", ""),
    (":method", "GET"),
    (":method", "POST"),
    (":path", "/"),
    (":path", "/index.html"),
    (":scheme", "http"),
    (":scheme", "https"),
    (":status", "200"),
    (":status", "204"),
    (":status", "206"),
    (":status", "304"),
    (":status", "400"),
    (":status", "404"),
    (":status", "500"),
    ("accept-charset", ""),
    ("accept-encoding", "gzip, deflate"),
    ("accept-language", ""),
    ("accept-ranges", ""),
    ("accept", ""),
    ("access-control-allow-origin", ""),
    ("age", ""),
    ("allow", ""),
    ("authorization", ""),
    ("cache-control", ""),
    ("content-disposition", ""),
    ("content-encoding", ""),
    ("content-language", ""),
    ("content-length", ""),
    ("content-location", ""),
    ("content-range", ""),
    ("content-type", ""),
    ("cookie", ""),
    ("date", ""),
    ("etag", ""),
    ("expect", ""),
    ("expires", ""),
    ("from", ""),
    ("host", ""),
    ("if-match", ""),
    ("if-modified-since", ""),
    ("if-none-match", ""),
    ("if-range", ""),
    ("if-unmodified-since", ""),
    ("last-modified", ""),
    ("link", ""),
    ("location", ""),
    ("max-forwards", ""),
    ("proxy-authenticate", ""),
    ("proxy-authorization", ""),
    ("range", ""),
    ("referer", ""),
    ("refresh", ""),
    ("retry-after", ""),
    ("server", ""),
    ("set-cookie", ""),
    ("strict-transport-security", ""),
    ("transfer-encoding", ""),
    ("user-agent", ""),
    ("vary", ""),
    ("via", ""),
    ("www-authenticate", ""),
];

/// The name of row `i` of the static table, as octets.
pub open spec fn static_name(i: int) -> Seq<u8>
    recommends
        0 <= i < 61,
{
    STATIC_TABLE@[i].0.spec_bytes()
}

/// The value of row `i` of the static table, as octets.
pub open spec fn static_value(i: int) -> Seq<u8>
    recommends
        0 <= i < 61,
{
    STATIC_TABLE@[i].1.spec_bytes()
}

/// An entry of a header table: a name and a value, both octet strings.
#[derive(Debug, PartialEq, Eq)]
pub struct TableEntry(pub Vec<u8>, pub Vec<u8>);

impl TableEntry {
    /// The entry with this name and this value.
    pub fn new(name: Vec<u8>, value: Vec<u8>) -> (r: Self)
        ensures
            r.0 == name,
            r.1 == value,
    {
        TableEntry(name, value)
    }

    /// The name and the value.
    pub open spec fn view(&self) -> (Seq<u8>, Seq<u8>) {
        (self.0@, self.1@)
    }

    /// The size that the entry counts for in a dynamic table: the octets of
    /// its name and of its value, and 32.
    pub open spec fn spec_size(&self) -> nat {
        self.0@.len() + self.1@.len() + 32
    }

    /// A copy of the entry.
    pub fn duplicate(&self) -> (r: Self)
        ensures
            r@ == self@,
    {
        TableEntry(slice_to_vec(self.0.as_slice()), slice_to_vec(self.1.as_slice()))
    }
}

/// The static table, as a value with the interface of a table.
pub struct StaticTable {}

impl StaticTable {
    /// The static table.
    pub fn new() -> (r: Self) {
        StaticTable {  }
    }

    /// The number of rows, 61.
    pub fn len(&self) -> (r: usize)
        ensures
            r == 61,
    {
        61
    }

    /// Row `index` of the table.
    pub fn index(&self, index: usize) -> (r: TableEntry)
        requires
            index < 61,
        ensures
            r@ == (static_name(index as int), static_value(index as int)),
    {
        let row = STATIC_TABLE[index];
        TableEntry(slice_to_vec(row.0.as_bytes()), slice_to_vec(row.1.as_bytes()))
    }
}

} // verus!
