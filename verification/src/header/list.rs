//! The header list: the decoded header fields of one header block, in the
//! order in which the block gave them. Names may repeat.

use vstd::prelude::*;
use vstd::slice::slice_to_vec;
use vstd::std_specs::convert::FromSpecImpl;
use vstd::string::StringSliceAdditionalSpecFns;
use crate::header::hpack::table::static_table::TableEntry;

verus! {

/// A header field as a value of specifications.
pub struct HeaderField {
    pub name: Seq<u8>,
    pub value: Seq<u8>,
    /// The field came in the never-indexed form and must be forwarded in it.
    pub never_indexed: bool,
}

/// A decoded header field. Name and value are octet strings: nothing
/// converts them to characters.
#[derive(Debug, PartialEq, Eq)]
pub struct HeaderEntry {
    pub name: Vec<u8>,
    pub value: Vec<u8>,
    /// The field came in the never-indexed form and must be forwarded in it.
    pub never_indexed: bool,
}

impl View for HeaderEntry {
    type V = HeaderField;

    open spec fn view(&self) -> HeaderField {
        HeaderField { name: self.name@, value: self.value@, never_indexed: self.never_indexed }
    }
}

/// Tells whether two octet strings are the same.
pub fn octets_eq(a: &[u8], b: &[u8]) -> (r: bool)
    ensures
        r == (a@ == b@),
{
    if a.len() != b.len() {
        return false;
    }
    let mut i: usize = 0;
    while i < a.len()
        invariant
            i <= a@.len(),
            a@.len() == b@.len(),
            forall|k: int| 0 <= k < i ==> a@[k] == b@[k],
        decreases a@.len() - i,
    {
        if a[i] != b[i] {
            return false;
        }
        i = i + 1;
    }
    assert(a@ =~= b@);
    true
}

impl HeaderEntry {
    /// A header field that may be indexed.
    pub fn new(name: Vec<u8>, value: Vec<u8>) -> (r: Self)
        ensures
            r@ == (HeaderField { name: name@, value: value@, never_indexed: false }),
    {
        HeaderEntry { name, value, never_indexed: false }
    }

    /// A header field that must never be indexed.
    pub fn new_never_indexed(name: Vec<u8>, value: Vec<u8>) -> (r: Self)
        ensures
            r@ == (HeaderField { name: name@, value: value@, never_indexed: true }),
    {
        HeaderEntry { name, value, never_indexed: true }
    }

    /// The name, as octets.
    pub fn name(&self) -> (r: &[u8])
        ensures
            r@ == self@.name,
    {
        self.name.as_slice()
    }

    /// The value, as octets.
    pub fn value(&self) -> (r: &[u8])
        ensures
            r@ == self@.value,
    {
        self.value.as_slice()
    }

    /// A copy of the field.
    pub fn duplicate(&self) -> (r: Self)
        ensures
            r@ == self@,
    {
        HeaderEntry {
            name: slice_to_vec(self.name.as_slice()),
            value: slice_to_vec(self.value.as_slice()),
            never_indexed: self.never_indexed,
        }
    }
}

impl From<TableEntry> for HeaderEntry {
    /// The header field that a table entry stands for.
    fn from(entry: TableEntry) -> (r: Self)
        ensures
            r@ == (HeaderField { name: entry@.0, value: entry@.1, never_indexed: false }),
    {
        HeaderEntry { name: entry.0, value: entry.1, never_indexed: false }
    }
}

impl FromSpecImpl<TableEntry> for HeaderEntry {
    open spec fn obeys_from_spec() -> bool {
        true
    }

    open spec fn from_spec(entry: TableEntry) -> Self {
        HeaderEntry { name: entry.0, value: entry.1, never_indexed: false }
    }
}

impl<'a> From<(&'a str, &'a str)> for HeaderEntry {
    /// The header field with the octets of a name and of a value that are
    /// given as text.
    fn from(pair: (&'a str, &'a str)) -> (r: Self)
        ensures
            r@ == (HeaderField {
                name: pair.0.spec_bytes(),
                value: pair.1.spec_bytes(),
                never_indexed: false,
            }),
    {
        HeaderEntry {
            name: slice_to_vec(pair.0.as_bytes()),
            value: slice_to_vec(pair.1.as_bytes()),
            never_indexed: false,
        }
    }
}

impl<'a> FromSpecImpl<(&'a str, &'a str)> for HeaderEntry {
    open spec fn obeys_from_spec() -> bool {
        false
    }

    open spec fn from_spec(pair: (&'a str, &'a str)) -> Self {
        arbitrary()
    }
}

/// The index of the first field of `list` from `from` on that is named
/// `name`, or the length of the list if there is none.
pub open spec fn first_named(list: Seq<HeaderField>, name: Seq<u8>, from: int) -> int
    decreases list.len() - from,
{
    if from < 0 || from >= list.len() {
        list.len() as int
    } else if list[from].name == name {
        from
    } else {
        first_named(list, name, from + 1)
    }
}

/// `first_named` gives the smallest index of a field with the name.
pub proof fn lemma_first_named(list: Seq<HeaderField>, name: Seq<u8>, from: int)
    requires
        0 <= from <= list.len(),
    ensures
        from <= first_named(list, name, from) <= list.len(),
        first_named(list, name, from) < list.len() ==> list[first_named(list, name, from)].name
            == name,
        forall|k: int| from <= k < first_named(list, name, from) ==> list[k].name != name,
    decreases list.len() - from,
{
    if from < list.len() && list[from].name != name {
        lemma_first_named(list, name, from + 1);
    }
}

/// An ordered list of header fields, to which fields are only ever added.
#[derive(Debug, PartialEq, Eq)]
pub struct HeaderList {
    entries: Vec<HeaderEntry>,
}

impl View for HeaderList {
    type V = Seq<HeaderField>;

    closed spec fn view(&self) -> Seq<HeaderField> {
        Seq::new(self.entries@.len(), |i: int| self.entries@[i]@)
    }
}

impl HeaderList {
    /// An empty list.
    pub fn new() -> (r: Self)
        ensures
            r@ == Seq::<HeaderField>::empty(),
    {
        let r = HeaderList { entries: Vec::new() };
        assert(r@ =~= Seq::<HeaderField>::empty());
        r
    }

    /// An empty list with room for `capacity` fields.
    pub fn with_capacity(capacity: usize) -> (r: Self)
        ensures
            r@ == Seq::<HeaderField>::empty(),
    {
        let r = HeaderList { entries: Vec::with_capacity(capacity) };
        assert(r@ =~= Seq::<HeaderField>::empty());
        r
    }

    /// Adds a field at the end.
    pub fn add_entry(&mut self, entry: HeaderEntry)
        ensures
            final(self)@ == old(self)@.push(entry@),
    {
        self.entries.push(entry);
        assert(self@ =~= old(self)@.push(entry@));
    }

    /// The number of fields.
    pub fn len(&self) -> (r: usize)
        ensures
            r == self@.len(),
    {
        self.entries.len()
    }

    /// The field at `index`, counted from 0 in the order of arrival.
    pub fn get(&self, index: usize) -> (r: Option<&HeaderEntry>)
        ensures
            index < self@.len() ==> r.is_some() && r.unwrap()@ == self@[index as int],
            index >= self@.len() ==> r.is_none(),
    {
        if index < self.entries.len() {
            Some(&self.entries[index])
        } else {
            None
        }
    }

    /// The fields in the order of arrival.
    pub fn iter(&self) -> (r: &[HeaderEntry])
        ensures
            r@.len() == self@.len(),
            forall|i: int| 0 <= i < r@.len() ==> r@[i]@ == self@[i],
    {
        self.entries.as_slice()
    }

    /// The value of the first field named `name`, if there is one.
    pub fn find_first(&self, name: &[u8]) -> (r: Option<&[u8]>)
        ensures
            first_named(self@, name@, 0) < self@.len() ==> r.is_some() && r.unwrap()@
                == self@[first_named(self@, name@, 0)].value,
            first_named(self@, name@, 0) >= self@.len() ==> r.is_none(),
    {
        let mut i: usize = 0;
        while i < self.entries.len()
            invariant
                i <= self.entries@.len(),
                self@.len() == self.entries@.len(),
                first_named(self@, name@, 0) == first_named(self@, name@, i as int),
            decreases self.entries@.len() - i,
        {
            if octets_eq(self.entries[i].name.as_slice(), name) {
                return Some(self.entries[i].value.as_slice());
            }
            i = i + 1;
        }
        None
    }

    /// The value of the first field whose name is the octets of `name`, if
    /// there is one.
    pub fn get_value_by_name(&self, name: &str) -> (r: Option<&[u8]>)
        ensures
            first_named(self@, name.spec_bytes(), 0) < self@.len() ==> r.is_some() && r.unwrap()@
                == self@[first_named(self@, name.spec_bytes(), 0)].value,
            first_named(self@, name.spec_bytes(), 0) >= self@.len() ==> r.is_none(),
    {
        self.find_first(name.as_bytes())
    }
}

} // verus!
