//! The header tables of HPACK under one index (RFC 7541, section 2.3.3):
//! the indices 1 to 61 address the static table, and the indices from 62 on
//! address the dynamic table of the connection, 62 being its newest entry.

use vstd::prelude::*;
use crate::error::H2Error;
use crate::header::list::HeaderEntry;
use crate::header::list::HeaderField;

pub mod dyn_table;
pub mod static_table;

use crate::header::hpack::table::dyn_table::entries_size;
use crate::header::hpack::table::dyn_table::evicted;
use crate::header::hpack::table::dyn_table::inserted;
use crate::header::hpack::table::dyn_table::lemma_evicted;
use crate::header::hpack::table::dyn_table::lemma_inserted;
use crate::header::hpack::table::dyn_table::DynTable;
use crate::header::hpack::table::dyn_table::Entry;
use crate::header::hpack::table::static_table::static_name;
use crate::header::hpack::table::static_table::static_value;
use crate::header::hpack::table::static_table::StaticTable;
use crate::header::hpack::table::static_table::TableEntry;

verus! {

/// The number of entries of the static table.
pub const STATIC_LEN: usize = 61;

/// The entry that `index` addresses when the dynamic table holds
/// `dynamic`. Index 0 addresses nothing, and neither does an index behind
/// the last dynamic entry.
pub open spec fn spec_entry(dynamic: Seq<Entry>, index: int) -> Option<Entry> {
    if 1 <= index <= 61 {
        Some((static_name(index - 1), static_value(index - 1)))
    } else if 62 <= index < 62 + dynamic.len() {
        Some(dynamic[index - 62])
    } else {
        None
    }
}

/// The static table and the dynamic table of one connection, with the
/// limit that the peer's settings put on the size of the dynamic table.
pub struct Table {
    dyn_table: DynTable,
    static_table: StaticTable,
    size_limit: usize,
}

impl View for Table {
    type V = Seq<Entry>;

    /// The entries of the dynamic table, newest first.
    closed spec fn view(&self) -> Seq<Entry> {
        self.dyn_table@
    }
}

impl Table {
    /// The maximum size of the dynamic table.
    pub closed spec fn spec_max_size(&self) -> nat {
        self.dyn_table.spec_max_size()
    }

    /// The limit that a size update may not pass.
    pub closed spec fn spec_size_limit(&self) -> nat {
        self.size_limit as nat
    }

    /// The table accounts for the sizes of its entries.
    pub closed spec fn accounted(&self) -> bool {
        self.dyn_table.wf()
    }

    /// The sizes of the dynamic entries add up to no more than the maximum
    /// size, and the maximum size is no more than the limit.
    pub open spec fn wf(&self) -> bool {
        &&& self.accounted()
        &&& entries_size(self@) <= self.spec_max_size()
        &&& self.spec_max_size() <= self.spec_size_limit()
    }

    /// A table with an empty dynamic table of the maximum size `max_size`,
    /// which is also the limit for size updates. `num_entries` is the
    /// number of entries to make room for in advance.
    pub fn new(max_size: usize, num_entries: usize) -> (r: Self)
        ensures
            r.wf(),
            r@ == Seq::<Entry>::empty(),
            r.spec_max_size() == max_size,
            r.spec_size_limit() == max_size,
    {
        Table {
            dyn_table: DynTable::new(max_size, num_entries),
            static_table: StaticTable::new(),
            size_limit: max_size,
        }
    }

    /// Inserts an entry whose name is that of the entry that `name_id`
    /// addresses. Fails, and changes nothing, when `name_id` addresses
    /// nothing.
    pub fn add_entry_id(&mut self, name_id: usize, value: Vec<u8>) -> (r: Result<(), H2Error>)
        requires
            old(self).wf(),
        ensures
            final(self).wf(),
            final(self).spec_max_size() == old(self).spec_max_size(),
            final(self).spec_size_limit() == old(self).spec_size_limit(),
            match spec_entry(old(self)@, name_id as int) {
                Some(e) => r.is_ok() && final(self)@ == inserted(
                    old(self)@,
                    (e.0, value@),
                    old(self).spec_max_size(),
                ),
                None => r == Err::<(), H2Error>(H2Error::CompressionError) && final(self)@ == old(
                    self,
                )@,
            },
    {
        let entry = match self.get_entry(name_id) {
            Ok(entry) => entry,
            Err(e) => {
                return Err(e);
            },
        };
        proof {
            lemma_inserted(self@, (entry@.0, value@), self.spec_max_size());
        }
        self.dyn_table.add_entry_literal(entry.0, value);
        Ok(())
    }

    /// Inserts an entry with a name and a value of its own.
    pub fn add_entry_literal(&mut self, name: Vec<u8>, value: Vec<u8>)
        requires
            old(self).wf(),
        ensures
            final(self).wf(),
            final(self).spec_max_size() == old(self).spec_max_size(),
            final(self).spec_size_limit() == old(self).spec_size_limit(),
            final(self)@ == inserted(old(self)@, (name@, value@), old(self).spec_max_size()),
    {
        proof {
            lemma_inserted(self@, (name@, value@), self.spec_max_size());
        }
        self.dyn_table.add_entry_literal(name, value);
    }

    /// The entry that `index` addresses, as a header field. Fails when
    /// `index` is 0 or behind the last dynamic entry.
    pub fn get_header_entry(&self, index: usize) -> (r: Result<HeaderEntry, H2Error>)
        ensures
            match spec_entry(self@, index as int) {
                Some(e) => r.is_ok() && r.unwrap()@ == (HeaderField {
                    name: e.0,
                    value: e.1,
                    never_indexed: false,
                }),
                None => r == Err::<HeaderEntry, H2Error>(H2Error::CompressionError),
            },
    {
        match self.get_entry(index) {
            Ok(entry) => Ok(HeaderEntry::new(entry.0, entry.1)),
            Err(e) => Err(e),
        }
    }

    /// The newest entry of the dynamic table, as a header field.
    pub fn get_dyn_front(&self) -> (r: HeaderEntry)
        requires
            self@.len() > 0,
        ensures
            r@ == (HeaderField { name: self@[0].0, value: self@[0].1, never_indexed: false }),
    {
        let entry = self.dyn_table.get_entry(0).unwrap();
        HeaderEntry::new(entry.0, entry.1)
    }

    /// The name of the entry that `index` addresses. Fails when `index` is
    /// 0 or behind the last dynamic entry.
    pub fn get_name_rc(&self, index: usize) -> (r: Result<Vec<u8>, H2Error>)
        ensures
            match spec_entry(self@, index as int) {
                Some(e) => r.is_ok() && r.unwrap()@ == e.0,
                None => r == Err::<Vec<u8>, H2Error>(H2Error::CompressionError),
            },
    {
        match self.get_entry(index) {
            Ok(entry) => Ok(entry.0),
            Err(e) => Err(e),
        }
    }

    /// Sets the maximum size of the dynamic table and drops the oldest
    /// entries until the rest fits into it. Fails, and changes nothing,
    /// when the new maximum size is above the limit.
    pub fn max_size_update(&mut self, new_max_size: usize) -> (r: Result<(), H2Error>)
        requires
            old(self).wf(),
        ensures
            final(self).wf(),
            final(self).spec_size_limit() == old(self).spec_size_limit(),
            new_max_size <= old(self).spec_size_limit() ==> r.is_ok() && final(self).spec_max_size()
                == new_max_size && final(self)@ == evicted(old(self)@, 0, new_max_size as nat),
            new_max_size > old(self).spec_size_limit() ==> r == Err::<(), H2Error>(
                H2Error::CompressionError,
            ) && final(self)@ == old(self)@ && final(self).spec_max_size() == old(
                self,
            ).spec_max_size(),
    {
        if new_max_size > self.size_limit {
            return Err(H2Error::CompressionError);
        }
        proof {
            lemma_evicted(self@, 0, new_max_size as nat);
        }
        self.dyn_table.max_size_update(new_max_size);
        Ok(())
    }

    /// Sets the limit for size updates, as the peer's settings give it. A
    /// maximum size above the new limit is lowered to it.
    pub fn set_size_limit(&mut self, limit: usize)
        requires
            old(self).wf(),
        ensures
            final(self).wf(),
            final(self).spec_size_limit() == limit,
            final(self).spec_max_size() == (if old(self).spec_max_size() <= limit {
                old(self).spec_max_size()
            } else {
                limit as nat
            }),
            final(self)@ == evicted(old(self)@, 0, final(self).spec_max_size()),
    {
        self.size_limit = limit;
        proof {
            lemma_evicted(self@, 0, limit as nat);
            lemma_evicted(self@, 0, self.spec_max_size());
        }
        if self.dyn_table.max_size() > limit {
            self.dyn_table.max_size_update(limit);
        }
    }

    /// The number of entries of the dynamic table.
    pub fn num_dyn_entries(&self) -> (r: usize)
        ensures
            r == self@.len(),
    {
        self.dyn_table.len()
    }

    /// The maximum size of the dynamic table.
    pub fn max_size(&self) -> (r: usize)
        ensures
            r == self.spec_max_size(),
    {
        self.dyn_table.max_size()
    }

    /// The limit that a size update may not pass.
    pub fn size_limit(&self) -> (r: usize)
        ensures
            r == self.spec_size_limit(),
    {
        self.size_limit
    }

    /// The sum of the sizes of the dynamic entries.
    pub fn size(&self) -> (r: usize)
        requires
            self.wf(),
        ensures
            r == entries_size(self@),
            r <= self.spec_max_size(),
    {
        self.dyn_table.size()
    }

    /// A copy of the entry that `index` addresses, from the static or the
    /// dynamic table.
    pub fn get_entry(&self, index: usize) -> (r: Result<TableEntry, H2Error>)
        ensures
            match spec_entry(self@, index as int) {
                Some(e) => r.is_ok() && r.unwrap()@ == e,
                None => r == Err::<TableEntry, H2Error>(H2Error::CompressionError),
            },
    {
        if index == 0 {
            Err(H2Error::CompressionError)
        } else if index <= STATIC_LEN {
            Ok(self.static_table.index(index - 1))
        } else {
            match self.dyn_table.get_entry(index - 62) {
                Some(entry) => Ok(entry),
                None => Err(H2Error::CompressionError),
            }
        }
    }
}

/// After any operation the sizes of the dynamic entries add up to no more
/// than the maximum size, which is no more than the limit.
pub proof fn lemma_table_size_bounded(table: Table)
    requires
        table.wf(),
    ensures
        entries_size(table@) <= table.spec_max_size() <= table.spec_size_limit(),
{
}

} // verus!
