//! The dynamic table of one connection (RFC 7541, sections 2.3.2 and 4):
//! a queue of entries, newest first, whose sizes never add up to more than
//! the maximum size. Room is made by dropping the oldest entries.

use std::collections::VecDeque;
use vstd::prelude::*;
use vstd::slice::slice_to_vec;
use crate::error::H2Error;
use crate::header::hpack::table::static_table::TableEntry;
use crate::header::list::HeaderEntry;
use crate::header::list::HeaderField;

verus! {

/// An entry as a value of specifications: its name and its value.
pub type Entry = (Seq<u8>, Seq<u8>);

/// The size that an entry counts for: the octets of its name and of its
/// value, and 32.
pub open spec fn entry_size(e: Entry) -> nat {
    e.0.len() + e.1.len() + 32
}

/// The sum of the sizes of the entries.
pub open spec fn entries_size(entries: Seq<Entry>) -> nat
    decreases entries.len(),
{
    if entries.len() == 0 {
        0
    } else {
        entries_size(entries.drop_last()) + entry_size(entries.last())
    }
}

/// What is left of `entries`, newest first, when the oldest are dropped
/// one by one until the rest and `extra` more fit into `max`.
pub open spec fn evicted(entries: Seq<Entry>, extra: nat, max: nat) -> Seq<Entry>
    decreases entries.len(),
{
    if entries.len() == 0 || entries_size(entries) + extra <= max {
        entries
    } else {
        evicted(entries.drop_last(), extra, max)
    }
}

/// The table after `e` is inserted: room is made first, and `e` becomes the
/// newest entry if it fits then. An entry larger than `max` empties the
/// table and is not inserted.
pub open spec fn inserted(entries: Seq<Entry>, e: Entry, max: nat) -> Seq<Entry> {
    let rest = evicted(entries, entry_size(e), max);
    if entries_size(rest) + entry_size(e) <= max {
        seq![e] + rest
    } else {
        rest
    }
}

/// A new first entry adds its size to the sum.
pub proof fn lemma_entries_size_front(e: Entry, rest: Seq<Entry>)
    ensures
        entries_size(seq![e] + rest) == entry_size(e) + entries_size(rest),
    decreases rest.len(),
{
    let all = seq![e] + rest;
    if rest.len() == 0 {
        assert(all.drop_last() =~= Seq::<Entry>::empty());
        assert(all.last() == e);
        assert(entries_size(all.drop_last()) == 0);
    } else {
        assert(all.drop_last() =~= seq![e] + rest.drop_last());
        assert(all.last() == rest.last());
        lemma_entries_size_front(e, rest.drop_last());
    }
}

/// What eviction leaves fits into the maximum size together with what room
/// was made for, or is empty; it holds the newest entries, in their order.
pub proof fn lemma_evicted(entries: Seq<Entry>, extra: nat, max: nat)
    ensures
        evicted(entries, extra, max).len() <= entries.len(),
        evicted(entries, extra, max) =~= entries.take(evicted(entries, extra, max).len() as int),
        evicted(entries, extra, max).len() == 0 || entries_size(evicted(entries, extra, max))
            + extra <= max,
        entries_size(evicted(entries, extra, max)) <= entries_size(entries),
        extra > max ==> evicted(entries, extra, max).len() == 0,
    decreases entries.len(),
{
    if !(entries.len() == 0 || entries_size(entries) + extra <= max) {
        lemma_evicted(entries.drop_last(), extra, max);
    }
}

/// After any insertion the sizes add up to no more than the maximum size,
/// and an entry larger than the maximum size leaves the table empty.
pub proof fn lemma_inserted(entries: Seq<Entry>, e: Entry, max: nat)
    ensures
        entries_size(inserted(entries, e, max)) <= max,
        entry_size(e) > max ==> inserted(entries, e, max).len() == 0,
        entry_size(e) <= max ==> inserted(entries, e, max).len() > 0 && inserted(entries, e, max)[0]
            == e,
{
    lemma_evicted(entries, entry_size(e), max);
    lemma_entries_size_front(e, evicted(entries, entry_size(e), max));
}

/// The dynamic table. Its entries are numbered from 0, the newest first.
pub struct DynTable {
    table: VecDeque<TableEntry>,
    current_size: usize,
    max_size: usize,
}

impl View for DynTable {
    type V = Seq<Entry>;

    closed spec fn view(&self) -> Seq<Entry> {
        self.table@.map_values(|e: TableEntry| e@)
    }
}

impl DynTable {
    /// The maximum size.
    pub closed spec fn spec_max_size(&self) -> nat {
        self.max_size as nat
    }

    /// The size that the table accounts for.
    pub closed spec fn spec_size(&self) -> nat {
        self.current_size as nat
    }

    /// The table accounts for the sizes of its entries, and they add up to
    /// no more than the maximum size.
    pub open spec fn wf(&self) -> bool {
        &&& self.spec_size() == entries_size(self@)
        &&& self.spec_size() <= self.spec_max_size()
    }

    /// An empty table. `num_entries` is the number of entries to make room
    /// for in advance.
    pub fn new(max_size: usize, num_entries: usize) -> (r: Self)
        ensures
            r.wf(),
            r@ == Seq::<Entry>::empty(),
            r.spec_max_size() == max_size,
    {
        let r = DynTable {
            table: VecDeque::with_capacity(num_entries),
            current_size: 0,
            max_size,
        };
        assert(r@ =~= Seq::<Entry>::empty());
        r
    }

    /// The number of entries.
    pub fn len(&self) -> (r: usize)
        ensures
            r == self@.len(),
    {
        self.table.len()
    }

    /// The maximum size.
    pub fn max_size(&self) -> (r: usize)
        ensures
            r == self.spec_max_size(),
    {
        self.max_size
    }

    /// The sum of the sizes of the entries.
    pub fn size(&self) -> (r: usize)
        requires
            self.wf(),
        ensures
            r == entries_size(self@),
            r <= self.spec_max_size(),
    {
        self.current_size
    }

    /// Inserts an entry whose name is that of entry `name_id`. Fails, and
    /// changes nothing, when there is no such entry.
    pub fn add_entry_id(&mut self, name_id: usize, value: Vec<u8>) -> (r: Result<(), H2Error>)
        requires
            old(self).wf(),
        ensures
            final(self).wf(),
            final(self).spec_max_size() == old(self).spec_max_size(),
            name_id < old(self)@.len() ==> r.is_ok() && final(self)@ == inserted(
                old(self)@,
                (old(self)@[name_id as int].0, value@),
                old(self).spec_max_size(),
            ),
            name_id >= old(self)@.len() ==> r == Err::<(), H2Error>(H2Error::CompressionError)
                && final(self)@ == old(self)@,
    {
        if name_id >= self.table.len() {
            return Err(H2Error::CompressionError);
        }
        let name: Vec<u8> = slice_to_vec(self.table[name_id].0.as_slice());
        self.add(TableEntry::new(name, value));
        Ok(())
    }

    /// Inserts an entry with a name and a value of its own.
    pub fn add_entry_literal(&mut self, name: Vec<u8>, value: Vec<u8>)
        requires
            old(self).wf(),
        ensures
            final(self).wf(),
            final(self).spec_max_size() == old(self).spec_max_size(),
            final(self)@ == inserted(old(self)@, (name@, value@), old(self).spec_max_size()),
    {
        self.add(TableEntry::new(name, value));
    }

    /// The entry at `index` as a header field. Fails when there is no such
    /// entry.
    pub fn get_header_entry(&self, index: usize) -> (r: Result<HeaderEntry, H2Error>)
        ensures
            index < self@.len() ==> r.is_ok() && r.unwrap()@ == (HeaderField {
                name: self@[index as int].0,
                value: self@[index as int].1,
                never_indexed: false,
            }),
            index >= self@.len() ==> r == Err::<HeaderEntry, H2Error>(H2Error::CompressionError),
    {
        match self.get_entry(index) {
            Some(entry) => Ok(HeaderEntry::new(entry.0, entry.1)),
            None => Err(H2Error::CompressionError),
        }
    }

    /// Sets the maximum size and drops the oldest entries until the rest
    /// fits into it.
    pub fn max_size_update(&mut self, new_max_size: usize)
        requires
            old(self).wf(),
        ensures
            final(self).wf(),
            final(self).spec_max_size() == new_max_size,
            final(self)@ == evicted(old(self)@, 0, new_max_size as nat),
    {
        proof {
            lemma_evicted(self@, 0, new_max_size as nat);
        }
        self.max_size = new_max_size;
        self.evict(Some(0));
    }

    /// A copy of the entry at `index`, if there is one.
    pub fn get_entry(&self, index: usize) -> (r: Option<TableEntry>)
        ensures
            index < self@.len() ==> r.is_some() && r.unwrap()@ == self@[index as int],
            index >= self@.len() ==> r.is_none(),
    {
        if index < self.table.len() {
            Some(self.table[index].duplicate())
        } else {
            None
        }
    }

    /// Drops the oldest entries until the rest and `size` more fit into the
    /// maximum size. A `size` of nothing stands for one too large to count,
    /// which nothing fits beside.
    fn evict(&mut self, size: Option<usize>)
        requires
            old(self).spec_size() == entries_size(old(self)@),
        ensures
            final(self).spec_max_size() == old(self).spec_max_size(),
            final(self).spec_size() == entries_size(final(self)@),
            match size {
                Some(n) => final(self)@ == evicted(old(self)@, n as nat, old(self).spec_max_size()),
                None => final(self)@ == Seq::<Entry>::empty(),
            },
    {
        match size {
            Some(n) => {
                while self.table.len() > 0 && (n > self.max_size || self.current_size
                    > self.max_size - n)
                    invariant
                        self.max_size == old(self).max_size,
                        self.current_size == entries_size(self@),
                        evicted(self@, n as nat, self.max_size as nat) == evicted(
                            old(self)@,
                            n as nat,
                            self.max_size as nat,
                        ),
                    decreases self.table@.len(),
                {
                    let ghost before = self@;
                    let old_entry = self.table.pop_back();
                    proof {
                        assert(self@ =~= before.drop_last());
                    }
                    match old_entry {
                        Some(e) => {
                            assert(e@ == before.last());
                            self.current_size = self.current_size - Self::size_of_entry(
                                &e,
                            ).unwrap();
                        },
                        None => {},
                    }
                }
            },
            None => {
                self.table.clear();
                self.current_size = 0;
                assert(self@ =~= Seq::<Entry>::empty());
            },
        }
    }

    /// Makes room for `entry` and inserts it if it fits then.
    fn add(&mut self, entry: TableEntry)
        requires
            old(self).wf(),
        ensures
            final(self).wf(),
            final(self).spec_max_size() == old(self).spec_max_size(),
            final(self)@ == inserted(old(self)@, entry@, old(self).spec_max_size()),
    {
        let size = Self::size_of_entry(&entry);
        proof {
            lemma_evicted(self@, entry_size(entry@), self.spec_max_size());
        }
        self.evict(size);
        match size {
            Some(n) => {
                if n <= self.max_size && self.current_size <= self.max_size - n {
                    proof {
                        lemma_entries_size_front(entry@, self@);
                    }
                    let ghost rest = self@;
                    self.current_size = self.current_size + n;
                    self.table.push_front(entry);
                    assert(self@ =~= seq![entry@] + rest);
                }
            },
            None => {},
        }
    }

    /// The size that `entry` counts for, or nothing when it is too large to
    /// count.
    fn size_of_entry(entry: &TableEntry) -> (r: Option<usize>)
        ensures
            match r {
                Some(n) => n == entry_size(entry@),
                None => entry_size(entry@) > usize::MAX,
            },
    {
        let n: usize = entry.0.len();
        let v: usize = entry.1.len();
        if v > usize::MAX - 32 || n > usize::MAX - 32 - v {
            None
        } else {
            Some(n + v + 32)
        }
    }
}

} // verus!
