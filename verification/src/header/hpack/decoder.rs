//! The HPACK decoder (RFC 7541, sections 3 and 6): it reads a complete
//! header block, gives out the header list, and changes the dynamic table
//! of the connection as the block tells it to.
//!
//! A representation is told by the first bits of its first octet:
//!
//! | first octet | prefix | representation                          |
//! |-------------|--------|-----------------------------------------|
//! | `1xxxxxxx`  | 7      | indexed header field                    |
//! | `01xxxxxx`  | 6      | literal with incremental indexing       |
//! | `001xxxxx`  | 5      | dynamic table size update               |
//! | `0001xxxx`  | 4      | literal never indexed                   |
//! | `0000xxxx`  | 4      | literal without indexing                |

use vstd::prelude::*;
use vstd::slice::slice_to_vec;
use crate::bytes::Bytes;
use crate::error::H2Error;
use crate::header::hpack::huffman::spec_decode;
use crate::header::hpack::huffman::Huffman;
use crate::header::hpack::integers::decode_integer;
use crate::header::hpack::integers::decode_tail;
use crate::header::hpack::integers::prefix_limit;
use crate::header::hpack::integers::prefix_value;
use crate::header::hpack::integers::MAX_CONTINUATION;
use crate::header::hpack::integers::lemma_decode_used;
use crate::header::hpack::integers::spec_decode_integer;
use crate::header::hpack::table::dyn_table::entries_size;
use crate::header::hpack::table::dyn_table::evicted;
use crate::header::hpack::table::dyn_table::inserted;
use crate::header::hpack::table::dyn_table::Entry;
use crate::header::hpack::table::spec_entry;
use crate::header::hpack::table::Table;
use crate::header::list::HeaderEntry;
use crate::header::list::HeaderField;
use crate::header::list::HeaderList;

verus! {

/// The number of dynamic table size updates that a header block may hold.
pub const MAX_SIZE_UPDATES: u8 = 2;

/// The string literal at the start of `s` and the number of octets that it
/// takes: a length with a prefix of 7 bits, then as many octets, which are
/// Huffman-encoded when the first bit of the first octet is set.
pub open spec fn spec_literal(s: Seq<u8>) -> Option<(Seq<u8>, int)> {
    match spec_decode_integer(s, 7) {
        Some((len, used)) => {
            if used + len > s.len() {
                None
            } else if s[0] >= 128 {
                match spec_decode(s.subrange(used, used + len)) {
                    Some(octets) => Some((octets, used + len)),
                    None => None,
                }
            } else {
                Some((s.subrange(used, used + len), used + len))
            }
        },
        None => None,
    }
}

/// The name and the value of the literal representation at the start of
/// `s`, whose index has a prefix of `prefix` bits, and the number of
/// octets that it takes. The index 0 says that the name is a literal too;
/// another index addresses the entry to take the name from.
pub open spec fn spec_literal_field(s: Seq<u8>, prefix: u8, entries: Seq<Entry>) -> Option<
    (Seq<u8>, Seq<u8>, int),
> {
    match spec_decode_integer(s, prefix) {
        Some((index, used)) => {
            if index == 0 {
                match spec_literal(s.skip(used)) {
                    Some((name, n1)) => match spec_literal(s.skip(used + n1)) {
                        Some((value, n2)) => Some((name, value, used + n1 + n2)),
                        None => None,
                    },
                    None => None,
                }
            } else {
                match spec_entry(entries, index) {
                    Some(e) => match spec_literal(s.skip(used)) {
                        Some((value, n1)) => Some((e.0, value, used + n1)),
                        None => None,
                    },
                    None => None,
                }
            }
        },
        None => None,
    }
}

/// What one representation does.
pub struct Step {
    /// The number of octets that the representation takes.
    pub consumed: int,
    /// The header field that it adds to the header list, if it adds one.
    pub field: Option<HeaderField>,
    /// The dynamic table behind it, newest entry first.
    pub entries: Seq<Entry>,
    /// The maximum size of the dynamic table behind it.
    pub max_size: nat,
}

/// What the representation at the start of `s` does, if it is well formed.
/// `entries` and `max_size` are the dynamic table before it and `limit` the
/// limit for size updates. `fields_seen` says that the block has given a
/// header field already, and `updates` how many size updates it has held.
///
/// A size update is accepted only before the first header field, only
/// twice in a block, and only up to the limit.
pub open spec fn spec_step(
    s: Seq<u8>,
    entries: Seq<Entry>,
    max_size: nat,
    limit: nat,
    fields_seen: bool,
    updates: nat,
) -> Option<Step>
    recommends
        s.len() > 0,
{
    if s[0] >= 128 {
        match spec_decode_integer(s, 7) {
            Some((index, used)) => match spec_entry(entries, index) {
                Some(e) => Some(
                    Step {
                        consumed: used,
                        field: Some(HeaderField { name: e.0, value: e.1, never_indexed: false }),
                        entries,
                        max_size,
                    },
                ),
                None => None,
            },
            None => None,
        }
    } else if s[0] >= 64 {
        match spec_literal_field(s, 6, entries) {
            Some((name, value, used)) => Some(
                Step {
                    consumed: used,
                    field: Some(HeaderField { name, value, never_indexed: false }),
                    entries: inserted(entries, (name, value), max_size),
                    max_size,
                },
            ),
            None => None,
        }
    } else if s[0] >= 32 {
        match spec_decode_integer(s, 5) {
            Some((new_max, used)) => {
                if fields_seen || updates >= MAX_SIZE_UPDATES || new_max > limit {
                    None
                } else {
                    Some(
                        Step {
                            consumed: used,
                            field: None,
                            entries: evicted(entries, 0, new_max as nat),
                            max_size: new_max as nat,
                        },
                    )
                }
            },
            None => None,
        }
    } else {
        match spec_literal_field(s, 4, entries) {
            Some((name, value, used)) => Some(
                Step {
                    consumed: used,
                    field: Some(HeaderField { name, value, never_indexed: s[0] >= 16 }),
                    entries,
                    max_size,
                },
            ),
            None => None,
        }
    }
}

/// How far decoding has come in a header block.
pub struct DecodeState {
    /// The dynamic table, newest entry first.
    pub entries: Seq<Entry>,
    /// The maximum size of the dynamic table.
    pub max_size: nat,
    /// The block has given a header field already.
    pub fields_seen: bool,
    /// The number of size updates that the block has held.
    pub updates: nat,
    /// The header fields given so far, in the order of their
    /// representations.
    pub fields: Seq<HeaderField>,
}

/// The state at the start of a header block, on the dynamic table
/// `entries`.
pub open spec fn start_state(entries: Seq<Entry>, max_size: nat) -> DecodeState {
    DecodeState { entries, max_size, fields_seen: false, updates: 0, fields: Seq::empty() }
}

/// The state behind a representation that does `step`.
pub open spec fn state_after(state: DecodeState, step: Step) -> DecodeState {
    DecodeState {
        entries: step.entries,
        max_size: step.max_size,
        fields_seen: state.fields_seen || step.field.is_some(),
        updates: if step.field.is_some() {
            state.updates
        } else {
            state.updates + 1
        },
        fields: match step.field {
            Some(field) => state.fields.push(field),
            None => state.fields,
        },
    }
}

/// What the representation at the start of `s` does in the state `state`.
pub open spec fn spec_step_in(s: Seq<u8>, state: DecodeState, limit: nat) -> Option<Step>
    recommends
        s.len() > 0,
{
    spec_step(s, state.entries, state.max_size, limit, state.fields_seen, state.updates)
}

/// What decoding a header block comes to.
pub struct BlockResult {
    /// Every representation was well formed.
    pub ok: bool,
    /// The state at the end of the block or, after a failure, as the last
    /// well-formed representation left it.
    pub state: DecodeState,
}

/// What decoding the rest `s` of a header block comes to from the state
/// `state`: the representations are taken one after the other until the
/// octets end or a representation is malformed.
pub open spec fn spec_decode_block(s: Seq<u8>, state: DecodeState, limit: nat) -> BlockResult
    decreases s.len(),
{
    if s.len() == 0 {
        BlockResult { ok: true, state }
    } else {
        match spec_step_in(s, state, limit) {
            Some(step) => {
                if step.consumed <= 0 || step.consumed > s.len() {
                    BlockResult { ok: false, state }
                } else {
                    spec_decode_block(s.skip(step.consumed), state_after(state, step), limit)
                }
            },
            None => BlockResult { ok: false, state },
        }
    }
}

/// What decoding the header block `block` comes to on the dynamic table
/// `entries`.
pub open spec fn spec_header_list(block: Seq<u8>, entries: Seq<Entry>, max_size: nat, limit: nat)
    -> BlockResult {
    spec_decode_block(block, start_state(entries, max_size), limit)
}

/// The header list keeps the order of the representations: decoding only
/// ever adds fields at the end of what was given before, and the field of
/// the first representation of the rest comes first behind that.
pub proof fn lemma_order_preserved(s: Seq<u8>, state: DecodeState, limit: nat)
    ensures
        ({
            let fields = spec_decode_block(s, state, limit).state.fields;
            &&& state.fields.len() <= fields.len()
            &&& fields.take(state.fields.len() as int) == state.fields
            &&& s.len() > 0 ==> match spec_step_in(s, state, limit) {
                Some(step) => match step.field {
                    Some(field) => 1 <= step.consumed <= s.len() ==> state.fields.len()
                        < fields.len() && fields[state.fields.len() as int] == field,
                    None => true,
                },
                None => true,
            }
        }),
    decreases s.len(),
{
    let fields = spec_decode_block(s, state, limit).state.fields;
    let before = state.fields.len() as int;
    if s.len() == 0 {
        assert(fields.take(before) =~= state.fields);
    } else {
        match spec_step_in(s, state, limit) {
            Some(step) => {
                if step.consumed <= 0 || step.consumed > s.len() {
                    assert(fields.take(before) =~= state.fields);
                } else {
                    let next = state_after(state, step);
                    lemma_order_preserved(s.skip(step.consumed), next, limit);
                    assert(fields.take(before) =~= fields.take(next.fields.len() as int).take(
                        before,
                    ));
                    assert(next.fields.take(before) =~= state.fields);
                    if step.field.is_some() {
                        assert(fields.take(before + 1)[before] == step.field.unwrap());
                    }
                }
            },
            None => {
                assert(fields.take(before) =~= state.fields);
            },
        }
    }
}

/// An indexed header field with the index 0 is malformed wherever it
/// stands, and so is a size update above the limit. A malformed
/// representation fails the block and leaves the state as it was before
/// it.
pub proof fn lemma_rejected_representations(s: Seq<u8>, state: DecodeState, limit: nat)
    requires
        s.len() > 0,
    ensures
        s[0] == 128 ==> spec_step_in(s, state, limit).is_none(),
        32 <= s[0] < 64 && spec_decode_integer(s, 5).is_some() && spec_decode_integer(
            s,
            5,
        ).unwrap().0 > limit ==> spec_step_in(s, state, limit).is_none(),
        spec_step_in(s, state, limit).is_none() ==> spec_decode_block(s, state, limit) == (
        BlockResult { ok: false, state }),
{
}

/// Reading continuation octets does not look at what follows them.
pub proof fn lemma_decode_tail_extends(s: Seq<u8>, rest: Seq<u8>, i: int, acc: int, weight: int)
    requires
        decode_tail(s, i, acc, weight).is_some(),
    ensures
        decode_tail(s + rest, i, acc, weight) == decode_tail(s, i, acc, weight),
    decreases s.len() - i,
{
    if !(i < 1 || i >= s.len() || i > MAX_CONTINUATION) {
        assert((s + rest)[i] == s[i]);
        if s[i] >= 128 {
            lemma_decode_tail_extends(
                s,
                rest,
                i + 1,
                acc + (s[i] as int - 128) * weight,
                weight * 128,
            );
        }
    }
}

/// Decoding an integer does not look at what follows it.
pub proof fn lemma_integer_extends(s: Seq<u8>, rest: Seq<u8>, n: u8)
    requires
        spec_decode_integer(s, n).is_some(),
    ensures
        spec_decode_integer(s + rest, n) == spec_decode_integer(s, n),
{
    assert((s + rest)[0] == s[0]);
    if prefix_value(s[0], n) >= prefix_limit(n) {
        lemma_decode_tail_extends(s, rest, 1, prefix_limit(n), 1);
    }
}

/// Reading a string literal does not look at what follows it.
pub proof fn lemma_literal_extends(s: Seq<u8>, rest: Seq<u8>)
    requires
        spec_literal(s).is_some(),
    ensures
        spec_literal(s + rest) == spec_literal(s),
        1 <= spec_literal(s).unwrap().1 <= s.len(),
{
    lemma_integer_extends(s, rest, 7);
    lemma_decode_used(s, 7);
    let (len, used) = spec_decode_integer(s, 7).unwrap();
    assert((s + rest)[0] == s[0]);
    assert((s + rest).subrange(used, used + len) =~= s.subrange(used, used + len));
}

/// Reading a literal representation does not look at what follows it.
pub proof fn lemma_literal_field_extends(s: Seq<u8>, rest: Seq<u8>, prefix: u8, entries: Seq<Entry>)
    requires
        spec_literal_field(s, prefix, entries).is_some(),
    ensures
        spec_literal_field(s + rest, prefix, entries) == spec_literal_field(s, prefix, entries),
        1 <= spec_literal_field(s, prefix, entries).unwrap().2 <= s.len(),
{
    lemma_integer_extends(s, rest, prefix);
    lemma_decode_used(s, prefix);
    let (index, used) = spec_decode_integer(s, prefix).unwrap();
    assert((s + rest).skip(used) =~= s.skip(used) + rest);
    lemma_literal_extends(s.skip(used), rest);
    if index == 0 {
        let n1 = spec_literal(s.skip(used)).unwrap().1;
        assert((s + rest).skip(used + n1) =~= s.skip(used + n1) + rest);
        lemma_literal_extends(s.skip(used + n1), rest);
    }
}

/// A representation takes at least one octet and no more than there are,
/// and does not look at what follows it: it does the same whatever comes
/// behind.
pub proof fn lemma_step_extends(s: Seq<u8>, rest: Seq<u8>, state: DecodeState, limit: nat)
    requires
        s.len() > 0,
        spec_step_in(s, state, limit).is_some(),
    ensures
        spec_step_in(s + rest, state, limit) == spec_step_in(s, state, limit),
        1 <= spec_step_in(s, state, limit).unwrap().consumed <= s.len(),
{
    assert((s + rest)[0] == s[0]);
    if s[0] >= 128 {
        lemma_integer_extends(s, rest, 7);
        lemma_decode_used(s, 7);
    } else if s[0] >= 64 {
        lemma_literal_field_extends(s, rest, 6, state.entries);
    } else if s[0] >= 32 {
        lemma_integer_extends(s, rest, 5);
        lemma_decode_used(s, 5);
    } else {
        lemma_literal_field_extends(s, rest, 4, state.entries);
    }
}

/// A header block can be decoded in parts: when `a` is made of whole
/// representations that are well formed, decoding `a` and then `b` from
/// where `a` left off comes to the same as decoding the two put together.
pub proof fn lemma_block_concat(a: Seq<u8>, b: Seq<u8>, state: DecodeState, limit: nat)
    requires
        spec_decode_block(a, state, limit).ok,
    ensures
        spec_decode_block(a + b, state, limit) == spec_decode_block(
            b,
            spec_decode_block(a, state, limit).state,
            limit,
        ),
    decreases a.len(),
{
    if a.len() == 0 {
        assert(a + b =~= b);
    } else {
        lemma_step_extends(a, b, state, limit);
        let step = spec_step_in(a, state, limit).unwrap();
        assert((a + b).skip(step.consumed) =~= a.skip(step.consumed) + b);
        lemma_block_concat(a.skip(step.consumed), b, state_after(state, step), limit);
    }
}

/// The decoder of one connection: its header tables and the Huffman codec.
pub struct Decoder {
    table: Table,
    huffman: Huffman,
}

impl View for Decoder {
    type V = Seq<Entry>;

    /// The entries of the dynamic table, newest first.
    closed spec fn view(&self) -> Seq<Entry> {
        self.table@
    }
}

impl Decoder {
    /// The maximum size of the dynamic table.
    pub closed spec fn spec_max_size(&self) -> nat {
        self.table.spec_max_size()
    }

    /// The limit that a size update may not pass.
    pub closed spec fn spec_size_limit(&self) -> nat {
        self.table.spec_size_limit()
    }

    /// The dynamic table keeps to its maximum size, and that to the limit.
    pub closed spec fn wf(&self) -> bool {
        self.table.wf()
    }

    /// A decoder with an empty dynamic table of the maximum size
    /// `max_size`, which is also the limit for size updates. `num_entries`
    /// is the number of entries to make room for in advance.
    pub fn new(max_size: usize, num_entries: usize) -> (r: Self)
        ensures
            r.wf(),
            r@ == Seq::<Entry>::empty(),
            r.spec_max_size() == max_size,
            r.spec_size_limit() == max_size,
    {
        Decoder { table: Table::new(max_size, num_entries), huffman: Huffman::new() }
    }

    /// The header tables of the connection.
    pub fn table(&self) -> (r: &Table)
        ensures
            r@ == self@,
            r.spec_max_size() == self.spec_max_size(),
            r.spec_size_limit() == self.spec_size_limit(),
            r.wf() == self.wf(),
    {
        &self.table
    }

    /// Sets the limit for size updates, as the peer's settings give it. A
    /// maximum size above the new limit is lowered to it.
    pub fn set_size_limit(&mut self, limit: usize)
        requires
            old(self).wf(),
        ensures
            final(self).wf(),
            final(self).spec_size_limit() == limit,
            final(self).spec_max_size() == (if old(self).spec_max_size() <= limit {
                old(self).spec_max_size()
            } else {
                limit as nat
            }),
            final(self)@ == evicted(old(self)@, 0, final(self).spec_max_size()),
    {
        self.table.set_size_limit(limit);
    }

    /// Decodes a complete header block: the fragments of one HEADERS or
    /// PUSH_PROMISE frame and of the CONTINUATION frames behind it, put
    /// together.
    ///
    /// Gives the header fields in the order of their representations. A
    /// malformed representation fails the block; the dynamic table is then
    /// as the representations before it left it.
    pub fn get_header_list(&mut self, hpack_block: &[u8]) -> (r: Result<HeaderList, H2Error>)
        requires
            old(self).wf(),
        ensures
            final(self).wf(),
            final(self).spec_size_limit() == old(self).spec_size_limit(),
            ({
                let end = spec_header_list(
                    hpack_block@,
                    old(self)@,
                    old(self).spec_max_size(),
                    old(self).spec_size_limit(),
                );
                &&& final(self)@ == end.state.entries
                &&& final(self).spec_max_size() == end.state.max_size
                &&& end.ok ==> r.is_ok() && r.unwrap()@ == end.state.fields
                &&& !end.ok ==> r.is_err() && r.unwrap_err() == H2Error::CompressionError
            }),
    {
        let mut bts = Bytes::new(hpack_block);
        let mut header_list = HeaderList::with_capacity(10);
        let mut fields_seen: bool = false;
        let mut updates: u8 = 0;
        let ghost limit = self.spec_size_limit();
        let ghost whole = spec_header_list(
            hpack_block@,
            old(self)@,
            old(self).spec_max_size(),
            limit,
        );
        while bts.len() > 0
            invariant
                self.wf(),
                self.spec_size_limit() == limit,
                limit == old(self).spec_size_limit(),
                whole == spec_header_list(
                    hpack_block@,
                    old(self)@,
                    old(self).spec_max_size(),
                    limit,
                ),
                updates <= MAX_SIZE_UPDATES,
                whole == spec_decode_block(
                    bts.remaining(),
                    DecodeState {
                        entries: self@,
                        max_size: self.spec_max_size(),
                        fields_seen,
                        updates: updates as nat,
                        fields: header_list@,
                    },
                    limit,
                ),
            decreases bts.remaining().len(),
        {
            match self.step(&mut bts, fields_seen, updates) {
                Ok(Some(entry)) => {
                    header_list.add_entry(entry);
                    fields_seen = true;
                },
                Ok(None) => {
                    updates = updates + 1;
                },
                Err(e) => {
                    return Err(e);
                },
            }
        }
        Ok(header_list)
    }

    /// Reads the representation at the cursor, whatever its form, and does
    /// what it says. Gives the header field, if the representation gives
    /// one. A malformed representation changes nothing.
    fn step(&mut self, bts: &mut Bytes, fields_seen: bool, updates: u8) -> (r: Result<
        Option<HeaderEntry>,
        H2Error,
    >)
        requires
            old(self).wf(),
            old(bts).remaining().len() > 0,
        ensures
            final(self).wf(),
            final(self).spec_size_limit() == old(self).spec_size_limit(),
            final(bts).data() == old(bts).data(),
            match spec_step(
                old(bts).remaining(),
                old(self)@,
                old(self).spec_max_size(),
                old(self).spec_size_limit(),
                fields_seen,
                updates as nat,
            ) {
                Some(step) => r.is_ok() && (match step.field {
                    Some(f) => r.unwrap().is_some() && r.unwrap().unwrap()@ == f,
                    None => r.unwrap().is_none() && updates < MAX_SIZE_UPDATES,
                }) && final(self)@ == step.entries && final(self).spec_max_size() == step.max_size
                    && 1 <= step.consumed <= old(bts).remaining().len() && final(bts).remaining()
                    == old(bts).remaining().skip(step.consumed),
                None => r.is_err() && r.unwrap_err() == H2Error::CompressionError && final(self)@
                    == old(self)@ && final(self).spec_max_size() == old(self).spec_max_size(),
            },
    {
        let first: u8 = match bts.peek() {
            Some(b) => b,
            None => {
                return Err(H2Error::CompressionError);
            },
        };
        if first >= 128 {
            match self.indexed_header(bts) {
                Ok(e) => Ok(Some(e)),
                Err(e) => Err(e),
            }
        } else if first >= 64 {
            match self.literal_header(bts) {
                Ok(e) => Ok(Some(e)),
                Err(e) => Err(e),
            }
        } else if first >= 32 {
            if fields_seen || updates >= MAX_SIZE_UPDATES {
                Err(H2Error::CompressionError)
            } else {
                match self.size_update(bts) {
                    Ok(()) => Ok(None),
                    Err(e) => Err(e),
                }
            }
        } else if first >= 16 {
            match self.literal_header_never_indexed(bts) {
                Ok(e) => Ok(Some(e)),
                Err(e) => Err(e),
            }
        } else {
            match self.literal_header_unindexed(bts) {
                Ok(e) => Ok(Some(e)),
                Err(e) => Err(e),
            }
        }
    }

    /// Reads a string literal at the cursor and moves the cursor behind it.
    /// Fails when the length is malformed, when fewer octets follow than
    /// the length says, and when Huffman-encoded octets do not decode.
    fn consume_literal(&self, bts: &mut Bytes) -> (r: Result<Vec<u8>, H2Error>)
        ensures
            final(bts).data() == old(bts).data(),
            match spec_literal(old(bts).remaining()) {
                Some((octets, used)) => r.is_ok() && r.unwrap()@ == octets && 1 <= used <= old(
                    bts,
                ).remaining().len() && final(bts).remaining() == old(bts).remaining().skip(used),
                None => r.is_err() && r.unwrap_err() == H2Error::CompressionError,
            },
    {
        let ghost s = bts.remaining();
        proof {
            lemma_decode_used(s, 7);
        }
        let is_huffman: bool = match bts.peek() {
            Some(b) => b >= 128,
            None => {
                return Err(H2Error::CompressionError);
            },
        };
        let length: u32 = match decode_integer(bts, 7) {
            Ok(n) => n,
            Err(e) => {
                return Err(e);
            },
        };
        let ghost used = spec_decode_integer(s, 7).unwrap().1;
        let window: &[u8] = match bts.take(length as usize) {
            Some(w) => w,
            None => {
                return Err(H2Error::CompressionError);
            },
        };
        proof {
            assert(window@ =~= s.subrange(used, used + length));
            assert(bts.remaining() =~= s.skip(used + length));
        }
        if is_huffman {
            self.huffman.decode(window)
        } else {
            Ok(slice_to_vec(window))
        }
    }

    /// Reads an indexed header field (RFC 7541, section 6.1): the field
    /// that the index addresses. The index 0 addresses nothing.
    fn indexed_header(&self, bts: &mut Bytes) -> (r: Result<HeaderEntry, H2Error>)
        ensures
            final(bts).data() == old(bts).data(),
            match spec_decode_integer(old(bts).remaining(), 7) {
                Some((index, used)) => match spec_entry(self@, index) {
                    Some(e) => r.is_ok() && r.unwrap()@ == (HeaderField {
                        name: e.0,
                        value: e.1,
                        never_indexed: false,
                    }) && 1 <= used <= old(bts).remaining().len() && final(bts).remaining() == old(
                        bts,
                    ).remaining().skip(used),
                    None => r.is_err() && r.unwrap_err() == H2Error::CompressionError,
                },
                None => r.is_err() && r.unwrap_err() == H2Error::CompressionError,
            },
    {
        proof {
            lemma_decode_used(bts.remaining(), 7);
        }
        let index: u32 = match decode_integer(bts, 7) {
            Ok(n) => n,
            Err(e) => {
                return Err(e);
            },
        };
        self.table.get_header_entry(index as usize)
    }

    /// Reads a literal header field with incremental indexing (RFC 7541,
    /// section 6.2.1): gives the field and inserts it into the dynamic
    /// table. Nothing is inserted when the representation is malformed.
    fn literal_header(&mut self, bts: &mut Bytes) -> (r: Result<HeaderEntry, H2Error>)
        requires
            old(self).wf(),
        ensures
            final(self).wf(),
            final(self).spec_size_limit() == old(self).spec_size_limit(),
            final(self).spec_max_size() == old(self).spec_max_size(),
            final(bts).data() == old(bts).data(),
            literal_done(
                old(bts).remaining(),
                final(bts).remaining(),
                spec_literal_field(old(bts).remaining(), 6, old(self)@),
                false,
                r,
            ),
            match spec_literal_field(old(bts).remaining(), 6, old(self)@) {
                Some((name, value, used)) => final(self)@ == inserted(
                    old(self)@,
                    (name, value),
                    old(self).spec_max_size(),
                ),
                None => final(self)@ == old(self)@,
            },
    {
        let (name, value) = match self.literal_field(bts, 6) {
            Ok(pair) => pair,
            Err(e) => {
                return Err(e);
            },
        };
        let entry = HeaderEntry::new(slice_to_vec(name.as_slice()), slice_to_vec(value.as_slice()));
        self.table.add_entry_literal(name, value);
        Ok(entry)
    }

    /// Reads a literal header field without indexing (RFC 7541, section
    /// 6.2.2): gives the field and leaves the dynamic table alone.
    fn literal_header_unindexed(&self, bts: &mut Bytes) -> (r: Result<HeaderEntry, H2Error>)
        ensures
            final(bts).data() == old(bts).data(),
            literal_done(
                old(bts).remaining(),
                final(bts).remaining(),
                spec_literal_field(old(bts).remaining(), 4, self@),
                false,
                r,
            ),
    {
        match self.literal_field(bts, 4) {
            Ok((name, value)) => Ok(HeaderEntry::new(name, value)),
            Err(e) => Err(e),
        }
    }

    /// Reads a literal header field never indexed (RFC 7541, section
    /// 6.2.3): gives the field, marked as one that must be forwarded in
    /// this form, and leaves the dynamic table alone.
    fn literal_header_never_indexed(&self, bts: &mut Bytes) -> (r: Result<HeaderEntry, H2Error>)
        ensures
            final(bts).data() == old(bts).data(),
            literal_done(
                old(bts).remaining(),
                final(bts).remaining(),
                spec_literal_field(old(bts).remaining(), 4, self@),
                true,
                r,
            ),
    {
        match self.literal_field(bts, 4) {
            Ok((name, value)) => Ok(HeaderEntry::new_never_indexed(name, value)),
            Err(e) => Err(e),
        }
    }

    /// Reads the index of a literal representation, then its name, from the
    /// table or as a literal, and its value.
    fn literal_field(&self, bts: &mut Bytes, prefix: u8) -> (r: Result<(Vec<u8>, Vec<u8>), H2Error>)
        ensures
            final(bts).data() == old(bts).data(),
            match spec_literal_field(old(bts).remaining(), prefix, self@) {
                Some((name, value, used)) => r.is_ok() && r.unwrap().0@ == name && r.unwrap().1@
                    == value && 1 <= used <= old(bts).remaining().len() && final(bts).remaining()
                    == old(bts).remaining().skip(used),
                None => r.is_err() && r.unwrap_err() == H2Error::CompressionError,
            },
    {
        let ghost s = bts.remaining();
        proof {
            lemma_decode_used(s, prefix);
        }
        let index: u32 = match decode_integer(bts, prefix) {
            Ok(n) => n,
            Err(e) => {
                return Err(e);
            },
        };
        let ghost used = spec_decode_integer(s, prefix).unwrap().1;
        let name: Vec<u8> = if index == 0 {
            match self.consume_literal(bts) {
                Ok(n) => n,
                Err(e) => {
                    return Err(e);
                },
            }
        } else {
            match self.table.get_name_rc(index as usize) {
                Ok(n) => n,
                Err(e) => {
                    return Err(e);
                },
            }
        };
        let ghost mid = bts.remaining();
        let ghost n1: int = if index == 0 {
            spec_literal(s.skip(used)).unwrap().1
        } else {
            0
        };
        proof {
            assert(mid =~= s.skip(used + n1));
        }
        let value: Vec<u8> = match self.consume_literal(bts) {
            Ok(v) => v,
            Err(e) => {
                return Err(e);
            },
        };
        proof {
            let n2 = spec_literal(mid).unwrap().1;
            assert(bts.remaining() =~= s.skip(used + n1 + n2));
        }
        Ok((name, value))
    }

    /// Reads a dynamic table size update (RFC 7541, section 6.3) and
    /// applies it. A size above the limit fails and changes nothing.
    fn size_update(&mut self, bts: &mut Bytes) -> (r: Result<(), H2Error>)
        requires
            old(self).wf(),
        ensures
            final(self).wf(),
            final(self).spec_size_limit() == old(self).spec_size_limit(),
            final(bts).data() == old(bts).data(),
            match spec_decode_integer(old(bts).remaining(), 5) {
                Some((new_max, used)) => if new_max <= old(self).spec_size_limit() {
                    r.is_ok() && final(self)@ == evicted(old(self)@, 0, new_max as nat) && final(self).spec_max_size() == new_max && 1 <= used <= old(bts).remaining().len()
                        && final(bts).remaining() == old(bts).remaining().skip(used)
                } else {
                    r == Err::<(), H2Error>(H2Error::CompressionError) && final(self)@ == old(self)@
                        && final(self).spec_max_size() == old(self).spec_max_size()
                },
                None => r == Err::<(), H2Error>(H2Error::CompressionError) && final(self)@ == old(
                    self,
                )@ && final(self).spec_max_size() == old(self).spec_max_size(),
            },
    {
        proof {
            lemma_decode_used(bts.remaining(), 5);
        }
        let size: u32 = match decode_integer(bts, 5) {
            Ok(n) => n,
            Err(e) => {
                return Err(e);
            },
        };
        self.table.max_size_update(size as usize)
    }
}

/// Whatever a decoder has decoded, the sizes of its dynamic entries add up
/// to no more than the maximum size, which is no more than the limit.
pub proof fn lemma_decoder_size_bounded(decoder: Decoder)
    requires
        decoder.wf(),
    ensures
        entries_size(decoder@) <= decoder.spec_max_size() <= decoder.spec_size_limit(),
{
}

/// A function that reads a literal representation has done what the
/// representation says: it gave the field and moved behind the
/// representation, or it failed where there is none.
pub open spec fn literal_done(
    before: Seq<u8>,
    after: Seq<u8>,
    field: Option<(Seq<u8>, Seq<u8>, int)>,
    never_indexed: bool,
    r: Result<HeaderEntry, H2Error>,
) -> bool {
    match field {
        Some((name, value, used)) => r.is_ok() && r.unwrap()@ == (HeaderField {
            name,
            value,
            never_indexed,
        }) && 1 <= used <= before.len() && after == before.skip(used),
        None => r.is_err() && r.unwrap_err() == H2Error::CompressionError,
    }
}

} // verus!
