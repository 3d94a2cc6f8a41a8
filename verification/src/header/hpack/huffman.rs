//! The Huffman codec of RFC 7541, section 5.2.
//!
//! An encoded string is the codes of its octets, one after the other, most
//! significant bit first. The last octet is filled up with one-bits, which
//! are the most significant bits of the code of `EOS`.

use vstd::prelude::*;
use crate::bititor::bits_of;
use crate::bititor::bit_value;
use crate::bititor::bits_value;
use crate::bititor::lemma_bits_value_of_value_bits;
use crate::bititor::lemma_pow2_step;
use crate::bititor::lemma_top_bit;
use crate::bititor::lemma_value_bits_len;
use crate::bititor::lemma_value_bits_of_bits_value;
use crate::bititor::octet_bits;
use crate::bititor::pow2;
use crate::bititor::value_bits;
use crate::bititor::BitItor;
use crate::bititor::POW2;
use crate::bytes::Bytes;
use crate::error::H2Error;
use crate::header::hpack::huffman_table::class_end;
use crate::header::hpack::huffman_table::code_len;
use crate::header::hpack::huffman_table::code_val;
use crate::header::hpack::huffman_table::lemma_class_chain;
use crate::header::hpack::huffman_table::lemma_code_in_class;
use crate::header::hpack::huffman_table::lemma_ones_are_no_code;
use crate::header::hpack::huffman_table::lemma_table_bounds;
use crate::header::hpack::huffman_table::symbol_of;
use crate::header::hpack::huffman_table::BY_CODE;
use crate::header::hpack::huffman_table::CODES;
use crate::header::hpack::huffman_table::COUNT;
use crate::header::hpack::huffman_table::EOS;
use crate::header::hpack::huffman_table::FIRST;
use crate::header::hpack::huffman_table::LENS;
use crate::header::hpack::huffman_table::MAX_CODE_LEN;
use crate::header::hpack::huffman_table::OFFSET;

verus! {

/// The bits of the code of symbol `sym`.
pub open spec fn code_bits(sym: int) -> Seq<bool> {
    value_bits(code_val(sym), code_len(sym))
}

/// The codes of the octets of `s`, one after the other.
pub open spec fn encoded_bits(s: Seq<u8>) -> Seq<bool>
    decreases s.len(),
{
    if s.len() == 0 {
        Seq::empty()
    } else {
        encoded_bits(s.drop_last()) + code_bits(s.last() as int)
    }
}

/// The sum of the code lengths of the octets of `s`.
pub open spec fn total_code_len(s: Seq<u8>) -> int
    decreases s.len(),
{
    if s.len() == 0 {
        0
    } else {
        total_code_len(s.drop_last()) + code_len(s.last() as int)
    }
}

/// The number of octets that the encoding of `s` takes.
pub open spec fn spec_encoded_len(s: Seq<u8>) -> int {
    (total_code_len(s) + 7) / 8
}

/// Every bit of `b` is set.
pub open spec fn all_ones(b: Seq<bool>) -> bool {
    forall|i: int| 0 <= i < b.len() ==> b[i]
}

/// `bits` are the codes of `s`, followed by fewer than eight one-bits.
pub open spec fn bits_encode(bits: Seq<bool>, s: Seq<u8>) -> bool {
    let codes = encoded_bits(s);
    &&& codes.len() <= bits.len() < codes.len() + 8
    &&& bits.take(codes.len() as int) =~= codes
    &&& all_ones(bits.skip(codes.len() as int))
}

/// `bytes` is the Huffman encoding of `s`: its bits are the codes of `s`,
/// followed by fewer than eight one-bits.
pub open spec fn is_encoding(bytes: Seq<u8>, s: Seq<u8>) -> bool {
    bits_encode(bits_of(bytes), s)
}

/// What a decoder makes of the bits from index `i` on that reads bit by bit
/// and gives out a symbol as soon as the bits gathered are its code. `len`
/// bits that spell `code` are gathered, and `out` has been given out.
///
/// At the end of the bits, fewer than eight gathered bits that are all
/// one-bits are padding; anything else fails, and so does the code of `EOS`.
pub open spec fn decode_from(bits: Seq<bool>, i: int, code: int, len: int, out: Seq<u8>) -> Option<
    Seq<u8>,
>
    decreases bits.len() - i,
{
    if i < 0 || i >= bits.len() {
        if 0 <= len < 8 && code + 1 == pow2(len) {
            Some(out)
        } else {
            None
        }
    } else {
        let c = 2 * code + bit_value(bits[i]);
        match symbol_of(c, len + 1) {
            Some(sym) => if sym == 256 {
                None
            } else {
                decode_from(bits, i + 1, 0, 0, out.push(sym as u8))
            },
            None => if len + 1 >= 30 {
                None
            } else {
                decode_from(bits, i + 1, c, len + 1, out)
            },
        }
    }
}

/// The octets that `bytes` decodes to, if it is an encoding.
pub open spec fn spec_decode(bytes: Seq<u8>) -> Option<Seq<u8>> {
    decode_from(bits_of(bytes), 0, 0, 0, Seq::empty())
}

/// The number that the first `k` bits of the code of `sym` spell.
pub open spec fn prefix_val(sym: int, k: int) -> int {
    bits_value(code_bits(sym).take(k))
}

/// The codes of `s` have as many bits as its code lengths add up to.
pub proof fn lemma_encoded_bits_len(s: Seq<u8>)
    ensures
        encoded_bits(s).len() == total_code_len(s),
        total_code_len(s) >= 5 * s.len(),
        total_code_len(s) <= 30 * s.len(),
    decreases s.len(),
{
    if s.len() > 0 {
        lemma_encoded_bits_len(s.drop_last());
        lemma_code_in_class(s.last() as int);
        lemma_value_bits_len(code_val(s.last() as int), code_len(s.last() as int));
    }
}

/// The codes of the first `i` octets of `s` take no more bits than the
/// codes of all of `s`, and one octet more adds the length of its code.
pub proof fn lemma_total_code_len_take(s: Seq<u8>, i: int)
    requires
        0 <= i <= s.len(),
    ensures
        total_code_len(s.take(i)) <= total_code_len(s),
        i < s.len() ==> total_code_len(s.take(i + 1)) == total_code_len(s.take(i)) + code_len(
            s[i] as int,
        ),
    decreases s.len() - i,
{
    if i < s.len() {
        assert(s.take(i + 1).drop_last() =~= s.take(i));
        lemma_total_code_len_take(s, i + 1);
        lemma_code_in_class(s[i] as int);
    } else {
        assert(s.take(i) =~= s);
    }
}

/// The codes of the first octets of `s` are the first bits of the codes of
/// `s`.
pub proof fn lemma_encoded_bits_take(s: Seq<u8>, i: int)
    requires
        0 <= i <= s.len(),
    ensures
        encoded_bits(s.take(i)).len() <= encoded_bits(s).len(),
        encoded_bits(s.take(i)) =~= encoded_bits(s).take(encoded_bits(s.take(i)).len() as int),
        i < s.len() ==> encoded_bits(s.take(i + 1)) =~= encoded_bits(s.take(i)) + code_bits(
            s[i] as int,
        ),
    decreases s.len() - i,
{
    if i < s.len() {
        assert(s.take(i + 1).drop_last() =~= s.take(i));
        lemma_encoded_bits_take(s, i + 1);
    } else {
        assert(s.take(i) =~= s);
    }
}

/// Writing one octet more to the output adds its eight bits to the bits
/// written.
pub proof fn lemma_bits_of_push(bytes: Seq<u8>, b: u8)
    ensures
        bits_of(bytes.push(b)) =~= bits_of(bytes) + octet_bits(b),
{
    lemma_value_bits_len(b as int, 8);
    assert forall|i: int| 0 <= i < 8 * bytes.len() implies bits_of(bytes.push(b))[i] == bits_of(
        bytes,
    )[i] by {
        assert(bytes.push(b)[i / 8] == bytes[i / 8]);
    }
    assert forall|i: int| 8 * bytes.len() <= i < 8 * bytes.len() + 8 implies bits_of(
        bytes.push(b),
    )[i] == octet_bits(b)[i - 8 * bytes.len()] by {
        assert(i / 8 == bytes.len());
        assert(i % 8 == i - 8 * bytes.len());
    }
}

/// No code is the start of another: the first `k` bits of a code, for `k`
/// below its length, spell a number behind every code of `k` bits.
pub proof fn lemma_prefix_above(sym: int, k: int)
    requires
        0 <= sym < 257,
        0 <= k <= code_len(sym),
    ensures
        prefix_val(sym, k) >= FIRST@[k],
        k < code_len(sym) ==> prefix_val(sym, k) >= class_end(k),
        k < code_len(sym) ==> symbol_of(prefix_val(sym, k), k).is_none(),
        k == code_len(sym) ==> prefix_val(sym, k) == code_val(sym),
    decreases code_len(sym) - k,
{
    let l = code_len(sym);
    lemma_code_in_class(sym);
    lemma_value_bits_len(code_val(sym), l);
    if k == l {
        assert(code_bits(sym).take(k) =~= code_bits(sym));
        lemma_bits_value_of_value_bits(code_val(sym), l);
    } else {
        lemma_prefix_above(sym, k + 1);
        lemma_class_chain(k + 1);
        assert(code_bits(sym).take(k + 1).drop_last() =~= code_bits(sym).take(k));
        assert(prefix_val(sym, k + 1) == 2 * prefix_val(sym, k) + bit_value(
            code_bits(sym).take(k + 1).last(),
        ));
    }
}

/// Bits that spell `2^n - 1` are all one-bits.
pub proof fn lemma_all_ones(b: Seq<bool>)
    requires
        b.len() <= 30,
        bits_value(b) + 1 == pow2(b.len() as int),
    ensures
        all_ones(b),
    decreases b.len(),
{
    if b.len() > 0 {
        lemma_pow2_step(b.len() as int);
        lemma_all_ones(b.drop_last());
        assert forall|i: int| 0 <= i < b.len() implies b[i] by {
            if i < b.len() - 1 {
                assert(b.drop_last()[i]);
            }
        }
    }
}

/// What the bit-by-bit decoder gives out is an encoding of what it read.
pub proof fn lemma_decode_sound(
    bits: Seq<bool>,
    i: int,
    code: int,
    len: int,
    out: Seq<u8>,
    s: Seq<u8>,
)
    requires
        0 <= len <= i <= bits.len(),
        len < 30,
        code == bits_value(bits.subrange(i - len, i)),
        bits.take(i - len) =~= encoded_bits(out),
        decode_from(bits, i, code, len, out) == Some(s),
    ensures
        bits_encode(bits, s),
    decreases bits.len() - i,
{
    if i >= bits.len() {
        lemma_all_ones(bits.subrange(i - len, i));
        assert(bits.skip(i - len) =~= bits.subrange(i - len, i));
    } else {
        let c = 2 * code + bit_value(bits[i]);
        let gathered = bits.subrange(i - len, i + 1);
        assert(gathered.drop_last() =~= bits.subrange(i - len, i));
        assert(bits_value(gathered) == c);
        match symbol_of(c, len + 1) {
            Some(sym) => {
                lemma_value_bits_of_bits_value(gathered);
                assert(code_bits(sym) =~= gathered);
                let next = out.push(sym as u8);
                assert(next.drop_last() =~= out);
                assert(bits.take(i + 1) =~= bits.take(i - len) + gathered);
                assert(bits.subrange(i + 1, i + 1) =~= Seq::<bool>::empty());
                lemma_decode_sound(bits, i + 1, 0, 0, next, s);
            },
            None => {
                lemma_decode_sound(bits, i + 1, c, len + 1, out, s);
            },
        }
    }
}

/// Having gathered the first `k` bits of the code of `sym`, the decoder
/// gathers the rest of it and gives out `sym`.
pub proof fn lemma_symbol_step(bits: Seq<bool>, p: int, sym: int, k: int, out: Seq<u8>)
    requires
        0 <= sym < 256,
        0 <= k < code_len(sym),
        0 <= p,
        p + code_len(sym) <= bits.len(),
        bits.subrange(p, p + code_len(sym)) =~= code_bits(sym),
    ensures
        decode_from(bits, p + k, prefix_val(sym, k), k, out) == decode_from(
            bits,
            p + code_len(sym),
            0,
            0,
            out.push(sym as u8),
        ),
    decreases code_len(sym) - k,
{
    let l = code_len(sym);
    lemma_code_in_class(sym);
    lemma_value_bits_len(code_val(sym), l);
    assert(bits[p + k] == bits.subrange(p, p + l)[k]);
    assert(code_bits(sym).take(k + 1).drop_last() =~= code_bits(sym).take(k));
    assert(prefix_val(sym, k + 1) == 2 * prefix_val(sym, k) + bit_value(bits[p + k]));
    lemma_prefix_above(sym, k + 1);
    if k + 1 < l {
        lemma_symbol_step(bits, p, sym, k + 1, out);
    }
}

/// Fewer than eight one-bits at the end of the input are taken for padding.
pub proof fn lemma_padding_step(bits: Seq<bool>, p: int, j: int, out: Seq<u8>)
    requires
        0 <= p,
        0 <= j,
        p + j <= bits.len(),
        bits.len() - p < 8,
        all_ones(bits.skip(p)),
    ensures
        decode_from(bits, p + j, pow2(j) - 1, j, out) == Some(out),
    decreases bits.len() - (p + j),
{
    if p + j < bits.len() {
        assert(bits[p + j] == bits.skip(p)[j]);
        lemma_pow2_step(j + 1);
        lemma_ones_are_no_code(j + 1);
        lemma_padding_step(bits, p, j + 1, out);
    }
}

/// The bit-by-bit decoder reads an encoding of `s` as `s`: from behind the
/// codes of the first `n` octets on, it gives out the rest.
pub proof fn lemma_decode_rest(bits: Seq<bool>, s: Seq<u8>, n: int)
    requires
        bits_encode(bits, s),
        0 <= n <= s.len(),
    ensures
        decode_from(bits, encoded_bits(s.take(n)).len() as int, 0, 0, s.take(n)) == Some(s),
    decreases s.len() - n,
{
    let p = encoded_bits(s.take(n)).len() as int;
    lemma_encoded_bits_take(s, n);
    if n == s.len() {
        assert(s.take(n) =~= s);
        lemma_pow2_step(1);
        lemma_padding_step(bits, p, 0, s);
    } else {
        let sym = s[n] as int;
        lemma_code_in_class(sym);
        lemma_value_bits_len(code_val(sym), code_len(sym));
        lemma_encoded_bits_take(s, n + 1);
        let q = encoded_bits(s.take(n + 1)).len() as int;
        assert(q == p + code_len(sym));
        assert(bits.subrange(p, q) =~= code_bits(sym)) by {
            assert forall|j: int| 0 <= j < code_len(sym) implies bits.subrange(p, q)[j]
                == code_bits(sym)[j] by {
                assert(bits[p + j] == bits.take(encoded_bits(s).len() as int)[p + j]);
                assert(encoded_bits(s)[p + j] == encoded_bits(s).take(q)[p + j]);
                assert(encoded_bits(s.take(n + 1))[p + j] == code_bits(sym)[j]);
            }
        }
        assert(prefix_val(sym, 0) == 0) by {
            assert(code_bits(sym).take(0) =~= Seq::<bool>::empty());
        }
        lemma_symbol_step(bits, p, sym, 0, s.take(n));
        assert(s.take(n).push(sym as u8) =~= s.take(n + 1));
        lemma_decode_rest(bits, s, n + 1);
    }
}

/// Decoding is the inverse of encoding: `bytes` decodes to `s` exactly when
/// it is the encoding of `s`.
pub proof fn lemma_decode_is_inverse(bytes: Seq<u8>, s: Seq<u8>)
    ensures
        is_encoding(bytes, s) <==> spec_decode(bytes) == Some(s),
{
    let bits = bits_of(bytes);
    if is_encoding(bytes, s) {
        assert(s.take(0) =~= Seq::<u8>::empty());
        lemma_decode_rest(bits, s, 0);
    }
    if spec_decode(bytes) == Some(s) {
        assert(bits.subrange(0, 0) =~= Seq::<bool>::empty());
        assert(bits.take(0) =~= encoded_bits(Seq::<u8>::empty()));
        lemma_decode_sound(bits, 0, 0, 0, Seq::empty(), s);
    }
}

/// What does not decode is the encoding of nothing.
pub proof fn lemma_no_encoding(bytes: Seq<u8>)
    requires
        spec_decode(bytes).is_none(),
    ensures
        forall|s: Seq<u8>| !is_encoding(bytes, s),
{
    assert forall|s: Seq<u8>| !is_encoding(bytes, s) by {
        lemma_decode_is_inverse(bytes, s);
    }
}

/// An octet sequence has one encoding, and an encoding belongs to one octet
/// sequence: whatever decodes from the encoding of `s` is `s`.
pub proof fn lemma_huffman_roundtrip(bytes: Seq<u8>, s: Seq<u8>, t: Seq<u8>)
    requires
        is_encoding(bytes, s),
    ensures
        spec_decode(bytes) == Some(s),
        is_encoding(bytes, t) ==> t == s,
        bytes.len() == spec_encoded_len(s),
        all_ones(bits_of(bytes).skip(total_code_len(s))),
{
    lemma_decode_is_inverse(bytes, s);
    lemma_decode_is_inverse(bytes, t);
    lemma_encoded_bits_len(s);
}

/// The Huffman codec. It holds no state: the code is fixed.
pub struct Huffman {}

impl Huffman {
    /// The codec.
    pub fn new() -> (r: Self) {
        Huffman {}
    }

    /// The symbol with the code `code` of `len` bits, if there is one.
    pub fn lookup(code: u32, len: u8) -> (r: Option<u16>)
        requires
            len <= MAX_CODE_LEN,
        ensures
            match r {
                Some(sym) => symbol_of(code as int, len as int) == Some(sym as int) && sym <= EOS,
                None => symbol_of(code as int, len as int).is_none(),
            },
    {
        let first: u32 = FIRST[len as usize];
        let count: u32 = COUNT[len as usize] as u32;
        if code < first || code - first >= count {
            return None;
        }
        proof {
            lemma_table_bounds(len as int, OFFSET@[len as int] + code - first);
        }
        let idx: usize = (OFFSET[len as usize] as u32 + (code - first)) as usize;
        let sym: u16 = BY_CODE[idx];
        if CODES[sym as usize] == code && LENS[sym as usize] == len {
            Some(sym)
        } else {
            None
        }
    }

    /// Decodes a Huffman-encoded string.
    ///
    /// Succeeds exactly when `buf` is the encoding of some octet sequence,
    /// and then gives that sequence. Fails on the code of `EOS`, on padding
    /// of eight bits or more, and on padding that is not all one-bits.
    pub fn decode(&self, buf: &[u8]) -> (r: Result<Vec<u8>, H2Error>)
        ensures
            match r {
                Ok(v) => spec_decode(buf@) == Some(v@) && is_encoding(buf@, v@),
                Err(e) => e == H2Error::CompressionError && spec_decode(buf@).is_none()
                    && forall|s: Seq<u8>| !is_encoding(buf@, s),
            },
    {
        let ghost all = bits_of(buf@);
        let mut bts = Bytes::new(buf);
        let mut bits = BitItor::new(&mut bts);
        let mut decoded: Vec<u8> = Vec::new();
        let mut code: u32 = 0;
        let mut size: u8 = 0;
        let ghost mut i: int = 0;
        proof {
            assert(all.skip(0) =~= all);
            lemma_pow2_step(1);
        }
        loop
            invariant
                all == bits_of(buf@),
                0 <= i <= all.len(),
                bits.remaining_bits() =~= all.skip(i),
                size < 30,
                code < pow2(size as int),
                spec_decode(buf@) == decode_from(all, i, code as int, size as int, decoded@),
            ensures
                i == all.len(),
            decreases all.len() - i,
        {
            let bit: bool = match bits.next() {
                Some(b) => b,
                None => {
                    break;
                },
            };
            proof {
                assert(bit == all[i]);
                assert(all.skip(i).skip(1) =~= all.skip(i + 1));
                lemma_pow2_step(size as int + 1);
            }
            code = 2 * code + if bit {
                1
            } else {
                0
            };
            size = size + 1;
            proof {
                i = i + 1;
            }
            match Huffman::lookup(code, size) {
                Some(sym) => {
                    if sym == EOS {
                        proof {
                            lemma_no_encoding(buf@);
                        }
                        return Err(H2Error::CompressionError);
                    }
                    decoded.push(sym as u8);
                    code = 0;
                    size = 0;
                },
                None => {
                    if size >= MAX_CODE_LEN {
                        proof {
                            lemma_no_encoding(buf@);
                        }
                        return Err(H2Error::CompressionError);
                    }
                },
            }
        }
        if size < 8 && code + 1 == POW2[size as usize] {
            proof {
                lemma_decode_is_inverse(buf@, decoded@);
            }
            Ok(decoded)
        } else {
            proof {
                lemma_no_encoding(buf@);
            }
            Err(H2Error::CompressionError)
        }
    }

    /// Writes the encoding of `src` to the start of `dest` and returns how
    /// many octets it takes: the sum of the code lengths in bits, divided by
    /// eight and rounded up. A last octet that the codes do not fill is
    /// filled with one-bits.
    pub fn encode(&self, src: &[u8], dest: &mut [u8]) -> (r: usize)
        requires
            old(dest)@.len() >= spec_encoded_len(src@),
        ensures
            r == spec_encoded_len(src@),
            final(dest)@.len() == old(dest)@.len(),
            is_encoding(final(dest)@.take(r as int), src@),
            final(dest)@.skip(r as int) == old(dest)@.skip(r as int),
    {
        let mut out_i: usize = 0;
        let mut acc: u8 = 0;
        let mut nbits: u8 = 0;
        let ghost mut emitted: Seq<bool> = Seq::empty();
        let ghost total = encoded_bits(src@).len() as int;
        proof {
            lemma_encoded_bits_len(src@);
            lemma_encoded_bits_take(src@, 0);
            assert(src@.take(0) =~= Seq::<u8>::empty());
            assert(bits_of(dest@.take(0)) =~= emitted.take(0));
        }
        let mut i: usize = 0;
        while i < src.len()
            invariant
                i <= src@.len(),
                total == encoded_bits(src@).len(),
                total == total_code_len(src@),
                dest@.len() == old(dest)@.len(),
                dest@.len() >= (total + 7) / 8,
                emitted =~= encoded_bits(src@.take(i as int)),
                emitted.len() <= total,
                emitted.len() == 8 * out_i + nbits,
                nbits < 8,
                bits_of(dest@.take(out_i as int)) =~= emitted.take(8 * out_i),
                acc == bits_value(emitted.skip(8 * out_i)),
                acc < pow2(nbits as int),
                forall|k: int| out_i <= k < dest@.len() ==> dest@[k] == old(dest)@[k],
            decreases src@.len() - i,
        {
            let sym: usize = src[i] as usize;
            let len: u8 = LENS[sym];
            let mut rest: u32 = CODES[sym];
            let mut k: u8 = len;
            proof {
                lemma_code_in_class(sym as int);
                lemma_encoded_bits_take(src@, i as int);
                lemma_encoded_bits_take(src@, i + 1);
                lemma_value_bits_len(code_val(sym as int), len as int);
                assert(code_bits(sym as int).take(0) =~= Seq::<bool>::empty());
                assert(code_bits(sym as int).skip(0) =~= code_bits(sym as int));
            }
            let ghost base = emitted;
            while k > 0
                invariant
                    k <= len,
                    5 <= len <= 30,
                    len == code_len(sym as int),
                    code_bits(sym as int).len() == len,
                    total == encoded_bits(src@).len(),
                    dest@.len() == old(dest)@.len(),
                    dest@.len() >= (total + 7) / 8,
                    base.len() + len <= total,
                    emitted =~= base + code_bits(sym as int).take(len - k),
                    value_bits(rest as int, k as int) =~= code_bits(sym as int).skip(len - k),
                    rest < pow2(k as int),
                    emitted.len() == 8 * out_i + nbits,
                    nbits < 8,
                    bits_of(dest@.take(out_i as int)) =~= emitted.take(8 * out_i),
                    acc == bits_value(emitted.skip(8 * out_i)),
                    acc < pow2(nbits as int),
                    forall|j: int| out_i <= j < dest@.len() ==> dest@[j] == old(dest)@[j],
                decreases k,
            {
                proof {
                    lemma_top_bit(rest as int, k as int);
                    lemma_pow2_step(k as int);
                    lemma_pow2_step(nbits as int + 1);
                    lemma_value_bits_len(rest as int, k as int);
                }
                let ghost whole = rest;
                let top: u32 = POW2[(k - 1) as usize];
                let bit: bool = rest >= top;
                if bit {
                    rest = rest - top;
                }
                let ghost pending = emitted.skip(8 * out_i);
                proof {
                    assert(bit == code_bits(sym as int)[len - k]) by {
                        assert(value_bits(whole as int, k as int)[0] == bit);
                    }
                    lemma_value_bits_len(rest as int, k - 1);
                    let lower = value_bits(rest as int, k - 1);
                    let upper = value_bits(whole as int, k as int);
                    let tail = code_bits(sym as int).skip(len - k + 1);
                    assert(upper =~= seq![bit] + lower);
                    assert forall|j: int| 0 <= j < k - 1 implies #[trigger] lower[j] == tail[j] by {
                        assert(upper[j + 1] == lower[j]);
                        assert(upper[j + 1] == code_bits(sym as int).skip(len - k)[j + 1]);
                    }
                    assert(lower =~= tail);
                    emitted = emitted.push(bit);
                    assert(emitted =~= base + code_bits(sym as int).take(len - k + 1));
                    assert(emitted.skip(8 * out_i).drop_last() =~= pending);
                }
                acc = 2 * acc + if bit {
                    1
                } else {
                    0
                };
                nbits = nbits + 1;
                k = k - 1;
                if nbits == 8 {
                    proof {
                        lemma_value_bits_of_bits_value(emitted.skip(8 * out_i));
                        lemma_bits_of_push(dest@.take(out_i as int), acc);
                    }
                    let ghost before = dest@;
                    dest[out_i] = acc;
                    proof {
                        assert(dest@.take(out_i + 1) =~= before.take(out_i as int).push(acc));
                        assert(bits_of(dest@.take(out_i + 1)) =~= emitted.take(8 * (out_i + 1)));
                        assert(emitted.skip(8 * (out_i + 1)) =~= Seq::<bool>::empty());
                    }
                    out_i = out_i + 1;
                    acc = 0;
                    nbits = 0;
                } else {
                    assert(bits_of(dest@.take(out_i as int)) =~= emitted.take(8 * out_i));
                }
            }
            proof {
                assert(code_bits(sym as int).take(len as int) =~= code_bits(sym as int));
            }
            i = i + 1;
        }
        proof {
            assert(src@.take(i as int) =~= src@);
        }
        let ghost codes = emitted;
        if nbits > 0 {
            while nbits < 8
                invariant
                    0 < nbits <= 8,
                    codes.len() == total,
                    dest@.len() == old(dest)@.len(),
                    dest@.len() >= (total + 7) / 8,
                    codes.len() <= emitted.len() < codes.len() + 8,
                    emitted.take(codes.len() as int) =~= codes,
                    all_ones(emitted.skip(codes.len() as int)),
                    emitted.len() == 8 * out_i + nbits,
                    codes.len() > 8 * out_i,
                    bits_of(dest@.take(out_i as int)) =~= emitted.take(8 * out_i),
                    acc == bits_value(emitted.skip(8 * out_i)),
                    acc < pow2(nbits as int),
                    forall|j: int| out_i <= j < dest@.len() ==> dest@[j] == old(dest)@[j],
                decreases 8 - nbits,
            {
                let ghost pending = emitted.skip(8 * out_i);
                proof {
                    lemma_pow2_step(nbits as int + 1);
                    let ghost padded = emitted.skip(codes.len() as int);
                    emitted = emitted.push(true);
                    assert(emitted.skip(8 * out_i).drop_last() =~= pending);
                    assert(emitted.skip(codes.len() as int) =~= padded.push(true));
                }
                acc = 2 * acc + 1;
                nbits = nbits + 1;
            }
            proof {
                lemma_value_bits_of_bits_value(emitted.skip(8 * out_i));
                lemma_bits_of_push(dest@.take(out_i as int), acc);
            }
            let ghost before = dest@;
            dest[out_i] = acc;
            proof {
                assert(dest@.take(out_i + 1) =~= before.take(out_i as int).push(acc));
                assert(bits_of(dest@.take(out_i + 1)) =~= emitted);
            }
            out_i = out_i + 1;
        } else {
            assert(emitted.take(8 * out_i) =~= emitted);
            assert(emitted.take(codes.len() as int) =~= codes);
        }
        assert(dest@.skip(out_i as int) =~= old(dest)@.skip(out_i as int));
        out_i
    }

    /// The number of octets that the encoding of `src` takes, or nothing
    /// when that number does not fit a `usize`.
    pub fn encoded_len(&self, src: &[u8]) -> (r: Option<usize>)
        ensures
            match r {
                Some(n) => n == spec_encoded_len(src@),
                None => spec_encoded_len(src@) > usize::MAX,
            },
    {
        let mut bits: u128 = 0;
        let mut i: usize = 0;
        while i < src.len()
            invariant
                i <= src@.len(),
                bits == total_code_len(src@.take(i as int)),
                bits <= 30 * i,
            decreases src@.len() - i,
        {
            proof {
                lemma_total_code_len_take(src@, i as int);
                lemma_code_in_class(src@[i as int] as int);
            }
            bits = bits + LENS[src[i] as usize] as u128;
            i = i + 1;
        }
        assert(src@.take(i as int) =~= src@);
        let octets: u128 = (bits + 7) / 8;
        if octets > usize::MAX as u128 {
            None
        } else {
            Some(octets as usize)
        }
    }
}

} // verus!
