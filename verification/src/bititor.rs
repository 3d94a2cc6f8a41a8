//! Bit sequences, most significant bit first, and an iterator that reads
//! the bits of a buffer in that order.

use vstd::prelude::*;
use crate::borrow_iter::BPeekable;
use crate::borrow_iter::BorrowPeekable;
use crate::bytes::Bytes;

verus! {

/// The powers of two from `2^0` to `2^30`.
pub const POW2: [u32; 31] = [
    0x1, 0x2, 0x4, 0x8, 0x10, 0x20, 0x40, 0x80,
    0x100, 0x200, 0x400, 0x800, 0x1000, 0x2000, 0x4000, 0x8000,
    0x10000, 0x20000, 0x40000, 0x80000, 0x100000, 0x200000, 0x400000, 0x800000,
    0x1000000, 0x2000000, 0x4000000, 0x8000000, 0x10000000, 0x20000000, 0x40000000,
];

/// `2^k`, for `k` from 0 to 30.
pub open spec fn pow2(k: int) -> int {
    POW2@[k] as int
}

/// Each power of two is twice the one before.
pub proof fn lemma_pow2_step(k: int)
    requires
        1 <= k <= 30,
    ensures
        pow2(k) == 2 * pow2(k - 1),
        pow2(0) == 1,
        pow2(k) >= 2,
{
}

/// 1 for a set bit, 0 for a clear one.
pub open spec fn bit_value(b: bool) -> int {
    if b {
        1
    } else {
        0
    }
}

/// The number that the bits spell, the first bit being the most significant.
pub open spec fn bits_value(b: Seq<bool>) -> int
    decreases b.len(),
{
    if b.len() == 0 {
        0
    } else {
        2 * bits_value(b.drop_last()) + bit_value(b.last())
    }
}

/// The `len` low bits of `v`, most significant first.
pub open spec fn value_bits(v: int, len: int) -> Seq<bool>
    decreases len,
{
    if len <= 0 {
        Seq::empty()
    } else {
        value_bits(v / 2, len - 1).push(v % 2 == 1)
    }
}

/// The eight bits of an octet, most significant first.
pub open spec fn octet_bits(b: u8) -> Seq<bool> {
    value_bits(b as int, 8)
}

/// The bits of a sequence of octets, in the order of the octets.
pub open spec fn bits_of(bytes: Seq<u8>) -> Seq<bool> {
    Seq::new(8 * bytes.len(), |i: int| octet_bits(bytes[i / 8])[i % 8])
}

/// `value_bits` gives as many bits as it is asked for.
pub proof fn lemma_value_bits_len(v: int, len: int)
    requires
        len >= 0,
    ensures
        value_bits(v, len).len() == len,
    decreases len,
{
    if len > 0 {
        lemma_value_bits_len(v / 2, len - 1);
    }
}

/// Bit `j` of an octet is set when the octet, divided by the weight of that
/// bit, is odd.
pub proof fn lemma_octet_bit(b: u8, j: int)
    requires
        0 <= j < 8,
    ensures
        octet_bits(b).len() == 8,
        octet_bits(b)[j] == ((b as int / pow2(7 - j)) % 2 == 1),
{
    reveal_with_fuel(value_bits, 9);
    let v = b as int;
    assert(v / 2 / 2 == v / 4);
    assert(v / 4 / 2 == v / 8);
    assert(v / 8 / 2 == v / 16);
    assert(v / 16 / 2 == v / 32);
    assert(v / 32 / 2 == v / 64);
    assert(v / 64 / 2 == v / 128);
    let bits = octet_bits(b);
    assert(bits[7] == (v % 2 == 1));
    assert(bits[6] == ((v / 2) % 2 == 1));
    assert(bits[5] == ((v / 4) % 2 == 1));
    assert(bits[4] == ((v / 8) % 2 == 1));
    assert(bits[3] == ((v / 16) % 2 == 1));
    assert(bits[2] == ((v / 32) % 2 == 1));
    assert(bits[1] == ((v / 64) % 2 == 1));
    assert(bits[0] == ((v / 128) % 2 == 1));
    assert(pow2(0) == 1 && pow2(1) == 2 && pow2(2) == 4 && pow2(3) == 8);
    assert(pow2(4) == 16 && pow2(5) == 32 && pow2(6) == 64 && pow2(7) == 128);
    if j == 0 {
        assert(v / pow2(7) == v / 128);
    } else if j == 1 {
        assert(v / pow2(6) == v / 64);
    } else if j == 2 {
        assert(v / pow2(5) == v / 32);
    } else if j == 3 {
        assert(v / pow2(4) == v / 16);
    } else if j == 4 {
        assert(v / pow2(3) == v / 8);
    } else if j == 5 {
        assert(v / pow2(2) == v / 4);
    } else if j == 6 {
        assert(v / pow2(1) == v / 2);
    } else {
        assert(v / pow2(0) == v);
    }
}

/// The bits of a number spell that number, when it fits in them.
pub proof fn lemma_bits_value_of_value_bits(v: int, len: int)
    requires
        0 <= len <= 30,
        0 <= v < pow2(len),
    ensures
        bits_value(value_bits(v, len)) == v,
    decreases len,
{
    if len > 0 {
        lemma_pow2_step(len);
        lemma_bits_value_of_value_bits(v / 2, len - 1);
        assert(value_bits(v, len).drop_last() =~= value_bits(v / 2, len - 1));
    }
}

/// A bit sequence is the bits of the number it spells.
pub proof fn lemma_value_bits_of_bits_value(b: Seq<bool>)
    ensures
        value_bits(bits_value(b), b.len() as int) =~= b,
        0 <= bits_value(b),
    decreases b.len(),
{
    if b.len() > 0 {
        lemma_value_bits_of_bits_value(b.drop_last());
        assert(b =~= b.drop_last().push(b.last()));
    }
}

/// The first of the `k` low bits of `v` tells whether `v` reaches
/// `2^(k-1)`, and the bits after it are those of what is left.
pub proof fn lemma_top_bit(v: int, k: int)
    requires
        1 <= k <= 30,
        0 <= v < pow2(k),
    ensures
        value_bits(v, k) =~= seq![v >= pow2(k - 1)] + value_bits(
            if v >= pow2(k - 1) {
                v - pow2(k - 1)
            } else {
                v
            },
            k - 1,
        ),
    decreases k,
{
    lemma_pow2_step(k);
    lemma_value_bits_len(v / 2, k - 1);
    if k > 1 {
        lemma_pow2_step(k - 1);
        lemma_top_bit(v / 2, k - 1);
        let top = pow2(k - 1);
        let rest = if v >= top {
            v - top
        } else {
            v
        };
        lemma_value_bits_len(rest / 2, k - 2);
        assert(rest / 2 == if v / 2 >= pow2(k - 2) {
            v / 2 - pow2(k - 2)
        } else {
            v / 2
        });
        assert(rest % 2 == v % 2);
    } else {
        reveal_with_fuel(value_bits, 2);
    }
}

/// Reads the bits of a borrowed cursor, from bit 7 of each octet down to
/// bit 0, and moves to the next octet after bit 0.
pub struct BitItor<'a, 'buf> {
    buf: BPeekable<'a, 'buf>,
    bit: u8,
}

impl<'a, 'buf> BitItor<'a, 'buf> {
    /// The bits that are still to come.
    pub closed spec fn remaining_bits(&self) -> Seq<bool> {
        if self.bit < 8 && self.buf.remaining().len() > 0 {
            bits_of(self.buf.remaining()).skip(self.bit as int)
        } else {
            Seq::empty()
        }
    }

    /// An iterator over the bits of what `buf` has still to give.
    pub fn new(buf: &'a mut Bytes<'buf>) -> (r: Self)
        ensures
            r.remaining_bits() == bits_of(old(buf).remaining()),
    {
        let r = BitItor { buf: buf.borrow_peekable(), bit: 0 };
        assert(r.remaining_bits() =~= bits_of(old(buf).remaining()));
        r
    }

    /// Reads the next bit, if there is one.
    pub fn next(&mut self) -> (r: Option<bool>)
        ensures
            old(self).remaining_bits().len() > 0 ==> r == Some(old(self).remaining_bits()[0])
                && final(self).remaining_bits() == old(self).remaining_bits().skip(1),
            old(self).remaining_bits().len() == 0 ==> r.is_none()
                && final(self).remaining_bits().len() == 0,
    {
        if self.bit > 7 {
            return None;
        }
        let ghost before = self.buf.remaining();
        let byte: u8 = match self.buf.bpeek() {
            Some(b) => b,
            None => {
                return None;
            },
        };
        proof {
            lemma_octet_bit(byte, self.bit as int);
        }
        let is_set: bool = (byte as u32 / POW2[(7 - self.bit) as usize]) % 2 == 1;
        assert(is_set == old(self).remaining_bits()[0]);
        self.bit = self.bit + 1;
        if self.bit > 7 {
            self.bit = 0;
            let _ = self.buf.next();
            assert(self.remaining_bits() =~= old(self).remaining_bits().skip(1)) by {
                assert forall|i: int| 0 <= i < 8 * (before.len() - 1) implies bits_of(
                    before.skip(1),
                )[i] == bits_of(before)[i + 8] by {
                    assert(before.skip(1)[i / 8] == before[(i + 8) / 8]);
                }
            }
        } else {
            assert(self.remaining_bits() =~= old(self).remaining_bits().skip(1));
        }
        Some(is_set)
    }
}

} // verus!
