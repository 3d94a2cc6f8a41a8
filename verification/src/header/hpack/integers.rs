//! The prefixed integer representation of RFC 7541, section 5.1.
//!
//! An integer starts in the low `N` bits of an octet. A value below
//! `2^N - 1` is held there. Otherwise the prefix holds `2^N - 1` and the rest
//! follows in groups of seven bits, least significant group first, each octet
//! but the last with its high bit set.

use vstd::prelude::*;
use crate::bytes::Bytes;
use crate::error::H2Error;

verus! {

/// The largest number of continuation octets that a decoder accepts: with
/// the prefix octet an integer takes at most five octets.
pub const MAX_CONTINUATION: usize = 4;

/// `2^n - 1`, the value at which an `n`-bit prefix is full.
pub open spec fn prefix_limit(n: u8) -> int
    recommends
        1 <= n <= 8,
{
    if n == 1 {
        1
    } else if n == 2 {
        3
    } else if n == 3 {
        7
    } else if n == 4 {
        15
    } else if n == 5 {
        31
    } else if n == 6 {
        63
    } else if n == 7 {
        127
    } else {
        255
    }
}

/// The number in the low `n` bits of the octet `b`.
pub open spec fn prefix_value(b: u8, n: u8) -> int
    recommends
        1 <= n <= 8,
{
    if n == 1 {
        b as int % 2
    } else if n == 2 {
        b as int % 4
    } else if n == 3 {
        b as int % 8
    } else if n == 4 {
        b as int % 16
    } else if n == 5 {
        b as int % 32
    } else if n == 6 {
        b as int % 64
    } else if n == 7 {
        b as int % 128
    } else {
        b as int
    }
}

/// Reads continuation octets from `s[i]` on. `acc` is the value gathered so
/// far and `weight` the place value of the next group. Gives the value and
/// the index behind the last octet read; nothing when the octets end early
/// or a fifth continuation octet would be needed.
pub open spec fn decode_tail(s: Seq<u8>, i: int, acc: int, weight: int) -> Option<(int, int)>
    decreases s.len() - i,
{
    if i < 1 || i >= s.len() || i > MAX_CONTINUATION {
        None
    } else if s[i] < 128 {
        Some((acc + s[i] as int * weight, i + 1))
    } else {
        decode_tail(s, i + 1, acc + (s[i] as int - 128) * weight, weight * 128)
    }
}

/// The integer with an `n`-bit prefix at the start of `s`, and how many
/// octets it takes. The bits of the first octet above the prefix are ignored.
pub open spec fn spec_decode_integer(s: Seq<u8>, n: u8) -> Option<(int, int)> {
    if n < 1 || n > 8 || s.len() == 0 {
        None
    } else if prefix_value(s[0], n) < prefix_limit(n) {
        Some((prefix_value(s[0], n), 1))
    } else {
        decode_tail(s, 1, prefix_limit(n), 1)
    }
}

/// A decoded integer is not negative and takes at least one octet and at
/// most five, all of them octets of the input.
pub proof fn lemma_decode_used(s: Seq<u8>, n: u8)
    ensures
        match spec_decode_integer(s, n) {
            Some((v, used)) => 0 <= v && 1 <= used <= s.len() && used <= MAX_CONTINUATION + 1,
            None => true,
        },
{
    if 1 <= n <= 8 && s.len() > 0 && prefix_value(s[0], n) >= prefix_limit(n) {
        lemma_decode_tail_used(s, 1, prefix_limit(n), 1);
    }
}

/// Reading continuation octets moves forward, stays inside the input and
/// never lowers the value.
pub proof fn lemma_decode_tail_used(s: Seq<u8>, i: int, acc: int, weight: int)
    requires
        acc >= 0,
        weight >= 0,
    ensures
        match decode_tail(s, i, acc, weight) {
            Some((v, used)) => acc <= v && i < used <= s.len() && used <= MAX_CONTINUATION + 1,
            None => true,
        },
    decreases s.len() - i,
{
    if !(i < 1 || i >= s.len() || i > MAX_CONTINUATION) {
        if s[i] >= 128 {
            assert((s[i] as int - 128) * weight >= 0) by (nonlinear_arith)
                requires
                    s[i] >= 128,
                    weight >= 0,
            ;
            assert(weight * 128 >= 0);
            lemma_decode_tail_used(s, i + 1, acc + (s[i] as int - 128) * weight, weight * 128);
        } else {
            assert(s[i] as int * weight >= 0) by (nonlinear_arith)
                requires
                    weight >= 0,
            ;
        }
    }
}

/// The continuation octets for `x`: groups of seven bits, least significant
/// first.
pub open spec fn encode_tail(x: int) -> Seq<u8>
    decreases x,
{
    if x < 128 {
        seq![x as u8]
    } else {
        seq![(128 + x % 128) as u8] + encode_tail(x / 128)
    }
}

/// The octets that represent `v` with an `n`-bit prefix. The bits of the
/// first octet above the prefix are zero.
pub open spec fn spec_encode_integer(v: int, n: u8) -> Seq<u8> {
    if v < prefix_limit(n) {
        seq![v as u8]
    } else {
        seq![prefix_limit(n) as u8] + encode_tail(v - prefix_limit(n))
    }
}

/// `128^k`, the place value of the continuation group with index `k`.
pub open spec fn pow128(k: nat) -> int
    decreases k,
{
    if k == 0 {
        1
    } else {
        128 * pow128((k - 1) as nat)
    }
}

/// The powers of 128 that fit a 32-bit value, and the first that does not.
pub proof fn lemma_pow128_values()
    ensures
        pow128(0) == 1,
        pow128(1) == 128,
        pow128(2) == 16384,
        pow128(3) == 2097152,
        pow128(4) == 268435456,
        pow128(5) == 34359738368,
{
    reveal_with_fuel(pow128, 6);
}

/// A value below `128^k` takes at most `k` continuation octets, and at
/// least one.
pub proof fn lemma_tail_len(x: int, k: nat)
    requires
        0 <= x < pow128(k),
        k >= 1,
    ensures
        1 <= encode_tail(x).len() <= k,
    decreases k,
{
    if x >= 128 {
        assert(k >= 2) by {
            lemma_pow128_values();
        }
        assert(x / 128 < pow128((k - 1) as nat)) by (nonlinear_arith)
            requires
                0 <= x < 128 * pow128((k - 1) as nat),
        ;
        lemma_tail_len(x / 128, (k - 1) as nat);
    }
}

/// An encoded integer takes at most six octets, whatever 32-bit value it
/// holds, and at most five when the part behind the prefix is below `2^28`.
pub proof fn lemma_encoded_len(v: int, n: u8)
    requires
        1 <= n <= 8,
        0 <= v <= u32::MAX,
    ensures
        1 <= spec_encode_integer(v, n).len() <= 6,
        v < prefix_limit(n) + pow128(4) ==> spec_encode_integer(v, n).len() <= 5,
{
    lemma_pow128_values();
    if v >= prefix_limit(n) {
        lemma_tail_len(v - prefix_limit(n), 5);
        if v < prefix_limit(n) + pow128(4) {
            lemma_tail_len(v - prefix_limit(n), 4);
        }
    }
}

fn limit_of(n: u8) -> (r: u8)
    requires
        1 <= n <= 8,
    ensures
        r == prefix_limit(n),
{
    if n == 1 {
        1
    } else if n == 2 {
        3
    } else if n == 3 {
        7
    } else if n == 4 {
        15
    } else if n == 5 {
        31
    } else if n == 6 {
        63
    } else if n == 7 {
        127
    } else {
        255
    }
}

fn prefix_of(b: u8, n: u8) -> (r: u8)
    requires
        1 <= n <= 8,
    ensures
        r == prefix_value(b, n),
        r <= prefix_limit(n),
{
    if n == 1 {
        b % 2
    } else if n == 2 {
        b % 4
    } else if n == 3 {
        b % 8
    } else if n == 4 {
        b % 16
    } else if n == 5 {
        b % 32
    } else if n == 6 {
        b % 64
    } else if n == 7 {
        b % 128
    } else {
        b
    }
}

/// Decodes the integer with a prefix of `prefix_size` bits at the cursor and
/// moves the cursor behind it.
///
/// Fails when the prefix size is not between 1 and 8, when the octets end
/// before the integer does, and when the integer would take more than five
/// octets.
pub fn decode_integer(bts: &mut Bytes, prefix_size: u8) -> (r: Result<u32, H2Error>)
    ensures
        final(bts).data() == old(bts).data(),
        match spec_decode_integer(old(bts).remaining(), prefix_size) {
            Some((v, used)) => r == Ok::<u32, H2Error>(v as u32) && 0 <= v < 0x1000_00ff
                && final(bts).remaining() == old(bts).remaining().skip(used)
                && final(bts).position() == old(bts).position() + used,
            None => r == Err::<u32, H2Error>(H2Error::CompressionError),
        },
{
    if prefix_size < 1 || prefix_size > 8 {
        return Err(H2Error::CompressionError);
    }
    let ghost s = bts.remaining();
    let limit: u8 = limit_of(prefix_size);
    let first: u8 = match bts.next() {
        Some(b) => b,
        None => {
            return Err(H2Error::CompressionError);
        },
    };
    let prefix: u8 = prefix_of(first, prefix_size);
    if prefix < limit {
        return Ok(prefix as u32);
    }
    let mut value: u32 = limit as u32;
    let mut weight: u32 = 1;
    let mut i: usize = 1;
    proof {
        lemma_pow128_values();
    }
    loop
        invariant
            1 <= i <= MAX_CONTINUATION + 1,
            weight == pow128((i - 1) as nat),
            limit <= value < limit + weight,
            limit <= 255,
            bts.data() == old(bts).data(),
            bts.remaining() == s.skip(i as int),
            bts.position() == old(bts).position() + i,
            s == old(bts).remaining(),
            i <= s.len(),
            spec_decode_integer(s, prefix_size) == decode_tail(s, i as int, value as int, weight as int),
        decreases MAX_CONTINUATION + 1 - i,
    {
        if i > MAX_CONTINUATION {
            return Err(H2Error::CompressionError);
        }
        proof {
            lemma_pow128_values();
        }
        let b: u8 = match bts.next() {
            Some(b) => b,
            None => {
                return Err(H2Error::CompressionError);
            },
        };
        assert(b == s[i as int]);
        assert(bts.remaining() =~= s.skip(i + 1));
        if b < 128 {
            assert(b as int * weight as int <= 127 * weight) by (nonlinear_arith)
                requires
                    b < 128,
                    weight >= 1,
            ;
            value = value + (b as u32) * weight;
            return Ok(value);
        }
        assert((b as int - 128) * weight as int <= 127 * weight && (b as int - 128) * weight as int
            >= 0) by (nonlinear_arith)
            requires
                128 <= b <= 255,
                weight >= 1,
        ;
        value = value + ((b - 128) as u32) * weight;
        proof {
            lemma_pow128_values();
        }
        weight = weight * 128;
        i = i + 1;
    }
}

/// Writes `n` with a prefix of `prefix` bits to the start of `dest` and
/// returns how many octets that took. The bits of the first octet above the
/// prefix are left zero. Six octets of room are enough for every value.
pub fn encode_integer(n: u32, prefix: u8, dest: &mut [u8]) -> (r: u8)
    requires
        1 <= prefix <= 8,
        old(dest)@.len() >= spec_encode_integer(n as int, prefix).len(),
    ensures
        r == spec_encode_integer(n as int, prefix).len(),
        1 <= r <= 6,
        final(dest)@.len() == old(dest)@.len(),
        final(dest)@.take(r as int) == spec_encode_integer(n as int, prefix),
        final(dest)@.skip(r as int) == old(dest)@.skip(r as int),
{
    let ghost enc = spec_encode_integer(n as int, prefix);
    proof {
        lemma_encoded_len(n as int, prefix);
    }
    let limit: u32 = limit_of(prefix) as u32;
    if n < limit {
        dest[0] = n as u8;
        assert(dest@.take(1) =~= enc);
        assert(dest@.skip(1) =~= old(dest)@.skip(1));
        return 1;
    }
    dest[0] = limit as u8;
    let mut x: u32 = n - limit;
    let mut i: usize = 1;
    while x >= 128
        invariant
            1 <= i,
            dest@.len() == old(dest)@.len(),
            enc == spec_encode_integer(n as int, prefix),
            enc.len() <= 6,
            enc.len() <= dest@.len(),
            enc =~= dest@.take(i as int) + encode_tail(x as int),
            enc.len() == i + encode_tail(x as int).len(),
            encode_tail(x as int).len() >= 1,
            forall|k: int| i <= k < dest@.len() ==> dest@[k] == old(dest)@[k],
        decreases x,
    {
        assert(encode_tail(x as int) =~= seq![(128 + x % 128) as u8] + encode_tail(x as int / 128));
        let group: u8 = (128 + x % 128) as u8;
        let ghost before = dest@;
        dest[i] = group;
        x = x / 128;
        i = i + 1;
        proof {
            lemma_pow128_values();
            lemma_tail_len(x as int, 5);
            assert(dest@.take(i as int) =~= before.take(i - 1).push(group));
        }
    }
    dest[i] = x as u8;
    i = i + 1;
    assert(dest@.take(i as int) =~= enc);
    assert(dest@.skip(i as int) =~= old(dest)@.skip(i as int));
    i as u8
}

/// Decoding reads back what encoding wrote, whatever follows it, and reads
/// exactly the octets that were written: for every value whose part behind
/// the prefix is below `2^28`, the encoded form takes at most five octets
/// and decodes to the value.
pub proof fn lemma_integer_roundtrip(v: int, n: u8, rest: Seq<u8>)
    requires
        1 <= n <= 8,
        0 <= v < prefix_limit(n) + pow128(4),
    ensures
        spec_encode_integer(v, n).len() <= 5,
        spec_decode_integer(spec_encode_integer(v, n) + rest, n) == Some(
            (v, spec_encode_integer(v, n).len() as int),
        ),
{
    lemma_pow128_values();
    let enc = spec_encode_integer(v, n);
    let s = enc + rest;
    if v < prefix_limit(n) {
        assert(s[0] == v as u8);
        assert(enc.len() == 1);
        assert(prefix_value(s[0], n) == v);
    } else {
        let x = v - prefix_limit(n);
        lemma_tail_len(x, 4);
        assert(enc[0] == prefix_limit(n) as u8);
        assert(s[0] == enc[0]);
        assert(prefix_value(s[0], n) == prefix_limit(n));
        assert(enc.len() == 1 + encode_tail(x).len());
        assert forall|k: int| 0 <= k < encode_tail(x).len() implies s[1 + k] == encode_tail(x)[k] by {
            assert(s[1 + k] == enc[1 + k]);
        }
        lemma_tail_roundtrip(s, 1, x, prefix_limit(n), 0);
        assert(x * pow128(0) == x);
    }
}

/// Reading continuation octets from index `i` gives back the value `x`
/// whose groups stand there, scaled by the place value reached.
proof fn lemma_tail_roundtrip(s: Seq<u8>, i: int, x: int, acc: int, k: nat)
    requires
        i >= 1,
        0 <= x,
        i + encode_tail(x).len() <= MAX_CONTINUATION + 1,
        i + encode_tail(x).len() <= s.len(),
        forall|j: int| 0 <= j < encode_tail(x).len() ==> s[i + j] == encode_tail(x)[j],
    ensures
        decode_tail(s, i, acc, pow128(k)) == Some(
            (acc + x * pow128(k), i + encode_tail(x).len()),
        ),
    decreases x,
{
    if x < 128 {
        assert(s[i] == encode_tail(x)[0]);
    } else {
        let t = encode_tail(x / 128);
        assert(encode_tail(x) =~= seq![(128 + x % 128) as u8] + t);
        assert(s[i] == encode_tail(x)[0]);
        assert forall|j: int| 0 <= j < t.len() implies s[i + 1 + j] == t[j] by {
            assert(s[i + (j + 1)] == encode_tail(x)[j + 1]);
        }
        lemma_tail_roundtrip(s, i + 1, x / 128, acc + (x % 128) * pow128(k), k + 1);
        assert(acc + (x % 128) * pow128(k) + (x / 128) * pow128(k + 1) == acc + x * pow128(k))
            by (nonlinear_arith)
            requires
                pow128(k + 1) == 128 * pow128(k),
                x >= 0,
        ;
    }
}

} // verus!
