//! Cursors over a borrowed octet buffer: one that reads, one that writes.

use vstd::prelude::*;
use vstd::slice::slice_subrange;
use vstd::std_specs::convert::FromSpecImpl;

verus! {

/// A reading cursor over a borrowed buffer.
pub struct Bytes<'buf> {
    buf: &'buf [u8],
    pos: usize,
}

impl<'buf> Bytes<'buf> {
    #[verifier::type_invariant]
    spec fn inv(self) -> bool {
        self.pos <= self.buf@.len()
    }

    /// The whole buffer under the cursor.
    pub closed spec fn data(&self) -> Seq<u8> {
        self.buf@
    }

    /// How many octets have been read.
    pub closed spec fn position(&self) -> nat {
        self.pos as nat
    }

    /// The octets not read yet.
    pub open spec fn remaining(&self) -> Seq<u8> {
        self.data().skip(self.position() as int)
    }

    /// A cursor at the start of `buf`.
    pub fn new(buf: &'buf [u8]) -> (r: Self)
        ensures
            r.data() == buf@,
            r.position() == 0,
            r.remaining() == buf@,
    {
        Self { buf, pos: 0 }
    }

    /// The number of octets not read yet.
    pub fn len(&self) -> (r: usize)
        ensures
            r == self.remaining().len(),
            self.position() + r == self.data().len(),
    {
        proof {
            use_type_invariant(self);
        }
        self.buf.len() - self.pos
    }

    /// The next octet, without reading it.
    pub fn peek(&self) -> (r: Option<u8>)
        ensures
            r == (if self.remaining().len() > 0 {
                Some(self.remaining()[0])
            } else {
                None
            }),
    {
        proof {
            use_type_invariant(self);
        }
        if self.buf.len() > self.pos {
            Some(self.buf[self.pos])
        } else {
            None
        }
    }

    /// Reads the next octet, if there is one.
    pub fn next(&mut self) -> (r: Option<u8>)
        ensures
            final(self).data() == old(self).data(),
            old(self).remaining().len() > 0 ==> r == Some(old(self).remaining()[0])
                && final(self).position() == old(self).position() + 1
                && final(self).remaining() == old(self).remaining().skip(1),
            old(self).remaining().len() == 0 ==> r.is_none() && final(self).position() == old(
                self,
            ).position() && final(self).remaining() == old(self).remaining(),
    {
        proof {
            use_type_invariant(&*self);
        }
        if self.buf.len() > self.pos {
            let tmp = self.buf[self.pos];
            self.pos += 1;
            assert(self.remaining() =~= old(self).remaining().skip(1));
            Some(tmp)
        } else {
            None
        }
    }

    /// Reads the next `n` octets as one borrowed window, or nothing when
    /// fewer than `n` are left.
    pub fn take(&mut self, n: usize) -> (r: Option<&'buf [u8]>)
        ensures
            final(self).data() == old(self).data(),
            n <= old(self).remaining().len() ==> r.is_some() && r.unwrap()@ == old(
                self,
            ).remaining().take(n as int) && final(self).remaining() == old(self).remaining().skip(
                n as int,
            ) && final(self).position() == old(self).position() + n,
            n > old(self).remaining().len() ==> r.is_none() && final(self).position() == old(
                self,
            ).position() && final(self).remaining() == old(self).remaining(),
    {
        proof {
            use_type_invariant(&*self);
        }
        if n <= self.buf.len() - self.pos {
            let window = slice_subrange(self.buf, self.pos, self.pos + n);
            self.pos += n;
            assert(window@ =~= old(self).remaining().take(n as int));
            assert(self.remaining() =~= old(self).remaining().skip(n as int));
            Some(window)
        } else {
            None
        }
    }

    /// Copies octets into `dst` until it is full or the cursor is at its end,
    /// and returns how many were copied.
    pub fn read(&mut self, dst: &mut [u8]) -> (n: usize)
        ensures
            final(self).data() == old(self).data(),
            n == spec_min(old(dst)@.len() as int, old(self).remaining().len() as int),
            final(dst)@.len() == old(dst)@.len(),
            final(dst)@.take(n as int) == old(self).remaining().take(n as int),
            final(dst)@.skip(n as int) == old(dst)@.skip(n as int),
            final(self).remaining() == old(self).remaining().skip(n as int),
            final(self).position() == old(self).position() + n,
    {
        proof {
            use_type_invariant(&*self);
        }
        let total: usize = self.buf.len();
        let left: usize = total - self.pos;
        let max: usize = if dst.len() < left {
            dst.len()
        } else {
            left
        };
        let start: usize = self.pos;
        let mut i: usize = 0;
        while i < max
            invariant
                i <= max,
                max <= dst@.len(),
                start + max <= total,
                total == self.buf@.len(),
                self.pos == start,
                self.buf@ == old(self).buf@,
                start == old(self).pos,
                dst@.len() == old(dst)@.len(),
                forall|k: int| 0 <= k < i ==> dst@[k] == self.buf@[start + k],
                forall|k: int| i <= k < dst@.len() ==> dst@[k] == old(dst)@[k],
            decreases max - i,
        {
            dst[i] = self.buf[start + i];
            i += 1;
        }
        self.pos = start + max;
        assert(dst@.take(max as int) =~= old(self).remaining().take(max as int));
        assert(dst@.skip(max as int) =~= old(dst)@.skip(max as int));
        assert(self.remaining() =~= old(self).remaining().skip(max as int));
        max
    }
}

/// A writing cursor over a borrowed buffer.
pub struct BytesMut<'buf> {
    buf: &'buf mut [u8],
    pos: usize,
}

impl<'buf> BytesMut<'buf> {
    #[verifier::type_invariant]
    spec fn inv(self) -> bool {
        self.pos <= self.buf@.len()
    }

    /// The whole buffer under the cursor, as it stands now.
    pub closed spec fn data(&self) -> Seq<u8> {
        self.buf@
    }

    /// How many octets have been written.
    pub closed spec fn position(&self) -> nat {
        self.pos as nat
    }

    /// A cursor at the start of `buf`.
    pub fn new(buf: &'buf mut [u8]) -> (r: Self)
        ensures
            r.data() == old(buf)@,
            r.position() == 0,
    {
        Self { buf, pos: 0 }
    }

    /// The room that is left behind the cursor.
    pub fn room(&self) -> (r: usize)
        ensures
            self.position() + r == self.data().len(),
    {
        proof {
            use_type_invariant(self);
        }
        self.buf.len() - self.pos
    }

    /// Copies octets of `src` behind the cursor until the buffer is full or
    /// `src` is at its end, and returns how many were copied.
    pub fn write(&mut self, src: &[u8]) -> (n: usize)
        ensures
            old(self).position() <= old(self).data().len(),
            n == spec_min(src@.len() as int, old(self).data().len() - old(self).position()),
            final(self).position() == old(self).position() + n,
            final(self).data() == old(self).data().take(old(self).position() as int) + src@.take(
                n as int,
            ) + old(self).data().skip(old(self).position() + n),
    {
        proof {
            use_type_invariant(&*self);
        }
        let total: usize = self.buf.len();
        let left: usize = total - self.pos;
        let max: usize = if src.len() < left {
            src.len()
        } else {
            left
        };
        let start: usize = self.pos;
        let mut i: usize = 0;
        while i < max
            invariant
                i <= max,
                max <= src@.len(),
                start + max <= total,
                total == self.buf@.len(),
                total == old(self).buf@.len(),
                self.pos == start,
                start == old(self).pos,
                forall|k: int| 0 <= k < start ==> self.buf@[k] == old(self).buf@[k],
                forall|k: int| 0 <= k < i ==> self.buf@[start + k] == src@[k],
                forall|k: int| start + i <= k < total ==> self.buf@[k] == old(self).buf@[k],
            decreases max - i,
        {
            self.buf[start + i] = src[i];
            i += 1;
        }
        self.pos = start + max;
        assert(self.data() =~= old(self).data().take(start as int) + src@.take(max as int) + old(
            self,
        ).data().skip(start + max));
        max
    }

    /// Writes one octet behind the cursor, if there is room for it, and
    /// tells whether there was.
    pub fn put(&mut self, octet: u8) -> (r: bool)
        ensures
            old(self).position() <= old(self).data().len(),
            r == (old(self).position() < old(self).data().len()),
            r ==> final(self).data() == old(self).data().update(old(self).position() as int, octet)
                && final(self).position() == old(self).position() + 1,
            !r ==> final(self).data() == old(self).data() && final(self).position() == old(
                self,
            ).position(),
    {
        proof {
            use_type_invariant(&*self);
        }
        if self.pos < self.buf.len() {
            let at: usize = self.pos;
            self.buf[at] = octet;
            self.pos = at + 1;
            true
        } else {
            false
        }
    }

    /// Nothing is held back, so there is nothing to flush.
    pub fn flush(&mut self)
        ensures
            final(self).data() == old(self).data(),
            final(self).position() == old(self).position(),
    {
    }
}

impl<'buf> From<&'buf [u8]> for Bytes<'buf> {
    /// A cursor at the start of `o`.
    fn from(o: &'buf [u8]) -> (r: Self)
        ensures
            r.data() == o@,
            r.position() == 0,
    {
        Bytes::new(o)
    }
}

impl<'buf> FromSpecImpl<&'buf [u8]> for Bytes<'buf> {
    open spec fn obeys_from_spec() -> bool {
        false
    }

    open spec fn from_spec(o: &'buf [u8]) -> Self {
        arbitrary()
    }
}

impl<'buf> From<&'buf mut [u8]> for BytesMut<'buf> {
    /// A cursor at the start of `o`.
    fn from(o: &'buf mut [u8]) -> (r: Self)
        ensures
            r.data() == old(o)@,
            r.position() == 0,
    {
        BytesMut::new(o)
    }
}

impl<'buf> FromSpecImpl<&'buf mut [u8]> for BytesMut<'buf> {
    open spec fn obeys_from_spec() -> bool {
        false
    }

    open spec fn from_spec(o: &'buf mut [u8]) -> Self {
        arbitrary()
    }
}

/// The smaller of two numbers.
pub open spec fn spec_min(a: int, b: int) -> int {
    if a < b {
        a
    } else {
        b
    }
}

} // verus!
