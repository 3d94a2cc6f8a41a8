//! Adapters that borrow a cursor instead of taking it: one that can look at
//! the next octet without reading it, one that stops after a number of
//! octets. When the adapter is dropped the cursor stands where the adapter
//! left it.

use vstd::prelude::*;
use crate::bytes::Bytes;

verus! {

/// A borrowed cursor with one octet of lookahead.
pub struct BPeekable<'a, 'buf> {
    iter: &'a mut Bytes<'buf>,
    peeked: Option<Option<u8>>,
}

impl<'a, 'buf> BPeekable<'a, 'buf> {
    /// The octets that this adapter has still to give out.
    pub closed spec fn remaining(&self) -> Seq<u8> {
        match self.peeked {
            Some(Some(v)) => seq![v] + self.iter.remaining(),
            Some(None) => Seq::empty(),
            None => self.iter.remaining(),
        }
    }

    /// The next octet, which stays the next octet.
    pub fn bpeek(&mut self) -> (r: Option<u8>)
        ensures
            final(self).remaining() == old(self).remaining(),
            r == (if old(self).remaining().len() > 0 {
                Some(old(self).remaining()[0])
            } else {
                None
            }),
    {
        if self.peeked.is_none() {
            let ghost before = self.iter.remaining();
            let next = self.iter.next();
            self.peeked = Some(next);
            proof {
                if before.len() > 0 {
                    assert(seq![before[0]] + before.skip(1) =~= before);
                } else {
                    assert(before =~= Seq::<u8>::empty());
                }
            }
        }
        match self.peeked {
            Some(Some(value)) => Some(value),
            _ => None,
        }
    }

    /// Reads the next octet, if there is one.
    pub fn next(&mut self) -> (r: Option<u8>)
        ensures
            old(self).remaining().len() > 0 ==> r == Some(old(self).remaining()[0])
                && final(self).remaining() == old(self).remaining().skip(1),
            old(self).remaining().len() == 0 ==> r.is_none() && final(self).remaining().len() == 0,
    {
        match self.peeked {
            Some(Some(b)) => {
                self.peeked = None;
                assert((seq![b] + self.iter.remaining()).skip(1) =~= self.iter.remaining());
                Some(b)
            },
            Some(None) => None,
            None => self.iter.next(),
        }
    }
}

/// Gives a cursor its lookahead adapter.
pub trait BorrowPeekable<'buf> {
    spec fn octets_left(&self) -> Seq<u8>;

    fn borrow_peekable<'a>(&'a mut self) -> (r: BPeekable<'a, 'buf>)
        ensures
            r.remaining() == old(self).octets_left(),
    ;
}

impl<'buf> BorrowPeekable<'buf> for Bytes<'buf> {
    open spec fn octets_left(&self) -> Seq<u8> {
        self.remaining()
    }

    fn borrow_peekable<'a>(&'a mut self) -> (r: BPeekable<'a, 'buf>) {
        BPeekable { iter: self, peeked: None }
    }
}

/// A borrowed cursor that gives out at most a fixed number of octets.
pub struct BTake<'a, 'buf> {
    iter: &'a mut Bytes<'buf>,
    take: usize,
    count: usize,
}

impl<'a, 'buf> BTake<'a, 'buf> {
    /// How many octets this adapter may still give out.
    pub closed spec fn allowance(&self) -> nat {
        if self.count < self.take {
            (self.take - self.count) as nat
        } else {
            0
        }
    }

    /// The octets left in the cursor underneath.
    pub closed spec fn source(&self) -> Seq<u8> {
        self.iter.remaining()
    }

    /// The octets that this adapter has still to give out.
    pub open spec fn remaining(&self) -> Seq<u8> {
        if self.allowance() < self.source().len() {
            self.source().take(self.allowance() as int)
        } else {
            self.source()
        }
    }

    /// Reads the next octet, if the allowance and the cursor both have one.
    pub fn next(&mut self) -> (r: Option<u8>)
        ensures
            old(self).remaining().len() > 0 ==> r == Some(old(self).remaining()[0])
                && final(self).remaining() == old(self).remaining().skip(1)
                && final(self).allowance() == old(self).allowance() - 1
                && final(self).source() == old(self).source().skip(1),
            old(self).remaining().len() == 0 ==> r.is_none() && final(self).remaining().len() == 0
                && final(self).source() == old(self).source(),
    {
        if self.count < self.take {
            let r = self.iter.next();
            if r.is_some() {
                self.count += 1;
                assert(self.remaining() =~= old(self).remaining().skip(1));
            }
            r
        } else {
            None
        }
    }

    /// The lower bound that the adapter reports for what is left: the
    /// number it was asked to take.
    pub fn size_hint(&self) -> (r: (usize, Option<usize>))
        ensures
            r.1.is_none(),
            self.allowance() <= r.0,
    {
        (self.take, None)
    }
}

/// Gives a cursor its bounded adapter.
pub trait BorrowTake<'buf> {
    spec fn octets_ahead(&self) -> Seq<u8>;

    fn borrow_take<'a>(&'a mut self, take: usize) -> (r: BTake<'a, 'buf>)
        ensures
            r.allowance() == take,
            r.source() == old(self).octets_ahead(),
    ;
}

impl<'buf> BorrowTake<'buf> for Bytes<'buf> {
    open spec fn octets_ahead(&self) -> Seq<u8> {
        self.remaining()
    }

    fn borrow_take<'a>(&'a mut self, take: usize) -> (r: BTake<'a, 'buf>) {
        BTake { iter: self, take, count: 0 }
    }
}

} // verus!
