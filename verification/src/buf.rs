//! The trait of a type that holds the one mutable reference to a buffer.
//! The frame views are built on it: each maps out the buffer it points to.

use vstd::prelude::*;

verus! {

/// A type that holds a borrowed buffer and lets it be read and written.
pub trait Buf<'buf, T>: Sized {
    /// What the buffer holds.
    spec fn items(&self) -> Seq<T>;

    /// The buffer, to read.
    fn buf(&self) -> (r: &[T])
        ensures
            r@ == self.items(),
    ;

    /// The buffer, to write. What is written through the result is what the
    /// buffer holds afterwards.
    fn mut_buf(&mut self) -> (r: &mut [T])
        ensures
            r@ == old(self).items(),
            final(self).items() == final(r)@,
    ;

    /// A value that points to `buf`.
    fn point_to(buf: &'buf mut [T]) -> (r: Self)
        ensures
            r.items() == old(buf)@,
    ;
}

} // verus!
