//! Errors that carry the story of how they came about: a chain of messages,
//! the latest first, to which each caller on the way up can add its own.

use vstd::prelude::*;

verus! {

/// A link in a chain of errors: a message, and the error that it was put
/// on top of.
#[derive(Debug)]
pub struct ErrLink {
    error: String,
    link: Option<Box<ErrLink>>,
}

/// The result of a function whose error is a chain.
pub type Kresult<T> = Result<T, ErrLink>;

impl ErrLink {
    /// The messages of the chain, the latest first.
    pub closed spec fn chain(&self) -> Seq<Seq<char>>
        decreases self,
    {
        match self.link {
            Some(link) => seq![self.error@] + link.chain(),
            None => seq![self.error@],
        }
    }

    /// A chain of one message.
    pub fn new(error: String) -> (r: Self)
        ensures
            r.chain() == seq![error@],
    {
        ErrLink { error, link: None }
    }

    /// The chain with `err` put on top.
    pub fn attach_links(self, err: String) -> (r: ErrLink)
        ensures
            r.chain() == seq![err@] + self.chain(),
    {
        ErrLink { error: err, link: Some(Box::new(self)) }
    }

    /// The message at `index` in the chain, 0 being the latest.
    pub fn message(&self, index: usize) -> (r: Option<&String>)
        ensures
            index < self.chain().len() ==> r.is_some() && r.unwrap()@ == self.chain()[index as int],
            index >= self.chain().len() ==> r.is_none(),
    {
        let mut i: usize = 0;
        let mut at: &ErrLink = self;
        loop
            invariant
                i <= index,
                at.chain().len() >= 1,
                i + at.chain().len() == self.chain().len(),
                forall|k: int| 0 <= k < at.chain().len() ==> at.chain()[k] == self.chain()[i + k],
            decreases at.chain().len(),
        {
            if i == index {
                assert(at.chain()[0] == at.error@);
                return Some(&at.error);
            }
            match &at.link {
                Some(next) => {
                    assert forall|k: int| 0 <= k < next.chain().len() implies next.chain()[k]
                        == self.chain()[i + 1 + k] by {
                        assert(at.chain()[k + 1] == next.chain()[k]);
                    }
                    at = &**next;
                    i = i + 1;
                },
                None => {
                    return None;
                },
            }
        }
    }
}

/// Results to whose error a message can be added.
pub trait ErrorChain<T> {
    /// Puts the message that `f` makes on top of the chain of an error, and
    /// leaves a success alone. `f` is called only for an error.
    fn chain_err<F: FnOnce() -> String>(self, f: F) -> (r: Kresult<T>)
        requires
            call_requires(f, ()),
    ;
}

impl<T> ErrorChain<T> for Result<T, ErrLink> {
    fn chain_err<F: FnOnce() -> String>(self, f: F) -> (r: Kresult<T>)
        ensures
            match self {
                Ok(v) => r.is_ok() && r->Ok_0 == v,
                Err(e) => r.is_err() && r->Err_0.chain().len() == e.chain().len() + 1
                    && r->Err_0.chain().skip(1) == e.chain() && exists|s: String|
                    call_ensures(f, (), s) && r->Err_0.chain()[0] == s@,
            },
    {
        match self {
            Ok(v) => Ok(v),
            Err(e) => {
                let msg = f();
                let ghost made = msg;
                let linked = e.attach_links(msg);
                assert(linked.chain().skip(1) =~= e.chain());
                assert(call_ensures(f, (), made) && linked.chain()[0] == made@);
                Err(linked)
            },
        }
    }
}

} // verus!
