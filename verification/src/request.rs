//! A request as the layer above the decoder sees it.

use vstd::prelude::*;

verus! {

/// A request: the header lines that it came with.
pub struct Request {
    pub headers: Vec<String>,
}

impl Request {
    /// A request with the one header line `test`.
    pub fn new() -> (r: Self)
        ensures
            r.headers@.len() == 1,
            r.headers@[0]@ == "test"@,
    {
        let mut v: Vec<String> = Vec::with_capacity(1);
        v.push("test".to_owned());
        Request { headers: v }
    }
}

} // verus!
