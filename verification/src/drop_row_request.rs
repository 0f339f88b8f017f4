//! What a tag handler asks of the row it is reading.
use vstd::prelude::*;

verus! {

/// `Error(reason)` turns the row into an invalid one carrying `reason`; `Ignore` skips it.
pub enum DropRowRequest {
    Error(String),
    Ignore,
}

impl Clone for DropRowRequest {
    fn clone(&self) -> (r: Self)
        ensures
            r == *self,
    {
        match self {
            DropRowRequest::Error(s) => DropRowRequest::Error(s.clone()),
            DropRowRequest::Ignore => DropRowRequest::Ignore,
        }
    }
}

/// A copy of an optional request.
pub fn clone_request(r: &Option<DropRowRequest>) -> (c: Option<DropRowRequest>)
    ensures
        c == *r,
{
    match r {
        Some(d) => Some(d.clone()),
        None => None,
    }
}

} // verus!
