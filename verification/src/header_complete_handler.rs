//! Handed to the row tag's handler once the header row is complete; lets it stop the parse.
use vstd::prelude::*;

verus! {

/// Lets the row tag's handler stop the parse once the header row is complete.
pub struct HeaderCompleteHandler {
    pub(crate) cancel: bool,
    pub(crate) reason: String,
}

impl HeaderCompleteHandler {
    /// Whether the parse was asked to stop.
    pub closed spec fn spec_cancel(&self) -> bool {
        self.cancel
    }

    /// The reason given for stopping.
    pub closed spec fn spec_reason(&self) -> Seq<char> {
        self.reason@
    }

    /// A handler that has not cancelled anything.
    pub fn new() -> (h: Self)
        ensures
            !h.spec_cancel(),
            h.spec_reason() == Seq::<char>::empty(),
    {
        HeaderCompleteHandler { cancel: false, reason: String::new() }
    }

    /// Stops the parse; `reason` becomes the message of the failure that ends it.
    pub fn cancel_operation(&mut self, reason: String)
        ensures
            final(self).spec_cancel(),
            final(self).spec_reason() == reason@,
    {
        self.cancel = true;
        self.reason = reason;
    }

    /// Whether the parse was asked to stop.
    pub fn is_cancelled(&self) -> (b: bool)
        ensures
            b == self.spec_cancel(),
    {
        self.cancel
    }

    /// The reason given for stopping.
    pub fn reason(&self) -> (r: &String)
        ensures
            r@ == self.spec_reason(),
    {
        &self.reason
    }
}

} // verus!
