use vstd::prelude::*;

verus! {

/// A failed assertion, carrying its rendered failure message.
#[derive(Debug, Default)]
pub struct AssertionError {
    pub message: String,
}

impl AssertionError {
    pub fn new(message: String) -> (r: AssertionError)
        ensures
            r.message == message,
    {
        AssertionError { message }
    }

    /// The rendered failure message.
    pub fn to_string(&self) -> (r: String)
        ensures
            r@ == self.message@,
    {
        self.message.clone()
    }
}

} // verus!
