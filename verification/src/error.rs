use vstd::prelude::*;

verus! {

/// The one failure kind of the library: a null reference was supplied
/// where a live one was required. It carries a descriptive message.
///
/// Every other kind of absence (a missing key, an empty container) is
/// reported as `None`, never as an error.
#[derive(Debug, Clone, PartialEq, Eq)]
pub struct NullPointerError(pub String);

impl NullPointerError {
    /// The descriptive message carried by the error.
    pub fn message(&self) -> (msg: &String)
        ensures
            msg == &self.0,
    {
        &self.0
    }
}

} // verus!
