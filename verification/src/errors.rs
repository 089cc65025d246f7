use vstd::prelude::*;

verus! {

/// An error of this crate: a single human-readable message.
#[derive(Debug, Clone)]
pub struct GemError(pub String);

impl GemError {
    /// The message carried by this error.
    pub fn message(&self) -> (m: &str)
        ensures
            m@ == self.0@,
    {
        self.0.as_str()
    }
}

} // verus!
