use vstd::prelude::*;

verus! {

/// The output returned by the code reader core.
#[derive(Debug, Clone, PartialEq, Eq)]
pub struct ReaderOutput {
    pub speech: String,
}

} // verus!
