use vstd::prelude::*;

verus! {

/// What can go wrong while recording a sample: the guard of a fan-out
/// target collection is unusable, so the append could not be made there.
#[derive(Debug)]
pub enum Error {
    Concurency(String),
}

impl Error {
    /// The human-readable description of the failure.
    pub fn message(&self) -> (m: &String) {
        match self {
            Error::Concurency(m) => m,
        }
    }
}

} // verus!
