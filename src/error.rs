use vstd::prelude::*;

verus! {

/// Why one fetch cycle failed. Each of them aborts only the cycle it
/// happened in; the next tick tries again.
#[derive(Clone, Copy, Debug, PartialEq, Eq, Structural)]
pub enum FetchError {
    /// The store could not be reached, queried or committed.
    Storage,
    /// `public_input` or `proof` is not a JSON list of 256-bit words.
    Deserialization,
    /// `aux_data` is present but its `deposit` field is missing, not a
    /// list, or holds a value outside `0..=65535`.
    MalformedAuxData,
    /// The dispatch channel is full or closed.
    Dispatch,
}

impl FetchError {
    /// A short description for logs.
    pub fn message(&self) -> (r: String) {
        match self {
            FetchError::Storage => String::from_str("storage error"),
            FetchError::Deserialization => String::from_str("malformed public input or proof"),
            FetchError::MalformedAuxData => String::from_str("malformed deposit aux data"),
            FetchError::Dispatch => String::from_str("dispatch channel full or closed"),
        }
    }
}

} // verus!
