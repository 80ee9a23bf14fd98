use vstd::prelude::*;

verus! {

/// Error raised by the case model and the study rules: a human-readable message.
#[derive(Clone, Debug)]
pub struct FaultCalcError {
    pub message: String,
}

impl FaultCalcError {
    /// Builds an error that carries `message`.
    pub fn new(message: &str) -> (e: Self)
        ensures
            e.message@ == message@,
    {
        FaultCalcError { message: message.to_string() }
    }
}

} // verus!
