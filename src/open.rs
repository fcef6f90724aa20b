use vstd::prelude::*;

verus! {

/// The answer to a gate-open request: whether the controller took the command.
#[derive(PartialEq, Eq, Structural, Debug, Clone, Copy)]
pub struct Response {
    pub success: bool,
}

} // verus!
