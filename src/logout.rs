use vstd::prelude::*;

verus! {

/// The answer to a logout.
#[derive(PartialEq, Eq, Structural, Debug, Clone, Copy)]
pub struct Response {
    pub success: bool,
}

} // verus!
