use vstd::prelude::*;
use crate::structs::Gate;

verus! {

/// The gates that a token allows.
#[derive(PartialEq, Eq, Debug)]
pub struct Response {
    pub gates: Vec<Gate>,
}

} // verus!
