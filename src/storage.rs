//! What a client keeps about the packages it knows.
use vstd::prelude::*;
use crate::validation::{Validator, empty_state};

verus! {

/// A known package: its name, the encoded checkpoint it was last seen under,
/// and its validation state.
#[derive(Debug)]
pub struct PackageInfo {
    pub name: String,
    pub checkpoint: Option<Vec<u8>>,
    pub state: Validator,
}

impl PackageInfo {
    /// A package with no checkpoint and the state of an empty log.
    pub fn new(name: String) -> (r: PackageInfo)
        ensures
            r.name@ == name@,
            r.checkpoint.is_none(),
            r.state@ == empty_state(),
    {
        PackageInfo { name, checkpoint: None, state: Validator::new() }
    }
}

} // verus!
