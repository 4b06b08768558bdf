use vstd::prelude::*;
use vstd::string::*;

verus! {

/// A bot that submits nothing.
#[derive(Copy, Clone, Debug)]
pub struct BrainDead {}

impl Default for BrainDead {
    fn default() -> Self {
        BrainDead {  }
    }
}

impl BrainDead {
    pub fn to_string(&self) -> (r: String)
        ensures
            r@ == "Brain Dead"@,
    {
        String::from_str("Brain Dead")
    }
}

} // verus!
