use vstd::prelude::*;
use vstd::string::*;

verus! {

/// A bot that submits nothing.
#[derive(Copy, Clone, Debug)]
pub struct BoneHead {}

impl Default for BoneHead {
    fn default() -> Self {
        BoneHead {  }
    }
}

impl BoneHead {
    pub fn to_string(&self) -> (r: String)
        ensures
            r@ == "Bonehead"@,
    {
        String::from_str("Bonehead")
    }
}

} // verus!
