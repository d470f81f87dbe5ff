//! Fixed-capacity collections whose operations fail with an explicit error
//! instead of growing: a bitmap over a fixed byte span and a bounded stack.

pub mod bitmap;
pub mod stack;

use vstd::prelude::*;

verus! {

#[derive(Debug, Copy, Clone, PartialEq, Eq, Structural)]
pub enum StaticCollectionError {
    OutOfRange,
}

impl StaticCollectionError {
    /// A short description of the error, in place of formatting machinery.
    pub fn describe(&self) -> (r: &'static str)
        ensures
            r@ == "Out of index range"@,
    {
        let out = "Out of index range";
        proof {
            reveal_strlit("Out of index range");
        }
        out
    }
}

} // verus!
