//! The number of a handle.
use crate::text::push_decimal;
use vstd::prelude::*;
use vstd::string::StringExecFns;

verus! {

use crate::text::decimal;

/// A reference to a remote object by the number of its handle.
#[derive(Clone, Copy, Debug, PartialEq, Eq, PartialOrd, Ord, Hash, Structural)]
pub struct BinderRef(pub u32);

impl BinderRef {
    pub fn from_raw(n: u32) -> (r: Self)
        ensures
            r == BinderRef(n),
    {
        BinderRef(n)
    }

    pub fn as_u32(&self) -> (r: u32)
        ensures
            r == self.0,
    {
        self.0
    }

    /// The reference as text.
    pub fn to_text(&self) -> (r: String)
        ensures
            r@ == "BinderRef("@ + decimal(self.0 as nat) + ")"@,
    {
        let mut out: String = "BinderRef(".to_owned();
        push_decimal(&mut out, self.0 as u64);
        out.append(")");
        out
    }
}

impl Default for BinderRef {
    fn default() -> (r: Self)
        ensures
            r == BinderRef(0),
    {
        BinderRef(0)
    }
}

} // verus!
