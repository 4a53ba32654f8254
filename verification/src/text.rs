//! Comparing names.
use vstd::prelude::*;

verus! {

/// `str::eq` of std, which `==` on two strings calls: whether the two hold
/// the same characters.
#[verifier::external_body]
pub(crate) fn same_text(a: &str, b: &str) -> (r: bool)
    ensures
        r == (a@ == b@),
{
    a == b
}

} // verus!
