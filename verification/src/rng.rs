use vstd::prelude::*;

verus! {

/// Relies on `rand::random_range` over `lo..hi`: it returns a value drawn
/// from the half-open range. It panics only when the range is empty, which
/// the precondition excludes. Nothing further is assumed of which value
/// comes back.
#[verifier::external_body]
pub(crate) fn rand_range(lo: i32, hi: i32) -> (r: i32)
    requires
        lo < hi,
    ensures
        lo <= r < hi,
{
    rand::random_range(lo..hi)
}

} // verus!
