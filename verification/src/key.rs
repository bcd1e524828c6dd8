use vstd::prelude::*;

verus! {

/// A value that can serve as the key of a counter.
///
/// The view of a key is its mathematical identity: two keys are the same key
/// exactly when their views are equal.
pub trait Key: View + Sized {
    /// Decides whether two keys denote the same identity.
    fn same(&self, other: &Self) -> (r: bool)
        ensures
            r == (self@ == other@),
    ;

    /// Produces a second handle on the same identity.
    fn duplicate(&self) -> (r: Self)
        ensures
            r@ == self@,
    ;
}

impl Key for u64 {
    fn same(&self, other: &Self) -> (r: bool) {
        *self == *other
    }

    fn duplicate(&self) -> (r: Self) {
        *self
    }
}

} // verus!
