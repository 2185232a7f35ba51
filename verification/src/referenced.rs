//! The relation between the borrowed and the owned form of a value type.
use vstd::prelude::*;

verus! {

/// Borrowed forms that have an owned form with the same view.
pub trait RefToOwned<'a>: View {
    /// The owned form.
    type Owned: View<V = Self::V>;

    /// An owned copy of this value.
    fn ref_to_owned(&self) -> (owned: Self::Owned)
        ensures
            owned@ == self@,
    ;
}

/// Owned forms that lend a borrowed form with the same view.
pub trait OwnedToRef: View {
    /// The borrowed form.
    type Borrowed<'a>: View<V = Self::V> where Self: 'a;

    /// This value, borrowed.
    fn owned_to_ref(&self) -> (borrowed: Self::Borrowed<'_>)
        ensures
            borrowed@ == self@,
    ;
}

} // verus!
