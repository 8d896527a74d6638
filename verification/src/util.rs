//! Small ordering helper shared by the tilings.

use vstd::prelude::*;

verus! {

/// Toggles membership of a value in a set-like container: removes the
/// value when present, inserts it otherwise. The editor flips authored
/// cells in and out of the cell set this way.
pub trait Toggle<T>: Sized {
    /// The container's set discipline: no element appears twice.
    spec fn set_wf(self) -> bool;

    /// Membership in the container.
    spec fn has_elem(self, t: T) -> bool;

    fn toggle(&mut self, t: T)
        requires
            old(self).set_wf(),
        ensures
            final(self).set_wf(),
            forall|x: T|
                #[trigger] final(self).has_elem(x) == if x == t {
                    !old(self).has_elem(x)
                } else {
                    old(self).has_elem(x)
                },
    ;
}

/// Orders a pair of values canonically, so that the same physical pair
/// compares equal no matter which side produced it.
pub trait MinMax: Sized {
    /// The total order the pair is normalized by.
    spec fn le_spec(self, other: Self) -> bool;

    /// Returns the two values with the smaller one first.
    fn min_max(self, other: Self) -> (r: (Self, Self))
        ensures
            r == (self, other) || r == (other, self),
            r.0.le_spec(r.1),
    ;
}

} // verus!
