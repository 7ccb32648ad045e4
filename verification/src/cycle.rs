use vstd::prelude::*;

verus! {

/// A closed, ordered set of values with a wrapping successor operation.
///
/// Each implementing type exposes its full ordered value set
/// (`cycle_seq`), the position of every value within that set
/// (`cycle_index`), and a successor operation (`next`) that advances to
/// the following value, wrapping around at the end.
pub trait Cycle: Sized + Copy {
    /// The full ordered value set, as a mathematical sequence.
    spec fn cycle_seq() -> Seq<Self>;

    /// The position of this value within `cycle_seq`.
    spec fn cycle_index(self) -> int;

    /// Every value sits at its stated position in a non-empty value set.
    proof fn lemma_cycle_index(self)
        ensures
            Self::cycle_seq().len() > 0,
            0 <= self.cycle_index() < Self::cycle_seq().len(),
            Self::cycle_seq()[self.cycle_index()] == self,
    ;

    /// All possible values, in order.
    fn all_values() -> (r: Vec<Self>)
        ensures
            r@ == Self::cycle_seq(),
    ;

    /// The next value in the cycle, wrapping at the end of the value set.
    fn next(&self) -> (r: Self)
        ensures
            r == Self::cycle_seq()[(self.cycle_index() + 1) % (Self::cycle_seq().len() as int)],
    ;
}

/// The successor of `x` in its cycle: the value after `x` in the ordered
/// value set, wrapping at the end.
pub open spec fn spec_next<T: Cycle>(x: T) -> T {
    T::cycle_seq()[(x.cycle_index() + 1) % (T::cycle_seq().len() as int)]
}

} // verus!
