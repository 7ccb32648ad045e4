use vstd::prelude::*;

use crate::cycle::Cycle;

verus! {

/// The classification-type filter: either only the "common" cruft
/// classifications are shown, or all of them.
#[derive(Clone, Copy, PartialEq, Eq, Structural, Debug)]
pub enum TypeFilter {
    CommonOnly,
    AllTypes,
}

impl TypeFilter {
    /// Whether every classification is included, regardless of commonness.
    pub open spec fn spec_includes_all(&self) -> bool {
        self is AllTypes
    }

    #[verifier::when_used_as_spec(spec_includes_all)]
    pub fn includes_all(&self) -> (r: bool)
        ensures
            r == self.spec_includes_all(),
    {
        match self {
            TypeFilter::CommonOnly => false,
            TypeFilter::AllTypes => true,
        }
    }

    /// The label shown in the status line.
    pub fn as_str(&self) -> (r: &'static str)
        ensures
            self is CommonOnly ==> r@ == "common types"@,
            self is AllTypes ==> r@ == "all types"@,
    {
        match self {
            TypeFilter::CommonOnly => "common types",
            TypeFilter::AllTypes => "all types",
        }
    }
}

impl Cycle for TypeFilter {
    open spec fn cycle_seq() -> Seq<TypeFilter> {
        seq![TypeFilter::CommonOnly, TypeFilter::AllTypes]
    }

    open spec fn cycle_index(self) -> int {
        match self {
            TypeFilter::CommonOnly => 0,
            TypeFilter::AllTypes => 1,
        }
    }

    proof fn lemma_cycle_index(self) {
    }

    fn all_values() -> (r: Vec<TypeFilter>)
    {
        let mut v: Vec<TypeFilter> = Vec::new();
        v.push(TypeFilter::CommonOnly);
        v.push(TypeFilter::AllTypes);
        proof {
            assert(v@ =~= Self::cycle_seq());
        }
        v
    }

    fn next(&self) -> (r: TypeFilter)
    {
        proof {
            assert(Self::cycle_seq().len() == 2);
            assert(Self::cycle_seq()[0] == TypeFilter::CommonOnly);
            assert(Self::cycle_seq()[1] == TypeFilter::AllTypes);
        }
        match self {
            TypeFilter::CommonOnly => TypeFilter::AllTypes,
            TypeFilter::AllTypes => TypeFilter::CommonOnly,
        }
    }
}

} // verus!
