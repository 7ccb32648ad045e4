use vstd::prelude::*;

use crate::cycle::Cycle;

verus! {

/// One megabyte, the threshold used when small entries are skipped.
pub const SMALL_SIZE_BYTES: u64 = 1_048_576;

/// The size filter: entries smaller than the threshold are excluded.
#[derive(Clone, Copy, PartialEq, Eq, Structural, Debug)]
pub enum SizeFilter {
    ShowAll,
    SkipSmall,
}

impl SizeFilter {
    /// The minimum size in bytes an entry must have to pass the filter.
    pub open spec fn spec_bytes(&self) -> u64 {
        match self {
            SizeFilter::ShowAll => 0u64,
            SizeFilter::SkipSmall => SMALL_SIZE_BYTES,
        }
    }

    #[verifier::when_used_as_spec(spec_bytes)]
    pub fn as_bytes(&self) -> (r: u64)
        ensures
            r == self.spec_bytes(),
    {
        match self {
            SizeFilter::ShowAll => 0,
            SizeFilter::SkipSmall => SMALL_SIZE_BYTES,
        }
    }

    /// The label shown in the status line.
    pub fn as_str(&self) -> (r: &'static str)
        ensures
            self is ShowAll ==> r@ == "all"@,
            self is SkipSmall ==> r@ == "skip small"@,
    {
        match self {
            SizeFilter::ShowAll => "all",
            SizeFilter::SkipSmall => "skip small",
        }
    }
}

impl Cycle for SizeFilter {
    open spec fn cycle_seq() -> Seq<SizeFilter> {
        seq![SizeFilter::ShowAll, SizeFilter::SkipSmall]
    }

    open spec fn cycle_index(self) -> int {
        match self {
            SizeFilter::ShowAll => 0,
            SizeFilter::SkipSmall => 1,
        }
    }

    proof fn lemma_cycle_index(self) {
    }

    fn all_values() -> (r: Vec<SizeFilter>)
    {
        let mut v: Vec<SizeFilter> = Vec::new();
        v.push(SizeFilter::ShowAll);
        v.push(SizeFilter::SkipSmall);
        proof {
            assert(v@ =~= Self::cycle_seq());
        }
        v
    }

    fn next(&self) -> (r: SizeFilter)
    {
        proof {
            assert(Self::cycle_seq().len() == 2);
            assert(Self::cycle_seq()[0] == SizeFilter::ShowAll);
            assert(Self::cycle_seq()[1] == SizeFilter::SkipSmall);
        }
        match self {
            SizeFilter::ShowAll => SizeFilter::SkipSmall,
            SizeFilter::SkipSmall => SizeFilter::ShowAll,
        }
    }
}

} // verus!
