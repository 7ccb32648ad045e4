use vstd::prelude::*;

use crate::cycle::Cycle;

verus! {

/// The age filter: when active, entries whose staleness is below the
/// threshold (in days) are excluded from the view.
#[derive(Clone, Copy, PartialEq, Eq, Structural, Debug)]
pub enum AgeFilter {
    NoLimit,
    Days90,
    Days180,
    Days365,
}

impl AgeFilter {
    /// The threshold in days, or `None` when the filter is inactive.
    pub open spec fn spec_days(&self) -> Option<u64> {
        match self {
            AgeFilter::NoLimit => None,
            AgeFilter::Days90 => Some(90u64),
            AgeFilter::Days180 => Some(180u64),
            AgeFilter::Days365 => Some(365u64),
        }
    }

    #[verifier::when_used_as_spec(spec_days)]
    pub fn as_days(&self) -> (r: Option<u64>)
        ensures
            r == self.spec_days(),
    {
        match self {
            AgeFilter::NoLimit => None,
            AgeFilter::Days90 => Some(90),
            AgeFilter::Days180 => Some(180),
            AgeFilter::Days365 => Some(365),
        }
    }

    /// The label shown in the status line.
    pub fn as_str(&self) -> (r: &'static str)
        ensures
            self is NoLimit ==> r@ == "all"@,
            self is Days90 ==> r@ == "90 days"@,
            self is Days180 ==> r@ == "180 days"@,
            self is Days365 ==> r@ == "365 days"@,
    {
        match self {
            AgeFilter::NoLimit => "all",
            AgeFilter::Days90 => "90 days",
            AgeFilter::Days180 => "180 days",
            AgeFilter::Days365 => "365 days",
        }
    }
}

impl Cycle for AgeFilter {
    open spec fn cycle_seq() -> Seq<AgeFilter> {
        seq![AgeFilter::NoLimit, AgeFilter::Days90, AgeFilter::Days180, AgeFilter::Days365]
    }

    open spec fn cycle_index(self) -> int {
        match self {
            AgeFilter::NoLimit => 0,
            AgeFilter::Days90 => 1,
            AgeFilter::Days180 => 2,
            AgeFilter::Days365 => 3,
        }
    }

    proof fn lemma_cycle_index(self) {
    }

    fn all_values() -> (r: Vec<AgeFilter>)
    {
        let mut v: Vec<AgeFilter> = Vec::new();
        v.push(AgeFilter::NoLimit);
        v.push(AgeFilter::Days90);
        v.push(AgeFilter::Days180);
        v.push(AgeFilter::Days365);
        proof {
            assert(v@ =~= Self::cycle_seq());
        }
        v
    }

    fn next(&self) -> (r: AgeFilter)
    {
        proof {
            assert(Self::cycle_seq().len() == 4);
            assert(Self::cycle_seq()[0] == AgeFilter::NoLimit);
            assert(Self::cycle_seq()[1] == AgeFilter::Days90);
            assert(Self::cycle_seq()[2] == AgeFilter::Days180);
            assert(Self::cycle_seq()[3] == AgeFilter::Days365);
        }
        match self {
            AgeFilter::NoLimit => AgeFilter::Days90,
            AgeFilter::Days90 => AgeFilter::Days180,
            AgeFilter::Days180 => AgeFilter::Days365,
            AgeFilter::Days365 => AgeFilter::NoLimit,
        }
    }
}

} // verus!
