use vstd::prelude::*;

use crate::age_filter::AgeFilter;
use crate::scanner::{is_common_cruft, spec_is_common, CruftDirectory};
use crate::size_filter::SizeFilter;
use crate::sort_order::{sort_spec, SortOrder};
use crate::type_filter::TypeFilter;

verus! {

/// The filtering predicate: large enough, of an included classification,
/// and — when the age filter is active — stale enough, an absent
/// staleness counting as zero days.
pub open spec fn passes_filter(
    size_filter: SizeFilter,
    type_filter: TypeFilter,
    age_filter: AgeFilter,
    e: CruftDirectory,
) -> bool {
    &&& e.size >= size_filter.spec_bytes()
    &&& (type_filter.spec_includes_all() || spec_is_common(e.crufty_reason))
    &&& match age_filter.spec_days() {
        None => true,
        Some(days) => e.spec_age_days() >= days,
    }
}

/// `passes_filter` as a predicate on entries, for a fixed configuration.
pub open spec fn filter_pred(
    size_filter: SizeFilter,
    type_filter: TypeFilter,
    age_filter: AgeFilter,
) -> spec_fn(CruftDirectory) -> bool {
    |e: CruftDirectory| passes_filter(size_filter, type_filter, age_filter, e)
}

/// What the view shows: the entries that pass the configured filters, in
/// insertion order, then stably sorted under the configured order.
pub open spec fn view_spec(
    dirs: Seq<CruftDirectory>,
    size_filter: SizeFilter,
    type_filter: TypeFilter,
    age_filter: AgeFilter,
    sort_order: SortOrder,
) -> Seq<CruftDirectory> {
    sort_spec(sort_order, dirs.filter(filter_pred(size_filter, type_filter, age_filter)))
}

fn passes_filter_exec(
    size_filter: SizeFilter,
    type_filter: TypeFilter,
    age_filter: AgeFilter,
    e: &CruftDirectory,
) -> (r: bool)
    ensures
        r == passes_filter(size_filter, type_filter, age_filter, *e),
{
    if e.size < size_filter.as_bytes() {
        return false;
    }
    if !type_filter.includes_all() && !is_common_cruft(&e.crufty_reason) {
        return false;
    }
    match age_filter.as_days() {
        None => true,
        Some(days) => {
            let age = match e.newest_file_age_days {
                Some(d) => d,
                None => 0,
            };
            age >= days
        },
    }
}

proof fn lemma_filter_take_step(
    s: Seq<CruftDirectory>,
    i: int,
    p: spec_fn(CruftDirectory) -> bool,
)
    requires
        0 <= i < s.len(),
    ensures
        s.subrange(0, i + 1).filter(p) == if p(s[i]) {
            s.subrange(0, i).filter(p).push(s[i])
        } else {
            s.subrange(0, i).filter(p)
        },
{
    reveal(Seq::filter);
    assert(s.subrange(0, i + 1).drop_last() =~= s.subrange(0, i));
    assert(s.subrange(0, i + 1).last() == s[i]);
}

/// The filter/sort engine: a pure transform from an entry snapshot and
/// the filter/sort configuration to the ordered view.
pub fn filter_dirs(
    dirs: &Vec<CruftDirectory>,
    size_filter: SizeFilter,
    type_filter: TypeFilter,
    age_filter: AgeFilter,
    sort_order: SortOrder,
) -> (r: Vec<CruftDirectory>)
    ensures
        r@ == view_spec(dirs@, size_filter, type_filter, age_filter, sort_order),
{
    let ghost p = filter_pred(size_filter, type_filter, age_filter);
    let mut kept: Vec<CruftDirectory> = Vec::new();
    let mut i: usize = 0;
    proof {
        reveal(Seq::filter);
        assert(dirs@.subrange(0, 0) =~= Seq::<CruftDirectory>::empty());
    }
    while i < dirs.len()
        invariant
            p == filter_pred(size_filter, type_filter, age_filter),
            i <= dirs@.len(),
            kept@ == dirs@.subrange(0, i as int).filter(p),
        decreases dirs@.len() - i,
    {
        if passes_filter_exec(size_filter, type_filter, age_filter, &dirs[i]) {
            kept.push(dirs[i].clone());
        }
        proof {
            lemma_filter_take_step(dirs@, i as int, p);
        }
        i = i + 1;
    }
    proof {
        assert(dirs@.subrange(0, dirs@.len() as int) =~= dirs@);
    }
    sort_order.sort_entries(&mut kept);
    kept
}

/// Raising the size threshold never adds entries: with the type and age
/// filters fixed, a stricter size filter keeps a subset, so the view
/// count cannot grow.
pub proof fn lemma_filter_monotonic_min_size(
    dirs: Seq<CruftDirectory>,
    loose: SizeFilter,
    strict: SizeFilter,
    type_filter: TypeFilter,
    age_filter: AgeFilter,
)
    requires
        loose.spec_bytes() <= strict.spec_bytes(),
    ensures
        dirs.filter(filter_pred(strict, type_filter, age_filter)).len() <= dirs.filter(
            filter_pred(loose, type_filter, age_filter),
        ).len(),
    decreases dirs.len(),
{
    reveal(Seq::filter);
    if dirs.len() > 0 {
        lemma_filter_monotonic_min_size(dirs.drop_last(), loose, strict, type_filter, age_filter);
    }
}

} // verus!
