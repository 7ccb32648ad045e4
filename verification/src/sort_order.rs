use vstd::prelude::*;

use crate::cycle::Cycle;
use crate::scanner::CruftDirectory;
use crate::text::{lemma_lex_le_total, lemma_lex_le_trans, lex_le, lex_le_chars, str_to_chars};

verus! {

/// The sort key for the entry list.
#[derive(Clone, Copy, PartialEq, Eq, Structural, Debug)]
pub enum SortOrder {
    SizeDescending,
    AgeDescending,
    Alphabetical,
}

/// `a` may stand at or before `b` under sort order `o`: size descending,
/// staleness descending (an absent age counts as zero days), or full path
/// ascending.
pub open spec fn sort_le(o: SortOrder, a: CruftDirectory, b: CruftDirectory) -> bool {
    match o {
        SortOrder::SizeDescending => a.size >= b.size,
        SortOrder::AgeDescending => a.spec_age_days() >= b.spec_age_days(),
        SortOrder::Alphabetical => lex_le(a.path@, b.path@),
    }
}

/// `a` and `b` carry the same sort key under `o`.
pub open spec fn key_eq(o: SortOrder, a: CruftDirectory, b: CruftDirectory) -> bool {
    sort_le(o, a, b) && sort_le(o, b, a)
}

/// The class of entries sharing `e`'s sort key under `o`.
pub open spec fn key_class(o: SortOrder, e: CruftDirectory) -> spec_fn(CruftDirectory) -> bool {
    |y: CruftDirectory| key_eq(o, y, e)
}

/// `s` is ordered under `o`.
pub open spec fn sorted_by(o: SortOrder, s: Seq<CruftDirectory>) -> bool {
    forall|i: int, j: int| 0 <= i < j < s.len() ==> sort_le(o, s[i], s[j])
}

/// Every sort order compares any two entries, one way or the other.
pub proof fn lemma_sort_le_total(o: SortOrder, a: CruftDirectory, b: CruftDirectory)
    ensures
        sort_le(o, a, b) || sort_le(o, b, a),
{
    match o {
        SortOrder::Alphabetical => lemma_lex_le_total(a.path@, b.path@),
        _ => (),
    }
}

/// Every sort order is transitive.
pub proof fn lemma_sort_le_trans(
    o: SortOrder,
    a: CruftDirectory,
    b: CruftDirectory,
    c: CruftDirectory,
)
    requires
        sort_le(o, a, b),
        sort_le(o, b, c),
    ensures
        sort_le(o, a, c),
{
    match o {
        SortOrder::Alphabetical => lemma_lex_le_trans(a.path@, b.path@, c.path@),
        _ => (),
    }
}

/// Stable insertion of `x` into `s`: `x` moves left past exactly the
/// elements that must stand strictly after it, and stops behind any
/// element it compares equal to.
pub open spec fn insert_sorted(
    o: SortOrder,
    s: Seq<CruftDirectory>,
    x: CruftDirectory,
) -> Seq<CruftDirectory>
    decreases s.len(),
{
    if s.len() == 0 {
        seq![x]
    } else if sort_le(o, s.last(), x) {
        s.push(x)
    } else {
        insert_sorted(o, s.drop_last(), x).push(s.last())
    }
}

/// The stable sort of `s` under `o`, defined by inserting the elements
/// left to right.
pub open spec fn sort_spec(o: SortOrder, s: Seq<CruftDirectory>) -> Seq<CruftDirectory>
    decreases s.len(),
{
    if s.len() == 0 {
        Seq::empty()
    } else {
        insert_sorted(o, sort_spec(o, s.drop_last()), s.last())
    }
}

proof fn lemma_insert_sorted(o: SortOrder, s: Seq<CruftDirectory>, x: CruftDirectory)
    ensures
        insert_sorted(o, s, x).len() == s.len() + 1,
        insert_sorted(o, s, x).to_multiset() == s.to_multiset().insert(x),
        forall|i: int|
            0 <= i < insert_sorted(o, s, x).len() ==> insert_sorted(o, s, x)[i] == x || s.contains(
                insert_sorted(o, s, x)[i],
            ),
        sorted_by(o, s) ==> sorted_by(o, insert_sorted(o, s, x)),
    decreases s.len(),
{
    let r = insert_sorted(o, s, x);
    s.to_multiset_ensures();
    if s.len() == 0 {
        Seq::<CruftDirectory>::empty().to_multiset_ensures();
        assert(r =~= Seq::<CruftDirectory>::empty().push(x));
        assert(r.to_multiset() =~= s.to_multiset().insert(x));
    } else if sort_le(o, s.last(), x) {
        assert(r == s.push(x));
        assert(r.to_multiset() =~= s.to_multiset().insert(x));
        assert forall|i: int| 0 <= i < r.len() implies r[i] == x || s.contains(r[i]) by {
            if i < s.len() {
                assert(s[i] == r[i]);
            }
        }
        if sorted_by(o, s) {
            assert forall|i: int, j: int| 0 <= i < j < r.len() implies sort_le(o, r[i], r[j]) by {
                if j == s.len() {
                    if i < s.len() - 1 {
                        lemma_sort_le_trans(o, s[i], s.last(), x);
                    }
                }
            }
        }
    } else {
        let t = insert_sorted(o, s.drop_last(), x);
        lemma_insert_sorted(o, s.drop_last(), x);
        s.drop_last().to_multiset_ensures();
        t.to_multiset_ensures();
        assert(s =~= s.drop_last().push(s.last()));
        assert(s.to_multiset() =~= s.drop_last().to_multiset().insert(s.last()));
        assert(r == t.push(s.last()));
        assert(r.to_multiset() =~= t.to_multiset().insert(s.last()));
        assert(r.to_multiset() =~= s.to_multiset().insert(x));
        assert forall|i: int| 0 <= i < r.len() implies r[i] == x || s.contains(r[i]) by {
            if i < t.len() {
                assert(t[i] == r[i]);
                if t[i] != x {
                    let k = choose|k: int| 0 <= k < s.drop_last().len() && s.drop_last()[k] == t[i];
                    assert(s[k] == t[i]);
                }
            } else {
                assert(r[i] == s.last());
                assert(s[s.len() - 1] == s.last());
            }
        }
        if sorted_by(o, s) {
            assert(sorted_by(o, s.drop_last())) by {
                assert forall|i: int, j: int|
                    0 <= i < j < s.drop_last().len() implies sort_le(
                    o,
                    s.drop_last()[i],
                    s.drop_last()[j],
                ) by {
                    assert(s[i] == s.drop_last()[i]);
                    assert(s[j] == s.drop_last()[j]);
                }
            }
            assert forall|i: int, j: int| 0 <= i < j < r.len() implies sort_le(o, r[i], r[j]) by {
                if j == t.len() {
                    assert(r[j] == s.last());
                    assert(r[i] == x || s.drop_last().contains(r[i]) || r[i] == s.last());
                    if r[i] == x {
                        lemma_sort_le_total(o, s.last(), x);
                    } else if t[i] != x {
                        let k = choose|k: int|
                            0 <= k < s.drop_last().len() && s.drop_last()[k] == t[i];
                        assert(s[k] == r[i]);
                        assert(sort_le(o, s[k], s[s.len() - 1]));
                    }
                }
            }
        }
    }
}

/// The sort is a permutation: same length, same multiset of entries,
/// and the result is ordered under `o`.
pub proof fn lemma_sort_spec(o: SortOrder, s: Seq<CruftDirectory>)
    ensures
        sort_spec(o, s).len() == s.len(),
        sort_spec(o, s).to_multiset() == s.to_multiset(),
        sorted_by(o, sort_spec(o, s)),
    decreases s.len(),
{
    if s.len() > 0 {
        lemma_sort_spec(o, s.drop_last());
        lemma_insert_sorted(o, sort_spec(o, s.drop_last()), s.last());
        s.drop_last().to_multiset_ensures();
        assert(s =~= s.drop_last().push(s.last()));
        assert(s.to_multiset() =~= s.drop_last().to_multiset().insert(s.last()));
    } else {
        assert(s =~= Seq::<CruftDirectory>::empty());
    }
}

proof fn lemma_filter_push(
    s: Seq<CruftDirectory>,
    a: CruftDirectory,
    p: spec_fn(CruftDirectory) -> bool,
)
    ensures
        s.push(a).filter(p) == if p(a) {
            s.filter(p).push(a)
        } else {
            s.filter(p)
        },
{
    reveal(Seq::filter);
    assert(s.push(a).drop_last() =~= s);
    assert(s.push(a).last() == a);
}

proof fn lemma_insert_sorted_filter(
    o: SortOrder,
    s: Seq<CruftDirectory>,
    x: CruftDirectory,
    e: CruftDirectory,
)
    ensures
        insert_sorted(o, s, x).filter(key_class(o, e)) == if key_eq(o, x, e) {
            s.filter(key_class(o, e)).push(x)
        } else {
            s.filter(key_class(o, e))
        },
    decreases s.len(),
{
    reveal(Seq::filter);
    let p = key_class(o, e);
    if s.len() == 0 {
        assert(insert_sorted(o, s, x) =~= Seq::<CruftDirectory>::empty().push(x));
        lemma_filter_push(Seq::<CruftDirectory>::empty(), x, p);
    } else if sort_le(o, s.last(), x) {
        lemma_filter_push(s, x, p);
    } else {
        let t = insert_sorted(o, s.drop_last(), x);
        lemma_insert_sorted_filter(o, s.drop_last(), x, e);
        lemma_filter_push(t, s.last(), p);
        lemma_filter_push(s.drop_last(), s.last(), p);
        assert(s.drop_last().push(s.last()) =~= s);
        if key_eq(o, x, e) && p(s.last()) {
            lemma_sort_le_trans(o, s.last(), e, x);
        }
    }
}

/// Stability: for any pivot entry `e`, the subsequence of entries whose
/// sort key equals `e`'s is exactly the same, in the same order, before
/// and after sorting.
pub proof fn lemma_sort_stable(o: SortOrder, s: Seq<CruftDirectory>, e: CruftDirectory)
    ensures
        sort_spec(o, s).filter(key_class(o, e)) == s.filter(key_class(o, e)),
    decreases s.len(),
{
    reveal(Seq::filter);
    if s.len() > 0 {
        lemma_sort_stable(o, s.drop_last(), e);
        lemma_insert_sorted_filter(o, sort_spec(o, s.drop_last()), s.last(), e);
        lemma_filter_push(s.drop_last(), s.last(), key_class(o, e));
        assert(s.drop_last().push(s.last()) =~= s);
        assert(key_eq(o, s.last(), e) == (key_class(o, e))(s.last()));
    }
}

/// A sequence already ordered under `o` is left exactly as it is.
pub proof fn lemma_sort_sorted_id(o: SortOrder, s: Seq<CruftDirectory>)
    requires
        sorted_by(o, s),
    ensures
        sort_spec(o, s) == s,
    decreases s.len(),
{
    if s.len() > 0 {
        assert(sorted_by(o, s.drop_last())) by {
            assert forall|i: int, j: int|
                0 <= i < j < s.drop_last().len() implies sort_le(
                o,
                s.drop_last()[i],
                s.drop_last()[j],
            ) by {
                assert(s[i] == s.drop_last()[i]);
                assert(s[j] == s.drop_last()[j]);
            }
        }
        lemma_sort_sorted_id(o, s.drop_last());
        if s.drop_last().len() == 0 {
            assert(sort_spec(o, s) =~= s);
        } else {
            assert(s.drop_last().last() == s[s.len() - 2]);
            assert(sort_le(o, s[s.len() - 2], s[s.len() - 1]));
            assert(sort_spec(o, s) == s.drop_last().push(s.last()));
            assert(s.drop_last().push(s.last()) =~= s);
        }
    }
}

/// Sorting twice with the same key is the same as sorting once.
pub proof fn lemma_sort_idempotent(o: SortOrder, s: Seq<CruftDirectory>)
    ensures
        sort_spec(o, sort_spec(o, s)) == sort_spec(o, s),
{
    lemma_sort_spec(o, s);
    lemma_sort_sorted_id(o, sort_spec(o, s));
}

/// When the entries carry pairwise distinct sort keys, the sorted order
/// is strict: every earlier entry compares strictly before every later
/// one, so reading the output backwards reverses the comparison for
/// every pair of entries.
pub proof fn lemma_sort_strict_when_keys_distinct(o: SortOrder, s: Seq<CruftDirectory>)
    requires
        forall|i: int, j: int| 0 <= i < j < s.len() ==> !key_eq(o, s[i], s[j]),
    ensures
        forall|i: int, j: int|
            0 <= i < j < sort_spec(o, s).len() ==> sort_le(o, sort_spec(o, s)[i], sort_spec(o, s)[j])
                && !sort_le(o, sort_spec(o, s)[j], sort_spec(o, s)[i]),
{
    let t = sort_spec(o, s);
    lemma_sort_spec(o, s);
    s.to_multiset_ensures();
    t.to_multiset_ensures();
    assert(s.no_duplicates()) by {
        assert forall|i: int, j: int|
            0 <= i < s.len() && 0 <= j < s.len() && i != j implies s[i] != s[j] by {
            if s[i] == s[j] {
                lemma_sort_le_total(o, s[i], s[i]);
                assert(key_eq(o, s[i], s[j]));
                assert(key_eq(o, s[j], s[i]));
            }
        }
    }
    s.lemma_multiset_has_no_duplicates();
    t.lemma_multiset_has_no_duplicates_conv();
    assert forall|i: int, j: int|
        0 <= i < j < t.len() implies sort_le(o, t[i], t[j]) && !sort_le(o, t[j], t[i]) by {
        assert(t[i] != t[j]);
        assert(t.contains(t[i]));
        assert(t.contains(t[j]));
        assert(t.to_multiset().count(t[i]) > 0);
        assert(t.to_multiset().count(t[j]) > 0);
        assert(s.to_multiset().count(t[i]) > 0);
        assert(s.to_multiset().count(t[j]) > 0);
        assert(s.contains(t[i]));
        assert(s.contains(t[j]));
        let k = choose|k: int| 0 <= k < s.len() && s[k] == t[i];
        let l = choose|l: int| 0 <= l < s.len() && s[l] == t[j];
        assert(k != l);
        if k < l {
            assert(!key_eq(o, s[k], s[l]));
        } else {
            assert(!key_eq(o, s[l], s[k]));
        }
    }
}

proof fn lemma_insert_sorted_position(
    o: SortOrder,
    s: Seq<CruftDirectory>,
    x: CruftDirectory,
    m: int,
)
    requires
        0 <= m <= s.len(),
        m > 0 ==> sort_le(o, s[m - 1], x),
        forall|k: int| m <= k < s.len() ==> !sort_le(o, s[k], x),
    ensures
        insert_sorted(o, s, x) == s.insert(m, x),
    decreases s.len(),
{
    if s.len() == 0 {
        assert(insert_sorted(o, s, x) =~= s.insert(0, x));
    } else if m == s.len() {
        assert(sort_le(o, s.last(), x));
        assert(insert_sorted(o, s, x) == s.push(x));
        assert(s.push(x) =~= s.insert(m, x));
    } else {
        assert(!sort_le(o, s.last(), x));
        assert(forall|k: int| m <= k < s.drop_last().len() ==> s.drop_last()[k] == s[k]);
        if m > 0 {
            assert(s.drop_last()[m - 1] == s[m - 1]);
        }
        lemma_insert_sorted_position(o, s.drop_last(), x, m);
        s.insert_ensures(m, x);
        s.drop_last().insert_ensures(m, x);
        assert(insert_sorted(o, s, x) == s.drop_last().insert(m, x).push(s.last()));
        assert(s.drop_last().insert(m, x).push(s.last()) =~= s.insert(m, x));
    }
}

fn sort_le_exec(o: SortOrder, a: &CruftDirectory, b: &CruftDirectory) -> (r: bool)
    ensures
        r == sort_le(o, *a, *b),
{
    match o {
        SortOrder::SizeDescending => a.size >= b.size,
        SortOrder::AgeDescending => {
            let aa = match a.newest_file_age_days {
                Some(d) => d,
                None => 0,
            };
            let bb = match b.newest_file_age_days {
                Some(d) => d,
                None => 0,
            };
            aa >= bb
        },
        SortOrder::Alphabetical => {
            let av = str_to_chars(a.path.as_str());
            let bv = str_to_chars(b.path.as_str());
            lex_le_chars(&av, &bv)
        },
    }
}

impl SortOrder {
    /// The label shown in the status line.
    pub fn as_str(&self) -> (r: &'static str)
        ensures
            self is SizeDescending ==> r@ == "size"@,
            self is AgeDescending ==> r@ == "age"@,
            self is Alphabetical ==> r@ == "name"@,
    {
        match self {
            SortOrder::SizeDescending => "size",
            SortOrder::AgeDescending => "age",
            SortOrder::Alphabetical => "name",
        }
    }

    /// Stable sort of the entries under this order.
    #[verifier::loop_isolation(false)]
    pub fn sort_entries(&self, entries: &mut Vec<CruftDirectory>)
        ensures
            final(entries)@ == sort_spec(*self, old(entries)@),
    {
        let o = *self;
        let ghost orig = entries@;
        let mut i: usize = 0;
        proof {
            assert(entries@.subrange(0, 0) =~= sort_spec(o, orig.subrange(0, 0)));
            assert(entries@.skip(0) =~= orig.skip(0));
        }
        while i < entries.len()
            invariant
                i <= entries@.len(),
                entries@.len() == orig.len(),
                entries@.subrange(0, i as int) == sort_spec(o, orig.subrange(0, i as int)),
                entries@.skip(i as int) == orig.skip(i as int),
            decreases entries@.len() - i,
        {
            let ghost v0 = entries@;
            proof {
                assert(v0.skip(i as int)[0] == v0[i as int]);
                assert(orig.skip(i as int)[0] == orig[i as int]);
            }
            let x = entries.remove(i);
            let ghost pre = entries@.subrange(0, i as int);
            let ghost tail = entries@.skip(i as int);
            proof {
                assert(x == orig[i as int]);
                assert(entries@ =~= pre + tail);
                assert(pre =~= v0.subrange(0, i as int));
                assert(pre == sort_spec(o, orig.subrange(0, i as int)));
                assert forall|k: int| 0 <= k < tail.len() implies tail[k] == orig[i + 1 + k] by {
                    assert(tail[k] == entries@[i + k]);
                    assert(entries@[i + k] == v0.subrange(i + 1 as int, v0.len() as int)[k]);
                    assert(v0[i + 1 + k] == v0.skip(i as int)[k + 1]);
                    assert(orig.skip(i as int)[k + 1] == orig[i + 1 + k]);
                }
                assert(tail =~= orig.skip(i + 1 as int));
            }
            let mut m: usize = i;
            #[verifier::loop_isolation(true)]
            loop
                invariant_except_break
                    0 <= m <= i,
                    i <= entries@.len(),
                    entries@ == pre + tail,
                    pre.len() == i,
                    forall|k: int| m <= k < i ==> !sort_le(o, pre[k], x),
                ensures
                    0 <= m <= i,
                    m > 0 ==> sort_le(o, pre[m - 1], x),
                    forall|k: int| m <= k < i ==> !sort_le(o, pre[k], x),
                decreases m,
            {
                if m == 0 {
                    break;
                }
                proof {
                    assert(entries@[m - 1] == pre[m - 1]);
                }
                let keep = sort_le_exec(o, &entries[m - 1], &x);
                if keep {
                    break;
                }
                m = m - 1;
            }
            entries.insert(m, x);
            proof {
                lemma_insert_sorted_position(o, pre, x, m as int);
                assert(entries@ =~= (pre + tail).insert(m as int, x));
                assert((pre + tail).insert(m as int, x) =~= pre.insert(m as int, x) + tail);
                assert(entries@.subrange(0, i + 1 as int) =~= pre.insert(m as int, x));
                assert(entries@.skip(i + 1 as int) =~= tail);
                assert(orig.subrange(0, i + 1 as int).drop_last() =~= orig.subrange(0, i as int));
                assert(orig.subrange(0, i + 1 as int).last() == orig[i as int]);
                assert(sort_spec(o, orig.subrange(0, i + 1 as int)) == insert_sorted(
                    o,
                    sort_spec(o, orig.subrange(0, i as int)),
                    x,
                ));
                assert(entries@.subrange(0, i + 1 as int) == sort_spec(
                    o,
                    orig.subrange(0, i + 1 as int),
                ));
            }
            i = i + 1;
        }
        proof {
            assert(entries@.subrange(0, entries@.len() as int) =~= entries@);
            assert(orig.subrange(0, orig.len() as int) =~= orig);
        }
    }
}

impl Cycle for SortOrder {
    open spec fn cycle_seq() -> Seq<SortOrder> {
        seq![SortOrder::SizeDescending, SortOrder::AgeDescending, SortOrder::Alphabetical]
    }

    open spec fn cycle_index(self) -> int {
        match self {
            SortOrder::SizeDescending => 0,
            SortOrder::AgeDescending => 1,
            SortOrder::Alphabetical => 2,
        }
    }

    proof fn lemma_cycle_index(self) {
    }

    fn all_values() -> (r: Vec<SortOrder>)
    {
        let mut v: Vec<SortOrder> = Vec::new();
        v.push(SortOrder::SizeDescending);
        v.push(SortOrder::AgeDescending);
        v.push(SortOrder::Alphabetical);
        proof {
            assert(v@ =~= Self::cycle_seq());
        }
        v
    }

    fn next(&self) -> (r: SortOrder)
    {
        proof {
            assert(Self::cycle_seq().len() == 3);
            assert(Self::cycle_seq()[0] == SortOrder::SizeDescending);
            assert(Self::cycle_seq()[1] == SortOrder::AgeDescending);
            assert(Self::cycle_seq()[2] == SortOrder::Alphabetical);
        }
        match self {
            SortOrder::SizeDescending => SortOrder::AgeDescending,
            SortOrder::AgeDescending => SortOrder::Alphabetical,
            SortOrder::Alphabetical => SortOrder::SizeDescending,
        }
    }
}

} // verus!
