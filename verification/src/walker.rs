use vstd::prelude::*;

use vstd::string::{StrSliceExecFns, StringExecFns};

use crate::registry::{has_path, Registry};
use crate::scanner::{check_crufty, classify_spec, CruftDirectory, CruftyReason};
use crate::text::{chars_eq_str, str_to_chars};

verus! {

/// How deep below a matched directory the staleness sub-scan looks for
/// the newest file.
pub const STALENESS_SCAN_DEPTH: u64 = 3;

/// A regular file as the scan sees it: its name, its size in bytes, and
/// its age in whole days since last modification (absent when the
/// timestamp could not be read).
pub struct FsFile {
    pub name: String,
    pub size: u64,
    pub age_days: Option<u64>,
}

/// A directory subtree as the scan sees it. The walker works on this
/// plain-value picture of the filesystem; whoever owns the real disk
/// reads it into this shape once.
pub struct FsDir {
    /// The directory's own name (final path segment).
    pub name: String,
    /// Age in whole days since the directory itself was modified.
    pub age_days: Option<u64>,
    /// The regular files directly inside.
    pub files: Vec<FsFile>,
    /// The directories directly inside.
    pub subdirs: Vec<FsDir>,
}

/// A name that can stand as one path segment: non-empty and free of the
/// path separator.
pub open spec fn valid_name(n: Seq<char>) -> bool {
    n.len() > 0 && forall|k: int| 0 <= k < n.len() ==> n[k] != '/'
}

/// Well-formedness of a subtree: every child directory has a usable
/// segment name, sibling directory names are distinct, and the children
/// are themselves well formed.
pub open spec fn wf_dir(d: FsDir) -> bool
    decreases d,
{
    &&& forall|i: int|
        0 <= i < d.subdirs@.len() ==> valid_name(#[trigger] d.subdirs@[i].name@)
    &&& forall|i: int, j: int|
        0 <= i < j < d.subdirs@.len() ==> d.subdirs@[i].name@ != d.subdirs@[j].name@
    &&& forall|i: int| 0 <= i < d.subdirs@.len() ==> wf_dir(#[trigger] d.subdirs@[i])
}

/// Caps a mathematical tally at what a 64-bit counter can hold.
pub open spec fn cap_u64(x: int) -> u64 {
    if x > u64::MAX {
        u64::MAX
    } else {
        x as u64
    }
}

/// Total bytes of a run of files.
pub open spec fn files_size(fs: Seq<FsFile>) -> int
    decreases fs.len(),
{
    if fs.len() == 0 {
        0
    } else {
        files_size(fs.drop_last()) + fs.last().size
    }
}

/// Total bytes of all regular files transitively under `d`, unbounded in
/// depth.
pub open spec fn dir_size(d: FsDir) -> int
    decreases d, 1int,
{
    files_size(d.files@) + dirs_size(d.subdirs@)
}

/// Total bytes of all regular files transitively under a run of
/// directories.
pub open spec fn dirs_size(s: Seq<FsDir>) -> int
    decreases s, 0int,
{
    if s.len() == 0 {
        0
    } else {
        dirs_size(s.drop_last()) + dir_size(s.last())
    }
}

proof fn lemma_files_size_nonneg(fs: Seq<FsFile>)
    ensures
        files_size(fs) >= 0,
    decreases fs.len(),
{
    if fs.len() > 0 {
        lemma_files_size_nonneg(fs.drop_last());
    }
}

proof fn lemma_dir_size_nonneg(d: FsDir)
    ensures
        dir_size(d) >= 0,
    decreases d, 1int,
{
    lemma_files_size_nonneg(d.files@);
    lemma_dirs_size_nonneg(d.subdirs@);
}

proof fn lemma_dirs_size_nonneg(s: Seq<FsDir>)
    ensures
        dirs_size(s) >= 0,
    decreases s, 0int,
{
    if s.len() > 0 {
        lemma_dirs_size_nonneg(s.drop_last());
        lemma_dir_size_nonneg(s.last());
    }
}

/// The smaller of two optional ages, ignoring absent values.
pub open spec fn opt_min(a: Option<u64>, b: Option<u64>) -> Option<u64> {
    match (a, b) {
        (Some(x), Some(y)) => if x <= y {
            Some(x)
        } else {
            Some(y)
        },
        (Some(x), None) => Some(x),
        (None, Some(y)) => Some(y),
        (None, None) => None,
    }
}

/// The age of the newest file in a run of files: the minimum known age.
pub open spec fn files_min_age(fs: Seq<FsFile>) -> Option<u64>
    decreases fs.len(),
{
    if fs.len() == 0 {
        None
    } else {
        opt_min(files_min_age(fs.drop_last()), fs.last().age_days)
    }
}

/// The age of the newest file within `depth` levels below `d` (the files
/// directly inside `d` count as level zero).
pub open spec fn subtree_min_age(d: FsDir, depth: nat) -> Option<u64>
    decreases d, 1int,
{
    opt_min(
        files_min_age(d.files@),
        if depth == 0 {
            None
        } else {
            subdirs_min_age(d.subdirs@, (depth - 1) as nat)
        },
    )
}

/// The age of the newest file within `depth` levels below a run of
/// directories.
pub open spec fn subdirs_min_age(s: Seq<FsDir>, depth: nat) -> Option<u64>
    decreases s, 0int,
{
    if s.len() == 0 {
        None
    } else {
        opt_min(subdirs_min_age(s.drop_last(), depth), subtree_min_age(s.last(), depth))
    }
}

/// The staleness of a matched directory: the age of the newest file the
/// bounded sub-scan finds, or the directory's own age if it finds none.
pub open spec fn staleness(d: FsDir) -> Option<u64> {
    match subtree_min_age(d, STALENESS_SCAN_DEPTH as nat) {
        Some(a) => Some(a),
        None => d.age_days,
    }
}

/// A file with the given name sits directly inside `d`.
pub open spec fn has_file_named(d: FsDir, name: Seq<char>) -> bool {
    exists|i: int| 0 <= i < d.files@.len() && d.files@[i].name@ == name
}

/// Saturating addition on 64-bit tallies.
fn sat_add(a: u64, b: u64) -> (r: u64)
    ensures
        r == cap_u64(a + b),
{
    if b > u64::MAX - a {
        u64::MAX
    } else {
        a + b
    }
}

/// Whether a file with the given name sits directly inside `d`.
fn dir_has_file(d: &FsDir, name: &str) -> (r: bool)
    ensures
        r == has_file_named(*d, name@),
{
    let mut i: usize = 0;
    while i < d.files.len()
        invariant
            i <= d.files@.len(),
            forall|k: int| 0 <= k < i ==> d.files@[k].name@ != name@,
        decreases d.files@.len() - i,
    {
        let fname = str_to_chars(d.files[i].name.as_str());
        if chars_eq_str(&fname, name) {
            return true;
        }
        i = i + 1;
    }
    proof {
        if has_file_named(*d, name@) {
            let k = choose|k: int| 0 <= k < d.files@.len() && d.files@[k].name@ == name@;
            assert(d.files@[k].name@ != name@);
        }
    }
    false
}

/// Total bytes of all regular files transitively under `d`, saturating
/// at what the counter can hold.
pub fn dir_size_exec(d: &FsDir) -> (r: u64)
    ensures
        r == cap_u64(dir_size(*d)),
    decreases *d,
{
    let mut total: u64 = 0;
    let mut i: usize = 0;
    proof {
        assert(d.files@.subrange(0, 0) =~= Seq::<FsFile>::empty());
    }
    while i < d.files.len()
        invariant
            i <= d.files@.len(),
            total == cap_u64(files_size(d.files@.subrange(0, i as int))),
        decreases d.files@.len() - i,
    {
        proof {
            lemma_files_size_nonneg(d.files@.subrange(0, i as int));
            assert(d.files@.subrange(0, i + 1 as int).drop_last() =~= d.files@.subrange(
                0,
                i as int,
            ));
            assert(d.files@.subrange(0, i + 1 as int).last() == d.files@[i as int]);
        }
        total = sat_add(total, d.files[i].size);
        i = i + 1;
    }
    proof {
        assert(d.files@.subrange(0, d.files@.len() as int) =~= d.files@);
        assert(d.subdirs@.subrange(0, 0) =~= Seq::<FsDir>::empty());
        lemma_files_size_nonneg(d.files@);
    }
    let mut j: usize = 0;
    while j < d.subdirs.len()
        invariant
            j <= d.subdirs@.len(),
            total == cap_u64(
                files_size(d.files@) + dirs_size(d.subdirs@.subrange(0, j as int)),
            ),
            files_size(d.files@) >= 0,
        decreases d.subdirs@.len() - j,
    {
        proof {
            lemma_dirs_size_nonneg(d.subdirs@.subrange(0, j as int));
            lemma_dir_size_nonneg(d.subdirs@[j as int]);
            assert(d.subdirs@.subrange(0, j + 1 as int).drop_last() =~= d.subdirs@.subrange(
                0,
                j as int,
            ));
            assert(d.subdirs@.subrange(0, j + 1 as int).last() == d.subdirs@[j as int]);
            assert(decreases_to!(*d => d.subdirs@[j as int]));
        }
        let sub = dir_size_exec(&d.subdirs[j]);
        total = sat_add(total, sub);
        j = j + 1;
    }
    proof {
        assert(d.subdirs@.subrange(0, d.subdirs@.len() as int) =~= d.subdirs@);
    }
    total
}

fn opt_min_exec(a: Option<u64>, b: Option<u64>) -> (r: Option<u64>)
    ensures
        r == opt_min(a, b),
{
    match (a, b) {
        (Some(x), Some(y)) => if x <= y {
            Some(x)
        } else {
            Some(y)
        },
        (Some(x), None) => Some(x),
        (None, Some(y)) => Some(y),
        (None, None) => None,
    }
}

fn subtree_min_age_exec(d: &FsDir, depth: u64) -> (r: Option<u64>)
    ensures
        r == subtree_min_age(*d, depth as nat),
    decreases *d,
{
    let mut best: Option<u64> = None;
    let mut i: usize = 0;
    proof {
        assert(d.files@.subrange(0, 0) =~= Seq::<FsFile>::empty());
    }
    while i < d.files.len()
        invariant
            i <= d.files@.len(),
            best == files_min_age(d.files@.subrange(0, i as int)),
        decreases d.files@.len() - i,
    {
        proof {
            assert(d.files@.subrange(0, i + 1 as int).drop_last() =~= d.files@.subrange(
                0,
                i as int,
            ));
            assert(d.files@.subrange(0, i + 1 as int).last() == d.files@[i as int]);
        }
        best = opt_min_exec(best, d.files[i].age_days);
        i = i + 1;
    }
    proof {
        assert(d.files@.subrange(0, d.files@.len() as int) =~= d.files@);
    }
    if depth == 0 {
        proof {
            assert(opt_min(files_min_age(d.files@), None) == files_min_age(d.files@));
        }
        return best;
    }
    let mut sub_best: Option<u64> = None;
    let mut j: usize = 0;
    proof {
        assert(d.subdirs@.subrange(0, 0) =~= Seq::<FsDir>::empty());
    }
    while j < d.subdirs.len()
        invariant
            depth >= 1,
            j <= d.subdirs@.len(),
            sub_best == subdirs_min_age(d.subdirs@.subrange(0, j as int), (depth - 1) as nat),
        decreases d.subdirs@.len() - j,
    {
        proof {
            assert(d.subdirs@.subrange(0, j + 1 as int).drop_last() =~= d.subdirs@.subrange(
                0,
                j as int,
            ));
            assert(d.subdirs@.subrange(0, j + 1 as int).last() == d.subdirs@[j as int]);
            assert(decreases_to!(*d => d.subdirs@[j as int]));
        }
        let s = subtree_min_age_exec(&d.subdirs[j], depth - 1);
        sub_best = opt_min_exec(sub_best, s);
        j = j + 1;
    }
    proof {
        assert(d.subdirs@.subrange(0, d.subdirs@.len() as int) =~= d.subdirs@);
    }
    opt_min_exec(best, sub_best)
}

/// The staleness of a matched directory: the newest file age found by
/// the bounded sub-scan, with the directory's own age as the fallback.
pub fn staleness_exec(d: &FsDir) -> (r: Option<u64>)
    ensures
        r == staleness(*d),
{
    let scanned = subtree_min_age_exec(d, STALENESS_SCAN_DEPTH);
    match scanned {
        Some(a) => Some(a),
        None => d.age_days,
    }
}

/// A child's path: the parent path, a separator, and the child's name.
pub open spec fn joined(parent: Seq<char>, name: Seq<char>) -> Seq<char> {
    parent + seq!['/'] + name
}

/// Joins a directory name onto its parent's path.
pub fn join_path(parent: &String, name: &String) -> (r: String)
    ensures
        r@ == joined(parent@, name@),
{
    let mut r = parent.clone();
    r.append("/");
    r.append(name.as_str());
    proof {
        reveal_strlit("/");
        assert("/"@ =~= seq!['/']);
        assert(r@ =~= joined(parent@, name@));
    }
    r
}

/// What a discovered entry holds, at the mathematical level: the scan is
/// specified as the sequence of these.
pub ghost struct ScanEntry {
    pub path: Seq<char>,
    pub size: u64,
    pub reason: CruftyReason,
    pub age_days: Option<u64>,
}

/// The mathematical content of a run of discovered entries.
pub open spec fn entry_models(s: Seq<CruftDirectory>) -> Seq<ScanEntry> {
    s.map_values(|e: CruftDirectory| entry_model(e))
}

/// The mathematical content of a discovered entry.
pub open spec fn entry_model(e: CruftDirectory) -> ScanEntry {
    ScanEntry {
        path: e.path@,
        size: e.size,
        reason: e.crufty_reason,
        age_days: e.newest_file_age_days,
    }
}

/// How the walk classifies one directory: the rule table applied to its
/// path, gated by the marker files directly inside it (`.rustc_info.json`
/// as the build-tool marker, `CACHEDIR.TAG` as the cache sentinel).
pub open spec fn dir_classified(d: FsDir, path: Seq<char>) -> Option<CruftyReason> {
    classify_spec(
        path,
        has_file_named(d, ".rustc_info.json"@),
        has_file_named(d, "CACHEDIR.TAG"@),
    )
}

/// The entries the walk discovers under `d` (standing at `path`, with
/// `depth` levels of descent allowed): a matched directory yields exactly
/// one entry and is pruned; an unmatched one is descended into while
/// depth remains.
pub open spec fn scan_spec(d: FsDir, path: Seq<char>, depth: nat) -> Seq<ScanEntry>
    decreases d, 1int,
{
    match dir_classified(d, path) {
        Some(reason) => seq![
            ScanEntry {
                path: path,
                size: cap_u64(dir_size(d)),
                reason: reason,
                age_days: staleness(d),
            },
        ],
        None => if depth == 0 {
            Seq::empty()
        } else {
            scan_dirs_spec(d.subdirs@, path, (depth - 1) as nat)
        },
    }
}

/// The entries the walk discovers under a run of sibling directories.
pub open spec fn scan_dirs_spec(s: Seq<FsDir>, parent: Seq<char>, depth: nat) -> Seq<ScanEntry>
    decreases s, 0int,
{
    if s.len() == 0 {
        Seq::empty()
    } else {
        scan_dirs_spec(s.drop_last(), parent, depth) + scan_spec(
            s.last(),
            joined(parent, s.last().name@),
            depth,
        )
    }
}

/// How many filesystem entries the walk visits under `d`: the directory
/// itself always; its files and children only when it is neither pruned
/// nor at the depth limit.
pub open spec fn visits(d: FsDir, path: Seq<char>, depth: nat) -> int
    decreases d, 1int,
{
    if dir_classified(d, path) is Some {
        1
    } else if depth == 0 {
        1
    } else {
        1 + d.files@.len() + visits_dirs(d.subdirs@, path, (depth - 1) as nat)
    }
}

/// How many filesystem entries the walk visits under a run of siblings.
pub open spec fn visits_dirs(s: Seq<FsDir>, parent: Seq<char>, depth: nat) -> int
    decreases s, 0int,
{
    if s.len() == 0 {
        0
    } else {
        visits_dirs(s.drop_last(), parent, depth) + visits(
            s.last(),
            joined(parent, s.last().name@),
            depth,
        )
    }
}

proof fn lemma_visits_nonneg(d: FsDir, path: Seq<char>, depth: nat)
    ensures
        visits(d, path, depth) >= 1,
    decreases d, 1int,
{
    if dir_classified(d, path) is None && depth > 0 {
        lemma_visits_dirs_nonneg(d.subdirs@, path, (depth - 1) as nat);
    }
}

proof fn lemma_visits_dirs_nonneg(s: Seq<FsDir>, parent: Seq<char>, depth: nat)
    ensures
        visits_dirs(s, parent, depth) >= 0,
    decreases s, 0int,
{
    if s.len() > 0 {
        lemma_visits_dirs_nonneg(s.drop_last(), parent, depth);
        lemma_visits_nonneg(s.last(), joined(parent, s.last().name@), depth);
    }
}

/// One walk step over a subtree: returns the discovered entries and the
/// number of filesystem entries visited (saturating).
pub fn scan_tree(d: &FsDir, path: &String, depth: usize) -> (r: (Vec<CruftDirectory>, u64))
    ensures
        entry_models(r.0@) == scan_spec(*d, path@, depth as nat),
        r.1 == cap_u64(visits(*d, path@, depth as nat)),
    decreases *d,
{
    let marker = dir_has_file(d, ".rustc_info.json");
    let tag = dir_has_file(d, "CACHEDIR.TAG");
    match check_crufty(path.as_str(), marker, tag) {
        Some(reason) => {
            let size = dir_size_exec(d);
            let age = staleness_exec(d);
            let mut out: Vec<CruftDirectory> = Vec::new();
            out.push(
                CruftDirectory {
                    path: path.clone(),
                    size,
                    crufty_reason: reason,
                    newest_file_age_days: age,
                },
            );
            proof {
                assert(entry_models(out@) =~= scan_spec(*d, path@, depth as nat));
            }
            (out, 1)
        },
        None => {
            if depth == 0 {
                let out: Vec<CruftDirectory> = Vec::new();
                proof {
                    assert(entry_models(out@) =~= scan_spec(*d, path@, depth as nat));
                }
                (out, 1)
            } else {
                let mut out: Vec<CruftDirectory> = Vec::new();
                let mut count: u64 = sat_add(1, d.files.len() as u64);
                let mut j: usize = 0;
                proof {
                    assert(d.subdirs@.subrange(0, 0) =~= Seq::<FsDir>::empty());
                    assert(entry_models(out@) =~= Seq::<ScanEntry>::empty());
                }
                while j < d.subdirs.len()
                    invariant
                        depth >= 1,
                        j <= d.subdirs@.len(),
                        entry_models(out@) == scan_dirs_spec(
                            d.subdirs@.subrange(0, j as int),
                            path@,
                            (depth - 1) as nat,
                        ),
                        count == cap_u64(
                            1 + d.files@.len() + visits_dirs(
                                d.subdirs@.subrange(0, j as int),
                                path@,
                                (depth - 1) as nat,
                            ),
                        ),
                    decreases d.subdirs@.len() - j,
                {
                    proof {
                        assert(decreases_to!(*d => d.subdirs@[j as int]));
                    }
                    let child_path = join_path(path, &d.subdirs[j].name);
                    let (mut sub, subcount) = scan_tree(&d.subdirs[j], &child_path, depth - 1);
                    let ghost out_before = out@;
                    let ghost sub_view = sub@;
                    out.append(&mut sub);
                    count = sat_add(count, subcount);
                    proof {
                        let ghost pre = d.subdirs@.subrange(0, j as int);
                        let ghost ext = d.subdirs@.subrange(0, j + 1 as int);
                        assert(ext.drop_last() =~= pre);
                        assert(ext.last() == d.subdirs@[j as int]);
                        assert(out@ == out_before + sub_view);
                        assert(entry_models(out@) =~= entry_models(out_before)
                            + entry_models(sub_view));
                        assert(entry_models(out@) == scan_dirs_spec(
                            ext,
                            path@,
                            (depth - 1) as nat,
                        ));
                        let va = 1 + d.files@.len() + visits_dirs(pre, path@, (depth - 1) as nat);
                        let vb = visits(
                            d.subdirs@[j as int],
                            joined(path@, d.subdirs@[j as int].name@),
                            (depth - 1) as nat,
                        );
                        lemma_visits_dirs_nonneg(pre, path@, (depth - 1) as nat);
                        lemma_visits_nonneg(
                            d.subdirs@[j as int],
                            joined(path@, d.subdirs@[j as int].name@),
                            (depth - 1) as nat,
                        );
                        assert(count == cap_u64(cap_u64(va) + cap_u64(vb)));
                        assert(cap_u64(cap_u64(va) + cap_u64(vb)) == cap_u64(va + vb));
                    }
                    j = j + 1;
                }
                proof {
                    assert(d.subdirs@.subrange(0, d.subdirs@.len() as int) =~= d.subdirs@);
                }
                (out, count)
            }
        },
    }
}

/// `a` names a directory strictly above `b`: `b` is `a`, then the
/// separator, then something.
pub open spec fn is_strict_ancestor(a: Seq<char>, b: Seq<char>) -> bool {
    &&& a.len() < b.len()
    &&& b.subrange(0, a.len() as int) == a
    &&& b[a.len() as int] == '/'
}

/// Neither path is the other, nor an ancestor of the other.
pub open spec fn paths_independent(a: Seq<char>, b: Seq<char>) -> bool {
    &&& a != b
    &&& !is_strict_ancestor(a, b)
    &&& !is_strict_ancestor(b, a)
}

/// `p` lies at or strictly below `q`.
pub open spec fn within(q: Seq<char>, p: Seq<char>) -> bool {
    p == q || is_strict_ancestor(q, p)
}

proof fn lemma_within_prefix(q: Seq<char>, a: Seq<char>)
    requires
        within(q, a),
    ensures
        a.len() >= q.len(),
        forall|k: int| 0 <= k < q.len() ==> a[k] == q[k],
        a.len() > q.len() ==> a[q.len() as int] == '/',
{
    if a != q {
        assert forall|k: int| 0 <= k < q.len() implies a[k] == q[k] by {
            assert(a.subrange(0, q.len() as int)[k] == a[k]);
        }
    }
}

proof fn lemma_joined_index(parent: Seq<char>, n: Seq<char>)
    ensures
        joined(parent, n).len() == parent.len() + 1 + n.len(),
        forall|k: int| 0 <= k < parent.len() ==> joined(parent, n)[k] == parent[k],
        joined(parent, n)[parent.len() as int] == '/',
        forall|k: int| 0 <= k < n.len() ==> joined(parent, n)[parent.len() + 1 + k] == n[k],
{
    let half = parent + seq!['/'];
    assert forall|k: int| 0 <= k < parent.len() implies joined(parent, n)[k] == parent[k] by {
        assert(joined(parent, n)[k] == half[k]);
        assert(half[k] == parent[k]);
    }
    assert(joined(parent, n)[parent.len() as int] == half[parent.len() as int]);
    assert forall|k: int| 0 <= k < n.len() implies joined(parent, n)[parent.len() + 1 + k]
        == n[k] by {
        assert(joined(parent, n)[half.len() + k] == n[k]);
    }
}

proof fn lemma_diverge_prefix_name(
    parent: Seq<char>,
    n1: Seq<char>,
    n2: Seq<char>,
    a: Seq<char>,
    b: Seq<char>,
)
    requires
        valid_name(n1),
        valid_name(n2),
        n1.len() < n2.len(),
        forall|k: int| 0 <= k < n1.len() ==> n1[k] == n2[k],
        within(joined(parent, n1), a),
        within(joined(parent, n2), b),
    ensures
        a != b,
        !is_strict_ancestor(a, b),
        !is_strict_ancestor(b, a),
{
    let p = parent.len() as int;
    let q1 = joined(parent, n1);
    let q2 = joined(parent, n2);
    lemma_joined_index(parent, n1);
    lemma_joined_index(parent, n2);
    lemma_within_prefix(q1, a);
    lemma_within_prefix(q2, b);
    let t = p + 1 + n1.len() as int;
    assert(q1.len() == t);
    assert(q2.len() > t);
    assert(b.len() > t);
    assert(b[t] == q2[t]);
    assert(q2[t] == n2[n1.len() as int]);
    assert(b[t] != '/');
    assert(a.len() >= t);
    if a == b {
        assert(a.len() > t);
        assert(a[t] == '/');
        assert(false);
    }
    if is_strict_ancestor(a, b) {
        if a.len() == t {
            assert(b[t] == '/');
        } else {
            assert(a[t] == '/');
            assert(b.subrange(0, a.len() as int)[t] == b[t]);
            assert(b[t] == a[t]);
        }
        assert(false);
    }
    if is_strict_ancestor(b, a) {
        assert(b.len() < a.len());
        assert(a.len() > t);
        assert(a[t] == '/');
        assert(a.subrange(0, b.len() as int)[t] == a[t]);
        assert(a[t] == b[t]);
        assert(false);
    }
}

/// Two children of the same parent with different names only ever hold
/// paths that are independent of each other.
proof fn lemma_joined_diverge(
    parent: Seq<char>,
    n1: Seq<char>,
    n2: Seq<char>,
    a: Seq<char>,
    b: Seq<char>,
)
    requires
        valid_name(n1),
        valid_name(n2),
        n1 != n2,
        within(joined(parent, n1), a),
        within(joined(parent, n2), b),
    ensures
        paths_independent(a, b),
{
    let p = parent.len() as int;
    let q1 = joined(parent, n1);
    let q2 = joined(parent, n2);
    let l1 = n1.len() as int;
    let l2 = n2.len() as int;
    lemma_joined_index(parent, n1);
    lemma_joined_index(parent, n2);
    lemma_within_prefix(q1, a);
    lemma_within_prefix(q2, b);
    if exists|k: int| 0 <= k < l1 && k < l2 && n1[k] != n2[k] {
        let k = choose|k: int| 0 <= k < l1 && k < l2 && n1[k] != n2[k];
        let t = p + 1 + k;
        assert(a[t] == q1[t]);
        assert(q1[t] == n1[k]);
        assert(b[t] == q2[t]);
        assert(q2[t] == n2[k]);
        if a == b {
            assert(false);
        }
        if is_strict_ancestor(a, b) {
            assert(t < a.len());
            assert(b.subrange(0, a.len() as int)[t] == b[t]);
            assert(false);
        }
        if is_strict_ancestor(b, a) {
            assert(t < b.len());
            assert(a.subrange(0, b.len() as int)[t] == a[t]);
            assert(false);
        }
    } else {
        if l1 == l2 {
            assert forall|k: int| 0 <= k < l1 implies n1[k] == n2[k] by {
            }
            assert(n1 =~= n2);
            assert(false);
        } else if l1 < l2 {
            lemma_diverge_prefix_name(parent, n1, n2, a, b);
        } else {
            lemma_diverge_prefix_name(parent, n2, n1, b, a);
        }
    }
}

proof fn lemma_ancestor_of_child(parent: Seq<char>, n: Seq<char>)
    ensures
        is_strict_ancestor(parent, joined(parent, n)),
{
    lemma_joined_index(parent, n);
    assert(joined(parent, n).subrange(0, parent.len() as int) =~= parent);
}

proof fn lemma_within_trans(p: Seq<char>, q: Seq<char>, e: Seq<char>)
    requires
        is_strict_ancestor(p, q),
        within(q, e),
    ensures
        is_strict_ancestor(p, e),
{
    if e != q {
        lemma_within_prefix(q, e);
        assert forall|k: int| 0 <= k < p.len() implies e[k] == p[k] by {
            assert(e[k] == q[k]);
            assert(q.subrange(0, p.len() as int)[k] == q[k]);
        }
        assert(e.subrange(0, p.len() as int) =~= p);
        assert(e[p.len() as int] == q[p.len() as int]);
    }
}

/// The pruning guarantee: among the entries one walk discovers, no two
/// are the same path and neither is ever an ancestor of the other, and
/// every discovered path lies at or below the walked root.
pub proof fn lemma_scan_no_nested_entries(d: FsDir, path: Seq<char>, depth: nat)
    requires
        wf_dir(d),
    ensures
        forall|i: int|
            0 <= i < scan_spec(d, path, depth).len() ==> within(
                path,
                (#[trigger] scan_spec(d, path, depth)[i]).path,
            ),
        forall|i: int, j: int|
            0 <= i < j < scan_spec(d, path, depth).len() ==> paths_independent(
                scan_spec(d, path, depth)[i].path,
                scan_spec(d, path, depth)[j].path,
            ),
    decreases d, 1int,
{
    let es = scan_spec(d, path, depth);
    if dir_classified(d, path) is Some {
        assert(es.len() == 1);
        assert(es[0].path == path);
    } else if depth == 0 {
    } else {
        lemma_scan_dirs_paths(d.subdirs@, path, (depth - 1) as nat);
        assert forall|i: int| 0 <= i < es.len() implies within(path, (#[trigger] es[i]).path) by {
            let k = choose|k: int|
                0 <= k < d.subdirs@.len() && within(
                    joined(path, d.subdirs@[k].name@),
                    es[i].path,
                );
            lemma_ancestor_of_child(path, d.subdirs@[k].name@);
            lemma_within_trans(path, joined(path, d.subdirs@[k].name@), es[i].path);
        }
    }
}

proof fn lemma_scan_dirs_paths(s: Seq<FsDir>, parent: Seq<char>, depth: nat)
    requires
        forall|i: int| 0 <= i < s.len() ==> valid_name((#[trigger] s[i]).name@),
        forall|i: int, j: int| 0 <= i < j < s.len() ==> s[i].name@ != s[j].name@,
        forall|i: int| 0 <= i < s.len() ==> wf_dir(#[trigger] s[i]),
    ensures
        forall|i: int|
            0 <= i < scan_dirs_spec(s, parent, depth).len() ==> exists|k: int|
                0 <= k < s.len() && within(
                    joined(parent, s[k].name@),
                    (#[trigger] scan_dirs_spec(s, parent, depth)[i]).path,
                ),
        forall|i: int, j: int|
            0 <= i < j < scan_dirs_spec(s, parent, depth).len() ==> paths_independent(
                scan_dirs_spec(s, parent, depth)[i].path,
                scan_dirs_spec(s, parent, depth)[j].path,
            ),
    decreases s, 0int,
{
    if s.len() > 0 {
        let e1 = scan_dirs_spec(s.drop_last(), parent, depth);
        let qlast = joined(parent, s.last().name@);
        let e2 = scan_spec(s.last(), qlast, depth);
        let es = scan_dirs_spec(s, parent, depth);
        assert(es == e1 + e2);
        assert(forall|i: int| 0 <= i < s.drop_last().len() ==> s.drop_last()[i] == s[i]);
        lemma_scan_dirs_paths(s.drop_last(), parent, depth);
        assert(s.last() == s[s.len() - 1]);
        assert(wf_dir(s.last()));
        lemma_scan_no_nested_entries(s.last(), qlast, depth);
        assert forall|i: int|
            0 <= i < es.len() implies exists|k: int|
            0 <= k < s.len() && within(
                joined(parent, s[k].name@),
                (#[trigger] es[i]).path,
            ) by {
            if i < e1.len() {
                assert(es[i] == e1[i]);
                let k = choose|k: int|
                    0 <= k < s.drop_last().len() && within(
                        joined(parent, s.drop_last()[k].name@),
                        e1[i].path,
                    );
                assert(s.drop_last()[k] == s[k]);
                assert(0 <= k < s.len() && within(joined(parent, s[k].name@), es[i].path));
            } else {
                assert(es[i] == e2[i - e1.len()]);
                assert(within(qlast, es[i].path));
                let k = s.len() - 1;
                assert(0 <= k < s.len() && within(joined(parent, s[k].name@), es[i].path));
            }
        }
        assert forall|i: int, j: int|
            0 <= i < j < es.len() implies paths_independent(es[i].path, es[j].path) by {
            if j < e1.len() {
                assert(es[i] == e1[i]);
                assert(es[j] == e1[j]);
            } else if i >= e1.len() {
                assert(es[i] == e2[i - e1.len()]);
                assert(es[j] == e2[j - e1.len()]);
            } else {
                assert(es[i] == e1[i]);
                assert(es[j] == e2[j - e1.len()]);
                let k = choose|k: int|
                    0 <= k < s.drop_last().len() && within(
                        joined(parent, s.drop_last()[k].name@),
                        e1[i].path,
                    );
                assert(s.drop_last()[k] == s[k]);
                assert(s[k].name@ != s.last().name@);
                assert(within(qlast, es[j].path));
                lemma_joined_diverge(parent, s[k].name@, s.last().name@, es[i].path, es[j].path);
            }
        }
    }
}

/// Runs the walk over `root` (standing at `root_path`), appending every
/// discovered entry to the registry, adding the visited count to the
/// progress tally, and finally marking the scan complete.
pub fn scan_directories(root: &FsDir, root_path: &String, max_depth: usize, reg: &mut Registry)
    requires
        wf_dir(*root),
        old(reg).wf(),
        old(reg).spec_entries() == Seq::<CruftDirectory>::empty(),
    ensures
        final(reg).wf(),
        entry_models(final(reg).spec_entries()) == scan_spec(*root, root_path@, max_depth as nat),
        final(reg).spec_scanned() == cap_u64(
            old(reg).spec_scanned() + visits(*root, root_path@, max_depth as nat),
        ),
        final(reg).spec_complete(),
{
    let (entries, count) = scan_tree(root, root_path, max_depth);
    proof {
        lemma_scan_no_nested_entries(*root, root_path@, max_depth as nat);
    }
    let ghost models = scan_spec(*root, root_path@, max_depth as nat);
    proof {
        assert forall|k: int, l: int|
            0 <= k < l < entries@.len() implies entries@[k].path@ != entries@[l].path@ by {
            assert(models[k] == entry_models(entries@)[k]);
            assert(models[l] == entry_models(entries@)[l]);
            assert(paths_independent(models[k].path, models[l].path));
        }
    }
    let mut i: usize = 0;
    proof {
        assert(entries@.subrange(0, 0) =~= Seq::<CruftDirectory>::empty());
    }
    while i < entries.len()
        invariant
            i <= entries@.len(),
            forall|k: int, l: int|
                0 <= k < l < entries@.len() ==> entries@[k].path@ != entries@[l].path@,
            reg.wf(),
            reg.spec_entries() == entries@.subrange(0, i as int),
            reg.spec_scanned() == old(reg).spec_scanned(),
            reg.spec_complete() == old(reg).spec_complete(),
        decreases entries@.len() - i,
    {
        proof {
            if has_path(reg.spec_entries(), entries@[i as int].path@) {
                let k = choose|k: int|
                    0 <= k < reg.spec_entries().len() && reg.spec_entries()[k].path@
                        == entries@[i as int].path@;
                assert(reg.spec_entries()[k] == entries@[k]);
            }
        }
        let e = entries[i].clone();
        reg.append(e);
        proof {
            assert(reg.spec_entries() =~= entries@.subrange(0, i + 1 as int));
        }
        i = i + 1;
    }
    proof {
        assert(entries@.subrange(0, entries@.len() as int) =~= entries@);
    }
    reg.add_scanned(count);
    proof {
        lemma_visits_nonneg(*root, root_path@, max_depth as nat);
        let v = visits(*root, root_path@, max_depth as nat);
        assert(cap_u64(old(reg).spec_scanned() + cap_u64(v)) == cap_u64(
            old(reg).spec_scanned() + v,
        ));
    }
    reg.mark_complete();
}

} // verus!
