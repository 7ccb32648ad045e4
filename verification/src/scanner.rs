use vstd::prelude::*;

use crate::text::{
    base_name, chars_contains_str, chars_eq_str, chars_has_prefix_str, chars_has_suffix_str,
    contains_seq, find_next_slash, has_prefix, has_suffix, lemma_next_slash, next_slash,
    str_to_chars, subrange_vec, to_lower, to_lower_vec, base_segment,
};

verus! {

/// The closed set of cruft classifications.
#[derive(Clone, Copy, Debug, PartialEq, Eq, Structural)]
pub enum CruftyReason {
    NodeModules,
    CacheDir,
    CacheTagFound,
    BuildDir,
    LanguageTargetDir,
    TempDir,
    VenvDir,
    DistDir,
    ToxDir,
}

impl CruftyReason {
    /// The classification label shown in the entry list.
    pub fn as_str(&self) -> (r: &'static str)
        ensures
            self is NodeModules ==> r@ == "node_modules"@,
            self is CacheDir ==> r@ == "cache dir"@,
            self is CacheTagFound ==> r@ == "CACHEDIR.TAG"@,
            self is BuildDir ==> r@ == "build dir"@,
            self is LanguageTargetDir ==> r@ == "target dir"@,
            self is TempDir ==> r@ == "temp dir"@,
            self is VenvDir ==> r@ == "venv"@,
            self is DistDir ==> r@ == "dist dir"@,
            self is ToxDir ==> r@ == "tox dir"@,
    {
        match self {
            CruftyReason::NodeModules => "node_modules",
            CruftyReason::CacheDir => "cache dir",
            CruftyReason::CacheTagFound => "CACHEDIR.TAG",
            CruftyReason::BuildDir => "build dir",
            CruftyReason::LanguageTargetDir => "target dir",
            CruftyReason::TempDir => "temp dir",
            CruftyReason::VenvDir => "venv",
            CruftyReason::DistDir => "dist dir",
            CruftyReason::ToxDir => "tox dir",
        }
    }
}

/// The "common" subset of classifications: frequent and safe enough to
/// show without the explicit all-types toggle.
pub open spec fn spec_is_common(reason: CruftyReason) -> bool {
    match reason {
        CruftyReason::NodeModules => true,
        CruftyReason::CacheDir => true,
        CruftyReason::CacheTagFound => true,
        CruftyReason::BuildDir => true,
        CruftyReason::VenvDir => true,
        CruftyReason::ToxDir => true,
        CruftyReason::LanguageTargetDir => false,
        CruftyReason::TempDir => false,
        CruftyReason::DistDir => false,
    }
}

/// Whether this kind of cruft is shown by default, when all types are
/// not explicitly included.
pub fn is_common_cruft(reason: &CruftyReason) -> (r: bool)
    ensures
        r == spec_is_common(*reason),
{
    match reason {
        CruftyReason::NodeModules => true,
        CruftyReason::CacheDir => true,
        CruftyReason::CacheTagFound => true,
        CruftyReason::BuildDir => true,
        CruftyReason::VenvDir => true,
        CruftyReason::ToxDir => true,
        CruftyReason::LanguageTargetDir => false,
        CruftyReason::TempDir => false,
        CruftyReason::DistDir => false,
    }
}

/// A discovered cruft directory. Immutable once created; its path is its
/// unique, stable identity.
pub struct CruftDirectory {
    /// Full path of the directory, also its identity.
    pub path: String,
    /// Total bytes of all regular files transitively contained, measured
    /// once at discovery time.
    pub size: u64,
    /// Why the directory was classified as cruft.
    pub crufty_reason: CruftyReason,
    /// Age in whole days of the newest file found by a bounded sub-scan,
    /// or of the directory itself if that scan saw no file; absent when
    /// neither could be determined.
    pub newest_file_age_days: Option<u64>,
}

impl CruftDirectory {
    /// The stable identity of this entry.
    pub fn id(&self) -> (r: String)
        ensures
            r@ == self.path@,
    {
        self.path.clone()
    }

    /// The entry's staleness with an absent age treated as zero days.
    pub open spec fn spec_age_days(&self) -> u64 {
        match self.newest_file_age_days {
            Some(d) => d,
            None => 0u64,
        }
    }
}

impl Clone for CruftDirectory {
    fn clone(&self) -> (r: Self)
        ensures
            r == *self,
    {
        CruftDirectory {
            path: self.path.clone(),
            size: self.size,
            crufty_reason: self.crufty_reason,
            newest_file_age_days: self.newest_file_age_days,
        }
    }
}

/// Reserved single-segment names: directories that hold version-control
/// metadata or editor configuration and must never be treated as cruft.
pub open spec fn reserved_segment(seg: Seq<char>) -> bool {
    ||| seg == ".git"@
    ||| seg == ".github"@
    ||| seg == ".vscode"@
    ||| seg == ".idea"@
}

/// The protected-path scan, walking segments left to right. A path is
/// protected when any segment is reserved, or when a `.bin` segment
/// directly follows a `node_modules` segment.
pub open spec fn protected_from(s: Seq<char>, i: int, prev_node_modules: bool) -> bool
    decreases s.len() - i,
        when 0 <= i <= s.len()
        via protected_from_decreases
{
    let j = next_slash(s, i);
    let seg = s.subrange(i, j);
    if reserved_segment(seg) {
        true
    } else if prev_node_modules && seg == ".bin"@ {
        true
    } else if j >= s.len() {
        false
    } else {
        protected_from(s, j + 1, seg == "node_modules"@)
    }
}

#[via_fn]
proof fn protected_from_decreases(s: Seq<char>, i: int, prev_node_modules: bool) {
    lemma_next_slash(s, i);
}

/// Whether the path names a protected directory or lies inside one.
pub open spec fn spec_is_protected(s: Seq<char>) -> bool {
    protected_from(s, 0, false)
}

/// Whether a directory is protected and must not be considered cruft.
pub fn is_protected_directory(path: &str) -> (r: bool)
    ensures
        r == spec_is_protected(path@),
{
    let v = str_to_chars(path);
    protected_scan(&v, 0, false)
}

fn protected_scan(v: &Vec<char>, i: usize, prev_node_modules: bool) -> (r: bool)
    requires
        i <= v@.len(),
    ensures
        r == protected_from(v@, i as int, prev_node_modules),
    decreases v@.len() - i,
{
    let j = find_next_slash(v, i);
    proof {
        lemma_next_slash(v@, i as int);
    }
    let seg = subrange_vec(v, i, j);
    if chars_eq_str(&seg, ".git") || chars_eq_str(&seg, ".github") || chars_eq_str(&seg, ".vscode")
        || chars_eq_str(&seg, ".idea") {
        true
    } else if prev_node_modules && chars_eq_str(&seg, ".bin") {
        true
    } else if j >= v.len() {
        false
    } else {
        let nm = chars_eq_str(&seg, "node_modules");
        protected_scan(v, j + 1, nm)
    }
}

/// Build-indicating names: the whole name, or a dashed affix of it.
pub open spec fn build_name(n: Seq<char>) -> bool {
    ||| n == "build"@
    ||| n == ".build"@
    ||| has_prefix(n, "build-"@)
    ||| has_suffix(n, "-build"@)
}

/// Temp-directory names: whole names and explicit affixes only, so that
/// longer words such as `templates` never match.
pub open spec fn temp_name(n: Seq<char>) -> bool {
    ||| n == "tmp"@
    ||| n == "temp"@
    ||| n == ".tmp"@
    ||| n == ".temp"@
    ||| has_prefix(n, "temp-"@)
    ||| has_prefix(n, "tmp-"@)
    ||| has_suffix(n, "-temp"@)
    ||| has_suffix(n, "-tmp"@)
}

/// Virtual-environment names.
pub open spec fn venv_name(n: Seq<char>) -> bool {
    ||| n == "venv"@
    ||| n == "env"@
    ||| n == ".venv"@
    ||| n == ".env"@
    ||| has_prefix(n, "virtualenv"@)
}

/// Distribution-output names.
pub open spec fn dist_name(n: Seq<char>) -> bool {
    ||| n == "dist"@
    ||| n == "out"@
    ||| contains_seq(n, "dist"@)
}

/// The ordered classification rule table, first match wins. `path` is the
/// directory's full path; `has_build_marker` reports a build-tool marker
/// file directly inside a directory named `target`; `has_cachedir_tag`
/// reports a `CACHEDIR.TAG` sentinel file directly inside the directory.
pub open spec fn classify_spec(
    path: Seq<char>,
    has_build_marker: bool,
    has_cachedir_tag: bool,
) -> Option<CruftyReason> {
    if spec_is_protected(path) {
        None
    } else {
        let name = to_lower(base_name(path));
        if name.len() == 0 {
            None
        } else if name == "node_modules"@ {
            Some(CruftyReason::NodeModules)
        } else if contains_seq(path, ".cache"@) || contains_seq(name, "cache"@) {
            Some(CruftyReason::CacheDir)
        } else if name == "target"@ && has_build_marker {
            Some(CruftyReason::LanguageTargetDir)
        } else if build_name(name) {
            Some(CruftyReason::BuildDir)
        } else if temp_name(name) {
            Some(CruftyReason::TempDir)
        } else if venv_name(name) {
            Some(CruftyReason::VenvDir)
        } else if dist_name(name) {
            Some(CruftyReason::DistDir)
        } else if name == ".tox"@ {
            Some(CruftyReason::ToxDir)
        } else if has_cachedir_tag {
            Some(CruftyReason::CacheTagFound)
        } else {
            None
        }
    }
}

/// Classifies one directory. The two flags report marker files inside
/// the directory (a build-tool marker, and the `CACHEDIR.TAG` sentinel);
/// the caller observes them however it reads directories.
pub fn check_crufty(path: &str, has_build_marker: bool, has_cachedir_tag: bool) -> (r: Option<
    CruftyReason,
>)
    ensures
        r == classify_spec(path@, has_build_marker, has_cachedir_tag),
{
    let v = str_to_chars(path);
    if protected_scan(&v, 0, false) {
        return None;
    }
    let raw_name = base_segment(&v);
    let name = to_lower_vec(&raw_name);
    if name.len() == 0 {
        None
    } else if chars_eq_str(&name, "node_modules") {
        Some(CruftyReason::NodeModules)
    } else if chars_contains_str(&v, ".cache") || chars_contains_str(&name, "cache") {
        Some(CruftyReason::CacheDir)
    } else if chars_eq_str(&name, "target") && has_build_marker {
        Some(CruftyReason::LanguageTargetDir)
    } else if chars_eq_str(&name, "build") || chars_eq_str(&name, ".build")
        || chars_has_prefix_str(&name, "build-") || chars_has_suffix_str(&name, "-build") {
        Some(CruftyReason::BuildDir)
    } else if chars_eq_str(&name, "tmp") || chars_eq_str(&name, "temp")
        || chars_eq_str(&name, ".tmp") || chars_eq_str(&name, ".temp")
        || chars_has_prefix_str(&name, "temp-") || chars_has_prefix_str(&name, "tmp-")
        || chars_has_suffix_str(&name, "-temp") || chars_has_suffix_str(&name, "-tmp") {
        Some(CruftyReason::TempDir)
    } else if chars_eq_str(&name, "venv") || chars_eq_str(&name, "env")
        || chars_eq_str(&name, ".venv") || chars_eq_str(&name, ".env")
        || chars_has_prefix_str(&name, "virtualenv") {
        Some(CruftyReason::VenvDir)
    } else if chars_eq_str(&name, "dist") || chars_eq_str(&name, "out")
        || chars_contains_str(&name, "dist") {
        Some(CruftyReason::DistDir)
    } else if chars_eq_str(&name, ".tox") {
        Some(CruftyReason::ToxDir)
    } else if has_cachedir_tag {
        Some(CruftyReason::CacheTagFound)
    } else {
        None
    }
}

/// One whole `/`-delimited segment of `s`, spanning positions `i` to `j`.
pub open spec fn is_segment_at(s: Seq<char>, i: int, j: int) -> bool {
    &&& 0 <= i <= j <= s.len()
    &&& (i == 0 || s[i - 1] == '/')
    &&& (j == s.len() || s[j] == '/')
    &&& forall|k: int| i <= k < j ==> s[k] != '/'
}

/// The path contains a reserved name as a whole segment.
pub open spec fn has_reserved_segment(s: Seq<char>) -> bool {
    exists|i: int, j: int| is_segment_at(s, i, j) && reserved_segment(s.subrange(i, j))
}

proof fn lemma_segment_next_slash(s: Seq<char>, i: int, j: int)
    requires
        is_segment_at(s, i, j),
    ensures
        j == next_slash(s, i),
{
    lemma_next_slash(s, i);
    let ns = next_slash(s, i);
    if ns < j {
        assert(s[ns] != '/');
        assert(ns < s.len());
        assert(s[ns] == '/');
    }
    if ns > j {
        assert(j < s.len());
        assert(s[j] == '/');
        assert(s[j] != '/');
    }
}

proof fn lemma_reserved_protected(s: Seq<char>, start: int, prev: bool, i: int, j: int)
    requires
        0 <= start <= s.len(),
        is_segment_at(s, i, j),
        reserved_segment(s.subrange(i, j)),
        i >= start,
    ensures
        protected_from(s, start, prev),
    decreases s.len() - start,
{
    lemma_next_slash(s, start);
    let ns = next_slash(s, start);
    if i == start {
        lemma_segment_next_slash(s, i, j);
        assert(ns == j);
    } else {
        assert(i > start);
        assert(s[i - 1] == '/');
        assert(i - 1 >= ns) by {
            if i - 1 < ns {
                assert(s[i - 1] != '/');
            }
        }
        assert(ns < s.len());
        lemma_reserved_protected(s, ns + 1, s.subrange(start, ns) == "node_modules"@, i, j);
    }
}

/// A path with any reserved segment — version-control metadata or editor
/// configuration — is never classified as cruft, whatever its final
/// segment looks like.
pub proof fn lemma_protected_ancestry(
    path: Seq<char>,
    has_build_marker: bool,
    has_cachedir_tag: bool,
)
    requires
        has_reserved_segment(path),
    ensures
        classify_spec(path, has_build_marker, has_cachedir_tag) is None,
{
    let (i, j) = choose|i: int, j: int|
        is_segment_at(path, i, j) && reserved_segment(path.subrange(i, j));
    lemma_reserved_protected(path, 0, false, i, j);
}

} // verus!
