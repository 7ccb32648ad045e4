use vstd::prelude::*;

use vstd::string::StrSliceExecFns;

verus! {

/// ASCII lowercase of one character; every other character is unchanged.
pub open spec fn lower_char(c: char) -> char {
    if c == 'A' { 'a' }
    else if c == 'B' { 'b' }
    else if c == 'C' { 'c' }
    else if c == 'D' { 'd' }
    else if c == 'E' { 'e' }
    else if c == 'F' { 'f' }
    else if c == 'G' { 'g' }
    else if c == 'H' { 'h' }
    else if c == 'I' { 'i' }
    else if c == 'J' { 'j' }
    else if c == 'K' { 'k' }
    else if c == 'L' { 'l' }
    else if c == 'M' { 'm' }
    else if c == 'N' { 'n' }
    else if c == 'O' { 'o' }
    else if c == 'P' { 'p' }
    else if c == 'Q' { 'q' }
    else if c == 'R' { 'r' }
    else if c == 'S' { 's' }
    else if c == 'T' { 't' }
    else if c == 'U' { 'u' }
    else if c == 'V' { 'v' }
    else if c == 'W' { 'w' }
    else if c == 'X' { 'x' }
    else if c == 'Y' { 'y' }
    else if c == 'Z' { 'z' }
    else { c }
}

/// ASCII lowercase of a character sequence.
pub open spec fn to_lower(s: Seq<char>) -> Seq<char> {
    s.map_values(|c: char| lower_char(c))
}

/// `n` occurs in `h` starting exactly at position `at`.
pub open spec fn contains_at(h: Seq<char>, n: Seq<char>, at: int) -> bool {
    &&& 0 <= at
    &&& at + n.len() <= h.len()
    &&& h.subrange(at, at + n.len() as int) == n
}

/// `n` occurs somewhere in `h`.
pub open spec fn contains_seq(h: Seq<char>, n: Seq<char>) -> bool {
    exists|at: int| contains_at(h, n, at)
}

/// `s` starts with `p`.
pub open spec fn has_prefix(s: Seq<char>, p: Seq<char>) -> bool {
    contains_at(s, p, 0)
}

/// `s` ends with `p`.
pub open spec fn has_suffix(s: Seq<char>, p: Seq<char>) -> bool {
    contains_at(s, p, s.len() - p.len())
}

/// The position of the first `/` at or after `i`, or the length of `s`
/// if there is none.
pub open spec fn next_slash(s: Seq<char>, i: int) -> int
    decreases s.len() - i,
{
    if i < 0 || i >= s.len() {
        s.len() as int
    } else if s[i] == '/' {
        i
    } else {
        next_slash(s, i + 1)
    }
}

pub proof fn lemma_next_slash(s: Seq<char>, i: int)
    requires
        0 <= i <= s.len(),
    ensures
        i <= next_slash(s, i) <= s.len(),
        forall|j: int| i <= j < next_slash(s, i) ==> s[j] != '/',
        next_slash(s, i) < s.len() ==> s[next_slash(s, i)] == '/',
    decreases s.len() - i,
{
    if i < s.len() && s[i] != '/' {
        lemma_next_slash(s, i + 1);
    }
}

/// The start of the final path segment: the position just after the last
/// `/`, or `0` if the path has no `/`; the length of `s` itself when `s`
/// ends in `/`.
pub open spec fn base_start(s: Seq<char>) -> int
    decreases s.len(),
{
    if s.len() == 0 {
        0
    } else if s[s.len() - 1] == '/' {
        s.len() as int
    } else {
        base_start(s.drop_last())
    }
}

/// The final path segment of `s` (empty when `s` ends in `/` or is empty).
pub open spec fn base_name(s: Seq<char>) -> Seq<char> {
    s.subrange(base_start(s), s.len() as int)
}

pub proof fn lemma_base_start(s: Seq<char>)
    ensures
        0 <= base_start(s) <= s.len(),
        forall|j: int| base_start(s) <= j < s.len() ==> s[j] != '/',
        base_start(s) > 0 ==> s[base_start(s) - 1] == '/',
    decreases s.len(),
{
    if s.len() > 0 && s[s.len() - 1] != '/' {
        lemma_base_start(s.drop_last());
        assert(forall|j: int| 0 <= j < s.len() - 1 ==> s.drop_last()[j] == s[j]);
    }
}

/// Lexicographic order on character sequences, comparing scalar values.
pub open spec fn lex_le(a: Seq<char>, b: Seq<char>) -> bool
    decreases a.len(),
{
    if a.len() == 0 {
        true
    } else if b.len() == 0 {
        false
    } else if (a[0] as u32) == (b[0] as u32) {
        lex_le(a.drop_first(), b.drop_first())
    } else {
        (a[0] as u32) < (b[0] as u32)
    }
}

/// Any two character sequences are lexicographically comparable.
pub proof fn lemma_lex_le_total(a: Seq<char>, b: Seq<char>)
    ensures
        lex_le(a, b) || lex_le(b, a),
    decreases a.len(),
{
    if a.len() > 0 && b.len() > 0 && (a[0] as u32) == (b[0] as u32) {
        lemma_lex_le_total(a.drop_first(), b.drop_first());
    }
}

/// Lexicographic order is transitive.
pub proof fn lemma_lex_le_trans(a: Seq<char>, b: Seq<char>, c: Seq<char>)
    requires
        lex_le(a, b),
        lex_le(b, c),
    ensures
        lex_le(a, c),
    decreases a.len(),
{
    if a.len() > 0 && b.len() > 0 && c.len() > 0 {
        if (a[0] as u32) == (b[0] as u32) && (b[0] as u32) == (c[0] as u32) {
            lemma_lex_le_trans(a.drop_first(), b.drop_first(), c.drop_first());
        }
    }
}

/// The characters of `s`, in order, as a vector.
pub fn str_to_chars(s: &str) -> (r: Vec<char>)
    ensures
        r@ == s@,
{
    let n = s.unicode_len();
    let mut r: Vec<char> = Vec::new();
    let mut i: usize = 0;
    while i < n
        invariant
            n == s@.len(),
            i <= n,
            r@ == s@.subrange(0, i as int),
        decreases n - i,
    {
        let c = s.get_char(i);
        r.push(c);
        proof {
            assert(r@ =~= s@.subrange(0, i + 1 as int));
        }
        i = i + 1;
    }
    proof {
        assert(s@.subrange(0, n as int) =~= s@);
    }
    r
}

fn to_lower_char(c: char) -> (r: char)
    ensures
        r == lower_char(c),
{
    match c {
        'A' => 'a',
        'B' => 'b',
        'C' => 'c',
        'D' => 'd',
        'E' => 'e',
        'F' => 'f',
        'G' => 'g',
        'H' => 'h',
        'I' => 'i',
        'J' => 'j',
        'K' => 'k',
        'L' => 'l',
        'M' => 'm',
        'N' => 'n',
        'O' => 'o',
        'P' => 'p',
        'Q' => 'q',
        'R' => 'r',
        'S' => 's',
        'T' => 't',
        'U' => 'u',
        'V' => 'v',
        'W' => 'w',
        'X' => 'x',
        'Y' => 'y',
        'Z' => 'z',
        _ => c,
    }
}

/// The ASCII-lowercased copy of a character vector.
pub fn to_lower_vec(v: &Vec<char>) -> (r: Vec<char>)
    ensures
        r@ == to_lower(v@),
{
    let mut r: Vec<char> = Vec::new();
    let mut i: usize = 0;
    while i < v.len()
        invariant
            i <= v@.len(),
            r@ == to_lower(v@.subrange(0, i as int)),
        decreases v@.len() - i,
    {
        let c = to_lower_char(v[i]);
        r.push(c);
        proof {
            assert(r@ =~= to_lower(v@.subrange(0, i + 1 as int)));
        }
        i = i + 1;
    }
    proof {
        assert(to_lower(v@.subrange(0, v@.len() as int)) =~= to_lower(v@));
    }
    r
}

/// Whether the characters of `a` are exactly the view of `pat`.
pub fn chars_eq_str(a: &Vec<char>, pat: &str) -> (r: bool)
    ensures
        r == (a@ == pat@),
{
    let p = str_to_chars(pat);
    let n = p.len();
    if a.len() != n {
        proof {
            if a@ == pat@ {
                assert(a@.len() == pat@.len());
            }
        }
        return false;
    }
    let mut i: usize = 0;
    while i < n
        invariant
            n == a@.len(),
            n == pat@.len(),
            p@ == pat@,
            i <= n,
            forall|k: int| 0 <= k < i ==> a@[k] == pat@[k],
        decreases n - i,
    {
        if a[i] != p[i] {
            return false;
        }
        i = i + 1;
    }
    proof {
        assert(a@ =~= pat@);
    }
    true
}

/// Whether `n` occurs in `h` starting exactly at `at`.
fn chars_match_at(h: &Vec<char>, n: &Vec<char>, at: usize) -> (r: bool)
    requires
        at + n@.len() <= h@.len(),
    ensures
        r == contains_at(h@, n@, at as int),
{
    let hl = h.len();
    let mut k: usize = 0;
    while k < n.len()
        invariant
            hl == h@.len(),
            at + n@.len() <= h@.len(),
            k <= n@.len(),
            forall|j: int| 0 <= j < k ==> h@[at + j] == n@[j],
        decreases n@.len() - k,
    {
        if h[at + k] != n[k] {
            proof {
                if contains_at(h@, n@, at as int) {
                    assert(h@.subrange(at as int, at + n@.len() as int)[k as int] == h@[at + k]);
                }
            }
            return false;
        }
        k = k + 1;
    }
    proof {
        assert(h@.subrange(at as int, at + n@.len() as int) =~= n@);
    }
    true
}

/// Whether the view of `pat` occurs anywhere in `h`.
pub fn chars_contains_str(h: &Vec<char>, pat: &str) -> (r: bool)
    ensures
        r == contains_seq(h@, pat@),
{
    let p = str_to_chars(pat);
    if p.len() > h.len() {
        proof {
            assert(forall|at: int| !contains_at(h@, pat@, at));
        }
        return false;
    }
    if p.len() == 0 {
        proof {
            assert(h@.subrange(0, 0) =~= pat@);
            assert(contains_at(h@, pat@, 0));
        }
        return true;
    }
    let hl = h.len();
    let last = h.len() - p.len();
    let mut i: usize = 0;
    while i <= last
        invariant
            hl == h@.len(),
            p@ == pat@,
            1 <= p@.len() <= h@.len(),
            last == h@.len() - p@.len(),
            i <= last + 1,
            forall|at: int| 0 <= at < i ==> !contains_at(h@, pat@, at),
        decreases last + 1 - i,
    {
        if chars_match_at(h, &p, i) {
            return true;
        }
        i = i + 1;
    }
    proof {
        assert forall|at: int| !contains_at(h@, pat@, at) by {
            if 0 <= at <= last {
                assert(!contains_at(h@, pat@, at));
            }
        }
    }
    false
}

/// Whether the characters of `a` start with the view of `pat`.
pub fn chars_has_prefix_str(a: &Vec<char>, pat: &str) -> (r: bool)
    ensures
        r == has_prefix(a@, pat@),
{
    let p = str_to_chars(pat);
    if p.len() > a.len() {
        return false;
    }
    chars_match_at(a, &p, 0)
}

/// Whether the characters of `a` end with the view of `pat`.
pub fn chars_has_suffix_str(a: &Vec<char>, pat: &str) -> (r: bool)
    ensures
        r == has_suffix(a@, pat@),
{
    let p = str_to_chars(pat);
    if p.len() > a.len() {
        return false;
    }
    chars_match_at(a, &p, a.len() - p.len())
}

/// The position of the first `/` in `v` at or after `start`, or the
/// length of `v` if there is none.
pub fn find_next_slash(v: &Vec<char>, start: usize) -> (r: usize)
    requires
        start <= v@.len(),
    ensures
        r == next_slash(v@, start as int),
{
    let mut j = start;
    while j < v.len() && v[j] != '/'
        invariant
            start <= j <= v@.len(),
            next_slash(v@, start as int) == next_slash(v@, j as int),
        decreases v@.len() - j,
    {
        j = j + 1;
    }
    j
}

/// The final path segment of `v` (everything after the last `/`).
pub fn base_segment(v: &Vec<char>) -> (r: Vec<char>)
    ensures
        r@ == base_name(v@),
{
    let ghost s = v@;
    let mut i = v.len();
    proof {
        assert(v@.subrange(0, v@.len() as int) =~= v@);
    }
    loop
        invariant_except_break
            i <= v@.len(),
            base_start(v@) == base_start(v@.subrange(0, i as int)),
            s == v@,
        ensures
            s == v@,
            i == base_start(v@),
        decreases i,
    {
        if i == 0 {
            proof {
                assert(v@.subrange(0, 0) =~= Seq::<char>::empty());
            }
            break;
        }
        if v[i - 1] == '/' {
            proof {
                assert(v@.subrange(0, i as int).len() == i);
                assert(v@.subrange(0, i as int)[i - 1] == '/');
            }
            break;
        }
        proof {
            assert(v@.subrange(0, i as int).drop_last() =~= v@.subrange(0, i - 1 as int));
        }
        i = i - 1;
    }
    let mut r: Vec<char> = Vec::new();
    let mut j = i;
    proof {
        lemma_base_start(v@);
    }
    while j < v.len()
        invariant
            base_start(v@) == i,
            0 <= i <= j <= v@.len(),
            r@ == v@.subrange(i as int, j as int),
        decreases v@.len() - j,
    {
        let c = v[j];
        r.push(c);
        proof {
            assert(r@ =~= v@.subrange(i as int, j + 1 as int));
        }
        j = j + 1;
    }
    r
}

/// The characters of `v` between positions `i` and `j`, as a new vector.
pub fn subrange_vec(v: &Vec<char>, i: usize, j: usize) -> (r: Vec<char>)
    requires
        i <= j <= v@.len(),
    ensures
        r@ == v@.subrange(i as int, j as int),
{
    let mut r: Vec<char> = Vec::new();
    let mut k = i;
    while k < j
        invariant
            i <= k <= j <= v@.len(),
            r@ == v@.subrange(i as int, k as int),
        decreases j - k,
    {
        let c = v[k];
        r.push(c);
        proof {
            assert(r@ =~= v@.subrange(i as int, k + 1 as int));
        }
        k = k + 1;
    }
    r
}

/// Lexicographic comparison of two character vectors.
pub fn lex_le_chars(a: &Vec<char>, b: &Vec<char>) -> (r: bool)
    ensures
        r == lex_le(a@, b@),
{
    let mut i: usize = 0;
    proof {
        assert(a@.skip(0) =~= a@);
        assert(b@.skip(0) =~= b@);
    }
    loop
        invariant_except_break
            i <= a@.len(),
            i <= b@.len(),
            lex_le(a@, b@) == lex_le(a@.skip(i as int), b@.skip(i as int)),
        ensures
            lex_le(a@, b@) == lex_le(a@.skip(i as int), b@.skip(i as int)),
            i <= a@.len(),
            i <= b@.len(),
            i == a@.len() || i == b@.len() || (a@[i as int] as u32) != (b@[i as int] as u32),
        decreases a@.len() - i,
    {
        if i == a.len() || i == b.len() {
            break;
        }
        let ca = a[i] as u32;
        let cb = b[i] as u32;
        if ca != cb {
            break;
        }
        proof {
            assert(a@.skip(i as int).len() > 0);
            assert(a@.skip(i as int)[0] == a@[i as int]);
            assert(b@.skip(i as int)[0] == b@[i as int]);
            assert(a@.skip(i as int).drop_first() =~= a@.skip(i + 1 as int));
            assert(b@.skip(i as int).drop_first() =~= b@.skip(i + 1 as int));
        }
        i = i + 1;
    }
    if i == a.len() {
        proof {
            assert(a@.skip(i as int).len() == 0);
        }
        true
    } else if i == b.len() {
        proof {
            assert(b@.skip(i as int).len() == 0);
            assert(a@.skip(i as int).len() > 0);
        }
        false
    } else {
        proof {
            assert(a@.skip(i as int)[0] == a@[i as int]);
            assert(b@.skip(i as int)[0] == b@[i as int]);
        }
        let r = (a[i] as u32) < (b[i] as u32);
        r
    }
}

} // verus!
