//! Character-level text utilities with their specifications.
//!
//! Strings are modelled by their character sequences (`s@`). The spec
//! functions here describe trimming, prefix/suffix tests, substring search and
//! replacement the way the standard library's `str` methods behave on them.

use vstd::prelude::*;

verus! {

broadcast use vstd::string::group_string_axioms;

// ---------------------------------------------------------------------------
// Specifications
// ---------------------------------------------------------------------------

/// `s` with every leading character that belongs to `set` removed.
pub open spec fn trim_start_set(s: Seq<char>, set: Seq<char>) -> Seq<char>
    decreases s.len(),
{
    if s.len() > 0 && set.contains(s[0]) {
        trim_start_set(s.drop_first(), set)
    } else {
        s
    }
}

/// `s` with every trailing character that belongs to `set` removed.
pub open spec fn trim_end_set(s: Seq<char>, set: Seq<char>) -> Seq<char>
    decreases s.len(),
{
    if s.len() > 0 && set.contains(s.last()) {
        trim_end_set(s.drop_last(), set)
    } else {
        s
    }
}

/// `str::trim_matches` with a set of characters as the pattern.
pub open spec fn trim_set(s: Seq<char>, set: Seq<char>) -> Seq<char> {
    trim_end_set(trim_start_set(s, set), set)
}

/// The three quote characters that the engine strips from literals.
pub open spec fn quote_chars() -> Seq<char> {
    seq!['"', '\'', '`']
}

/// The characters with the Unicode `White_Space` property, which is what
/// `char::is_whitespace` (and hence `str::trim`) tests.
pub open spec fn ws_chars() -> Seq<char> {
    seq![
        '\t', '\n', '\u{0B}', '\u{0C}', '\r', ' ', '\u{85}', '\u{A0}', '\u{1680}',
        '\u{2000}', '\u{2001}', '\u{2002}', '\u{2003}', '\u{2004}', '\u{2005}', '\u{2006}',
        '\u{2007}', '\u{2008}', '\u{2009}', '\u{200A}', '\u{2028}', '\u{2029}', '\u{202F}',
        '\u{205F}', '\u{3000}',
    ]
}

/// `str::trim`.
pub open spec fn trim_ws(s: Seq<char>) -> Seq<char> {
    trim_set(s, ws_chars())
}

/// `str::trim_start`.
pub open spec fn trim_start_ws(s: Seq<char>) -> Seq<char> {
    trim_start_set(s, ws_chars())
}

/// Trimming the three quote characters from both ends.
pub open spec fn trim_quotes(s: Seq<char>) -> Seq<char> {
    trim_set(s, quote_chars())
}

/// `t` occurs in `s` at position `i`.
pub open spec fn occurs_at(s: Seq<char>, t: Seq<char>, i: int) -> bool {
    0 <= i && i + t.len() <= s.len() && s.subrange(i, i + t.len()) == t
}

/// `str::contains` with a string pattern.
pub open spec fn has_sub(s: Seq<char>, t: Seq<char>) -> bool {
    exists|i: int| occurs_at(s, t, i)
}

/// `str::starts_with`.
pub open spec fn starts_with(s: Seq<char>, p: Seq<char>) -> bool {
    p.len() <= s.len() && s.subrange(0, p.len() as int) == p
}

/// `str::ends_with`.
pub open spec fn ends_with(s: Seq<char>, p: Seq<char>) -> bool {
    p.len() <= s.len() && s.subrange(s.len() - p.len(), s.len() as int) == p
}

/// `str::find`: the first position at which `t` occurs.
pub open spec fn is_first_occurrence(s: Seq<char>, t: Seq<char>, i: int) -> bool {
    occurs_at(s, t, i) && forall|j: int| 0 <= j < i ==> !occurs_at(s, t, j)
}

/// `str::rfind`: the last position at which `t` occurs.
pub open spec fn is_last_occurrence(s: Seq<char>, t: Seq<char>, i: int) -> bool {
    occurs_at(s, t, i) && forall|j: int| i < j <= s.len() ==> !occurs_at(s, t, j)
}

/// The position of the first occurrence of `t` in `s`, where there is one.
pub open spec fn first_pos(s: Seq<char>, t: Seq<char>) -> int {
    choose|i: int| is_first_occurrence(s, t, i)
}

/// The position of the last occurrence of `t` in `s`, where there is one.
pub open spec fn last_pos(s: Seq<char>, t: Seq<char>) -> int {
    choose|i: int| is_last_occurrence(s, t, i)
}

/// The first occurrence is unique.
pub proof fn lemma_first_pos(s: Seq<char>, t: Seq<char>, i: int)
    requires
        is_first_occurrence(s, t, i),
    ensures
        first_pos(s, t) == i,
{
    let j = first_pos(s, t);
    assert(is_first_occurrence(s, t, j));
    if j < i {
        assert(!occurs_at(s, t, j));
    } else if i < j {
        assert(!occurs_at(s, t, i));
    }
}

/// The last occurrence is unique.
pub proof fn lemma_last_pos(s: Seq<char>, t: Seq<char>, i: int)
    requires
        is_last_occurrence(s, t, i),
    ensures
        last_pos(s, t) == i,
{
    let j = last_pos(s, t);
    assert(is_last_occurrence(s, t, j));
    if j < i {
        assert(!occurs_at(s, t, i));
    } else if i < j {
        assert(!occurs_at(s, t, j));
    }
}

/// `s` with the suffix `suf` removed as long as it ends with it
/// (`str::trim_end_matches` with a string pattern).
pub open spec fn trim_suffix_all(s: Seq<char>, suf: Seq<char>) -> Seq<char>
    decreases s.len(),
{
    if suf.len() > 0 && ends_with(s, suf) {
        trim_suffix_all(s.take(s.len() - suf.len()), suf)
    } else {
        s
    }
}

/// `str::replace` with a non-empty string pattern: occurrences are replaced
/// from left to right without overlap.
pub open spec fn replace_all(s: Seq<char>, pat: Seq<char>, rep: Seq<char>) -> Seq<char>
    decreases s.len(),
{
    if pat.len() == 0 || s.len() == 0 {
        s
    } else if starts_with(s, pat) {
        rep + replace_all(s.skip(pat.len() as int), pat, rep)
    } else {
        seq![s[0]] + replace_all(s.drop_first(), pat, rep)
    }
}

/// Every character of `s` that is in `set` replaced by `rep`.
pub open spec fn replace_chars(s: Seq<char>, set: Seq<char>, rep: Seq<char>) -> Seq<char>
    decreases s.len(),
{
    if s.len() == 0 {
        s
    } else if set.contains(s[0]) {
        rep + replace_chars(s.drop_first(), set, rep)
    } else {
        seq![s[0]] + replace_chars(s.drop_first(), set, rep)
    }
}

/// The prefix of `s` before the first character in `set`
/// (`str::split(..).next()` with a character-set pattern).
pub open spec fn take_until(s: Seq<char>, set: Seq<char>) -> Seq<char>
    decreases s.len(),
{
    if s.len() == 0 || set.contains(s[0]) {
        seq![]
    } else {
        seq![s[0]] + take_until(s.drop_first(), set)
    }
}

/// Unicode lower-casing as `str::to_lowercase` performs it.
pub uninterp spec fn lowercase(s: Seq<char>) -> Seq<char>;

/// Whether `char::is_alphabetic` holds.
pub uninterp spec fn alphabetic(c: char) -> bool;

/// Whether `char::is_alphanumeric` holds.
pub uninterp spec fn alphanumeric(c: char) -> bool;

// ---------------------------------------------------------------------------
// Lemmas
// ---------------------------------------------------------------------------

proof fn lemma_trim_start_step(s: Seq<char>, set: Seq<char>, i: int)
    requires
        0 <= i < s.len(),
        set.contains(s[i]),
    ensures
        trim_start_set(s.skip(i), set) == trim_start_set(s.skip(i + 1), set),
{
    assert(s.skip(i).drop_first() =~= s.skip(i + 1));
}

proof fn lemma_trim_end_step(s: Seq<char>, set: Seq<char>, i: int, j: int)
    requires
        0 <= i < j <= s.len(),
        set.contains(s[j - 1]),
    ensures
        trim_end_set(s.subrange(i, j), set) == trim_end_set(s.subrange(i, j - 1), set),
{
    assert(s.subrange(i, j).drop_last() =~= s.subrange(i, j - 1));
}

proof fn lemma_replace_chars_step(s: Seq<char>, set: Seq<char>, rep: Seq<char>, i: int)
    requires
        0 <= i < s.len(),
    ensures
        replace_chars(s.skip(i), set, rep) == (if set.contains(s[i]) {
            rep
        } else {
            seq![s[i]]
        }) + replace_chars(s.skip(i + 1), set, rep),
{
    assert(s.skip(i).drop_first() =~= s.skip(i + 1));
}

// ---------------------------------------------------------------------------
// Executable helpers
// ---------------------------------------------------------------------------

/// Appends one character to a string (`String::push`).
#[verifier::external_body]
pub(crate) fn push_char(s: &mut String, c: char)
    ensures
        final(s)@ == old(s)@.push(c),
{
    s.push(c);
}

/// Lower-cases a string (`str::to_lowercase`).
#[verifier::external_body]
pub(crate) fn to_lower(s: &str) -> (r: String)
    ensures
        r@ == lowercase(s@),
{
    s.to_lowercase()
}

/// `char::is_alphabetic`.
#[verifier::external_body]
pub(crate) fn is_alphabetic(c: char) -> (r: bool)
    ensures
        r == alphabetic(c),
{
    c.is_alphabetic()
}

/// `char::is_alphanumeric`.
#[verifier::external_body]
pub(crate) fn is_alphanumeric(c: char) -> (r: bool)
    ensures
        r == alphanumeric(c),
{
    c.is_alphanumeric()
}

/// The characters of a string slice, as a vector.
pub fn chars_of(s: &str) -> (v: Vec<char>)
    ensures
        v@ == s@,
{
    let mut v: Vec<char> = Vec::new();
    for c in it: s.chars()
        invariant
            it.seq() == s@,
            v@ == it.seq().take(it.index() as int),
    {
        v.push(c);
    }
    v
}

/// A string made of the characters `v[from..to]`.
pub fn string_of_range(v: &Vec<char>, from: usize, to: usize) -> (s: String)
    requires
        from <= to <= v.len(),
    ensures
        s@ == v@.subrange(from as int, to as int),
{
    let mut s = String::new();
    let mut i = from;
    while i < to
        invariant
            from <= i <= to <= v.len(),
            s@ == v@.subrange(from as int, i as int),
        decreases to - i,
    {
        push_char(&mut s, v[i]);
        i = i + 1;
        assert(s@ =~= v@.subrange(from as int, i as int));
    }
    s
}

/// A string made of the characters of `v`.
pub fn string_of(v: &Vec<char>) -> (s: String)
    ensures
        s@ == v@,
{
    let s = string_of_range(v, 0, v.len());
    assert(v@.subrange(0, v@.len() as int) =~= v@);
    s
}

/// A string with the characters of a slice.
pub fn owned(s: &str) -> (r: String)
    ensures
        r@ == s@,
{
    let v = chars_of(s);
    string_of(&v)
}

/// Whether `c` is one of the characters of `set`.
pub fn char_in(c: char, set: &Vec<char>) -> (r: bool)
    ensures
        r == set@.contains(c),
{
    let mut i: usize = 0;
    while i < set.len()
        invariant
            0 <= i <= set.len(),
            forall|k: int| 0 <= k < i ==> set@[k] != c,
        decreases set.len() - i,
    {
        if set[i] == c {
            return true;
        }
        i = i + 1;
    }
    false
}

/// Whether two character vectors are equal.
pub fn seq_eq(a: &Vec<char>, b: &Vec<char>) -> (r: bool)
    ensures
        r == (a@ == b@),
{
    if a.len() != b.len() {
        return false;
    }
    let mut i: usize = 0;
    while i < a.len()
        invariant
            a.len() == b.len(),
            0 <= i <= a.len(),
            forall|k: int| 0 <= k < i ==> a@[k] == b@[k],
        decreases a.len() - i,
    {
        if a[i] != b[i] {
            return false;
        }
        i = i + 1;
    }
    assert(a@ =~= b@);
    true
}

/// Whether two strings are equal.
pub fn str_eq(a: &str, b: &str) -> (r: bool)
    ensures
        r == (a@ == b@),
{
    let va = chars_of(a);
    let vb = chars_of(b);
    seq_eq(&va, &vb)
}

/// The quote characters as a vector.
pub fn quote_set() -> (v: Vec<char>)
    ensures
        v@ == quote_chars(),
{
    let v = vec!['"', '\'', '`'];
    assert(v@ =~= quote_chars());
    v
}

/// The whitespace characters as a vector.
pub fn ws_set() -> (v: Vec<char>)
    ensures
        v@ == ws_chars(),
{
    let v = vec![
        '\t', '\n', '\u{0B}', '\u{0C}', '\r', ' ', '\u{85}', '\u{A0}', '\u{1680}',
        '\u{2000}', '\u{2001}', '\u{2002}', '\u{2003}', '\u{2004}', '\u{2005}', '\u{2006}',
        '\u{2007}', '\u{2008}', '\u{2009}', '\u{200A}', '\u{2028}', '\u{2029}', '\u{202F}',
        '\u{205F}', '\u{3000}',
    ];
    assert(v@ =~= ws_chars());
    v
}

/// The bounds `(i, j)` such that `v[i..j]` is `v` trimmed by `set`.
pub fn trim_bounds(v: &Vec<char>, set: &Vec<char>) -> (r: (usize, usize))
    ensures
        r.0 <= r.1 <= v.len(),
        v@.subrange(r.0 as int, r.1 as int) == trim_set(v@, set@),
        v@.subrange(r.0 as int, v.len() as int) == trim_start_set(v@, set@),
{
    let n = v.len();
    let mut i: usize = 0;
    proof {
        assert(v@.skip(0) =~= v@);
    }
    while i < n && char_in(v[i], set)
        invariant
            n == v.len(),
            0 <= i <= n,
            trim_start_set(v@, set@) == trim_start_set(v@.skip(i as int), set@),
        decreases n - i,
    {
        proof {
            lemma_trim_start_step(v@, set@, i as int);
        }
        i = i + 1;
    }
    proof {
        assert(v@.skip(i as int) =~= v@.subrange(i as int, n as int));
        if i < n {
            assert(v@.skip(i as int)[0] == v@[i as int]);
        }
    }
    let mut j: usize = n;
    while j > i && char_in(v[j - 1], set)
        invariant
            n == v.len(),
            0 <= i <= j <= n,
            trim_start_set(v@, set@) == v@.subrange(i as int, n as int),
            trim_set(v@, set@) == trim_end_set(v@.subrange(i as int, j as int), set@),
        decreases j - i,
    {
        proof {
            lemma_trim_end_step(v@, set@, i as int, j as int);
        }
        j = j - 1;
    }
    proof {
        if j > i {
            assert(v@.subrange(i as int, j as int).last() == v@[j - 1]);
        }
    }
    (i, j)
}

/// `s` trimmed by the characters of `set` on both ends.
pub fn trim_by(s: &str, set: &Vec<char>) -> (r: String)
    ensures
        r@ == trim_set(s@, set@),
{
    let v = chars_of(s);
    let (i, j) = trim_bounds(&v, set);
    string_of_range(&v, i, j)
}

/// `s.trim_matches(|c| c == '"' || c == '\'' || c == '`')`.
pub fn trim_quote_chars(s: &str) -> (r: String)
    ensures
        r@ == trim_quotes(s@),
{
    let q = quote_set();
    trim_by(s, &q)
}

/// `str::trim`.
pub fn trim_whitespace(s: &str) -> (r: String)
    ensures
        r@ == trim_ws(s@),
{
    let w = ws_set();
    trim_by(s, &w)
}

/// Whether `t` occurs in `s` at position `i` (executable).
pub fn occurs_at_exec(s: &Vec<char>, t: &Vec<char>, i: usize) -> (r: bool)
    ensures
        r == occurs_at(s@, t@, i as int),
{
    if t.len() > s.len() || i > s.len() - t.len() {
        return false;
    }
    let mut k: usize = 0;
    while k < t.len()
        invariant
            t.len() <= s.len(),
            i + t.len() <= s.len(),
            0 <= k <= t.len(),
            forall|m: int| 0 <= m < k ==> s@[i + m] == t@[m],
        decreases t.len() - k,
    {
        if s[i + k] != t[k] {
            assert(s@.subrange(i as int, i + t.len())[k as int] != t@[k as int]);
            return false;
        }
        k = k + 1;
    }
    assert(s@.subrange(i as int, i + t.len()) =~= t@);
    true
}

/// `str::starts_with` on character vectors.
pub fn starts_with_exec(s: &Vec<char>, p: &Vec<char>) -> (r: bool)
    ensures
        r == starts_with(s@, p@),
{
    occurs_at_exec(s, p, 0)
}

/// `str::ends_with` on character vectors.
pub fn ends_with_exec(s: &Vec<char>, p: &Vec<char>) -> (r: bool)
    ensures
        r == ends_with(s@, p@),
{
    if p.len() > s.len() {
        return false;
    }
    occurs_at_exec(s, p, s.len() - p.len())
}

/// `str::starts_with` on string slices.
pub fn str_starts_with(s: &str, p: &str) -> (r: bool)
    ensures
        r == starts_with(s@, p@),
{
    let vs = chars_of(s);
    let vp = chars_of(p);
    starts_with_exec(&vs, &vp)
}

/// `str::ends_with` on string slices.
pub fn str_ends_with(s: &str, p: &str) -> (r: bool)
    ensures
        r == ends_with(s@, p@),
{
    let vs = chars_of(s);
    let vp = chars_of(p);
    ends_with_exec(&vs, &vp)
}

/// `str::find` on character vectors.
pub fn find_exec(s: &Vec<char>, t: &Vec<char>) -> (r: Option<usize>)
    ensures
        match r {
            Some(i) => is_first_occurrence(s@, t@, i as int),
            None => !has_sub(s@, t@),
        },
{
    if t.len() > s.len() {
        return None;
    }
    let last = s.len() - t.len();
    let mut i: usize = 0;
    loop
        invariant
            last == s.len() - t.len(),
            0 <= i <= last,
            forall|j: int| 0 <= j < i ==> !occurs_at(s@, t@, j),
        ensures
            forall|j: int| 0 <= j <= last ==> !occurs_at(s@, t@, j),
        decreases last - i,
    {
        if occurs_at_exec(s, t, i) {
            return Some(i);
        }
        if i == last {
            break;
        }
        i = i + 1;
    }
    assert forall|j: int| !occurs_at(s@, t@, j) by {
        if 0 <= j && j <= last {
        }
    }
    None
}

/// `str::rfind` on character vectors.
pub fn rfind_exec(s: &Vec<char>, t: &Vec<char>) -> (r: Option<usize>)
    ensures
        match r {
            Some(i) => is_last_occurrence(s@, t@, i as int),
            None => !has_sub(s@, t@),
        },
{
    if t.len() > s.len() {
        return None;
    }
    let mut i: usize = s.len() - t.len();
    loop
        invariant
            i <= s.len() - t.len(),
            forall|j: int| i < j ==> !occurs_at(s@, t@, j),
        ensures
            forall|j: int| 0 <= j ==> !occurs_at(s@, t@, j),
        decreases i,
    {
        if occurs_at_exec(s, t, i) {
            return Some(i);
        }
        if i == 0 {
            break;
        }
        i = i - 1;
    }
    assert forall|j: int| !occurs_at(s@, t@, j) by {
        if 0 <= j {
        }
    }
    None
}

/// `str::contains` on character vectors.
pub fn contains_exec(s: &Vec<char>, t: &Vec<char>) -> (r: bool)
    ensures
        r == has_sub(s@, t@),
{
    match find_exec(s, t) {
        Some(_) => true,
        None => false,
    }
}

/// `str::contains` on string slices.
pub fn str_contains(s: &str, t: &str) -> (r: bool)
    ensures
        r == has_sub(s@, t@),
{
    let vs = chars_of(s);
    let vt = chars_of(t);
    contains_exec(&vs, &vt)
}

/// Whether a character vector contains the character `c`.
pub fn has_char(s: &Vec<char>, c: char) -> (r: bool)
    ensures
        r == s@.contains(c),
{
    char_in(c, s)
}

/// `str::replace` with a non-empty pattern, on character vectors.
pub fn replace_exec(s: &Vec<char>, pat: &Vec<char>, rep: &Vec<char>) -> (r: Vec<char>)
    ensures
        r@ == replace_all(s@, pat@, rep@),
{
    if pat.len() == 0 {
        return s.clone();
    }
    let mut out: Vec<char> = Vec::new();
    let mut i: usize = 0;
    proof {
        assert(s@.skip(0) =~= s@);
    }
    while i < s.len()
        invariant
            pat.len() > 0,
            0 <= i <= s.len(),
            out@ + replace_all(s@.skip(i as int), pat@, rep@) == replace_all(s@, pat@, rep@),
        decreases s.len() - i,
    {
        let ghost rest = s@.skip(i as int);
        if occurs_at_exec(s, pat, i) {
            proof {
                assert(rest.subrange(0, pat@.len() as int) =~= s@.subrange(
                    i as int,
                    i + pat@.len(),
                ));
                assert(rest.skip(pat@.len() as int) =~= s@.skip(i + pat@.len()));
                assert(out@ + rep@ + replace_all(s@.skip(i + pat@.len()), pat@, rep@) =~= out@
                    + replace_all(rest, pat@, rep@));
            }
            let mut k: usize = 0;
            let ghost before = out@;
            while k < rep.len()
                invariant
                    0 <= k <= rep.len(),
                    out@ == before + rep@.take(k as int),
                decreases rep.len() - k,
            {
                out.push(rep[k]);
                k = k + 1;
                assert(out@ =~= before + rep@.take(k as int));
            }
            assert(rep@.take(rep.len() as int) =~= rep@);
            i = i + pat.len();
        } else {
            proof {
                assert(rest.subrange(0, pat@.len() as int) =~= s@.subrange(
                    i as int,
                    i + pat@.len(),
                ) || pat@.len() > rest.len());
                assert(!starts_with(rest, pat@));
                assert(rest.drop_first() =~= s@.skip(i + 1));
                assert(out@.push(s@[i as int]) + replace_all(s@.skip(i + 1), pat@, rep@)
                    =~= out@ + replace_all(rest, pat@, rep@));
            }
            out.push(s[i]);
            i = i + 1;
        }
    }
    proof {
        assert(s@.skip(i as int) =~= Seq::<char>::empty());
        assert(out@ + Seq::<char>::empty() =~= out@);
    }
    out
}

/// `str::replace` with a non-empty pattern, on string slices.
pub fn str_replace(s: &str, pat: &str, rep: &str) -> (r: String)
    ensures
        r@ == replace_all(s@, pat@, rep@),
{
    let vs = chars_of(s);
    let vp = chars_of(pat);
    let vr = chars_of(rep);
    let out = replace_exec(&vs, &vp, &vr);
    string_of(&out)
}

/// Replaces every character of `set` by `rep` (`str::replace` with a
/// character-set pattern).
pub fn replace_chars_exec(s: &str, set: &Vec<char>, rep: &str) -> (r: String)
    ensures
        r@ == replace_chars(s@, set@, rep@),
{
    let v = chars_of(s);
    let vr = chars_of(rep);
    let mut out: Vec<char> = Vec::new();
    let mut i: usize = 0;
    proof {
        assert(v@.skip(0) =~= v@);
    }
    while i < v.len()
        invariant
            0 <= i <= v.len(),
            v@ == s@,
            vr@ == rep@,
            out@ + replace_chars(v@.skip(i as int), set@, rep@) == replace_chars(s@, set@, rep@),
        decreases v.len() - i,
    {
        proof {
            lemma_replace_chars_step(v@, set@, rep@, i as int);
        }
        if char_in(v[i], set) {
            let ghost before = out@;
            let mut k: usize = 0;
            while k < vr.len()
                invariant
                    0 <= k <= vr.len(),
                    out@ == before + vr@.take(k as int),
                decreases vr.len() - k,
            {
                out.push(vr[k]);
                k = k + 1;
                assert(out@ =~= before + vr@.take(k as int));
            }
            assert(vr@.take(vr.len() as int) =~= vr@);
            assert(before + rep@ + replace_chars(v@.skip(i + 1), set@, rep@) =~= before + (rep@
                + replace_chars(v@.skip(i + 1), set@, rep@)));
        } else {
            let ghost before = out@;
            out.push(v[i]);
            assert(before.push(v@[i as int]) + replace_chars(v@.skip(i + 1), set@, rep@) =~= before
                + (seq![v@[i as int]] + replace_chars(v@.skip(i + 1), set@, rep@)));
        }
        i = i + 1;
    }
    proof {
        assert(v@.skip(i as int) =~= Seq::<char>::empty());
        assert(out@ + Seq::<char>::empty() =~= out@);
    }
    string_of(&out)
}

/// The prefix of `v` before the first character of `set`.
pub fn take_until_exec(v: &Vec<char>, set: &Vec<char>) -> (r: Vec<char>)
    ensures
        r@ == take_until(v@, set@),
{
    let mut i: usize = 0;
    while i < v.len() && !char_in(v[i], set)
        invariant
            0 <= i <= v.len(),
            forall|k: int| 0 <= k < i ==> !set@.contains(v@[k]),
        decreases v.len() - i,
    {
        i = i + 1;
    }
    proof {
        lemma_take_until_prefix(v@, set@, i as int);
    }
    let mut out: Vec<char> = Vec::new();
    let mut k: usize = 0;
    while k < i
        invariant
            0 <= k <= i <= v.len(),
            out@ == v@.take(k as int),
        decreases i - k,
    {
        out.push(v[k]);
        k = k + 1;
        assert(out@ =~= v@.take(k as int));
    }
    out
}

proof fn lemma_take_until_prefix(s: Seq<char>, set: Seq<char>, i: int)
    requires
        0 <= i <= s.len(),
        forall|k: int| 0 <= k < i ==> !set.contains(s[k]),
        i == s.len() || set.contains(s[i]),
    ensures
        take_until(s, set) == s.take(i),
    decreases i,
{
    if i == 0 {
        assert(s.take(0) =~= Seq::<char>::empty());
    } else {
        lemma_take_until_prefix(s.drop_first(), set, i - 1);
        assert(seq![s[0]] + s.drop_first().take(i - 1) =~= s.take(i));
    }
}


/// `str::split` with a character pattern: the parts between the
/// occurrences of `c`, at least one.
pub open spec fn split_on(s: Seq<char>, c: char) -> Seq<Seq<char>>
    decreases s.len(),
{
    if s.len() == 0 {
        seq![Seq::empty()]
    } else {
        let r = split_on(s.drop_last(), c);
        if s.last() == c {
            r.push(Seq::empty())
        } else {
            r.update(r.len() - 1, r.last().push(s.last()))
        }
    }
}

/// `split_on` always gives at least one part.
pub proof fn lemma_split_on_len(s: Seq<char>, c: char)
    ensures
        split_on(s, c).len() >= 1,
    decreases s.len(),
{
    if s.len() > 0 {
        lemma_split_on_len(s.drop_last(), c);
    }
}

/// A line without the carriage return that ended it.
pub open spec fn strip_cr(line: Seq<char>) -> Seq<char> {
    if line.len() > 0 && line.last() == '\r' {
        line.drop_last()
    } else {
        line
    }
}

/// `str::lines`: the parts between newlines, each without the carriage
/// return before its newline, and no empty last part.
pub open spec fn lines_of(s: Seq<char>) -> Seq<Seq<char>> {
    let p = split_on(s, '\n');
    let body = p.drop_last().map_values(|l: Seq<char>| strip_cr(l));
    if p.last().len() == 0 {
        body
    } else {
        body.push(p.last())
    }
}

/// `str::split` with a character pattern.
pub fn split_char(s: &str, c: char) -> (r: Vec<String>)
    ensures
        r@.map_values(|x: String| x@) == split_on(s@, c),
{
    let v = chars_of(s);
    let mut out: Vec<String> = Vec::new();
    let mut cur: Vec<char> = Vec::new();
    let mut i: usize = 0;
    while i < v.len()
        invariant
            v@ == s@,
            0 <= i <= v.len(),
            out@.map_values(|x: String| x@).push(cur@) == split_on(v@.take(i as int), c),
        decreases v.len() - i,
    {
        let ghost prev = v@.take(i as int);
        proof {
            assert(v@.take(i + 1).drop_last() =~= prev);
            assert(v@.take(i + 1).last() == v@[i as int]);
            lemma_split_on_len(prev, c);
        }
        if v[i] == c {
            let ghost before = out@;
            let part = string_of(&cur);
            out.push(part);
            cur = Vec::new();
            proof {
                assert(out@.map_values(|x: String| x@) =~= before.map_values(|x: String| x@).push(
                    part@,
                ));
            }
        } else {
            cur.push(v[i]);
        }
        i = i + 1;
    }
    let ghost before = out@;
    let last = string_of(&cur);
    out.push(last);
    proof {
        assert(v@.take(v@.len() as int) =~= v@);
        assert(out@.map_values(|x: String| x@) =~= before.map_values(|x: String| x@).push(last@));
    }
    out
}

/// `str::lines`.
pub fn split_lines(s: &str) -> (r: Vec<String>)
    ensures
        r@.map_values(|x: String| x@) == lines_of(s@),
{
    let parts = split_char(s, '\n');
    let ghost p = split_on(s@, '\n');
    proof {
        lemma_split_on_len(s@, '\n');
        assert(parts@.len() == p.len());
    }
    let n = parts.len();
    let mut out: Vec<String> = Vec::new();
    let mut i: usize = 0;
    while i + 1 < n
        invariant
            n == parts@.len(),
            n >= 1,
            parts@.map_values(|x: String| x@) == p,
            0 <= i <= n - 1,
            out@.map_values(|x: String| x@) == p.take(i as int).map_values(
                |l: Seq<char>| strip_cr(l),
            ),
        decreases n - i,
    {
        let line = chars_of(parts[i].as_str());
        proof {
            assert(line@ == p[i as int]);
        }
        let keep = if line.len() > 0 && line[line.len() - 1] == '\r' {
            line.len() - 1
        } else {
            line.len()
        };
        let stripped = string_of_range(&line, 0, keep);
        let ghost before = out@;
        out.push(stripped);
        proof {
            assert(stripped@ =~= strip_cr(p[i as int]));
            assert(out@.map_values(|x: String| x@) =~= before.map_values(|x: String| x@).push(
                stripped@,
            ));
            assert(p.take(i + 1).map_values(|l: Seq<char>| strip_cr(l)) =~= p.take(i as int).map_values(
                |l: Seq<char>| strip_cr(l),
            ).push(strip_cr(p[i as int])));
        }
        i = i + 1;
    }
    proof {
        assert(p.take(n - 1) =~= p.drop_last());
    }
    let lastv = chars_of(parts[n - 1].as_str());
    proof {
        assert(lastv@ == p.last());
    }
    if lastv.len() > 0 {
        let ghost before = out@;
        let last = parts[n - 1].clone();
        out.push(last);
        proof {
            assert(last@ == p.last());
            assert(out@.map_values(|x: String| x@) =~= before.map_values(|x: String| x@).push(
                last@,
            ));
        }
    }
    out
}

/// Strings ordered as `String`'s `Ord` orders them: character by character
/// by code point, which is the order of their UTF-8 bytes.
pub open spec fn str_lt(a: Seq<char>, b: Seq<char>) -> bool
    decreases a.len(),
{
    if a.len() == 0 {
        b.len() > 0
    } else if b.len() == 0 {
        false
    } else if a[0] != b[0] {
        (a[0] as int) < (b[0] as int)
    } else {
        str_lt(a.drop_first(), b.drop_first())
    }
}

/// The order of strings is a strict total order.
pub proof fn lemma_str_lt_total(a: Seq<char>, b: Seq<char>)
    ensures
        a == b || str_lt(a, b) || str_lt(b, a),
        !(str_lt(a, b) && str_lt(b, a)),
        !str_lt(a, a),
    decreases a.len(),
{
    if a.len() > 0 && b.len() > 0 && a[0] == b[0] {
        lemma_str_lt_total(a.drop_first(), b.drop_first());
        if a.drop_first() == b.drop_first() {
            assert forall|k: int| 0 <= k < a.len() implies a[k] == b[k] by {
                if k > 0 {
                    assert(a[k] == a.drop_first()[k - 1]);
                    assert(b[k] == b.drop_first()[k - 1]);
                }
            }
            assert(a =~= b);
        }
    }
    if a.len() > 0 {
        lemma_str_lt_total(a.drop_first(), a.drop_first());
    }
    if a.len() == 0 && b.len() == 0 {
        assert(a =~= b);
    }
    if a.len() > 0 && b.len() > 0 && a[0] != b[0] {
        assert((a[0] as int) != (b[0] as int));
    }
}

/// The order of strings is transitive.
pub proof fn lemma_str_lt_trans(a: Seq<char>, b: Seq<char>, c: Seq<char>)
    requires
        str_lt(a, b),
        str_lt(b, c),
    ensures
        str_lt(a, c),
    decreases a.len(),
{
    if a.len() > 0 && b.len() > 0 && c.len() > 0 && a[0] == b[0] && b[0] == c[0] {
        lemma_str_lt_trans(a.drop_first(), b.drop_first(), c.drop_first());
    }
}

/// Whether `a` comes before `b` in the order of strings.
pub fn str_less(a: &str, b: &str) -> (r: bool)
    ensures
        r == str_lt(a@, b@),
{
    let va = chars_of(a);
    let vb = chars_of(b);
    let mut i: usize = 0;
    proof {
        assert(va@.skip(0) =~= va@);
        assert(vb@.skip(0) =~= vb@);
    }
    while i < va.len() && i < vb.len() && va[i] == vb[i]
        invariant
            0 <= i <= va.len(),
            i <= vb.len(),
            str_lt(va@, vb@) == str_lt(va@.skip(i as int), vb@.skip(i as int)),
        decreases va.len() - i,
    {
        proof {
            assert(va@.skip(i as int).drop_first() =~= va@.skip(i + 1));
            assert(vb@.skip(i as int).drop_first() =~= vb@.skip(i + 1));
            assert(va@.skip(i as int)[0] == va@[i as int]);
            assert(vb@.skip(i as int)[0] == vb@[i as int]);
        }
        i = i + 1;
    }
    if i == va.len() {
        proof {
            assert(va@.skip(i as int).len() == 0);
        }
        i < vb.len()
    } else if i == vb.len() {
        proof {
            assert(vb@.skip(i as int).len() == 0);
        }
        false
    } else {
        proof {
            assert(va@.skip(i as int)[0] == va@[i as int]);
            assert(vb@.skip(i as int)[0] == vb@[i as int]);
        }
        va[i] < vb[i]
    }
}

/// `r` holds the distinct elements of `s` in increasing order.
pub open spec fn sorted_distinct(r: Seq<Seq<char>>, s: Seq<Seq<char>>) -> bool {
    &&& forall|i: int, j: int| 0 <= i < j < r.len() ==> str_lt(#[trigger] r[i], #[trigger] r[j])
    &&& r.to_set() == s.to_set()
}

/// Sorts strings and drops repeats (`sort` then `dedup`).
pub fn sort_dedup(v: &Vec<String>) -> (r: Vec<String>)
    ensures
        sorted_distinct(crate::models::strings_view(r@), crate::models::strings_view(v@)),
{
    let ghost sv = crate::models::strings_view(v@);
    let mut out: Vec<String> = Vec::new();
    let mut i: usize = 0;
    while i < v.len()
        invariant
            sv == crate::models::strings_view(v@),
            0 <= i <= v@.len(),
            forall|a: int, b: int|
                0 <= a < b < out@.len() ==> str_lt(#[trigger] out@[a]@, #[trigger] out@[b]@),
            crate::models::strings_view(out@).to_set() == sv.take(i as int).to_set(),
        decreases v@.len() - i,
    {
        let x = &v[i];
        let mut p: usize = 0;
        while p < out.len() && str_less(out[p].as_str(), x.as_str())
            invariant
                0 <= p <= out@.len(),
                forall|a: int| 0 <= a < p ==> str_lt(#[trigger] out@[a]@, x@),
            decreases out@.len() - p,
        {
            p = p + 1;
        }
        let ghost before = out@;
        let ghost bs = crate::models::strings_view(before);
        proof {
            assert(sv.take(i + 1) =~= sv.take(i as int).push(x@));
            crate::lemmas::lemma_push_to_set(sv.take(i as int), x@);
        }
        if p < out.len() && str_eq(out[p].as_str(), x.as_str()) {
            proof {
                assert(bs[p as int] == x@);
                assert(bs.to_set().contains(x@));
                assert(bs.to_set().insert(x@) =~= bs.to_set());
            }
        } else {
            out.insert(p, x.clone());
            proof {
                let after = out@;
                assert(after == before.insert(p as int, after[p as int]));
                assert(after[p as int]@ == x@);
                if p < before.len() {
                    lemma_str_lt_total(before[p as int]@, x@);
                    assert(str_lt(x@, before[p as int]@));
                }
                assert forall|a: int, b: int|
                    0 <= a < b < after.len() implies str_lt(#[trigger] after[a]@, #[trigger] after[b]@) by {
                    if b < p {
                        assert(after[a] == before[a] && after[b] == before[b]);
                    } else if b == p {
                        assert(after[a] == before[a]);
                    } else if a < p {
                        assert(after[a] == before[a] && after[b] == before[b - 1]);
                        if b - 1 > p {
                            lemma_str_lt_trans(x@, before[p as int]@, before[b - 1]@);
                        }
                        lemma_str_lt_trans(before[a]@, x@, before[b - 1]@);
                    } else if a == p {
                        assert(after[b] == before[b - 1]);
                        if b - 1 > p {
                            lemma_str_lt_trans(x@, before[p as int]@, before[b - 1]@);
                        }
                    } else {
                        assert(after[a] == before[a - 1] && after[b] == before[b - 1]);
                    }
                }
                let avs = crate::models::strings_view(after);
                assert forall|y: Seq<char>| avs.to_set().contains(y) <==> bs.to_set().insert(x@).contains(y) by {
                    if avs.to_set().contains(y) {
                        let a = choose|a: int| 0 <= a < avs.len() && avs[a] == y;
                        if a < p {
                            assert(bs[a] == y);
                        } else if a > p {
                            assert(bs[a - 1] == y);
                        }
                    }
                    if bs.to_set().contains(y) {
                        let a = choose|a: int| 0 <= a < bs.len() && bs[a] == y;
                        if a < p {
                            assert(avs[a] == y);
                        } else {
                            assert(avs[a + 1] == y);
                        }
                    }
                    if y == x@ {
                        assert(avs[p as int] == y);
                    }
                }
                assert(avs.to_set() =~= bs.to_set().insert(x@));
            }
        }
        i = i + 1;
    }
    proof {
        assert(sv.take(v@.len() as int) =~= sv);
        assert forall|a: int, b: int|
            0 <= a < b < crate::models::strings_view(out@).len() implies str_lt(
            #[trigger] crate::models::strings_view(out@)[a],
            #[trigger] crate::models::strings_view(out@)[b],
        ) by {
            assert(str_lt(out@[a]@, out@[b]@));
        }
    }
    out
}

/// `parts` joined by newlines.
pub open spec fn joined_lines(parts: Seq<Seq<char>>) -> Seq<char>
    decreases parts.len(),
{
    if parts.len() == 0 {
        Seq::empty()
    } else if parts.len() == 1 {
        parts[0]
    } else {
        joined_lines(parts.drop_last()) + seq!['\n'] + parts.last()
    }
}

} // verus!
