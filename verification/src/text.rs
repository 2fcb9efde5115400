//! Character-level text primitives with exact specifications.
//!
//! Every piece of text the library reads or writes is handled as a
//! sequence of `char`s.  The spec functions here say what the std string
//! operations the logic relies on (`find`, `split`, `split_once`,
//! `lines`, `trim`, decimal formatting and parsing) compute, and the exec
//! functions are proved to compute exactly that.
use vstd::prelude::*;

verus! {

// ---------------------------------------------------------------------------
// Conversions between `str`/`String` and `Vec<char>`.
// ---------------------------------------------------------------------------

/// The characters of `s`, in order.
pub fn chars_of(s: &str) -> (out: Vec<char>)
    ensures
        out@ == s@,
{
    let mut out: Vec<char> = Vec::new();
    for c in it: s.chars()
        invariant
            out@ == it.seq().take(it.index() as int),
    {
        out.push(c);
    }
    out
}

/// Appends one character to a string (`String::push`).
#[verifier::external_body]
fn push_char(s: &mut String, c: char)
    ensures
        final(s)@ == old(s)@.push(c),
{
    s.push(c);
}

/// The string made of the characters of `v`, in order.
pub fn string_of(v: &[char]) -> (out: String)
    ensures
        out@ == v@,
{
    let mut out = String::new();
    let mut i: usize = 0;
    while i < v.len()
        invariant
            i <= v.len(),
            out@ == v@.take(i as int),
        decreases v.len() - i,
    {
        push_char(&mut out, v[i]);
        i += 1;
        assert(out@ =~= v@.take(i as int));
    }
    assert(out@ =~= v@);
    out
}

/// Appends the characters of `t` to `v`.
pub fn extend_chars(v: &mut Vec<char>, t: &[char])
    ensures
        final(v)@ == old(v)@ + t@,
{
    let mut i: usize = 0;
    while i < t.len()
        invariant
            i <= t.len(),
            v@ == old(v)@ + t@.take(i as int),
        decreases t.len() - i,
    {
        v.push(t[i]);
        i += 1;
        assert(v@ =~= old(v)@ + t@.take(i as int));
    }
    assert(t@.take(t.len() as int) =~= t@);
}

/// Appends the characters of `s` to `v`.
pub fn extend_str(v: &mut Vec<char>, s: &str)
    ensures
        final(v)@ == old(v)@ + s@,
{
    let cs = chars_of(s);
    extend_chars(v, cs.as_slice());
}

/// Two character slices are equal.
pub fn chars_eq(a: &[char], b: &[char]) -> (r: bool)
    ensures
        r == (a@ == b@),
{
    if a.len() != b.len() {
        return false;
    }
    let mut i: usize = 0;
    while i < a.len()
        invariant
            a.len() == b.len(),
            i <= a.len(),
            forall|k: int| 0 <= k < i ==> a@[k] == b@[k],
        decreases a.len() - i,
    {
        if a[i] != b[i] {
            return false;
        }
        i += 1;
    }
    assert(a@ =~= b@);
    true
}

/// `s` equals the string literal `lit`.
pub fn chars_eq_str(s: &[char], lit: &str) -> (r: bool)
    ensures
        r == (s@ == lit@),
{
    let l = chars_of(lit);
    chars_eq(s, l.as_slice())
}

// ---------------------------------------------------------------------------
// Prefixes and occurrences.
// ---------------------------------------------------------------------------

/// `s` begins with `p`.
pub open spec fn starts_with(s: Seq<char>, p: Seq<char>) -> bool {
    p.len() <= s.len() && s.take(p.len() as int) == p
}

/// `s` ends with `p`.
pub open spec fn ends_with(s: Seq<char>, p: Seq<char>) -> bool {
    p.len() <= s.len() && s.skip(s.len() - p.len()) == p
}

/// `pat` occurs in `s` at position `i`.
pub open spec fn matches_at(s: Seq<char>, pat: Seq<char>, i: int) -> bool {
    0 <= i && i + pat.len() <= s.len() && s.subrange(i, i + pat.len()) == pat
}

/// The first position at or after `start` where `pat` occurs in `s`.
pub open spec fn find_from(s: Seq<char>, pat: Seq<char>, start: int) -> Option<int>
    decreases s.len() + 1 - start,
{
    if start < 0 || start + pat.len() > s.len() {
        None
    } else if matches_at(s, pat, start) {
        Some(start)
    } else {
        find_from(s, pat, start + 1)
    }
}

/// The first position where `pat` occurs in `s` (`str::find`).
pub open spec fn find(s: Seq<char>, pat: Seq<char>) -> Option<int> {
    find_from(s, pat, 0)
}

/// The last position at or before `i` where `pat` occurs in `s`.
pub open spec fn rfind_below(s: Seq<char>, pat: Seq<char>, i: int) -> Option<int>
    decreases i + 1,
{
    if i < 0 {
        None
    } else if matches_at(s, pat, i) {
        Some(i)
    } else {
        rfind_below(s, pat, i - 1)
    }
}

/// The last position where `pat` occurs in `s` (`str::rfind`).
pub open spec fn rfind(s: Seq<char>, pat: Seq<char>) -> Option<int> {
    rfind_below(s, pat, s.len() - pat.len())
}

/// `str::split_once`: the parts before and after the first occurrence of `pat`.
pub open spec fn split_once(s: Seq<char>, pat: Seq<char>) -> Option<(Seq<char>, Seq<char>)> {
    match find(s, pat) {
        Some(i) => Some((s.take(i), s.skip(i + pat.len()))),
        None => None,
    }
}

/// `str::rsplit_once`: the parts before and after the last occurrence of `pat`.
pub open spec fn rsplit_once(s: Seq<char>, pat: Seq<char>) -> Option<(Seq<char>, Seq<char>)> {
    match rfind(s, pat) {
        Some(i) => Some((s.take(i), s.skip(i + pat.len()))),
        None => None,
    }
}

pub proof fn lemma_find_from_bounds(s: Seq<char>, pat: Seq<char>, start: int)
    requires
        0 <= start,
    ensures
        find_from(s, pat, start) matches Some(i) ==> start <= i && matches_at(s, pat, i) && (
        forall|k: int| start <= k < i ==> !matches_at(s, pat, k)),
        find_from(s, pat, start) is None ==> forall|k: int|
            start <= k ==> !matches_at(s, pat, k),
    decreases s.len() + 1 - start,
{
    if start + pat.len() > s.len() {
    } else if matches_at(s, pat, start) {
    } else {
        lemma_find_from_bounds(s, pat, start + 1);
    }
}

pub proof fn lemma_rfind_below_bounds(s: Seq<char>, pat: Seq<char>, i: int)
    ensures
        rfind_below(s, pat, i) matches Some(j) ==> j <= i && matches_at(s, pat, j) && (forall|k: int|
            j < k <= i ==> !matches_at(s, pat, k)),
        rfind_below(s, pat, i) is None ==> forall|k: int| k <= i ==> !matches_at(s, pat, k),
    decreases i + 1,
{
    if i >= 0 && !matches_at(s, pat, i) {
        lemma_rfind_below_bounds(s, pat, i - 1);
    }
}

/// `pat` occurs in `s` at position `i`.
pub fn matches_at_exec(s: &[char], pat: &[char], i: usize) -> (r: bool)
    ensures
        r == matches_at(s@, pat@, i as int),
{
    if i > s.len() || pat.len() > s.len() - i {
        return false;
    }
    let mut j: usize = 0;
    while j < pat.len()
        invariant
            i + pat.len() <= s.len(),
            j <= pat.len(),
            forall|k: int| 0 <= k < j ==> s@[i + k] == pat@[k],
        decreases pat.len() - j,
    {
        if s[i + j] != pat[j] {
            assert(s@.subrange(i as int, i + pat.len())[j as int] != pat@[j as int]);
            return false;
        }
        j += 1;
    }
    assert(s@.subrange(i as int, i + pat.len()) =~= pat@);
    true
}

/// `s` begins with `p`.
pub fn starts_with_exec(s: &[char], p: &[char]) -> (r: bool)
    ensures
        r == starts_with(s@, p@),
{
    let r = matches_at_exec(s, p, 0);
    assert(s@.subrange(0, p@.len() as int) =~= s@.take(p@.len() as int));
    r
}

/// `s` begins with the literal `lit`.
pub fn starts_with_str(s: &[char], lit: &str) -> (r: bool)
    ensures
        r == starts_with(s@, lit@),
{
    let l = chars_of(lit);
    starts_with_exec(s, l.as_slice())
}

/// The first position where `pat` occurs in `s`.
pub fn find_exec(s: &[char], pat: &[char]) -> (r: Option<usize>)
    ensures
        r matches Some(i) ==> find(s@, pat@) == Some(i as int),
        r is None ==> find(s@, pat@) is None,
{
    let mut i: usize = 0;
    while i <= s.len() && pat.len() <= s.len() - i
        invariant
            i <= s.len() + 1,
            find_from(s@, pat@, 0) == find_from(s@, pat@, i as int),
        decreases s.len() + 1 - i,
    {
        if matches_at_exec(s, pat, i) {
            return Some(i);
        }
        assert(i < s.len()) by {
            if i == s.len() {
                assert(s@.subrange(i as int, i as int) =~= pat@);
            }
        }
        i += 1;
    }
    None
}

/// The last position where `pat` occurs in `s`.
pub fn rfind_exec(s: &[char], pat: &[char]) -> (r: Option<usize>)
    ensures
        r matches Some(i) ==> rfind(s@, pat@) == Some(i as int),
        r is None ==> rfind(s@, pat@) is None,
{
    if pat.len() > s.len() {
        return None;
    }
    let mut i: usize = s.len() - pat.len();
    loop
        invariant
            i + pat.len() <= s.len(),
            rfind(s@, pat@) == rfind_below(s@, pat@, i as int),
        decreases i,
    {
        if matches_at_exec(s, pat, i) {
            return Some(i);
        }
        if i == 0 {
            assert(rfind_below(s@, pat@, -1) is None);
            return None;
        }
        i -= 1;
    }
}

/// Splits at the first occurrence of `pat` (`str::split_once`).
pub fn split_once_exec(s: &[char], pat: &[char]) -> (r: Option<(Vec<char>, Vec<char>)>)
    ensures
        r matches Some(p) ==> split_once(s@, pat@) == Some((p.0@, p.1@)),
        r is None ==> split_once(s@, pat@) is None,
{
    match find_exec(s, pat) {
        Some(i) => {
            proof {
                lemma_find_from_bounds(s@, pat@, 0);
                assert(matches_at(s@, pat@, i as int));
                assert(i + pat@.len() <= s@.len());
            }
            assert(i + pat.len() <= s.len());
            let a = slice_to_vec(s, 0, i);
            let b = slice_to_vec(s, i + pat.len(), s.len());
            assert(a@ =~= s@.take(i as int));
            assert(b@ =~= s@.skip(i + pat.len()));
            Some((a, b))
        },
        None => None,
    }
}

/// Splits at the last occurrence of `pat` (`str::rsplit_once`).
pub fn rsplit_once_exec(s: &[char], pat: &[char]) -> (r: Option<(Vec<char>, Vec<char>)>)
    ensures
        r matches Some(p) ==> rsplit_once(s@, pat@) == Some((p.0@, p.1@)),
        r is None ==> rsplit_once(s@, pat@) is None,
{
    match rfind_exec(s, pat) {
        Some(i) => {
            proof {
                lemma_rfind_below_bounds(s@, pat@, s@.len() - pat@.len());
                assert(matches_at(s@, pat@, i as int));
                assert(i + pat@.len() <= s@.len());
            }
            assert(i + pat.len() <= s.len());
            let a = slice_to_vec(s, 0, i);
            let b = slice_to_vec(s, i + pat.len(), s.len());
            assert(a@ =~= s@.take(i as int));
            assert(b@ =~= s@.skip(i + pat.len()));
            Some((a, b))
        },
        None => None,
    }
}

/// The characters of `s` from `lo` up to `hi`.
pub fn slice_to_vec(s: &[char], lo: usize, hi: usize) -> (out: Vec<char>)
    requires
        lo <= hi <= s.len(),
    ensures
        out@ == s@.subrange(lo as int, hi as int),
{
    let mut out: Vec<char> = Vec::new();
    let mut i: usize = lo;
    while i < hi
        invariant
            lo <= i <= hi <= s.len(),
            out@ == s@.subrange(lo as int, i as int),
        decreases hi - i,
    {
        out.push(s[i]);
        i += 1;
        assert(out@ =~= s@.subrange(lo as int, i as int));
    }
    out
}

// ---------------------------------------------------------------------------
// Splitting.
// ---------------------------------------------------------------------------

/// `str::split` with a non-empty pattern, continuing from position `start`.
pub open spec fn split_from(s: Seq<char>, pat: Seq<char>, start: int) -> Seq<Seq<char>>
    recommends
        pat.len() > 0,
        0 <= start <= s.len(),
    decreases s.len() - start,
    when pat.len() > 0 && 0 <= start <= s.len()
{
    match find_from(s, pat, start) {
        Some(i) => {
            proof {
                lemma_find_from_bounds(s, pat, start);
            }
            seq![s.subrange(start, i)] + split_from(s, pat, i + pat.len())
        },
        None => seq![s.subrange(start, s.len() as int)],
    }
}

/// `str::split` with a non-empty pattern.
pub open spec fn split(s: Seq<char>, pat: Seq<char>) -> Seq<Seq<char>> {
    split_from(s, pat, 0)
}

/// The views of a vector of character vectors.
pub open spec fn views(v: Seq<Vec<char>>) -> Seq<Seq<char>> {
    Seq::new(v.len(), |i: int| v[i]@)
}

/// Splits `s` at every occurrence of the non-empty pattern `pat` (`str::split`).
pub fn split_exec(s: &[char], pat: &[char]) -> (out: Vec<Vec<char>>)
    requires
        pat.len() > 0,
    ensures
        views(out@) == split(s@, pat@),
{
    let mut out: Vec<Vec<char>> = Vec::new();
    let mut pos: usize = 0;
    loop
        invariant
            pat.len() > 0,
            pos <= s.len(),
            views(out@) + split_from(s@, pat@, pos as int) == split(s@, pat@),
        decreases s.len() - pos,
    {
        let rest = slice_to_vec(s, pos, s.len());
        let found = find_exec(rest.as_slice(), pat);
        proof {
            lemma_find_from_shift(s@, pat@, pos as int);
            lemma_find_from_bounds(rest@, pat@, 0);
        }
        match found {
            Some(k) => {
                let piece = slice_to_vec(s, pos, pos + k);
                let ghost before = views(out@);
                out.push(piece);
                assert(views(out@) =~= before.push(piece@));
                assert(split_from(s@, pat@, pos as int) == seq![s@.subrange(pos as int, pos + k)]
                    + split_from(s@, pat@, pos + k + pat.len()));
                assert(views(out@) + split_from(s@, pat@, (pos + k + pat.len()) as int)
                    =~= before + split_from(s@, pat@, pos as int));
                pos = pos + k + pat.len();
            },
            None => {
                let piece = slice_to_vec(s, pos, s.len());
                let ghost before = views(out@);
                out.push(piece);
                assert(views(out@) =~= before.push(piece@));
                assert(views(out@) =~= before + split_from(s@, pat@, pos as int));
                return out;
            },
        }
    }
}

/// Searching the suffix of `s` from `start` is searching `s` from `start`, shifted.
pub proof fn lemma_find_from_shift(s: Seq<char>, pat: Seq<char>, start: int)
    requires
        0 <= start <= s.len(),
    ensures
        find_from(s, pat, start) == (match find_from(s.skip(start), pat, 0) {
            Some(k) => Some(k + start),
            None => None::<int>,
        }),
{
    lemma_find_from_shift_at(s, pat, start, 0);
}

proof fn lemma_find_from_shift_at(s: Seq<char>, pat: Seq<char>, start: int, k: int)
    requires
        0 <= start <= s.len(),
        0 <= k,
    ensures
        find_from(s, pat, start + k) == (match find_from(s.skip(start), pat, k) {
            Some(j) => Some(j + start),
            None => None::<int>,
        }),
    decreases s.len() + 1 - start - k,
{
    let t = s.skip(start);
    if start + k + pat.len() > s.len() {
    } else {
        assert(matches_at(s, pat, start + k) == matches_at(t, pat, k)) by {
            assert(s.subrange(start + k, start + k + pat.len()) =~= t.subrange(k, k + pat.len()));
        }
        if !matches_at(s, pat, start + k) {
            lemma_find_from_shift_at(s, pat, start, k + 1);
            assert(start + (k + 1) == start + k + 1);
        }
    }
}

/// `str::lines`: split at `'\n'`, drop a `'\r'` that stands right before a
/// `'\n'`, and produce no final empty line when the text ends with `'\n'`.
pub open spec fn lines(s: Seq<char>) -> Seq<Seq<char>> {
    let parts = split(s, seq!['\n']);
    if s.len() == 0 {
        Seq::empty()
    } else if s.last() == '\n' {
        parts.drop_last().map_values(|l: Seq<char>| strip_cr(l))
    } else {
        parts.drop_last().map_values(|l: Seq<char>| strip_cr(l)).push(parts.last())
    }
}

/// Drops one trailing `'\r'`.
pub open spec fn strip_cr(l: Seq<char>) -> Seq<char> {
    if l.len() > 0 && l.last() == '\r' {
        l.drop_last()
    } else {
        l
    }
}

pub proof fn lemma_split_nonempty(s: Seq<char>, pat: Seq<char>, start: int)
    requires
        pat.len() == 1,
        0 <= start <= s.len(),
    ensures
        split_from(s, pat, start).len() > 0,
        ends_with(s, pat) && start < s.len() ==> split_from(s, pat, start).last().len() == 0,
    decreases s.len() - start,
{
    lemma_find_from_bounds(s, pat, start);
    match find_from(s, pat, start) {
        Some(i) => {
            lemma_split_nonempty(s, pat, i + pat.len());
            if ends_with(s, pat) && start < s.len() {
                if i + pat.len() == s.len() {
                    lemma_find_from_bounds(s, pat, i + pat.len());
                } else {
                    assert(i + pat.len() < s.len());
                }
            }
        },
        None => {
            if ends_with(s, pat) && start < s.len() {
                let j = s.len() - pat.len();
                assert(s.subrange(j, j + pat.len()) =~= s.skip(s.len() - pat.len()));
                assert(matches_at(s, pat, j));
            }
        },
    }
}

/// The first match from `start` is at `m` when nothing matches before it.
pub proof fn lemma_find_from_first(s: Seq<char>, pat: Seq<char>, start: int, m: int)
    requires
        0 <= start <= m,
        matches_at(s, pat, m),
        forall|k: int| start <= k < m ==> !matches_at(s, pat, k),
    ensures
        find_from(s, pat, start) == Some(m),
    decreases m - start,
{
    if start < m {
        lemma_find_from_first(s, pat, start + 1, m);
    }
}

/// Splitting from position `start + m` of `s` is splitting its suffix from `m`.
pub proof fn lemma_split_from_shift(s: Seq<char>, pat: Seq<char>, start: int, m: int)
    requires
        pat.len() > 0,
        0 <= start <= s.len(),
        0 <= m <= s.len() - start,
    ensures
        split_from(s, pat, start + m) == split_from(s.skip(start), pat, m),
    decreases s.len() - start - m,
{
    let t = s.skip(start);
    lemma_find_from_shift_at(s, pat, start, m);
    lemma_find_from_bounds(t, pat, m);
    match find_from(t, pat, m) {
        Some(k) => {
            lemma_split_from_shift(s, pat, start, k + pat.len());
            assert(s.subrange(start + m, k + start) =~= t.subrange(m, k));
            assert(start + (k + pat.len()) == k + start + pat.len());
        },
        None => {
            assert(s.subrange(start + m, s.len() as int) =~= t.subrange(m, t.len() as int));
        },
    }
}

/// Splitting `a + sep + b` at the single-character `sep`, where `a` has no
/// `sep`, yields `a` followed by the pieces of `b`.
pub proof fn lemma_split_cons(a: Seq<char>, c: char, b: Seq<char>)
    requires
        forall|i: int| 0 <= i < a.len() ==> a[i] != c,
    ensures
        split(a + seq![c] + b, seq![c]) == seq![a] + split(b, seq![c]),
{
    let s = a + seq![c] + b;
    let pat = seq![c];
    assert(matches_at(s, pat, a.len() as int)) by {
        assert(s.subrange(a.len() as int, a.len() as int + 1) =~= pat);
    }
    assert forall|k: int| 0 <= k < a.len() implies !matches_at(s, pat, k) by {
        if matches_at(s, pat, k) {
            assert(s.subrange(k, k + 1)[0] == s[k]);
            assert(s[k] == a[k]);
        }
    }
    lemma_find_from_first(s, pat, 0, a.len() as int);
    assert(s.subrange(0, a.len() as int) =~= a);
    lemma_split_from_shift(s, pat, a.len() as int + 1, 0);
    assert(s.skip(a.len() as int + 1) =~= b);
}

/// A split always yields at least one piece.
pub proof fn lemma_split_nonempty_any(s: Seq<char>, pat: Seq<char>, start: int)
    requires
        pat.len() > 0,
        0 <= start <= s.len(),
    ensures
        split_from(s, pat, start).len() > 0,
    decreases s.len() - start,
{
    lemma_find_from_bounds(s, pat, start);
    match find_from(s, pat, start) {
        Some(i) => {
            lemma_split_nonempty_any(s, pat, i + pat.len());
        },
        None => {},
    }
}

/// Drops one trailing `'\r'` from a line.
pub fn strip_cr_exec(l: Vec<char>) -> (out: Vec<char>)
    ensures
        out@ == strip_cr(l@),
{
    let mut l = l;
    if l.len() > 0 && l[l.len() - 1] == '\r' {
        l.pop();
    }
    l
}

/// Splits text into lines (`str::lines`).
pub fn lines_exec(s: &[char]) -> (out: Vec<Vec<char>>)
    ensures
        views(out@) == lines(s@),
{
    let mut out: Vec<Vec<char>> = Vec::new();
    if s.len() == 0 {
        assert(views(out@) =~= lines(s@));
        return out;
    }
    let nl = vec!['\n'];
    assert(nl@ =~= seq!['\n']);
    let parts = split_exec(s, nl.as_slice());
    proof {
        lemma_split_nonempty(s@, seq!['\n'], 0);
    }
    let ghost ps = split(s@, seq!['\n']);
    let n = parts.len() - 1;
    let mut i: usize = 0;
    while i < n
        invariant
            n + 1 == parts.len(),
            i <= n,
            views(parts@) == ps,
            views(out@) == ps.drop_last().take(i as int).map_values(|l: Seq<char>| strip_cr(l)),
        decreases n - i,
    {
        assert(parts@[i as int]@ == ps[i as int]);
        let line = strip_cr_exec(parts[i].clone());
        let ghost before = views(out@);
        out.push(line);
        assert(views(out@) =~= before.push(strip_cr(ps[i as int])));
        assert(ps.drop_last().take(i + 1).map_values(|l: Seq<char>| strip_cr(l)) =~= ps.drop_last().take(
            i as int,
        ).map_values(|l: Seq<char>| strip_cr(l)).push(strip_cr(ps[i as int])));
        i += 1;
    }
    assert(ps.drop_last().take(n as int) =~= ps.drop_last());
    if s[s.len() - 1] != '\n' {
        let last = parts[n].clone();
        assert(last@ == ps.last());
        let ghost before = views(out@);
        out.push(last);
        assert(views(out@) =~= before.push(ps.last()));
    }
    out
}

/// The parts joined with `sep` between consecutive parts (`[String]::join`).
pub open spec fn join_with(parts: Seq<Seq<char>>, sep: Seq<char>) -> Seq<char>
    decreases parts.len(),
{
    if parts.len() == 0 {
        Seq::empty()
    } else if parts.len() == 1 {
        parts[0]
    } else {
        join_with(parts.drop_last(), sep) + sep + parts.last()
    }
}

/// The views of a slice of strings.
pub open spec fn string_views(v: Seq<String>) -> Seq<Seq<char>> {
    Seq::new(v.len(), |i: int| v[i]@)
}

/// Appends the strings of `parts` to `out`, with `sep` between them.
pub fn push_joined(out: &mut Vec<char>, parts: &[String], sep: &str)
    ensures
        final(out)@ == old(out)@ + join_with(string_views(parts@), sep@),
{
    let mut i: usize = 0;
    let ghost start = out@;
    while i < parts.len()
        invariant
            i <= parts.len(),
            start == old(out)@,
            out@ == start + join_with(string_views(parts@).take(i as int), sep@),
        decreases parts.len() - i,
    {
        if i > 0 {
            extend_str(out, sep);
        }
        extend_str(out, parts[i].as_str());
        proof {
            let t = string_views(parts@).take(i + 1);
            assert(t.drop_last() =~= string_views(parts@).take(i as int));
            assert(t.last() == parts@[i as int]@);
            if i == 0 {
                assert(out@ =~= start + join_with(t, sep@));
            } else {
                assert(out@ =~= start + join_with(t, sep@));
            }
        }
        i += 1;
    }
    assert(string_views(parts@).take(parts.len() as int) =~= string_views(parts@));
}

/// A copy of a vector of strings.
pub fn clone_strings(v: &Vec<String>) -> (out: Vec<String>)
    ensures
        string_views(out@) == string_views(v@),
        out@ == v@,
{
    let mut out: Vec<String> = Vec::new();
    let mut i: usize = 0;
    while i < v.len()
        invariant
            i <= v.len(),
            out@ == v@.take(i as int),
        decreases v.len() - i,
    {
        out.push(v[i].clone());
        assert(out@ =~= v@.take(i + 1));
        i += 1;
    }
    assert(v@.take(v.len() as int) =~= v@);
    out
}

/// A copy of an optional string.
pub fn clone_opt(o: &Option<String>) -> (out: Option<String>)
    ensures
        out == *o,
{
    match o {
        Some(s) => Some(s.clone()),
        None => None,
    }
}

/// The strings made of each character vector.
pub fn strings_of(v: &Vec<Vec<char>>) -> (out: Vec<String>)
    ensures
        string_views(out@) == views(v@),
{
    let mut out: Vec<String> = Vec::new();
    let mut i: usize = 0;
    while i < v.len()
        invariant
            i <= v.len(),
            string_views(out@) == views(v@).take(i as int),
        decreases v.len() - i,
    {
        let s = string_of(v[i].as_slice());
        let ghost before = string_views(out@);
        out.push(s);
        assert(string_views(out@) =~~= before.push(v@[i as int]@));
        assert(string_views(out@) =~~= views(v@).take(i + 1));
        i += 1;
    }
    assert(views(v@).take(v.len() as int) =~~= views(v@));
    out
}

// ---------------------------------------------------------------------------
// Whitespace.
// ---------------------------------------------------------------------------

/// `char::is_whitespace`: the Unicode `White_Space` property.
pub open spec fn is_ws(c: char) -> bool {
    let u = c as u32;
    (9 <= u <= 13) || u == 32 || u == 0x85 || u == 0xA0 || u == 0x1680 || (0x2000 <= u
        <= 0x200A) || u == 0x2028 || u == 0x2029 || u == 0x202F || u == 0x205F || u == 0x3000
}

/// `char::is_whitespace`.
pub fn is_ws_exec(c: char) -> (r: bool)
    ensures
        r == is_ws(c),
{
    let u = c as u32;
    (9 <= u && u <= 13) || u == 32 || u == 0x85 || u == 0xA0 || u == 0x1680 || (0x2000 <= u && u
        <= 0x200A) || u == 0x2028 || u == 0x2029 || u == 0x202F || u == 0x205F || u == 0x3000
}

/// Number of leading whitespace characters.
pub open spec fn ws_prefix_len(s: Seq<char>) -> nat
    decreases s.len(),
{
    if s.len() > 0 && is_ws(s[0]) {
        1 + ws_prefix_len(s.drop_first())
    } else {
        0
    }
}

/// Number of trailing whitespace characters.
pub open spec fn ws_suffix_len(s: Seq<char>) -> nat
    decreases s.len(),
{
    if s.len() > 0 && is_ws(s.last()) {
        1 + ws_suffix_len(s.drop_last())
    } else {
        0
    }
}

/// `str::trim_start`.
pub open spec fn trim_start(s: Seq<char>) -> Seq<char> {
    s.skip(ws_prefix_len(s) as int)
}

/// `str::trim_end`.
pub open spec fn trim_end(s: Seq<char>) -> Seq<char> {
    s.take(s.len() - ws_suffix_len(s))
}

/// `str::trim`.
pub open spec fn trim(s: Seq<char>) -> Seq<char> {
    trim_end(trim_start(s))
}

pub proof fn lemma_ws_prefix_len(s: Seq<char>)
    ensures
        ws_prefix_len(s) <= s.len(),
        forall|k: int| 0 <= k < ws_prefix_len(s) ==> is_ws(#[trigger] s[k]),
        ws_prefix_len(s) < s.len() ==> !is_ws(s[ws_prefix_len(s) as int]),
    decreases s.len(),
{
    if s.len() > 0 && is_ws(s[0]) {
        lemma_ws_prefix_len(s.drop_first());
        assert forall|k: int| 0 <= k < ws_prefix_len(s) implies is_ws(#[trigger] s[k]) by {
            if k > 0 {
                assert(s[k] == s.drop_first()[k - 1]);
            }
        }
    }
}

pub proof fn lemma_ws_suffix_len(s: Seq<char>)
    ensures
        ws_suffix_len(s) <= s.len(),
        forall|k: int| s.len() - ws_suffix_len(s) <= k < s.len() ==> is_ws(#[trigger] s[k]),
        ws_suffix_len(s) < s.len() ==> !is_ws(s[s.len() - ws_suffix_len(s) - 1]),
    decreases s.len(),
{
    if s.len() > 0 && is_ws(s.last()) {
        lemma_ws_suffix_len(s.drop_last());
        assert forall|k: int| s.len() - ws_suffix_len(s) <= k < s.len() implies is_ws(
            #[trigger] s[k],
        ) by {
            if k < s.len() - 1 {
                assert(s[k] == s.drop_last()[k]);
            }
        }
    }
}

/// A prefix of leading whitespace of length `n` determines `ws_prefix_len`.
pub proof fn lemma_ws_prefix_len_char(s: Seq<char>, n: int)
    requires
        0 <= n <= s.len(),
        forall|k: int| 0 <= k < n ==> is_ws(#[trigger] s[k]),
        n == s.len() || !is_ws(s[n]),
    ensures
        ws_prefix_len(s) == n,
    decreases n,
{
    if n > 0 {
        let t = s.drop_first();
        assert forall|k: int| 0 <= k < n - 1 implies is_ws(#[trigger] t[k]) by {
            assert(t[k] == s[k + 1]);
        }
        if n - 1 < t.len() {
            assert(t[n - 1] == s[n]);
        }
        lemma_ws_prefix_len_char(t, n - 1);
    }
}

/// A suffix of trailing whitespace of length `n` determines `ws_suffix_len`.
pub proof fn lemma_ws_suffix_len_char(s: Seq<char>, n: int)
    requires
        0 <= n <= s.len(),
        forall|k: int| s.len() - n <= k < s.len() ==> is_ws(#[trigger] s[k]),
        n == s.len() || !is_ws(s[s.len() - n - 1]),
    ensures
        ws_suffix_len(s) == n,
    decreases n,
{
    if n > 0 {
        let t = s.drop_last();
        assert forall|k: int| t.len() - (n - 1) <= k < t.len() implies is_ws(#[trigger] t[k]) by {
            assert(t[k] == s[k]);
        }
        if n - 1 < t.len() {
            assert(t[t.len() - (n - 1) - 1] == s[s.len() - n - 1]);
        }
        lemma_ws_suffix_len_char(t, n - 1);
    }
}

/// `str::trim`.
pub fn trim_exec(s: &[char]) -> (out: Vec<char>)
    ensures
        out@ == trim(s@),
{
    let mut lo: usize = 0;
    while lo < s.len() && is_ws_exec(s[lo])
        invariant
            lo <= s.len(),
            forall|k: int| 0 <= k < lo ==> is_ws(#[trigger] s@[k]),
        decreases s.len() - lo,
    {
        lo += 1;
    }
    proof {
        lemma_ws_prefix_len_char(s@, lo as int);
    }
    let ghost t = s@.skip(lo as int);
    let mut hi: usize = s.len();
    while hi > lo && is_ws_exec(s[hi - 1])
        invariant
            lo <= hi <= s.len(),
            forall|k: int| hi <= k < s.len() ==> is_ws(#[trigger] s@[k]),
        decreases hi,
    {
        hi -= 1;
    }
    proof {
        assert forall|k: int| t.len() - (s.len() - hi) <= k < t.len() implies is_ws(
            #[trigger] t[k],
        ) by {
            assert(t[k] == s@[k + lo]);
        }
        if hi > lo {
            assert(t[t.len() - (s.len() - hi) - 1] == s@[hi - 1]);
        }
        lemma_ws_suffix_len_char(t, (s.len() - hi) as int);
    }
    let out = slice_to_vec(s, lo, hi);
    assert(out@ =~= trim(s@));
    out
}

/// `str::trim_end`.
pub fn trim_end_exec(s: &[char]) -> (out: Vec<char>)
    ensures
        out@ == trim_end(s@),
{
    let mut hi: usize = s.len();
    while hi > 0 && is_ws_exec(s[hi - 1])
        invariant
            hi <= s.len(),
            forall|k: int| hi <= k < s.len() ==> is_ws(#[trigger] s@[k]),
        decreases hi,
    {
        hi -= 1;
    }
    proof {
        lemma_ws_suffix_len_char(s@, (s.len() - hi) as int);
    }
    let out = slice_to_vec(s, 0, hi);
    assert(out@ =~= trim_end(s@));
    out
}

// ---------------------------------------------------------------------------
// Decimal numbers.
// ---------------------------------------------------------------------------

/// The ASCII digit for `d < 10`.
pub open spec fn digit_char(d: nat) -> char {
    (('0' as u32) + d) as char
}

/// The decimal representation of `n` (`Display` for unsigned integers).
pub open spec fn decimal(n: nat) -> Seq<char>
    decreases n,
{
    if n < 10 {
        seq![digit_char(n)]
    } else {
        decimal(n / 10).push(digit_char(n % 10))
    }
}

/// The ASCII digit for `d`.
fn digit_of(d: u8) -> (c: char)
    requires
        d < 10,
    ensures
        c == digit_char(d as nat),
{
    match d {
        0 => '0',
        1 => '1',
        2 => '2',
        3 => '3',
        4 => '4',
        5 => '5',
        6 => '6',
        7 => '7',
        8 => '8',
        _ => '9',
    }
}

/// Appends the decimal representation of `n`.
pub fn push_decimal(out: &mut Vec<char>, n: u128)
    ensures
        final(out)@ == old(out)@ + decimal(n as nat),
    decreases n,
{
    if n >= 10 {
        push_decimal(out, n / 10);
    }
    let c = digit_of((n % 10) as u8);
    out.push(c);
    proof {
        if n >= 10 {
            assert(final(out)@ =~= old(out)@ + decimal(n as nat));
        } else {
            assert(final(out)@ =~= old(out)@ + decimal(n as nat));
        }
    }
}

/// The decimal representation of `n`.
pub fn decimal_string(n: u128) -> (out: String)
    ensures
        out@ == decimal(n as nat),
{
    let mut v: Vec<char> = Vec::new();
    push_decimal(&mut v, n);
    assert(v@ =~= decimal(n as nat));
    string_of(v.as_slice())
}

/// `c` is an ASCII digit.
pub open spec fn is_digit(c: char) -> bool {
    '0' <= c && c <= '9'
}

/// The value of a string of ASCII digits.
pub open spec fn digits_value(s: Seq<char>) -> nat
    decreases s.len(),
{
    if s.len() == 0 {
        0
    } else {
        digits_value(s.drop_last()) * 10 + ((s.last() as u32) - ('0' as u32)) as nat
    }
}

/// `str::parse::<u64>`: an optional `+`, then one or more ASCII digits whose
/// value fits in a `u64`.
pub open spec fn parse_u64(s: Seq<char>) -> Option<u64> {
    let d = unsigned_digits(s);
    if d.len() > 0 && (forall|k: int| 0 <= k < d.len() ==> is_digit(#[trigger] d[k]))
        && digits_value(d) <= u64::MAX {
        Some(digits_value(d) as u64)
    } else {
        None
    }
}

proof fn lemma_digits_value_step(d: Seq<char>, i: int)
    requires
        0 <= i < d.len(),
    ensures
        digits_value(d.take(i + 1)) == digits_value(d.take(i)) * 10 + ((d[i] as u32) - ('0' as u32)) as nat,
{
    assert(d.take(i + 1).drop_last() =~= d.take(i));
}

proof fn lemma_digits_value_mono(d: Seq<char>, i: int, j: int)
    requires
        0 <= i <= j <= d.len(),
        forall|k: int| 0 <= k < d.len() ==> is_digit(#[trigger] d[k]),
    ensures
        digits_value(d.take(i)) <= digits_value(d.take(j)),
    decreases j - i,
{
    if i < j {
        lemma_digits_value_mono(d, i, j - 1);
        lemma_digits_value_step(d, j - 1);
        assert(digits_value(d.take(j - 1)) <= digits_value(d.take(j - 1)) * 10) by (nonlinear_arith);
    }
}

/// `str::parse::<usize>`.
pub open spec fn parse_usize(s: Seq<char>) -> Option<usize> {
    match parse_u64(s) {
        Some(v) => if v <= usize::MAX {
            Some(v as usize)
        } else {
            None
        },
        None => None,
    }
}

/// `str::parse::<usize>`.
pub fn parse_usize_exec(s: &[char]) -> (r: Option<usize>)
    ensures
        r == parse_usize(s@),
{
    match parse_u64_exec(s) {
        Some(v) => if v as u128 <= usize::MAX as u128 {
            Some(v as usize)
        } else {
            None
        },
        None => None,
    }
}

/// The digits part of a `u64` literal.
pub open spec fn unsigned_digits(s: Seq<char>) -> Seq<char> {
    if s.len() > 0 && s[0] == '+' {
        s.drop_first()
    } else {
        s
    }
}

proof fn lemma_parse_u64_none(s: Seq<char>, k: int)
    requires
        0 <= k < unsigned_digits(s).len(),
        !is_digit(unsigned_digits(s)[k]),
    ensures
        parse_u64(s) is None,
{
}

proof fn lemma_parse_u64_too_big(s: Seq<char>)
    requires
        digits_value(unsigned_digits(s)) > u64::MAX,
    ensures
        parse_u64(s) is None,
{
}

/// `str::parse::<u64>`.
pub fn parse_u64_exec(s: &[char]) -> (r: Option<u64>)
    ensures
        r == parse_u64(s@),
{
    let start: usize = if s.len() > 0 && s[0] == '+' {
        1
    } else {
        0
    };
    let ghost d = unsigned_digits(s@);
    assert(d =~= s@.skip(start as int));
    if start >= s.len() {
        return None;
    }
    let mut i: usize = start;
    while i < s.len()
        invariant
            start <= i <= s.len(),
            d =~= s@.skip(start as int),
            d == unsigned_digits(s@),
            forall|k: int| 0 <= k < i - start ==> is_digit(#[trigger] d[k]),
        decreases s.len() - i,
    {
        assert(d[i - start] == s@[i as int]);
        if !('0' <= s[i] && s[i] <= '9') {
            proof {
                lemma_parse_u64_none(s@, i - start);
            }
            return None;
        }
        i += 1;
    }
    let mut acc: u64 = 0;
    let mut i: usize = start;
    while i < s.len()
        invariant
            start <= i <= s.len(),
            d =~= s@.skip(start as int),
            d == unsigned_digits(s@),
            forall|k: int| 0 <= k < d.len() ==> is_digit(#[trigger] d[k]),
            acc as nat == digits_value(d.take(i - start)),
        decreases s.len() - i,
    {
        assert(d[i - start] == s@[i as int]);
        assert(is_digit(d[i - start]));
        let dv = (s[i] as u32 - '0' as u32) as u64;
        proof {
            lemma_digits_value_step(d, i - start);
            lemma_digits_value_mono(d, i - start + 1, d.len() as int);
            assert(d.take(d.len() as int) =~= d);
        }
        if acc > (u64::MAX - dv) / 10 {
            proof {
                assert(acc * 10 + dv > u64::MAX) by (nonlinear_arith)
                    requires
                        acc > (u64::MAX - dv) / 10,
                        dv <= 9,
                ;
                assert(digits_value(d) > u64::MAX);
                lemma_parse_u64_too_big(s@);
            }
            return None;
        }
        proof {
            assert(acc * 10 + dv <= u64::MAX) by (nonlinear_arith)
                requires
                    acc <= (u64::MAX - dv) / 10,
                    dv <= 9,
            ;
        }
        acc = acc * 10 + dv;
        i += 1;
    }
    assert(d.take(d.len() as int) =~= d);
    Some(acc)
}

} // verus!
