//! Filesystem paths as text, with the component semantics of `std::path`.
//!
//! A path is a string; its components are what `Path::components` yields
//! for it: a root marker when it starts with `/`, a leading `.` marker,
//! then the segments between separators with empty and `.` segments
//! dropped.  Prefix tests and equality of paths compare components, as
//! `Path::starts_with` and `Path::eq` do.
use vstd::prelude::*;
use crate::text::{
    chars_eq, chars_eq_str, chars_of, extend_chars, find_from, lemma_find_from_bounds, matches_at, split,
    split_exec, split_from, string_of, views,
};

verus! {

/// The root component, as it stands in a component sequence.
pub open spec fn root_component() -> Seq<char> {
    seq!['/']
}

/// The leading current-directory component.
pub open spec fn cur_dir_component() -> Seq<char> {
    seq!['.']
}

/// A segment between separators that `Path::components` keeps.
pub open spec fn is_kept_segment(s: Seq<char>) -> bool {
    s.len() > 0 && s != seq!['.']
}

/// The kept segments of `segs`, in order.
pub open spec fn kept_segments(segs: Seq<Seq<char>>) -> Seq<Seq<char>>
    decreases segs.len(),
{
    if segs.len() == 0 {
        Seq::empty()
    } else if is_kept_segment(segs.last()) {
        kept_segments(segs.drop_last()).push(segs.last())
    } else {
        kept_segments(segs.drop_last())
    }
}

/// `Path::components` for the path `p`.
pub open spec fn components(p: Seq<char>) -> Seq<Seq<char>> {
    let segs = split(p, seq!['/']);
    if p.len() > 0 && p[0] == '/' {
        seq![root_component()] + kept_segments(segs)
    } else if segs.len() > 0 && segs[0] == cur_dir_component() {
        seq![cur_dir_component()] + kept_segments(segs.drop_first())
    } else {
        kept_segments(segs)
    }
}

/// `Path::starts_with`: the components of `base` are a prefix of those of `p`.
pub open spec fn path_starts_with(p: Seq<char>, base: Seq<char>) -> bool {
    let c = components(p);
    let b = components(base);
    b.len() <= c.len() && c.take(b.len() as int) == b
}

/// `Path::eq`: the two paths have the same components.
pub open spec fn path_eq(p: Seq<char>, q: Seq<char>) -> bool {
    components(p) == components(q)
}

/// `Path::join`: an absolute `rel` replaces `base`; otherwise a separator is
/// inserted unless `base` is empty or already ends with one.
pub open spec fn join(base: Seq<char>, rel: Seq<char>) -> Seq<char> {
    if rel.len() > 0 && rel[0] == '/' {
        rel
    } else if base.len() == 0 || base.last() == '/' {
        base + rel
    } else {
        base + seq!['/'] + rel
    }
}

/// The segments joined with single separators.
pub open spec fn join_segments(segs: Seq<Seq<char>>) -> Seq<char>
    decreases segs.len(),
{
    if segs.len() == 0 {
        Seq::empty()
    } else if segs.len() == 1 {
        segs[0]
    } else {
        join_segments(segs.drop_last()) + seq!['/'] + segs.last()
    }
}

/// Backslashes turned into forward slashes.
pub open spec fn forward_slashes(s: Seq<char>) -> Seq<char> {
    s.map_values(|c: char|
        if c == '\\' {
            '/'
        } else {
            c
        })
}

/// The path of `p` below `base`, written with `/` (`strip_prefix`, then
/// `to_string_lossy` with `\\` replaced by `/`).
pub open spec fn relative(base: Seq<char>, p: Seq<char>) -> Option<Seq<char>> {
    if path_starts_with(p, base) {
        Some(
            forward_slashes(join_segments(components(p).skip(components(base).len() as int))),
        )
    } else {
        None
    }
}

/// The path components of `p`.
pub fn components_exec(p: &[char]) -> (out: Vec<Vec<char>>)
    ensures
        views(out@) == components(p@),
{
    let slash = vec!['/'];
    assert(slash@ =~= seq!['/']);
    let segs = split_exec(p, slash.as_slice());
    let ghost ss = split(p@, seq!['/']);
    let mut out: Vec<Vec<char>> = Vec::new();
    let mut i: usize = 0;
    let ghost lead: Seq<Seq<char>> = Seq::empty();
    if p.len() > 0 && p[0] == '/' {
        let mut r: Vec<char> = Vec::new();
        r.push('/');
        assert(r@ =~= root_component());
        out.push(r);
        proof {
            lead = seq![root_component()];
            assert(views(out@) =~~= lead);
        }
    } else if segs.len() > 0 && chars_eq_str(segs[0].as_slice(), ".") {
        proof {
            reveal_strlit(".");
            assert(segs@[0]@ == ss[0]);
            assert(ss[0] =~= cur_dir_component());
        }
        assert(ss.len() > 0 && ss[0] == cur_dir_component());
        let mut r: Vec<char> = Vec::new();
        r.push('.');
        assert(r@ =~= cur_dir_component());
        out.push(r);
        i = 1;
        proof {
            lead = seq![cur_dir_component()];
            assert(views(out@) =~~= lead);
        }
    } else {
        proof {
            if ss.len() > 0 {
                assert(segs@[0]@ == ss[0]);
                reveal_strlit(".");
                assert("."@ =~= cur_dir_component());
                assert(ss[0] != cur_dir_component());
            }
        }
        assert(!(ss.len() > 0 && ss[0] == cur_dir_component()));
    }
    let start = i;
    while i < segs.len()
        invariant
            views(segs@) == ss,
            start <= i <= segs.len(),
            start <= 1,
            views(out@) == lead + kept_segments(ss.subrange(start as int, i as int)),
        decreases segs.len() - i,
    {
        let seg = &segs[i];
        assert(seg@ == ss[i as int]);
        let keep = seg.len() > 0 && !(seg.len() == 1 && seg[0] == '.');
        proof {
            assert(ss.subrange(start as int, i + 1).drop_last() =~= ss.subrange(
                start as int,
                i as int,
            ));
            if seg@.len() == 1 {
                assert(seg@ =~= seq!['.'] <==> seg@[0] == '.');
            }
        }
        if keep {
            let ghost before = views(out@);
            out.push(seg.clone());
            assert(views(out@) =~~= before.push(seg@));
        }
        i += 1;
    }
    proof {
        if p@.len() > 0 && p@[0] == '/' {
            assert(start == 0);
            assert(lead == seq![root_component()]);
            assert(ss.subrange(0, ss.len() as int) =~= ss);
            assert(views(out@) == seq![root_component()] + kept_segments(ss));
        } else if ss.len() > 0 && ss[0] == cur_dir_component() {
            assert(start == 1);
            assert(lead == seq![cur_dir_component()]);
            assert(ss.subrange(1, ss.len() as int) =~= ss.drop_first());
        } else {
            assert(start == 0);
            assert(lead == Seq::<Seq<char>>::empty());
            assert(ss.subrange(0, ss.len() as int) =~= ss);
            assert(views(out@) =~~= kept_segments(ss));
        }
    }
    out
}

/// `Path::starts_with`.
pub fn path_starts_with_exec(p: &str, base: &str) -> (r: bool)
    ensures
        r == path_starts_with(p@, base@),
{
    let pc = chars_of(p);
    let bc = chars_of(base);
    let c = components_exec(pc.as_slice());
    let b = components_exec(bc.as_slice());
    let ghost cv = views(c@);
    let ghost bv = views(b@);
    if b.len() > c.len() {
        return false;
    }
    let mut i: usize = 0;
    while i < b.len()
        invariant
            b.len() <= c.len(),
            i <= b.len(),
            cv == views(c@),
            bv == views(b@),
            cv == components(p@),
            bv == components(base@),
            forall|k: int| 0 <= k < i ==> bv[k] == cv[k],
        decreases b.len() - i,
    {
        assert(cv[i as int] == c@[i as int]@);
        assert(bv[i as int] == b@[i as int]@);
        let same = chars_eq(b[i].as_slice(), c[i].as_slice());
        if !same {
            proof {
                assert(bv[i as int] != cv[i as int]);
                assert(cv.take(bv.len() as int)[i as int] == cv[i as int]);
                assert(cv.take(bv.len() as int) != bv);
            }
            return false;
        }
        i += 1;
    }
    proof {
        assert(cv.take(bv.len() as int) =~= bv);
    }
    assert(cv == components(p@));
    assert(bv == components(base@));
    true
}

/// `Path::eq`.
pub fn path_eq_exec(p: &str, q: &str) -> (r: bool)
    ensures
        r == path_eq(p@, q@),
{
    let a = path_starts_with_exec(p, q);
    let b = path_starts_with_exec(q, p);
    proof {
        let cp = components(p@);
        let cq = components(q@);
        if a && b {
            assert(cp.len() == cq.len());
            assert(cp.take(cq.len() as int) =~= cp);
        }
        if cp == cq {
            assert(cp.take(cq.len() as int) =~= cq);
        }
    }
    a && b
}

/// Number of components of `p`.
pub fn component_count(p: &str) -> (n: usize)
    ensures
        n == components(p@).len(),
{
    let pc = chars_of(p);
    let c = components_exec(pc.as_slice());
    c.len()
}

/// `Path::join`.
pub fn join_exec(base: &str, rel: &str) -> (out: String)
    ensures
        out@ == join(base@, rel@),
{
    let b = chars_of(base);
    let r = chars_of(rel);
    if r.len() > 0 && r[0] == '/' {
        return string_of(r.as_slice());
    }
    let mut v = b.clone();
    if !(b.len() == 0 || b[b.len() - 1] == '/') {
        v.push('/');
    }
    extend_chars(&mut v, r.as_slice());
    proof {
        if !(b@.len() == 0 || b@.last() == '/') {
            assert(v@ =~= base@ + seq!['/'] + rel@);
        }
    }
    string_of(v.as_slice())
}

/// Joins segments with single separators.
pub fn join_segments_exec(segs: &[Vec<char>]) -> (out: Vec<char>)
    ensures
        out@ == join_segments(views(segs@)),
{
    let mut out: Vec<char> = Vec::new();
    let mut i: usize = 0;
    while i < segs.len()
        invariant
            i <= segs.len(),
            out@ == join_segments(views(segs@).take(i as int)),
        decreases segs.len() - i,
    {
        if i > 0 {
            out.push('/');
        }
        extend_chars(&mut out, segs[i].as_slice());
        proof {
            let t = views(segs@).take(i + 1);
            assert(t.drop_last() =~= views(segs@).take(i as int));
            if i == 0 {
                assert(out@ =~= t[0]);
            } else {
                assert(out@ =~= join_segments(t.drop_last()) + seq!['/'] + t.last());
            }
        }
        i += 1;
    }
    assert(views(segs@).take(segs.len() as int) =~= views(segs@));
    out
}

/// `Path::strip_prefix`: the components of `p` below `base`, joined with
/// single separators, or `None` when `p` is not below `base`.
pub open spec fn below(base: Seq<char>, p: Seq<char>) -> Option<Seq<char>> {
    if path_starts_with(p, base) {
        Some(join_segments(components(p).skip(components(base).len() as int)))
    } else {
        None
    }
}

/// The path of `p` below `base` (`Path::strip_prefix`), or `None` when `p`
/// is not below `base`.
pub fn path_below(base: &str, p: &str) -> (out: Option<Vec<char>>)
    ensures
        out matches Some(s) ==> below(base@, p@) == Some(s@),
        out is None ==> below(base@, p@) is None,
{
    if !path_starts_with_exec(p, base) {
        return None;
    }
    let pc = chars_of(p);
    let bc = chars_of(base);
    let c = components_exec(pc.as_slice());
    let b = components_exec(bc.as_slice());
    let rest = vec_tail(&c, b.len());
    assert(views(rest@) =~~= components(p@).skip(components(base@).len() as int));
    Some(join_segments_exec(rest.as_slice()))
}

/// `Path::strip_prefix` followed by `to_string_lossy` with `\\` replaced by
/// `/`: the path of `p` below `base`, or `None` when `p` is not below `base`.
pub fn relative_path(base: &str, p: &str) -> (out: Option<String>)
    ensures
        out matches Some(s) ==> relative(base@, p@) == Some(s@),
        out is None ==> relative(base@, p@) is None,
{
    let joined = match path_below(base, p) {
        None => return None,
        Some(j) => j,
    };
    let mut out: Vec<char> = Vec::new();
    let mut i: usize = 0;
    while i < joined.len()
        invariant
            i <= joined.len(),
            out@ == forward_slashes(joined@.take(i as int)),
        decreases joined.len() - i,
    {
        let ch = joined[i];
        out.push(if ch == '\\' {
            '/'
        } else {
            ch
        });
        assert(out@ =~= forward_slashes(joined@.take(i + 1)));
        i += 1;
    }
    assert(joined@.take(joined.len() as int) =~= joined@);
    Some(string_of(out.as_slice()))
}

/// Two separators stand in a row at position `i` of `p`.
pub open spec fn double_separator_at(p: Seq<char>, i: int) -> bool {
    0 <= i && i + 1 < p.len() && p[i] == '/' && p[i + 1] == '/'
}

/// A relative path without empty components: it does not start at the
/// root and never holds two separators in a row.
pub open spec fn is_separated_relative(p: Seq<char>) -> bool {
    &&& !(p.len() > 0 && p[0] == '/')
    &&& forall|i: int| !#[trigger] double_separator_at(p, i)
}

/// A non-empty segment without a separator.
pub open spec fn is_plain_segment(s: Seq<char>) -> bool {
    s.len() > 0 && forall|k: int| 0 <= k < s.len() ==> s[k] != '/'
}

/// No piece of a split at `c` holds `c`.
proof fn lemma_split_pieces_lack(s: Seq<char>, c: char, start: int)
    requires
        0 <= start <= s.len(),
    ensures
        forall|j: int, k: int|
            0 <= j < split_from(s, seq![c], start).len() && 0 <= k < split_from(
                s,
                seq![c],
                start,
            )[j].len() ==> #[trigger] split_from(s, seq![c], start)[j][k] != c,
    decreases s.len() - start,
{
    let pat = seq![c];
    lemma_find_from_bounds(s, pat, start);
    match find_from(s, pat, start) {
        Some(i) => {
            lemma_split_pieces_lack(s, c, i + 1);
            let piece = s.subrange(start, i);
            assert forall|k: int| 0 <= k < piece.len() implies piece[k] != c by {
                if piece[k] == c {
                    assert(s.subrange(start + k, start + k + 1) =~= pat);
                    assert(matches_at(s, pat, start + k));
                }
            }
            let rest = split_from(s, pat, i + 1);
            assert(split_from(s, pat, start) == seq![piece] + rest);
            assert forall|j: int, k: int|
                0 <= j < split_from(s, pat, start).len() && 0 <= k < split_from(
                    s,
                    pat,
                    start,
                )[j].len() implies #[trigger] split_from(s, pat, start)[j][k] != c by {
                if j > 0 {
                    assert(split_from(s, pat, start)[j] == rest[j - 1]);
                }
            }
        },
        None => {
            let piece = s.subrange(start, s.len() as int);
            assert forall|k: int| 0 <= k < piece.len() implies piece[k] != c by {
                if piece[k] == c {
                    assert(s.subrange(start + k, start + k + 1) =~= pat);
                    assert(matches_at(s, pat, start + k));
                }
            }
            assert(split_from(s, pat, start) == seq![piece]);
        },
    }
}

/// The kept segments of separator-free segments are plain segments.
proof fn lemma_kept_segments_plain(segs: Seq<Seq<char>>)
    requires
        forall|j: int, k: int|
            0 <= j < segs.len() && 0 <= k < segs[j].len() ==> #[trigger] segs[j][k] != '/',
    ensures
        forall|j: int| 0 <= j < kept_segments(segs).len() ==> is_plain_segment(
            #[trigger] kept_segments(segs)[j],
        ),
    decreases segs.len(),
{
    if segs.len() > 0 {
        let init = segs.drop_last();
        assert forall|j: int, k: int|
            0 <= j < init.len() && 0 <= k < init[j].len() implies #[trigger] init[j][k] != '/' by {
            assert(init[j] == segs[j]);
        }
        lemma_kept_segments_plain(init);
        let last = segs.last();
        assert forall|k: int| 0 <= k < last.len() implies last[k] != '/' by {
            assert(segs[segs.len() - 1][k] != '/');
        }
        if is_kept_segment(last) {
            let r = kept_segments(init).push(last);
            assert(kept_segments(segs) == r);
            assert forall|j: int| 0 <= j < r.len() implies is_plain_segment(#[trigger] r[j]) by {
                if j < r.len() - 1 {
                    assert(r[j] == kept_segments(init)[j]);
                }
            }
        }
    }
}

/// Every component after the first is a plain segment; the first is the
/// root marker or a plain segment.
pub proof fn lemma_components_shape(p: Seq<char>)
    ensures
        forall|i: int| 1 <= i < components(p).len() ==> is_plain_segment(#[trigger] components(p)[i]),
        components(p).len() > 0 ==> (components(p)[0] == root_component() || is_plain_segment(
            components(p)[0],
        )),
{
    let segs = split(p, seq!['/']);
    lemma_split_pieces_lack(p, '/', 0);
    assert forall|j: int, k: int|
        0 <= j < segs.len() && 0 <= k < segs[j].len() implies #[trigger] segs[j][k] != '/' by {
        assert(split_from(p, seq!['/'], 0)[j][k] != '/');
    }
    lemma_kept_segments_plain(segs);
    if p.len() > 0 && p[0] == '/' {
        let c = seq![root_component()] + kept_segments(segs);
        assert forall|i: int| 1 <= i < c.len() implies is_plain_segment(#[trigger] c[i]) by {
            assert(c[i] == kept_segments(segs)[i - 1]);
        }
    } else if segs.len() > 0 && segs[0] == cur_dir_component() {
        let t = segs.drop_first();
        assert forall|j: int, k: int|
            0 <= j < t.len() && 0 <= k < t[j].len() implies #[trigger] t[j][k] != '/' by {
            assert(t[j] == segs[j + 1]);
        }
        lemma_kept_segments_plain(t);
        let c = seq![cur_dir_component()] + kept_segments(t);
        assert forall|i: int| 1 <= i < c.len() implies is_plain_segment(#[trigger] c[i]) by {
            assert(c[i] == kept_segments(t)[i - 1]);
        }
        assert(is_plain_segment(c[0]));
    } else {
        let c = kept_segments(segs);
        if c.len() > 0 {
            assert(is_plain_segment(c[0]));
        }
    }
}

/// Plain segments joined with single separators form a separated relative
/// path that, when not empty, does not end with a separator.
pub proof fn lemma_join_plain(segs: Seq<Seq<char>>)
    requires
        forall|j: int| 0 <= j < segs.len() ==> is_plain_segment(#[trigger] segs[j]),
    ensures
        is_separated_relative(join_segments(segs)),
        segs.len() > 0 ==> join_segments(segs).len() > 0 && join_segments(segs).last() != '/',
    decreases segs.len(),
{
    if segs.len() == 1 {
        let s = segs[0];
        assert(is_plain_segment(s));
        assert forall|i: int| !#[trigger] double_separator_at(s, i) by {
            if double_separator_at(s, i) {
                assert(s[i] != '/');
            }
        }
        assert(s[s.len() - 1] != '/');
    } else if segs.len() > 1 {
        let init = segs.drop_last();
        assert forall|j: int| 0 <= j < init.len() implies is_plain_segment(#[trigger] init[j]) by {
            assert(init[j] == segs[j]);
        }
        lemma_join_plain(init);
        let a = join_segments(init);
        let last = segs.last();
        assert(is_plain_segment(segs[segs.len() - 1]));
        let r = a + seq!['/'] + last;
        assert(join_segments(segs) == r);
        assert(a[a.len() - 1] != '/');
        assert forall|i: int| !#[trigger] double_separator_at(r, i) by {
            if double_separator_at(r, i) {
                if i + 1 < a.len() {
                    assert(r[i] == a[i] && r[i + 1] == a[i + 1]);
                    assert(double_separator_at(a, i));
                } else if i + 1 == a.len() {
                    assert(r[i] == a[a.len() - 1]);
                } else if i == a.len() {
                    assert(r[i + 1] == last[0]);
                } else {
                    assert(r[i] == last[i - a.len() - 1]);
                }
            }
        }
        assert(r[0] == a[0]);
        assert(r[r.len() - 1] == last[last.len() - 1]);
    }
}

/// The path below a directory that does not start at the root is a
/// separated relative path.
pub proof fn lemma_below_separated(base: Seq<char>, p: Seq<char>)
    requires
        below(base, p) matches Some(b) && !(b.len() > 0 && b[0] == '/'),
    ensures
        below(base, p) matches Some(b) && is_separated_relative(b),
{
    let c = components(p);
    let n = components(base).len() as int;
    let segs = c.skip(n);
    lemma_components_shape(p);
    if segs.len() > 0 && n == 0 && c[0] == root_component() {
        if segs.len() == 1 {
            assert(join_segments(segs) == segs[0]);
        } else {
            lemma_join_first(segs);
        }
        assert(segs[0] == root_component());
        assert(false);
    }
    assert forall|j: int| 0 <= j < segs.len() implies is_plain_segment(#[trigger] segs[j]) by {
        assert(segs[j] == c[j + n]);
        if j + n == 0 {
            assert(c[0] != root_component());
        }
    }
    lemma_join_plain(segs);
}

/// A join of segments starts with the first character of its first segment.
proof fn lemma_join_first(segs: Seq<Seq<char>>)
    requires
        segs.len() > 0,
        segs[0].len() > 0,
    ensures
        join_segments(segs).len() > 0,
        join_segments(segs)[0] == segs[0][0],
    decreases segs.len(),
{
    if segs.len() > 1 {
        let init = segs.drop_last();
        assert(init[0] == segs[0]);
        lemma_join_first(init);
    }
}

/// The elements of `v` from position `from` on.
pub fn vec_tail(v: &Vec<Vec<char>>, from: usize) -> (out: Vec<Vec<char>>)
    requires
        from <= v.len(),
    ensures
        views(out@) == views(v@).skip(from as int),
{
    let mut out: Vec<Vec<char>> = Vec::new();
    let mut i: usize = from;
    while i < v.len()
        invariant
            from <= i <= v.len(),
            views(out@) == views(v@).subrange(from as int, i as int),
        decreases v.len() - i,
    {
        let ghost before = views(out@);
        out.push(v[i].clone());
        assert(views(out@) =~~= before.push(v@[i as int]@));
        assert(views(out@) =~~= views(v@).subrange(from as int, i + 1));
        i += 1;
    }
    assert(views(v@).subrange(from as int, v.len() as int) =~~= views(v@).skip(from as int));
    out
}

/// Some component of `p` below `managed_dir` is named `name`; false when
/// `p` is not below `managed_dir`.
pub open spec fn has_component_below(managed_dir: Seq<char>, p: Seq<char>, name: Seq<char>) -> bool {
    path_starts_with(p, managed_dir) && components(p).skip(components(managed_dir).len() as int).contains(name)
}

/// Some component of `p` below `managed_dir` is named `name`.
pub fn has_component_below_exec(managed_dir: &str, p: &str, name: &str) -> (r: bool)
    ensures
        r == has_component_below(managed_dir@, p@, name@),
{
    if !path_starts_with_exec(p, managed_dir) {
        return false;
    }
    let pc = chars_of(p);
    let bc = chars_of(managed_dir);
    let c = components_exec(pc.as_slice());
    let b = components_exec(bc.as_slice());
    let nc = chars_of(name);
    let ghost rest = components(p@).skip(components(managed_dir@).len() as int);
    let mut i: usize = b.len();
    while i < c.len()
        invariant
            b.len() <= i <= c.len(),
            views(c@) == components(p@),
            views(b@) == components(managed_dir@),
            rest == components(p@).skip(b.len() as int),
            nc@ == name@,
            path_starts_with(p@, managed_dir@),
            forall|k: int| 0 <= k < i - b.len() ==> rest[k] != name@,
        decreases c.len() - i,
    {
        assert(rest[i - b.len()] == views(c@)[i as int]);
        assert(views(c@)[i as int] == c@[i as int]@);
        let same = chars_eq(c[i].as_slice(), nc.as_slice());
        if same {
            assert(c@[i as int]@ == nc@);
            assert(nc@ == name@);
            assert(views(c@)[i as int] == name@);
            assert(rest[i - b.len()] == name@);
            assert(rest.contains(name@));
            return true;
        }
        i += 1;
    }
    false
}

} // verus!
