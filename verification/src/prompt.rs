//! Which path a question names.  A question is scoped to a path when one
//! of its words, stripped of surrounding quotes and punctuation, looks
//! like a path and exists; otherwise it is broadcast to every agent.
use vstd::prelude::*;
use crate::paths::{join, join_exec};
use crate::supervisor::file_name;
use crate::text::{
    chars_eq_str, chars_of, is_ws, is_ws_exec, slice_to_vec, starts_with, starts_with_str,
    string_of, string_views, views,
};

verus! {

// ---------------------------------------------------------------------------
// Words.
// ---------------------------------------------------------------------------

/// The words of `s` (`str::split_whitespace`), the current word `cur`
/// having been read before `s`.
pub open spec fn words_from(s: Seq<char>, cur: Seq<char>) -> Seq<Seq<char>>
    decreases s.len(),
{
    if s.len() == 0 {
        if cur.len() > 0 {
            seq![cur]
        } else {
            Seq::empty()
        }
    } else if is_ws(s[0]) {
        (if cur.len() > 0 {
            seq![cur]
        } else {
            Seq::empty()
        }) + words_from(s.drop_first(), Seq::empty())
    } else {
        words_from(s.drop_first(), cur.push(s[0]))
    }
}

/// The words of `s`: the maximal runs of non-whitespace characters.
pub open spec fn words(s: Seq<char>) -> Seq<Seq<char>> {
    words_from(s, Seq::empty())
}

/// The words of `s` (`str::split_whitespace`).
pub fn words_exec(s: &[char]) -> (out: Vec<Vec<char>>)
    ensures
        views(out@) == words(s@),
{
    let mut out: Vec<Vec<char>> = Vec::new();
    let mut cur: Vec<char> = Vec::new();
    let mut i: usize = 0;
    assert(s@.skip(0) =~= s@);
    while i < s.len()
        invariant
            i <= s.len(),
            words(s@) == views(out@) + words_from(s@.skip(i as int), cur@),
        decreases s.len() - i,
    {
        let ghost rest = s@.skip(i as int);
        assert(rest[0] == s@[i as int]);
        assert(rest.drop_first() =~= s@.skip(i + 1));
        if is_ws_exec(s[i]) {
            if cur.len() > 0 {
                let ghost before = views(out@);
                out.push(cur);
                assert(views(out@) =~= before.push(out@.last()@));
                cur = Vec::new();
                assert(views(out@) + words_from(s@.skip(i + 1), cur@) =~= before + (seq![
                    out@.last()@,
                ] + words_from(rest.drop_first(), Seq::empty())));
            } else {
                assert(cur@ =~= Seq::<char>::empty());
                assert(words_from(rest, cur@) =~= Seq::<Seq<char>>::empty() + words_from(
                    rest.drop_first(),
                    Seq::empty(),
                ));
            }
        } else {
            cur.push(s[i]);
        }
        i += 1;
    }
    if cur.len() > 0 {
        let ghost before = views(out@);
        out.push(cur);
        assert(views(out@) =~= before.push(out@.last()@));
    }
    assert(views(out@) =~= words(s@));
    out
}

// ---------------------------------------------------------------------------
// Path tokens.
// ---------------------------------------------------------------------------

/// Quotes, brackets and punctuation stripped from both ends of a word.
pub open spec fn is_path_punct(c: char) -> bool {
    c == '"' || c == '\'' || c == '`' || c == '(' || c == ')' || c == '[' || c == ']' || c == '{'
        || c == '}' || c == '<' || c == '>' || c == ',' || c == ':' || c == ';' || c == '!' || c
        == '?'
}

/// `s` without its leading punctuation.
pub open spec fn trim_punct_start(s: Seq<char>) -> Seq<char>
    decreases s.len(),
{
    if s.len() > 0 && is_path_punct(s[0]) {
        trim_punct_start(s.drop_first())
    } else {
        s
    }
}

/// `s` without its trailing punctuation.
pub open spec fn trim_punct_end(s: Seq<char>) -> Seq<char>
    decreases s.len(),
{
    if s.len() > 0 && is_path_punct(s.last()) {
        trim_punct_end(s.drop_last())
    } else {
        s
    }
}

/// A word without the punctuation around it (`trim_matches`).
pub open spec fn trim_punct(s: Seq<char>) -> Seq<char> {
    trim_punct_end(trim_punct_start(s))
}

/// How many punctuation characters lead `s`.
spec fn lead_len(s: Seq<char>) -> nat
    decreases s.len(),
{
    if s.len() > 0 && is_path_punct(s[0]) {
        1 + lead_len(s.drop_first())
    } else {
        0
    }
}

/// How many punctuation characters end `s`.
spec fn trail_len(s: Seq<char>) -> nat
    decreases s.len(),
{
    if s.len() > 0 && is_path_punct(s.last()) {
        1 + trail_len(s.drop_last())
    } else {
        0
    }
}

proof fn lemma_lead(s: Seq<char>)
    ensures
        lead_len(s) <= s.len(),
        trim_punct_start(s) == s.skip(lead_len(s) as int),
        forall|k: int| 0 <= k < lead_len(s) ==> is_path_punct(#[trigger] s[k]),
        lead_len(s) < s.len() ==> !is_path_punct(s[lead_len(s) as int]),
    decreases s.len(),
{
    if s.len() > 0 && is_path_punct(s[0]) {
        let t = s.drop_first();
        lemma_lead(t);
        assert(t.skip(lead_len(t) as int) =~= s.skip(lead_len(s) as int));
        assert forall|k: int| 0 <= k < lead_len(s) implies is_path_punct(#[trigger] s[k]) by {
            if k > 0 {
                assert(s[k] == t[k - 1]);
            }
        }
        if lead_len(s) < s.len() {
            assert(s[lead_len(s) as int] == t[lead_len(t) as int]);
        }
    } else {
        assert(s.skip(0) =~= s);
    }
}

proof fn lemma_trail(s: Seq<char>)
    ensures
        trail_len(s) <= s.len(),
        trim_punct_end(s) == s.take(s.len() - trail_len(s)),
        forall|k: int| s.len() - trail_len(s) <= k < s.len() ==> is_path_punct(#[trigger] s[k]),
        trail_len(s) < s.len() ==> !is_path_punct(s[s.len() - trail_len(s) - 1]),
    decreases s.len(),
{
    if s.len() > 0 && is_path_punct(s.last()) {
        let t = s.drop_last();
        lemma_trail(t);
        assert(t.take(t.len() - trail_len(t)) =~= s.take(s.len() - trail_len(s)));
        assert forall|k: int| s.len() - trail_len(s) <= k < s.len() implies is_path_punct(
            #[trigger] s[k],
        ) by {
            if k < s.len() - 1 {
                assert(s[k] == t[k]);
            }
        }
        if trail_len(s) < s.len() {
            assert(s[s.len() - trail_len(s) - 1] == t[t.len() - trail_len(t) - 1]);
        }
    } else {
        assert(s.take(s.len() as int) =~= s);
    }
}

/// A word is taken as a path without the quotes, brackets and punctuation
/// around it: the token is the word with its leading and trailing
/// characters among `"` `'` `` ` `` `(` `)` `[` `]` `{` `}` `<` `>` `,` `:`
/// `;` `!` `?` removed, so it neither begins nor ends with one of them.
pub proof fn law_path_token_unquoted(w: Seq<char>)
    ensures
        exists|i: int, j: int|
            0 <= i <= j <= w.len() && #[trigger] w.subrange(i, j) == trim_punct(w) && (forall|k: int|
                0 <= k < i ==> {
                    let c = #[trigger] w[k];
                    c == '"' || c == '\'' || c == '`' || c == '(' || c == ')' || c == '[' || c == ']'
                        || c == '{' || c == '}' || c == '<' || c == '>' || c == ',' || c == ':' || c
                        == ';' || c == '!' || c == '?'
                }) && (forall|k: int|
                j <= k < w.len() ==> {
                    let c = #[trigger] w[k];
                    c == '"' || c == '\'' || c == '`' || c == '(' || c == ')' || c == '[' || c == ']'
                        || c == '{' || c == '}' || c == '<' || c == '>' || c == ',' || c == ':' || c
                        == ';' || c == '!' || c == '?'
                }),
        trim_punct(w).len() > 0 ==> {
            let c = trim_punct(w)[0];
            !(c == '"' || c == '\'' || c == '`' || c == '(' || c == ')' || c == '[' || c == ']'
                || c == '{' || c == '}' || c == '<' || c == '>' || c == ',' || c == ':' || c == ';'
                || c == '!' || c == '?')
        },
        trim_punct(w).len() > 0 ==> {
            let c = trim_punct(w).last();
            !(c == '"' || c == '\'' || c == '`' || c == '(' || c == ')' || c == '[' || c == ']'
                || c == '{' || c == '}' || c == '<' || c == '>' || c == ',' || c == ':' || c == ';'
                || c == '!' || c == '?')
        },
{
    lemma_lead(w);
    let a = lead_len(w) as int;
    let u = w.skip(a);
    lemma_trail(u);
    let b = trail_len(u) as int;
    let i = a;
    let j = w.len() - b;
    assert(trim_punct(w) == u.take(u.len() - b));
    assert(w.subrange(i, j) =~= u.take(u.len() - b));
    assert forall|k: int| j <= k < w.len() implies is_path_punct(#[trigger] w[k]) by {
        assert(w[k] == u[k - a]);
    }
    if trim_punct(w).len() > 0 {
        assert(trim_punct(w)[0] == w[a]);
        assert(trim_punct(w).last() == u[u.len() - b - 1]);
    }
}

/// Every path a question names is a word of it, stripped of surrounding
/// quotes and punctuation (see `law_path_token_unquoted`), taken in the
/// directory the question was asked in.
pub proof fn law_candidates_are_stripped_words(cwd: Seq<char>, ws: Seq<Seq<char>>)
    ensures
        forall|k: int|
            #![trigger candidates_of(cwd, ws)[k]]
            0 <= k < candidates_of(cwd, ws).len() ==> exists|m: int|
                0 <= m < ws.len() && candidates_of(cwd, ws)[k] == join(cwd, trim_punct(#[trigger] ws[m]))
                    && trim_punct(ws[m]).len() > 0,
    decreases ws.len(),
{
    if ws.len() > 0 {
        let p = ws.drop_last();
        law_candidates_are_stripped_words(cwd, p);
        let c = candidates_of(cwd, ws);
        let cp = candidates_of(cwd, p);
        assert forall|k: int| #![trigger c[k]] 0 <= k < c.len() implies exists|m: int|
            0 <= m < ws.len() && c[k] == join(cwd, trim_punct(#[trigger] ws[m])) && trim_punct(
                ws[m],
            ).len() > 0 by {
            if k < cp.len() {
                assert(c[k] == cp[k]);
                let m = choose|m: int|
                    0 <= m < p.len() && cp[k] == join(cwd, trim_punct(#[trigger] p[m])) && trim_punct(
                        p[m],
                    ).len() > 0;
                assert(ws[m] == p[m]);
            } else {
                assert(ws[ws.len() - 1] == ws.last());
            }
        }
    }
}

fn is_path_punct_exec(c: char) -> (r: bool)
    ensures
        r == is_path_punct(c),
{
    c == '"' || c == '\'' || c == '`' || c == '(' || c == ')' || c == '[' || c == ']' || c == '{'
        || c == '}' || c == '<' || c == '>' || c == ',' || c == ':' || c == ';' || c == '!' || c
        == '?'
}

/// A word without the punctuation around it.
pub fn trim_punct_exec(s: &[char]) -> (out: Vec<char>)
    ensures
        out@ == trim_punct(s@),
{
    let mut lo: usize = 0;
    assert(s@.skip(0) =~= s@);
    while lo < s.len() && is_path_punct_exec(s[lo])
        invariant
            lo <= s.len(),
            trim_punct_start(s@) == trim_punct_start(s@.skip(lo as int)),
        decreases s.len() - lo,
    {
        assert(s@.skip(lo as int).drop_first() =~= s@.skip(lo + 1));
        lo += 1;
    }
    let ghost t = s@.skip(lo as int);
    let mut hi: usize = s.len();
    assert(t.take(t.len() as int) =~= t);
    while hi > lo && is_path_punct_exec(s[hi - 1])
        invariant
            lo <= hi <= s.len(),
            t == s@.skip(lo as int),
            trim_punct(s@) == trim_punct_end(t.take(hi - lo)),
        decreases hi,
    {
        assert(t.take(hi - lo).drop_last() =~= t.take(hi - lo - 1));
        assert(t.take(hi - lo).last() == s@[hi - 1]);
        hi -= 1;
    }
    let out = slice_to_vec(s, lo, hi);
    assert(out@ =~= t.take(hi - lo));
    out
}

/// `Path::extension` is some: the file name has a `.` after its first
/// character.
pub open spec fn has_extension(p: Seq<char>) -> bool {
    match file_name(p) {
        Some(n) => exists|i: int| 0 < i < n.len() && #[trigger] n[i] == '.',
        None => false,
    }
}

/// A word that names a path: absolute, `.` or `..`, starting with `./`
/// or `../`, holding a `/`, or with an extension.
pub open spec fn looks_like_path(token: Seq<char>) -> bool {
    (token.len() > 0 && token[0] == '/') || token == "."@ || token == ".."@ || starts_with(
        token,
        "./"@,
    ) || starts_with(token, "../"@) || token.contains('/') || has_extension(token)
}

fn has_extension_exec(token: &str) -> (r: bool)
    ensures
        r == has_extension(token@),
{
    match crate::supervisor::file_name_exec(token) {
        None => false,
        Some(n) => {
            let nc = chars_of(n.as_str());
            let mut i: usize = 1;
            while i < nc.len()
                invariant
                    1 <= i,
                    nc@ == n@,
                    file_name(token@) == Some(n@),
                    forall|k: int| 0 < k < i && k < nc@.len() ==> nc@[k] != '.',
                decreases nc.len() - i,
            {
                if nc[i] == '.' {
                    assert(has_extension(token@)) by {
                        let fname = file_name(token@)->Some_0;
                        assert(fname == n@);
                        assert(fname[i as int] == '.');
                    }
                    return true;
                }
                i += 1;
            }
            false
        },
    }
}

/// A word that names a path.
pub fn looks_like_explicit_path_token(token: &str) -> (r: bool)
    ensures
        r == looks_like_path(token@),
{
    let tc = chars_of(token);
    let mut slash = false;
    let mut i: usize = 0;
    while i < tc.len()
        invariant
            i <= tc.len(),
            tc@ == token@,
            slash == exists|k: int| 0 <= k < i && tc@[k] == '/',
        decreases tc.len() - i,
    {
        if tc[i] == '/' {
            slash = true;
        }
        i += 1;
    }
    assert(slash == token@.contains('/'));
    (tc.len() > 0 && tc[0] == '/') || chars_eq_str(tc.as_slice(), ".") || chars_eq_str(
        tc.as_slice(),
        "..",
    ) || starts_with_str(tc.as_slice(), "./") || starts_with_str(tc.as_slice(), "../") || slash
        || has_extension_exec(token)
}

/// The paths a question may name, in the order of its words: each word
/// that looks like a path, stripped of punctuation, taken relative to the
/// directory the question was asked in.
pub open spec fn candidates_of(cwd: Seq<char>, ws: Seq<Seq<char>>) -> Seq<Seq<char>>
    decreases ws.len(),
{
    if ws.len() == 0 {
        Seq::empty()
    } else {
        let prev = candidates_of(cwd, ws.drop_last());
        let t = trim_punct(ws.last());
        if t.len() > 0 && looks_like_path(t) {
            prev.push(join(cwd, t))
        } else {
            prev
        }
    }
}

/// The paths a question names, in order; the first that exists is the
/// path the question is about.
pub fn prompt_path_candidates(cwd: &str, prompt: &str) -> (out: Vec<String>)
    ensures
        string_views(out@) == candidates_of(cwd@, words(prompt@)),
{
    let pc = chars_of(prompt);
    let ws = words_exec(pc.as_slice());
    let ghost wv = views(ws@);
    let mut out: Vec<String> = Vec::new();
    let mut i: usize = 0;
    while i < ws.len()
        invariant
            i <= ws.len(),
            wv == views(ws@),
            wv == words(prompt@),
            string_views(out@) == candidates_of(cwd@, wv.take(i as int)),
        decreases ws.len() - i,
    {
        assert(wv.take(i + 1).drop_last() =~= wv.take(i as int));
        assert(wv.take(i + 1).last() == ws@[i as int]@);
        let t = trim_punct_exec(ws[i].as_slice());
        if t.len() > 0 {
            let ts = string_of(t.as_slice());
            if looks_like_explicit_path_token(ts.as_str()) {
                let ghost before = string_views(out@);
                out.push(join_exec(cwd, ts.as_str()));
                assert(string_views(out@) =~= before.push(join(cwd@, t@)));
            }
        }
        i += 1;
    }
    assert(wv.take(ws.len() as int) =~= wv);
    out
}

} // verus!
