//! The arguments of the `git` commands that keep an agent's history, and
//! how their output is read.
use vstd::prelude::*;
use crate::conversation::{lemma_lex_irreflexive, lemma_lex_total, lemma_lex_transitive, lex_less, lex_less_exec};
use vstd::multiset::Multiset;
use crate::text::{chars_of, extend_str, lines, lines_exec, string_of, string_views, trim, trim_exec, views};

verus! {

/// The configuration arguments every history `git` command starts with.
pub open spec fn base_config_args() -> Seq<Seq<char>> {
    seq![
        "-c"@,
        "safe.directory=*"@,
        "-c"@,
        "user.email=afs@localhost"@,
        "-c"@,
        "user.name=AFS"@,
        "-c"@,
        "init.defaultBranch=afs"@,
        "-c"@,
        "commit.gpgsign=false"@,
    ]
}

/// The arguments every history `git` command starts with: the fixed
/// configuration, the repository and, when given, the work tree.
pub open spec fn base_args(git_dir: Seq<char>, work_tree: Option<Seq<char>>) -> Seq<Seq<char>> {
    base_config_args() + seq!["--git-dir="@ + git_dir] + match work_tree {
        Some(w) => seq!["--work-tree="@ + w],
        None => Seq::empty(),
    }
}

fn push_arg(v: &mut Vec<String>, a: &str)
    ensures
        string_views(final(v)@) == string_views(old(v)@).push(a@),
{
    v.push(a.to_string());
    assert(string_views(v@) =~= string_views(old(v)@).push(a@));
}

fn prefixed(prefix: &str, value: &str) -> (s: String)
    ensures
        s@ == prefix@ + value@,
{
    let mut c = chars_of(prefix);
    extend_str(&mut c, value);
    string_of(c.as_slice())
}

/// The arguments every history `git` command starts with.
pub fn git_base_args(git_dir: &str, work_tree: Option<&str>) -> (out: Vec<String>)
    ensures
        string_views(out@) == base_args(
            git_dir@,
            match work_tree {
                Some(w) => Some(w@),
                None => None,
            },
        ),
{
    let mut v: Vec<String> = Vec::new();
    push_arg(&mut v, "-c");
    push_arg(&mut v, "safe.directory=*");
    push_arg(&mut v, "-c");
    push_arg(&mut v, "user.email=afs@localhost");
    push_arg(&mut v, "-c");
    push_arg(&mut v, "user.name=AFS");
    push_arg(&mut v, "-c");
    push_arg(&mut v, "init.defaultBranch=afs");
    push_arg(&mut v, "-c");
    push_arg(&mut v, "commit.gpgsign=false");
    push_arg(&mut v, prefixed("--git-dir=", git_dir).as_str());
    match work_tree {
        Some(w) => push_arg(&mut v, prefixed("--work-tree=", w).as_str()),
        None => {},
    }
    assert(string_views(v@) =~= base_args(
        git_dir@,
        match work_tree {
            Some(w) => Some(w@),
            None => None,
        },
    ));
    v
}

/// The pathspecs excluded from staging: the Agent Home and each nested
/// Managed Directory.
pub open spec fn exclusions(nested: Seq<Seq<char>>) -> Seq<Seq<char>> {
    seq![":(exclude,top).afs"@] + Seq::new(nested.len(), |i: int| ":(exclude,top)"@ + nested[i])
}

/// The arguments of `git add` that stage the whole work tree except the
/// Agent Home and the nested Managed Directories.
pub open spec fn stage_args(nested: Seq<Seq<char>>) -> Seq<Seq<char>> {
    seq!["add"@, "--all"@, "--force"@, "--"@, "."@] + exclusions(nested)
}

/// The arguments of `git add` that stage the work tree.
pub fn git_stage_args(nested_exclusions: &Vec<String>) -> (out: Vec<String>)
    ensures
        string_views(out@) == stage_args(string_views(nested_exclusions@)),
{
    let ghost nv = string_views(nested_exclusions@);
    let mut v: Vec<String> = Vec::new();
    push_arg(&mut v, "add");
    push_arg(&mut v, "--all");
    push_arg(&mut v, "--force");
    push_arg(&mut v, "--");
    push_arg(&mut v, ".");
    push_arg(&mut v, ":(exclude,top).afs");
    let ghost head = seq!["add"@, "--all"@, "--force"@, "--"@, "."@, ":(exclude,top).afs"@];
    assert(string_views(v@) =~= head);
    let mut i: usize = 0;
    while i < nested_exclusions.len()
        invariant
            i <= nested_exclusions.len(),
            nv == string_views(nested_exclusions@),
            string_views(v@) == head + Seq::new(i as nat, |k: int| ":(exclude,top)"@ + nv[k]),
        decreases nested_exclusions.len() - i,
    {
        let a = prefixed(":(exclude,top)", nested_exclusions[i].as_str());
        let ghost before = string_views(v@);
        push_arg(&mut v, a.as_str());
        assert(nv[i as int] == nested_exclusions@[i as int]@);
        assert(string_views(v@) =~= head + Seq::new((i + 1) as nat, |k: int| ":(exclude,top)"@ + nv[k]));
        i += 1;
    }
    assert(string_views(v@) =~= stage_args(nv));
    v
}

/// The message of a failed `git` command: the operation and its trimmed
/// error output.
pub fn git_failure_message(operation: &str, stderr_text: &str) -> (m: String)
    ensures
        m@ == "git "@ + operation@ + " failed: "@ + trim(stderr_text@),
{
    let mut v = chars_of("git ");
    extend_str(&mut v, operation);
    extend_str(&mut v, " failed: ");
    let sc = chars_of(stderr_text);
    let t = trim_exec(sc.as_slice());
    crate::text::extend_chars(&mut v, t.as_slice());
    string_of(v.as_slice())
}

/// The parent commit that `git rev-parse` printed: its trimmed output, or
/// none when that is empty.
pub fn parent_commit_of(stdout_text: &str) -> (r: Option<String>)
    ensures
        r matches Some(p) ==> p@ == trim(stdout_text@) && p@.len() > 0,
        r is None ==> trim(stdout_text@).len() == 0,
{
    let sc = chars_of(stdout_text);
    let t = trim_exec(sc.as_slice());
    if t.len() == 0 {
        None
    } else {
        Some(string_of(t.as_slice()))
    }
}

// ---------------------------------------------------------------------------
// Changed files.
// ---------------------------------------------------------------------------

/// `x` placed before the first item that sorts after it.
pub open spec fn insert_in_order(sorted: Seq<Seq<char>>, x: Seq<char>) -> Seq<Seq<char>>
    decreases sorted.len(),
{
    if sorted.len() == 0 {
        seq![x]
    } else if lex_less(x, sorted[0]) {
        seq![x] + sorted
    } else {
        seq![sorted[0]] + insert_in_order(sorted.drop_first(), x)
    }
}

/// The items of `s` in `str` order (`sort`).
pub open spec fn sorted_items(s: Seq<Seq<char>>) -> Seq<Seq<char>>
    decreases s.len(),
{
    if s.len() == 0 {
        Seq::empty()
    } else {
        insert_in_order(sorted_items(s.drop_last()), s.last())
    }
}

/// The non-empty lines.
pub open spec fn nonempty_lines(ls: Seq<Seq<char>>) -> Seq<Seq<char>>
    decreases ls.len(),
{
    if ls.len() == 0 {
        Seq::empty()
    } else if ls.last().len() > 0 {
        nonempty_lines(ls.drop_last()).push(ls.last())
    } else {
        nonempty_lines(ls.drop_last())
    }
}

/// The changed files that `git diff --name-only` printed: its non-empty
/// lines, sorted.
pub open spec fn changed_files_of(stdout_text: Seq<char>) -> Seq<Seq<char>> {
    sorted_items(nonempty_lines(lines(stdout_text)))
}

proof fn lemma_insert_in_order_at(v: Seq<Seq<char>>, x: Seq<char>, i: int)
    requires
        0 <= i <= v.len(),
        forall|k: int| 0 <= k < i ==> !lex_less(x, #[trigger] v[k]),
    ensures
        insert_in_order(v, x) == v.take(i) + insert_in_order(v.skip(i), x),
    decreases i,
{
    if i > 0 {
        let t = v.drop_first();
        assert(!lex_less(x, v[0]));
        assert forall|k: int| 0 <= k < i - 1 implies !lex_less(x, #[trigger] t[k]) by {
            assert(t[k] == v[k + 1]);
        }
        lemma_insert_in_order_at(t, x, i - 1);
        assert(t.skip(i - 1) =~= v.skip(i));
        assert(v.take(i) =~= seq![v[0]] + t.take(i - 1));
    } else {
        assert(v.skip(0) =~= v);
        assert(v.take(0) + insert_in_order(v, x) =~= insert_in_order(v, x));
    }
}

/// Places `x` in the sorted list `v`, after the items that do not sort
/// after it.
fn insert_in_order_exec(v: &mut Vec<String>, x: String)
    ensures
        string_views(final(v)@) == insert_in_order(string_views(old(v)@), x@),
{
    let ghost sv = string_views(v@);
    let xc = chars_of(x.as_str());
    let mut i: usize = 0;
    while i < v.len()
        invariant
            i <= v.len(),
            sv == string_views(v@),
            sv == string_views(old(v)@),
            v@ == old(v)@,
            xc@ == x@,
            forall|k: int| 0 <= k < i ==> !lex_less(x@, #[trigger] sv[k]),
        decreases v.len() - i,
    {
        let vc = chars_of(v[i].as_str());
        assert(sv[i as int] == vc@);
        if lex_less_exec(xc.as_slice(), vc.as_slice()) {
            proof {
                lemma_insert_in_order_at(sv, x@, i as int);
                assert(sv.skip(i as int)[0] == vc@);
            }
            v.insert(i, x);
            assert(string_views(v@) =~= sv.take(i as int) + (seq![xc@] + sv.skip(i as int)));
            return;
        }
        i += 1;
    }
    proof {
        lemma_insert_in_order_at(sv, x@, i as int);
        assert(sv.skip(i as int) =~= Seq::<Seq<char>>::empty());
        assert(sv.take(i as int) =~= sv);
    }
    v.push(x);
    assert(string_views(v@) =~= sv.push(xc@));
}

/// The changed files that `git diff --name-only` printed.
pub fn changed_file_list(stdout_text: &str) -> (out: Vec<String>)
    ensures
        string_views(out@) == changed_files_of(stdout_text@),
{
    let sc = chars_of(stdout_text);
    let ls = lines_exec(sc.as_slice());
    let ghost lv = views(ls@);
    let ghost ne = nonempty_lines(lv);
    let mut kept: Vec<String> = Vec::new();
    let mut i: usize = 0;
    while i < ls.len()
        invariant
            i <= ls.len(),
            lv == views(ls@),
            string_views(kept@) == nonempty_lines(lv.take(i as int)),
        decreases ls.len() - i,
    {
        assert(lv.take(i + 1).drop_last() =~= lv.take(i as int));
        assert(lv.take(i + 1).last() == ls@[i as int]@);
        if ls[i].len() > 0 {
            let ghost before = string_views(kept@);
            kept.push(string_of(ls[i].as_slice()));
            assert(string_views(kept@) =~= before.push(ls@[i as int]@));
        }
        i += 1;
    }
    assert(lv.take(ls.len() as int) =~= lv);
    let ghost kv = string_views(kept@);
    let mut out: Vec<String> = Vec::new();
    let mut j: usize = 0;
    assert(string_views(out@) =~= sorted_items(kv.take(0)));
    while j < kept.len()
        invariant
            j <= kept.len(),
            kv == string_views(kept@),
            string_views(out@) == sorted_items(kv.take(j as int)),
        decreases kept.len() - j,
    {
        assert(kv.take(j + 1).drop_last() =~= kv.take(j as int));
        assert(kv.take(j + 1).last() == kept@[j as int]@);
        insert_in_order_exec(&mut out, kept[j].clone());
        j += 1;
    }
    assert(kv.take(kept.len() as int) =~= kv);
    out
}


// ---------------------------------------------------------------------------
// The order of the changed files.
// ---------------------------------------------------------------------------

/// No item sorts before an earlier one.
pub open spec fn in_order(s: Seq<Seq<char>>) -> bool {
    forall|i: int, j: int| 0 <= i < j < s.len() ==> !lex_less(#[trigger] s[j], #[trigger] s[i])
}

proof fn lemma_lex_asymmetric(a: Seq<char>, b: Seq<char>)
    requires
        lex_less(a, b),
    ensures
        !lex_less(b, a),
{
    if lex_less(b, a) {
        lemma_lex_transitive(a, b, a);
        lemma_lex_irreflexive(a);
    }
}

proof fn lemma_insert_in_order(v: Seq<Seq<char>>, x: Seq<char>)
    requires
        in_order(v),
    ensures
        in_order(insert_in_order(v, x)),
        insert_in_order(v, x).to_multiset() == v.to_multiset().insert(x),
    decreases v.len(),
{
    broadcast use vstd::seq_lib::group_to_multiset_ensures;

    let r = insert_in_order(v, x);
    if v.len() == 0 {
        assert(r =~= Seq::<Seq<char>>::empty().push(x));
        assert(Seq::<Seq<char>>::empty().to_multiset() =~= Multiset::empty());
    } else if lex_less(x, v[0]) {
        assert(r =~= v.insert(0, x));
        assert forall|i: int, j: int| 0 <= i < j < r.len() implies !lex_less(
            #[trigger] r[j],
            #[trigger] r[i],
        ) by {
            if i == 0 {
                assert(r[j] == v[j - 1]);
                if j - 1 == 0 {
                    lemma_lex_asymmetric(x, v[0]);
                } else {
                    assert(!lex_less(v[j - 1], v[0]));
                    if v[j - 1] != v[0] {
                        lemma_lex_total(v[j - 1], v[0]);
                        lemma_lex_transitive(x, v[0], v[j - 1]);
                    }
                    lemma_lex_asymmetric(x, v[j - 1]);
                }
            } else {
                assert(r[i] == v[i - 1] && r[j] == v[j - 1]);
            }
        }
    } else {
        let t = v.drop_first();
        assert forall|i: int, j: int| 0 <= i < j < t.len() implies !lex_less(
            #[trigger] t[j],
            #[trigger] t[i],
        ) by {
            assert(t[i] == v[i + 1] && t[j] == v[j + 1]);
        }
        lemma_insert_in_order(t, x);
        let rt = insert_in_order(t, x);
        assert(r == seq![v[0]] + rt);
        assert forall|k: int| 0 <= k < rt.len() implies !lex_less(#[trigger] rt[k], v[0]) by {
            assert(rt.to_multiset().count(rt[k]) > 0);
            assert(rt.contains(rt[k]));
            if rt[k] != x {
                assert(t.to_multiset().count(rt[k]) > 0);
                assert(t.contains(rt[k]));
                let m = choose|m: int| 0 <= m < t.len() && t[m] == rt[k];
                assert(v[m + 1] == rt[k]);
            }
        }
        assert forall|i: int, j: int| 0 <= i < j < r.len() implies !lex_less(
            #[trigger] r[j],
            #[trigger] r[i],
        ) by {
            if i == 0 {
                assert(r[j] == rt[j - 1]);
            } else {
                assert(r[i] == rt[i - 1] && r[j] == rt[j - 1]);
            }
        }
        vstd::seq_lib::lemma_multiset_commutative(seq![v[0]], rt);
        vstd::seq_lib::lemma_multiset_commutative(seq![v[0]], t);
        assert(v =~= seq![v[0]] + t);
        assert(r.to_multiset() =~= v.to_multiset().insert(x));
    }
}

/// The changed files are listed in `str` order, and are exactly the
/// non-empty lines of the output, each as often as it occurs there.
pub proof fn law_changed_files_sorted(stdout_text: Seq<char>)
    ensures
        in_order(changed_files_of(stdout_text)),
        changed_files_of(stdout_text).to_multiset() == nonempty_lines(lines(stdout_text)).to_multiset(),
{
    lemma_sorted_items(nonempty_lines(lines(stdout_text)));
}

proof fn lemma_sorted_items(s: Seq<Seq<char>>)
    ensures
        in_order(sorted_items(s)),
        sorted_items(s).to_multiset() == s.to_multiset(),
    decreases s.len(),
{
    broadcast use vstd::seq_lib::group_to_multiset_ensures;

    if s.len() == 0 {
        assert(sorted_items(s).to_multiset() =~= s.to_multiset());
    } else {
        lemma_sorted_items(s.drop_last());
        lemma_insert_in_order(sorted_items(s.drop_last()), s.last());
        assert(s =~= s.drop_last().push(s.last()));
    }
}

} // verus!
