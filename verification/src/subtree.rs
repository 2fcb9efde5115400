//! The Managed Subtree of a Directory Agent: which paths under its Managed
//! Directory are its content, which file references it may report, and
//! which paths its ignore file hides.
use vstd::prelude::*;
use crate::paths::{
    components, components_exec, has_component_below, has_component_below_exec, join, join_exec,
    join_segments, join_segments_exec, path_eq, path_eq_exec, path_starts_with,
    path_starts_with_exec, below, is_separated_relative, lemma_below_separated, path_below, vec_tail,
};
use crate::text::{chars_of, lines, lines_exec, string_of, string_views, strings_of, trim, trim_exec, views};

verus! {

/// The name of the Agent Home directory inside a Managed Directory.
pub open spec fn agent_home_name() -> Seq<char> {
    ".afs"@
}

/// Some component of `path` below the Managed Directory is an Agent Home.
pub fn path_has_agent_home_component(managed_dir: &str, path: &str) -> (r: bool)
    ensures
        r == has_component_below(managed_dir@, path@, agent_home_name()),
{
    has_component_below_exec(managed_dir, path, ".afs")
}

/// A path of the subtree that is not the Managed Directory itself, not in
/// its Agent Home, and not inside any Agent Home below it.
pub open spec fn base_content(managed_dir: Seq<char>, agent_home: Seq<char>, p: Seq<char>) -> bool {
    !path_eq(p, managed_dir) && path_starts_with(p, managed_dir) && !path_starts_with(p, agent_home)
        && !has_component_below(managed_dir, p, agent_home_name())
}

/// A path of the subtree outside every Agent Home.
pub fn is_base_content_path(managed_dir: &str, agent_home: &str, path: &str) -> (r: bool)
    ensures
        r == base_content(managed_dir@, agent_home@, path@),
{
    !path_eq_exec(path, managed_dir) && path_starts_with_exec(path, managed_dir)
        && !path_starts_with_exec(path, agent_home) && !path_has_agent_home_component(
        managed_dir,
        path,
    )
}

/// `path` is one of the nested Managed Directories (given relative to the
/// Managed Directory) or lies below one.
pub open spec fn under_nested(managed_dir: Seq<char>, p: Seq<char>, nested: Seq<Seq<char>>) -> bool {
    exists|k: int|
        0 <= k < nested.len() && (path_eq(p, join(managed_dir, #[trigger] nested[k]))
            || path_starts_with(p, join(managed_dir, nested[k])))
}

/// `path` lies in one of the listed nested Managed Directories.
pub fn is_nested_managed_path_with_list(managed_dir: &str, path: &str, nested: &Vec<String>) -> (r:
    bool)
    ensures
        r == under_nested(managed_dir@, path@, string_views(nested@)),
{
    let ghost nv = string_views(nested@);
    let mut i: usize = 0;
    while i < nested.len()
        invariant
            i <= nested.len(),
            nv == string_views(nested@),
            forall|k: int|
                0 <= k < i ==> !(path_eq(path@, join(managed_dir@, #[trigger] nv[k]))
                    || path_starts_with(path@, join(managed_dir@, nv[k]))),
        decreases nested.len() - i,
    {
        let root = join_exec(managed_dir, nested[i].as_str());
        assert(nv[i as int] == nested@[i as int]@);
        if path_eq_exec(path, root.as_str()) || path_starts_with_exec(path, root.as_str()) {
            return true;
        }
        i += 1;
    }
    false
}

/// What clearing the Managed Directory before an undo restores its tree
/// does with one entry found in it.
pub enum ClearAction {
    /// Leave it: it is the Agent Home or a nested Managed Directory.
    Keep,
    /// Clear inside it: a nested Managed Directory lies below it.
    Descend,
    /// Delete it.
    Remove,
}

/// The entry `p` is the Agent Home or one of the nested Managed Directories.
pub open spec fn kept_by_clearing(managed_dir: Seq<char>, p: Seq<char>, nested: Seq<Seq<char>>) -> bool {
    path_eq(p, join(managed_dir, agent_home_name())) || exists|k: int|
        0 <= k < nested.len() && path_eq(p, join(managed_dir, #[trigger] nested[k]))
}

/// Some nested Managed Directory lies at or below the entry `p`.
pub open spec fn holds_nested(managed_dir: Seq<char>, p: Seq<char>, nested: Seq<Seq<char>>) -> bool {
    exists|k: int| 0 <= k < nested.len() && path_starts_with(join(managed_dir, #[trigger] nested[k]), p)
}

/// What clearing does with the entry `p`.
pub open spec fn clear_action_of(managed_dir: Seq<char>, p: Seq<char>, nested: Seq<Seq<char>>) -> ClearAction {
    if kept_by_clearing(managed_dir, p, nested) {
        ClearAction::Keep
    } else if holds_nested(managed_dir, p, nested) {
        ClearAction::Descend
    } else {
        ClearAction::Remove
    }
}

/// What clearing the Managed Directory before an undo does with the entry
/// `path`: the Agent Home and the nested Managed Directories (given
/// relative to the Managed Directory) stay, a directory holding one is
/// cleared inside, anything else is deleted.  So no deleted entry holds a
/// nested Managed Directory.
pub fn clear_action(managed_dir: &str, path: &str, nested: &Vec<String>) -> (a: ClearAction)
    ensures
        a == clear_action_of(managed_dir@, path@, string_views(nested@)),
        a is Remove ==> forall|k: int|
            0 <= k < nested.len() ==> !path_starts_with(
                join(managed_dir@, #[trigger] string_views(nested@)[k]),
                path@,
            ),
{
    let ghost nv = string_views(nested@);
    let home = join_exec(managed_dir, ".afs");
    if path_eq_exec(path, home.as_str()) {
        return ClearAction::Keep;
    }
    let mut holds = false;
    let mut i: usize = 0;
    while i < nested.len()
        invariant
            i <= nested.len(),
            nv == string_views(nested@),
            !path_eq(path@, join(managed_dir@, agent_home_name())),
            forall|k: int| 0 <= k < i ==> !path_eq(path@, join(managed_dir@, #[trigger] nv[k])),
            holds <==> exists|k: int|
                0 <= k < i && path_starts_with(join(managed_dir@, #[trigger] nv[k]), path@),
        decreases nested.len() - i,
    {
        let root = join_exec(managed_dir, nested[i].as_str());
        assert(nv[i as int] == nested@[i as int]@);
        if path_eq_exec(path, root.as_str()) {
            assert(kept_by_clearing(managed_dir@, path@, nv));
            return ClearAction::Keep;
        }
        if path_starts_with_exec(root.as_str(), path) {
            holds = true;
        }
        i += 1;
    }
    if holds {
        ClearAction::Descend
    } else {
        ClearAction::Remove
    }
}

/// The identity files whose presence makes `path` part of a nested Managed
/// Directory: one for `path` and for each of its ancestors strictly below
/// the Managed Directory, deepest first.
pub open spec fn nested_markers(managed_dir: Seq<char>, p: Seq<char>) -> Seq<Seq<char>> {
    if path_starts_with(p, managed_dir) {
        let rest = components(p).skip(components(managed_dir).len() as int);
        Seq::new(
            rest.len(),
            |i: int|
                join(
                    join(join(managed_dir, join_segments(rest.take(rest.len() - i))), ".afs"@),
                    "identity"@,
                ),
        )
    } else {
        Seq::empty()
    }
}

/// The identity files to look for to tell whether `path` lies in a nested
/// Managed Directory.
pub fn nested_marker_paths(managed_dir: &str, path: &str) -> (out: Vec<String>)
    ensures
        string_views(out@) == nested_markers(managed_dir@, path@),
{
    let mut out: Vec<String> = Vec::new();
    if !path_starts_with_exec(path, managed_dir) {
        assert(string_views(out@) =~= nested_markers(managed_dir@, path@));
        return out;
    }
    let pc = chars_of(path);
    let bc = chars_of(managed_dir);
    let c = components_exec(pc.as_slice());
    let b = components_exec(bc.as_slice());
    let rest = vec_tail(&c, b.len());
    let ghost rv = views(rest@);
    assert(rv =~~= components(path@).skip(components(managed_dir@).len() as int));
    let mut i: usize = 0;
    while i < rest.len()
        invariant
            i <= rest.len(),
            rv == views(rest@),
            rv == components(path@).skip(components(managed_dir@).len() as int),
            path_starts_with(path@, managed_dir@),
            string_views(out@) == Seq::new(
                i as nat,
                |k: int|
                    join(
                        join(join(managed_dir@, join_segments(rv.take(rv.len() - k))), ".afs"@),
                        "identity"@,
                    ),
            ),
        decreases rest.len() - i,
    {
        let n = rest.len() - i;
        let prefix = vec_head(&rest, n);
        let rel = join_segments_exec(prefix.as_slice());
        assert(views(prefix@) =~~= rv.take(n as int));
        let rs = string_of(rel.as_slice());
        let dir = join_exec(managed_dir, rs.as_str());
        let home = join_exec(dir.as_str(), ".afs");
        let marker = join_exec(home.as_str(), "identity");
        let ghost before = string_views(out@);
        out.push(marker);
        assert(string_views(out@) =~= before.push(marker@));
        assert(string_views(out@) =~= Seq::new(
            (i + 1) as nat,
            |k: int|
                join(
                    join(join(managed_dir@, join_segments(rv.take(rv.len() - k))), ".afs"@),
                    "identity"@,
                ),
        ));
        i += 1;
    }
    assert(string_views(out@) =~= nested_markers(managed_dir@, path@));
    out
}

/// The first `n` elements of `v`.
fn vec_head(v: &Vec<Vec<char>>, n: usize) -> (out: Vec<Vec<char>>)
    requires
        n <= v.len(),
    ensures
        views(out@) == views(v@).take(n as int),
{
    let mut out: Vec<Vec<char>> = Vec::new();
    let mut i: usize = 0;
    while i < n
        invariant
            i <= n <= v.len(),
            views(out@) == views(v@).take(i as int),
        decreases n - i,
    {
        let ghost before = views(out@);
        out.push(v[i].clone());
        assert(views(out@) =~~= before.push(v@[i as int]@));
        assert(views(out@) =~~= views(v@).take(i + 1));
        i += 1;
    }
    out
}

/// The content of the Managed Subtree: a base content path outside the
/// listed nested Managed Directories and outside any nested Managed
/// Directory found by its identity file (`nested_marker_found`).
pub open spec fn subtree_content(
    managed_dir: Seq<char>,
    agent_home: Seq<char>,
    p: Seq<char>,
    nested: Seq<Seq<char>>,
    nested_marker_found: bool,
) -> bool {
    base_content(managed_dir, agent_home, p) && !nested_marker_found && !under_nested(
        managed_dir,
        p,
        nested,
    )
}

/// Whether `path` is content of the Managed Subtree; `nested_marker_found`
/// tells whether one of [`nested_marker_paths`] names an existing file.
pub fn is_content_path_with_nested(
    managed_dir: &str,
    agent_home: &str,
    path: &str,
    nested: &Vec<String>,
    nested_marker_found: bool,
) -> (r: bool)
    ensures
        r == subtree_content(
            managed_dir@,
            agent_home@,
            path@,
            string_views(nested@),
            nested_marker_found,
        ),
{
    is_base_content_path(managed_dir, agent_home, path) && !nested_marker_found
        && !is_nested_managed_path_with_list(managed_dir, path, nested)
}

/// Whether a changed path is content of the Managed Directory whose Agent
/// Home is `.afs` inside it; `nested_marker_found` as above.
pub fn is_managed_content_path(managed_dir: &str, path: &str, nested_marker_found: bool) -> (r: bool)
    ensures
        r == (base_content(managed_dir@, join(managed_dir@, ".afs"@), path@)
            && !nested_marker_found),
{
    let home = join_exec(managed_dir, ".afs");
    is_base_content_path(managed_dir, home.as_str(), path) && !nested_marker_found
}

/// Whether any changed path of a filesystem event is content of the
/// Managed Directory; `nested_marker_found[k]` as above for `paths[k]`.
pub fn event_affects_managed_subtree(
    managed_dir: &str,
    paths: &Vec<String>,
    nested_marker_found: &Vec<bool>,
) -> (r: bool)
    requires
        nested_marker_found.len() == paths.len(),
    ensures
        r == exists|k: int|
            0 <= k < paths.len() && base_content(
                managed_dir@,
                join(managed_dir@, ".afs"@),
                #[trigger] paths@[k]@,
            ) && !nested_marker_found@[k],
{
    let mut i: usize = 0;
    while i < paths.len()
        invariant
            i <= paths.len(),
            nested_marker_found.len() == paths.len(),
            forall|k: int|
                0 <= k < i ==> !(base_content(
                    managed_dir@,
                    join(managed_dir@, ".afs"@),
                    #[trigger] paths@[k]@,
                ) && !nested_marker_found@[k]),
        decreases paths.len() - i,
    {
        if is_managed_content_path(managed_dir, paths[i].as_str(), nested_marker_found[i]) {
            return true;
        }
        i += 1;
    }
    false
}

// ---------------------------------------------------------------------------
// The ignore file.
// ---------------------------------------------------------------------------

/// The byte order mark that may open an ignore file.
pub open spec fn bom() -> char {
    '\u{feff}'
}

/// `s` without its leading byte order marks.
pub open spec fn trim_bom(s: Seq<char>) -> Seq<char>
    decreases s.len(),
{
    if s.len() > 0 && s[0] == bom() {
        trim_bom(s.drop_first())
    } else {
        s
    }
}

/// The glob lines of an ignore file: its lines, the first without leading
/// byte order marks (as `GitignoreBuilder::add` reads a file).
pub open spec fn ignore_lines(text: Seq<char>) -> Seq<Seq<char>> {
    let ls = lines(text);
    if ls.len() == 0 {
        ls
    } else {
        ls.update(0, trim_bom(ls[0]))
    }
}

/// The glob lines of an ignore file.
pub fn ignore_file_lines(text: &str) -> (out: Vec<String>)
    ensures
        string_views(out@) == ignore_lines(text@),
{
    let tc = chars_of(text);
    let ls = lines_exec(tc.as_slice());
    let mut out = strings_of(&ls);
    if out.len() > 0 {
        let first = chars_of(out[0].as_str());
        let mut k: usize = 0;
        assert(first@.skip(0) =~= first@);
        while k < first.len() && first[k] == '\u{feff}'
            invariant
                k <= first.len(),
                trim_bom(first@) == trim_bom(first@.skip(k as int)),
            decreases first.len() - k,
        {
            assert(first@.skip(k as int).drop_first() =~= first@.skip(k + 1));
            k += 1;
        }
        let mut t: Vec<char> = Vec::new();
        let mut j: usize = k;
        while j < first.len()
            invariant
                k <= j <= first.len(),
                t@ == first@.subrange(k as int, j as int),
            decreases first.len() - j,
        {
            t.push(first[j]);
            assert(t@ =~= first@.subrange(k as int, j + 1));
            j += 1;
        }
        assert(t@ =~= first@.skip(k as int));
        let ghost before = string_views(out@);
        out.set(0, string_of(t.as_slice()));
        assert(string_views(out@) =~= before.update(0, trim_bom(first@)));
    }
    out
}

/// What `ignore` decides for `path` (relative to `root`) with a matcher
/// built from the glob `lines`: `Some(true)` when the path or one of its
/// parents is ignored, `Some(false)` when not, `None` when a line is refused
/// or the matcher cannot be built.
pub uninterp spec fn gitignore_verdict(root: Seq<char>, lines: Seq<Seq<char>>, path: Seq<char>) -> Option<
    bool,
>;

/// Builds a matcher rooted at `root` from the glob lines with
/// `ignore::gitignore::GitignoreBuilder::add_line` and `build`, and asks
/// `Gitignore::matched_path_or_any_parents(path, false).is_ignore()`; `None`
/// when a line is refused or the build fails.  Nothing about the verdict is
/// stated beyond its being this function of the arguments: what a glob
/// matches is the crate's own logic.  The crate strips a leading `./`, then
/// the root and one separator, and panics when what is left starts at the
/// root; a path that does not start with a separator and never holds two
/// in a row, which the precondition asks for, never leaves that.
#[verifier::external_body]
fn gitignore_verdict_exec(root: &str, lines: &Vec<String>, path: &str) -> (r: Option<bool>)
    requires
        is_separated_relative(path@),
    ensures
        r == gitignore_verdict(root@, string_views(lines@), path@),
{
    let mut builder = ignore::gitignore::GitignoreBuilder::new(root);
    for line in lines.iter() {
        if builder.add_line(None, line).is_err() {
            return None;
        }
    }
    let matcher = builder.build().ok()?;
    Some(matcher.matched_path_or_any_parents(path, false).is_ignore())
}

/// Whether the ignore file hides `path`, matched by its path below the
/// Managed Directory: never without an ignore file, a usable matcher, or for
/// a path outside the Managed Directory (or one that only an empty Managed
/// Directory holds by its root).
pub open spec fn ignored(
    managed_dir: Seq<char>,
    ignore_globs: Option<Seq<Seq<char>>>,
    p: Seq<char>,
) -> bool {
    match ignore_globs {
        None => false,
        Some(globs) => match below(managed_dir, p) {
            None => false,
            Some(rel) => if rel.len() > 0 && rel[0] == '/' {
                false
            } else {
                gitignore_verdict(managed_dir, globs, rel) == Some(true)
            },
        },
    }
}

/// Whether the ignore file (its glob lines, when it exists) hides `path`.
pub fn is_ignored(managed_dir: &str, ignore_globs: Option<&Vec<String>>, path: &str) -> (r: bool)
    ensures
        r == ignored(
            managed_dir@,
            match ignore_globs {
                Some(g) => Some(string_views(g@)),
                None => None,
            },
            path@,
        ),
{
    let globs = match ignore_globs {
        None => return false,
        Some(g) => g,
    };
    let rc = match path_below(managed_dir, path) {
        None => return false,
        Some(r) => r,
    };
    if rc.len() > 0 && rc[0] == '/' {
        return false;
    }
    proof {
        lemma_below_separated(managed_dir@, path@);
    }
    let rel = string_of(rc.as_slice());
    match gitignore_verdict_exec(managed_dir, globs, rel.as_str()) {
        Some(v) => v,
        None => false,
    }
}

// ---------------------------------------------------------------------------
// File references.
// ---------------------------------------------------------------------------

/// The path a file reference names: the trimmed reference taken inside the
/// Managed Directory; none for a blank reference.
pub open spec fn reference_path(managed_dir: Seq<char>, reference: Seq<char>) -> Option<Seq<char>> {
    if trim(reference).len() == 0 {
        None
    } else {
        Some(join(managed_dir, trim(reference)))
    }
}

/// The path a file reference names.
pub fn reference_candidate(managed_dir: &str, reference: &str) -> (r: Option<String>)
    ensures
        r matches Some(p) ==> reference_path(managed_dir@, reference@) == Some(p@),
        r is None ==> reference_path(managed_dir@, reference@) is None,
{
    let rc = chars_of(reference);
    let t = trim_exec(rc.as_slice());
    if t.len() == 0 {
        return None;
    }
    let ts = string_of(t.as_slice());
    Some(join_exec(managed_dir, ts.as_str()))
}

/// What the filesystem says of a referenced path.
pub enum Resolution {
    /// Nothing exists there.
    Missing,
    /// It exists; this is its canonical path.
    Canonical(String),
    /// It exists but could not be resolved.
    Unresolvable,
}

/// The referenced path kept as a file reference: its canonical form when it
/// exists, as written when it does not; only inside the Managed Directory.
pub open spec fn settled_reference(
    managed_dir: Seq<char>,
    candidate: Seq<char>,
    resolution: Resolution,
) -> Option<Seq<char>> {
    match resolution {
        Resolution::Missing => if path_starts_with(candidate, managed_dir) {
            Some(candidate)
        } else {
            None
        },
        Resolution::Canonical(c) => if path_starts_with(c@, managed_dir) {
            Some(c@)
        } else {
            None
        },
        Resolution::Unresolvable => None,
    }
}

/// A file reference of an agent, checked against the Managed Directory and
/// the ignore file.
pub open spec fn kept_file_reference(
    managed_dir: Seq<char>,
    candidate: Seq<char>,
    resolution: Resolution,
    ignore_globs: Option<Seq<Seq<char>>>,
) -> Option<Seq<char>> {
    match settled_reference(managed_dir, candidate, resolution) {
        Some(p) => if ignored(managed_dir, ignore_globs, p) {
            None
        } else {
            Some(p)
        },
        None => None,
    }
}

/// A file reference of an agent: kept when it resolves inside the Managed
/// Directory (symlinks followed) and the ignore file does not hide it.
pub fn file_reference(
    managed_dir: &str,
    candidate: &str,
    resolution: Resolution,
    ignore_globs: Option<&Vec<String>>,
) -> (r: Option<String>)
    ensures
        r matches Some(p) ==> kept_file_reference(
            managed_dir@,
            candidate@,
            resolution,
            match ignore_globs {
                Some(g) => Some(string_views(g@)),
                None => None,
            },
        ) == Some(p@),
        r is None ==> kept_file_reference(
            managed_dir@,
            candidate@,
            resolution,
            match ignore_globs {
                Some(g) => Some(string_views(g@)),
                None => None,
            },
        ) is None,
{
    let settled = match resolution {
        Resolution::Missing => if path_starts_with_exec(candidate, managed_dir) {
            candidate.to_string()
        } else {
            return None;
        },
        Resolution::Canonical(c) => if path_starts_with_exec(c.as_str(), managed_dir) {
            c
        } else {
            return None;
        },
        Resolution::Unresolvable => return None,
    };
    if is_ignored(managed_dir, ignore_globs, settled.as_str()) {
        None
    } else {
        Some(settled)
    }
}


/// A file reference that is kept lies inside the Managed Directory and is
/// not hidden by the ignore file.
pub proof fn law_file_references_visible(
    managed_dir: Seq<char>,
    candidate: Seq<char>,
    resolution: Resolution,
    ignore_globs: Option<Seq<Seq<char>>>,
)
    ensures
        kept_file_reference(managed_dir, candidate, resolution, ignore_globs) matches Some(p) ==> (
        path_starts_with(p, managed_dir) && !ignored(managed_dir, ignore_globs, p)),
{
}

} // verus!
