//! Directory History: the records kept in the isolated history repository
//! of an Agent Home, and every decision taken over them.
//!
//! Each History Entry is stored as a commit whose message carries `Afs-*`
//! trailers.  This module writes those messages, reads them back from the
//! history log, folds the log into History Entries (newest first, one per
//! entry id, with the undoable flag of the latest record), formats the
//! history listing, decides which entry an undo may reverse, and plans the
//! replay of a removed child's history into its parent.  Running `git`
//! itself is left to the caller.
use vstd::prelude::*;
use crate::text::{
    chars_eq, chars_eq_str, chars_of, digit_char, is_digit, lemma_split_cons, matches_at,
    find_from, lemma_find_from_first, split_from, strip_cr, clone_opt, clone_strings, decimal, extend_chars,
    extend_str, find, find_exec, join_with, lines, lines_exec, parse_u64, parse_u64_exec, parse_usize, parse_usize_exec,
    push_decimal, push_joined, rsplit_once, rsplit_once_exec, split, split_exec, split_once,
    split_once_exec, starts_with, starts_with_str, string_of, string_views, strings_of, trim,
    trim_exec, views,
};

verus! {

// ---------------------------------------------------------------------------
// Field sanitizing and small formats.
// ---------------------------------------------------------------------------

/// A tab, newline or carriage return becomes a space.
pub open spec fn sanitize_char(c: char) -> char {
    if c == '\t' || c == '\n' || c == '\r' {
        ' '
    } else {
        c
    }
}

/// `sanitize_field`: every tab, newline and carriage return becomes a space.
pub open spec fn sanitize(s: Seq<char>) -> Seq<char> {
    s.map_values(|c: char| sanitize_char(c))
}

/// Appends `sanitize(s)`.
pub fn push_sanitized(out: &mut Vec<char>, s: &[char])
    ensures
        final(out)@ == old(out)@ + sanitize(s@),
{
    let mut i: usize = 0;
    while i < s.len()
        invariant
            i <= s.len(),
            out@ == old(out)@ + sanitize(s@.take(i as int)),
        decreases s.len() - i,
    {
        let c = s[i];
        out.push(if c == '\t' || c == '\n' || c == '\r' {
            ' '
        } else {
            c
        });
        assert(sanitize(s@.take(i + 1)) =~= sanitize(s@.take(i as int)).push(sanitize_char(c)));
        assert(out@ =~= old(out)@ + sanitize(s@.take(i + 1)));
        i += 1;
    }
    assert(s@.take(s.len() as int) =~= s@);
}

/// Replaces tabs, newlines and carriage returns with spaces, so that the
/// value fits on one trailer line.
pub fn sanitize_field(value: &str) -> (out: String)
    ensures
        out@ == sanitize(value@),
{
    let v = chars_of(value);
    let mut out: Vec<char> = Vec::new();
    push_sanitized(&mut out, v.as_slice());
    assert(out@ =~= sanitize(value@));
    string_of(out.as_slice())
}

/// The trailer text for the undoable flag.
pub open spec fn undoable_text(undoable: bool) -> Seq<char> {
    if undoable {
        "yes"@
    } else {
        "no"@
    }
}

/// The trailer text for the undoable flag: `yes` or `no`.
pub fn undoable_field(undoable: bool) -> (out: &'static str)
    ensures
        out@ == undoable_text(undoable),
{
    if undoable {
        "yes"
    } else {
        "no"
    }
}

/// The one-line summary of a change to `files`.
pub open spec fn history_summary_text(prefix: Seq<char>, files: Seq<Seq<char>>) -> Seq<char> {
    if files.len() == 0 {
        prefix + ": no files changed"@
    } else if files.len() == 1 {
        prefix + ": "@ + files[0]
    } else {
        prefix + ": "@ + decimal(files.len()) + " files changed"@
    }
}

/// The one-line summary of a change: `<prefix>: no files changed`,
/// `<prefix>: <file>`, or `<prefix>: <n> files changed`.
pub fn history_summary(prefix: &str, files: &[String]) -> (out: String)
    ensures
        out@ == history_summary_text(prefix@, string_views(files@)),
{
    let mut v = chars_of(prefix);
    if files.len() == 0 {
        extend_str(&mut v, ": no files changed");
    } else if files.len() == 1 {
        extend_str(&mut v, ": ");
        extend_str(&mut v, files[0].as_str());
    } else {
        extend_str(&mut v, ": ");
        push_decimal(&mut v, files.len() as u128);
        extend_str(&mut v, " files changed");
    }
    string_of(v.as_slice())
}

// ---------------------------------------------------------------------------
// Origins of merged child history.
// ---------------------------------------------------------------------------

/// A child's file path as seen from the parent that absorbed the child.
pub open spec fn prefixed_path(origin: Seq<char>, file: Seq<char>) -> Seq<char> {
    if file.len() == 0 || origin.len() == 0 {
        file
    } else {
        origin + seq!['/'] + file
    }
}

/// A child's file path as seen from the parent: `<origin>/<file>`, or the
/// file unchanged when either part is empty.
pub fn prefix_child_path(origin: &str, file: &str) -> (out: String)
    ensures
        out@ == prefixed_path(origin@, file@),
{
    let o = chars_of(origin);
    let f = chars_of(file);
    if f.len() == 0 || o.len() == 0 {
        return string_of(f.as_slice());
    }
    let mut v = o;
    v.push('/');
    extend_chars(&mut v, f.as_slice());
    string_of(v.as_slice())
}

/// The origin of an entry merged through two levels of removal.
pub open spec fn chained_origin(outer: Seq<char>, inner: Seq<char>) -> Seq<char> {
    if outer.len() == 0 {
        inner
    } else if inner.len() == 0 {
        outer
    } else {
        outer + seq!['/'] + inner
    }
}

/// The origin of an entry merged through two levels of removal:
/// `<outer>/<inner>`, or whichever part is not empty.
pub fn chain_origins(outer: &str, inner: &str) -> (out: String)
    ensures
        out@ == chained_origin(outer@, inner@),
{
    let o = chars_of(outer);
    let i = chars_of(inner);
    if o.len() == 0 {
        return string_of(i.as_slice());
    }
    if i.len() == 0 {
        return string_of(o.as_slice());
    }
    let mut v = o;
    v.push('/');
    extend_chars(&mut v, i.as_slice());
    string_of(v.as_slice())
}

/// Chaining origins is associative.
pub proof fn law_chained_origin_associative(a: Seq<char>, b: Seq<char>, c: Seq<char>)
    ensures
        chained_origin(a, chained_origin(b, c)) == chained_origin(chained_origin(a, b), c),
{
    if a.len() > 0 && b.len() > 0 && c.len() > 0 {
        assert(a + seq!['/'] + (b + seq!['/'] + c) =~= (a + seq!['/'] + b) + seq!['/'] + c);
    }
}

/// Prefixing a file path with two origins in turn is prefixing it with the
/// chained origin: a transitive merge places files where a direct merge
/// with the chained origin would.
pub proof fn law_prefixed_path_chains(a: Seq<char>, b: Seq<char>, file: Seq<char>)
    ensures
        prefixed_path(a, prefixed_path(b, file)) == prefixed_path(chained_origin(a, b), file),
{
    if file.len() > 0 && a.len() > 0 && b.len() > 0 {
        assert(a + seq!['/'] + (b + seq!['/'] + file) =~= (a + seq!['/'] + b) + seq!['/'] + file);
    }
}

/// The first occurrence of `from` replaced with `to` (`str::replacen(_, _, 1)`).
pub open spec fn replace_first(s: Seq<char>, from: Seq<char>, to: Seq<char>) -> Seq<char> {
    match find(s, from) {
        Some(i) => s.take(i) + to + s.skip(i + from.len()),
        None => s,
    }
}

/// The summary after rewriting the first `n` paired file names.
pub open spec fn rewrite_paths_upto(
    summary: Seq<char>,
    original: Seq<Seq<char>>,
    rewritten: Seq<Seq<char>>,
    n: int,
) -> Seq<char>
    decreases n,
{
    if n <= 0 {
        summary
    } else {
        let prev = rewrite_paths_upto(summary, original, rewritten, n - 1);
        let o = original[n - 1];
        let r = rewritten[n - 1];
        if o.len() == 0 || o == r {
            prev
        } else {
            replace_first(prev, o, r)
        }
    }
}

/// The summary with each original file name replaced, once, by its
/// rewritten counterpart.
pub open spec fn rewritten_summary(
    summary: Seq<char>,
    original: Seq<Seq<char>>,
    rewritten: Seq<Seq<char>>,
) -> Seq<char> {
    let n = if original.len() <= rewritten.len() {
        original.len()
    } else {
        rewritten.len()
    };
    rewrite_paths_upto(summary, original, rewritten, n as int)
}

/// Replaces the first occurrence of `from` in `s` with `to`.
pub fn replace_first_exec(s: &[char], from: &[char], to: &[char]) -> (out: Vec<char>)
    ensures
        out@ == replace_first(s@, from@, to@),
{
    match split_once_exec(s, from) {
        Some(parts) => {
            let (a, b) = parts;
            let mut v = a;
            extend_chars(&mut v, to);
            extend_chars(&mut v, b.as_slice());
            v
        },
        None => {
            let mut v: Vec<char> = Vec::new();
            extend_chars(&mut v, s);
            assert(v@ =~= s@);
            v
        },
    }
}

/// Rewrites the file names mentioned in a merged entry's summary: each
/// original name, paired in order with its rewritten name, has its first
/// occurrence replaced.
pub fn rewrite_summary_paths(
    summary: &str,
    original_files: &[String],
    rewritten_files: &[String],
) -> (out: String)
    ensures
        out@ == rewritten_summary(
            summary@,
            string_views(original_files@),
            string_views(rewritten_files@),
        ),
{
    let n = if original_files.len() <= rewritten_files.len() {
        original_files.len()
    } else {
        rewritten_files.len()
    };
    let ghost os = string_views(original_files@);
    let ghost rs = string_views(rewritten_files@);
    let mut result = chars_of(summary);
    let mut i: usize = 0;
    while i < n
        invariant
            n <= original_files.len(),
            n <= rewritten_files.len(),
            i <= n,
            os == string_views(original_files@),
            rs == string_views(rewritten_files@),
            result@ == rewrite_paths_upto(summary@, os, rs, i as int),
        decreases n - i,
    {
        let o = chars_of(original_files[i].as_str());
        let r = chars_of(rewritten_files[i].as_str());
        assert(o@ == os[i as int]);
        assert(r@ == rs[i as int]);
        if o.len() == 0 || chars_eq(o.as_slice(), r.as_slice()) {
        } else {
            result = replace_first_exec(result.as_slice(), o.as_slice(), r.as_slice());
        }
        i += 1;
    }
    string_of(result.as_slice())
}

/// An ownership summary `<prefix>: <path>` with the path placed under `origin`.
pub open spec fn rewritten_ownership_summary(summary: Seq<char>, origin: Seq<char>) -> Seq<char> {
    if origin.len() == 0 {
        summary
    } else {
        match split_once(summary, ": "@) {
            Some((prefix, path)) => if path.len() > 0 {
                prefix + ": "@ + origin + seq!['/'] + path
            } else {
                summary
            },
            None => summary,
        }
    }
}

/// Places the path of an ownership summary (`Ownership split: <path>`)
/// under the origin of the merged child.
pub fn rewrite_ownership_summary(summary: &str, origin_prefix: &str) -> (out: String)
    ensures
        out@ == rewritten_ownership_summary(summary@, origin_prefix@),
{
    let o = chars_of(origin_prefix);
    let s = chars_of(summary);
    if o.len() == 0 {
        return string_of(s.as_slice());
    }
    let sep = chars_of(": ");
    match split_once_exec(s.as_slice(), sep.as_slice()) {
        Some(parts) => {
            let (prefix, path) = parts;
            if path.len() > 0 {
                let mut v = prefix;
                extend_str(&mut v, ": ");
                extend_chars(&mut v, o.as_slice());
                v.push('/');
                extend_chars(&mut v, path.as_slice());
                string_of(v.as_slice())
            } else {
                string_of(s.as_slice())
            }
        },
        None => string_of(s.as_slice()),
    }
}

// ---------------------------------------------------------------------------
// Commit messages.
// ---------------------------------------------------------------------------

/// The view of an optional string.
pub open spec fn opt_view(o: Option<String>) -> Option<Seq<char>> {
    match o {
        Some(s) => Some(s@),
        None => None,
    }
}

/// What a history commit records: one History Entry, or one update of it.
pub struct CommitRequest {
    pub entry_id: String,
    pub kind: String,
    pub summary: String,
    pub files: Vec<String>,
    pub undoable: bool,
    pub undoes: Option<String>,
    pub origin: Option<String>,
}

/// The plain contents of a [`CommitRequest`].
pub struct CommitRequestView {
    pub entry_id: Seq<char>,
    pub kind: Seq<char>,
    pub summary: Seq<char>,
    pub files: Seq<Seq<char>>,
    pub undoable: bool,
    pub undoes: Option<Seq<char>>,
    pub origin: Option<Seq<char>>,
}

impl View for CommitRequest {
    type V = CommitRequestView;

    open spec fn view(&self) -> CommitRequestView {
        CommitRequestView {
            entry_id: self.entry_id@,
            kind: self.kind@,
            summary: self.summary@,
            files: string_views(self.files@),
            undoable: self.undoable,
            undoes: opt_view(self.undoes),
            origin: opt_view(self.origin),
        }
    }
}

/// A trailer line `<key>: <value>`.
pub open spec fn trailer_line(key: Seq<char>, value: Seq<char>) -> Seq<char> {
    key + ": "@ + value
}

/// The lines of the commit message for `r`: the sanitized summary, an empty
/// line, then the `Afs-*` trailers.
pub open spec fn message_lines(r: CommitRequestView) -> Seq<Seq<char>> {
    let base = seq![
        sanitize(r.summary),
        Seq::<char>::empty(),
        trailer_line("Afs-Entry-Id"@, sanitize(r.entry_id)),
        trailer_line("Afs-Kind"@, sanitize(r.kind)),
        trailer_line("Afs-Summary"@, sanitize(r.summary)),
        trailer_line("Afs-Undoable"@, undoable_text(r.undoable)),
        trailer_line("Afs-File-Count"@, decimal(r.files.len())),
        trailer_line("Afs-Files"@, sanitize(join_with(r.files, ", "@))),
    ];
    let with_undoes = match r.undoes {
        Some(u) => base.push(trailer_line("Afs-Undoes"@, sanitize(u))),
        None => base,
    };
    match r.origin {
        Some(o) => with_undoes.push(trailer_line("Afs-Origin"@, sanitize(o))),
        None => with_undoes,
    }
}

/// Each line followed by a newline.
pub open spec fn text_of_lines(ls: Seq<Seq<char>>) -> Seq<char>
    decreases ls.len(),
{
    if ls.len() == 0 {
        Seq::empty()
    } else {
        ls[0] + seq!['\n'] + text_of_lines(ls.drop_first())
    }
}

/// The commit message that records `r`.
pub open spec fn commit_message_text(r: CommitRequestView) -> Seq<char> {
    text_of_lines(message_lines(r))
}

proof fn lemma_text_of_lines_push(ls: Seq<Seq<char>>, l: Seq<char>)
    ensures
        text_of_lines(ls.push(l)) == text_of_lines(ls) + l + seq!['\n'],
    decreases ls.len(),
{
    if ls.len() == 0 {
        assert(ls.push(l).drop_first() =~= Seq::<Seq<char>>::empty());
        assert(text_of_lines(ls.push(l).drop_first()) == Seq::<char>::empty());
        assert(ls.push(l)[0] == l);
        assert(text_of_lines(ls) == Seq::<char>::empty());
        assert(text_of_lines(ls.push(l)) =~= l + seq!['\n']);
    } else {
        assert(ls.push(l).drop_first() =~= ls.drop_first().push(l));
        lemma_text_of_lines_push(ls.drop_first(), l);
        assert(text_of_lines(ls.push(l)) =~= text_of_lines(ls) + l + seq!['\n']);
    }
}

/// Appends one message line and its newline.
fn push_line(out: &mut Vec<char>, line: &[char], Ghost(ls): Ghost<Seq<Seq<char>>>)
    requires
        old(out)@ == text_of_lines(ls),
    ensures
        final(out)@ == text_of_lines(ls.push(line@)),
{
    extend_chars(out, line);
    out.push('\n');
    proof {
        lemma_text_of_lines_push(ls, line@);
        assert(final(out)@ =~= text_of_lines(ls) + line@ + seq!['\n']);
    }
}

/// A trailer line `<key>: <sanitized value>`.
fn sanitized_trailer(key: &str, value: &[char]) -> (out: Vec<char>)
    ensures
        out@ == trailer_line(key@, sanitize(value@)),
{
    let mut v = chars_of(key);
    extend_str(&mut v, ": ");
    push_sanitized(&mut v, value);
    assert(v@ =~= trailer_line(key@, sanitize(value@)));
    v
}

/// The commit message that records `request`: its sanitized summary, an
/// empty line, and one `Afs-*` trailer per field.
pub fn git_commit_message(request: &CommitRequest) -> (out: String)
    ensures
        out@ == commit_message_text(request@),
{
    let ghost r = request@;
    let mut out: Vec<char> = Vec::new();
    let summary = chars_of(request.summary.as_str());
    let mut subject: Vec<char> = Vec::new();
    push_sanitized(&mut subject, summary.as_slice());
    assert(out@ =~= text_of_lines(Seq::<Seq<char>>::empty()));
    push_line(&mut out, subject.as_slice(), Ghost(Seq::empty()));
    let ghost ls0 = seq![sanitize(r.summary)];
    assert(Seq::<Seq<char>>::empty().push(sanitize(r.summary)) =~= ls0);
    let empty: Vec<char> = Vec::new();
    push_line(&mut out, empty.as_slice(), Ghost(ls0));
    let ghost ls1 = ls0.push(Seq::<char>::empty());
    assert(empty@ =~= Seq::<char>::empty());
    let id = chars_of(request.entry_id.as_str());
    let l = sanitized_trailer("Afs-Entry-Id", id.as_slice());
    push_line(&mut out, l.as_slice(), Ghost(ls1));
    let ghost ls2 = ls1.push(l@);
    let kind = chars_of(request.kind.as_str());
    let l = sanitized_trailer("Afs-Kind", kind.as_slice());
    push_line(&mut out, l.as_slice(), Ghost(ls2));
    let ghost ls3 = ls2.push(l@);
    let l = sanitized_trailer("Afs-Summary", summary.as_slice());
    push_line(&mut out, l.as_slice(), Ghost(ls3));
    let ghost ls4 = ls3.push(l@);
    let mut l = chars_of("Afs-Undoable");
    extend_str(&mut l, ": ");
    extend_str(&mut l, undoable_field(request.undoable));
    push_line(&mut out, l.as_slice(), Ghost(ls4));
    let ghost ls5 = ls4.push(l@);
    let mut l = chars_of("Afs-File-Count");
    extend_str(&mut l, ": ");
    push_decimal(&mut l, request.files.len() as u128);
    push_line(&mut out, l.as_slice(), Ghost(ls5));
    let ghost ls6 = ls5.push(l@);
    let mut joined: Vec<char> = Vec::new();
    push_joined(&mut joined, request.files.as_slice(), ", ");
    assert(joined@ =~= join_with(r.files, ", "@));
    let l = sanitized_trailer("Afs-Files", joined.as_slice());
    push_line(&mut out, l.as_slice(), Ghost(ls6));
    let ghost ls7 = ls6.push(l@);
    assert(ls7 =~= seq![
        sanitize(r.summary),
        Seq::<char>::empty(),
        trailer_line("Afs-Entry-Id"@, sanitize(r.entry_id)),
        trailer_line("Afs-Kind"@, sanitize(r.kind)),
        trailer_line("Afs-Summary"@, sanitize(r.summary)),
        trailer_line("Afs-Undoable"@, undoable_text(r.undoable)),
        trailer_line("Afs-File-Count"@, decimal(r.files.len())),
        trailer_line("Afs-Files"@, sanitize(join_with(r.files, ", "@))),
    ]);
    let ghost mut ls = ls7;
    match &request.undoes {
        Some(u) => {
            let uc = chars_of(u.as_str());
            let l = sanitized_trailer("Afs-Undoes", uc.as_slice());
            push_line(&mut out, l.as_slice(), Ghost(ls));
            proof {
                ls = ls.push(l@);
            }
        },
        None => {},
    }
    match &request.origin {
        Some(o) => {
            let oc = chars_of(o.as_str());
            let l = sanitized_trailer("Afs-Origin", oc.as_slice());
            push_line(&mut out, l.as_slice(), Ghost(ls));
            proof {
                ls = ls.push(l@);
            }
        },
        None => {},
    }
    assert(ls =~= message_lines(r));
    string_of(out.as_slice())
}

// ---------------------------------------------------------------------------
// Reading trailers and the history log.
// ---------------------------------------------------------------------------

/// The `Afs-*` trailers of one history commit that the history logic reads.
pub struct Trailers {
    pub entry_id: Option<String>,
    pub kind: Option<String>,
    pub summary: Option<String>,
    pub undoable: Option<String>,
    pub file_count: Option<String>,
    pub files: Option<String>,
    pub undoes: Option<String>,
    pub origin: Option<String>,
}

/// The plain contents of [`Trailers`].
pub struct TrailersView {
    pub entry_id: Option<Seq<char>>,
    pub kind: Option<Seq<char>>,
    pub summary: Option<Seq<char>>,
    pub undoable: Option<Seq<char>>,
    pub file_count: Option<Seq<char>>,
    pub files: Option<Seq<char>>,
    pub undoes: Option<Seq<char>>,
    pub origin: Option<Seq<char>>,
}

impl View for Trailers {
    type V = TrailersView;

    open spec fn view(&self) -> TrailersView {
        TrailersView {
            entry_id: opt_view(self.entry_id),
            kind: opt_view(self.kind),
            summary: opt_view(self.summary),
            undoable: opt_view(self.undoable),
            file_count: opt_view(self.file_count),
            files: opt_view(self.files),
            undoes: opt_view(self.undoes),
            origin: opt_view(self.origin),
        }
    }
}

/// No trailers at all.
pub open spec fn no_trailers() -> TrailersView {
    TrailersView {
        entry_id: None,
        kind: None,
        summary: None,
        undoable: None,
        file_count: None,
        files: None,
        undoes: None,
        origin: None,
    }
}

/// `t` with the trailer `key` set to `value`; keys the history logic never
/// reads leave `t` unchanged.
pub open spec fn set_trailer(t: TrailersView, key: Seq<char>, value: Seq<char>) -> TrailersView {
    if key == "Afs-Entry-Id"@ {
        TrailersView { entry_id: Some(value), ..t }
    } else if key == "Afs-Kind"@ {
        TrailersView { kind: Some(value), ..t }
    } else if key == "Afs-Summary"@ {
        TrailersView { summary: Some(value), ..t }
    } else if key == "Afs-Undoable"@ {
        TrailersView { undoable: Some(value), ..t }
    } else if key == "Afs-File-Count"@ {
        TrailersView { file_count: Some(value), ..t }
    } else if key == "Afs-Files"@ {
        TrailersView { files: Some(value), ..t }
    } else if key == "Afs-Undoes"@ {
        TrailersView { undoes: Some(value), ..t }
    } else if key == "Afs-Origin"@ {
        TrailersView { origin: Some(value), ..t }
    } else {
        t
    }
}

/// One body line read as a trailer: `<key>: <value>` with a key starting
/// with `Afs-`; a later line overrides an earlier one with the same key.
pub open spec fn apply_trailer_line(t: TrailersView, line: Seq<char>) -> TrailersView {
    match split_once(line, ": "@) {
        Some((key, value)) => if starts_with(key, "Afs-"@) {
            set_trailer(t, key, value)
        } else {
            t
        },
        None => t,
    }
}

/// The trailers read from `ls`, in order.
pub open spec fn trailers_of_lines(ls: Seq<Seq<char>>) -> TrailersView
    decreases ls.len(),
{
    if ls.len() == 0 {
        no_trailers()
    } else {
        apply_trailer_line(trailers_of_lines(ls.drop_last()), ls.last())
    }
}

/// The trailers of a commit body.
pub open spec fn parse_trailers(body: Seq<char>) -> TrailersView {
    trailers_of_lines(lines(body))
}

fn empty_trailers() -> (t: Trailers)
    ensures
        t@ == no_trailers(),
{
    Trailers {
        entry_id: None,
        kind: None,
        summary: None,
        undoable: None,
        file_count: None,
        files: None,
        undoes: None,
        origin: None,
    }
}

/// Sets the trailer `key` to `value`.
fn set_trailer_exec(t: &mut Trailers, key: &[char], value: &[char])
    ensures
        final(t)@ == set_trailer(old(t)@, key@, value@),
{
    let v = string_of(value);
    if chars_eq_str(key, "Afs-Entry-Id") {
        t.entry_id = Some(v);
    } else if chars_eq_str(key, "Afs-Kind") {
        t.kind = Some(v);
    } else if chars_eq_str(key, "Afs-Summary") {
        t.summary = Some(v);
    } else if chars_eq_str(key, "Afs-Undoable") {
        t.undoable = Some(v);
    } else if chars_eq_str(key, "Afs-File-Count") {
        t.file_count = Some(v);
    } else if chars_eq_str(key, "Afs-Files") {
        t.files = Some(v);
    } else if chars_eq_str(key, "Afs-Undoes") {
        t.undoes = Some(v);
    } else if chars_eq_str(key, "Afs-Origin") {
        t.origin = Some(v);
    }
}

/// Reads the `Afs-*` trailers of a commit body: every line `<key>: <value>`
/// whose key starts with `Afs-`, the last one of each key winning.
pub fn parse_commit_trailers(body: &[char]) -> (t: Trailers)
    ensures
        t@ == parse_trailers(body@),
{
    let ls = lines_exec(body);
    let ghost lv = lines(body@);
    let mut t = empty_trailers();
    let sep = chars_of(": ");
    let mut i: usize = 0;
    while i < ls.len()
        invariant
            i <= ls.len(),
            views(ls@) == lv,
            sep@ == ": "@,
            t@ == trailers_of_lines(lv.take(i as int)),
        decreases ls.len() - i,
    {
        assert(lv.take(i + 1).drop_last() =~= lv.take(i as int));
        assert(lv.take(i + 1).last() == ls@[i as int]@);
        match split_once_exec(ls[i].as_slice(), sep.as_slice()) {
            Some(kv) => {
                let (key, value) = kv;
                if starts_with_str(key.as_slice(), "Afs-") {
                    set_trailer_exec(&mut t, key.as_slice(), value.as_slice());
                }
            },
            None => {},
        }
        i += 1;
    }
    assert(lv.take(ls.len() as int) =~= lv);
    t
}

/// One commit of the history log: its id, commit time and trailers.
pub struct HistoryRecord {
    pub commit: String,
    pub timestamp_secs: u64,
    pub trailers: Trailers,
}

/// The plain contents of a [`HistoryRecord`].
pub struct RecordView {
    pub commit: Seq<char>,
    pub timestamp_secs: u64,
    pub trailers: TrailersView,
}

impl View for HistoryRecord {
    type V = RecordView;

    open spec fn view(&self) -> RecordView {
        RecordView {
            commit: self.commit@,
            timestamp_secs: self.timestamp_secs,
            trailers: self.trailers@,
        }
    }
}

/// The views of a sequence of records.
pub open spec fn record_views(v: Seq<HistoryRecord>) -> Seq<RecordView> {
    Seq::new(v.len(), |i: int| v[i]@)
}

/// The separator that opens each commit in the log text.
pub open spec fn commit_marker() -> Seq<char> {
    "--AFS-COMMIT--\n"@
}

/// The marker that closes each commit body in the log text.
pub open spec fn end_marker() -> Seq<char> {
    "--AFS-END--"@
}

/// One block of the log text: the commit id line, the commit time line,
/// then the body up to the last end marker.
pub open spec fn parse_block(block: Seq<char>) -> Option<RecordView> {
    match split_once(block, seq!['\n']) {
        Some((sha, rest)) => match split_once(rest, seq!['\n']) {
            Some((ts, body_with_end)) => match rsplit_once(body_with_end, end_marker()) {
                Some((body, _end)) => Some(
                    RecordView {
                        commit: trim(sha),
                        timestamp_secs: match parse_u64(trim(ts)) {
                            Some(v) => v,
                            None => 0,
                        },
                        trailers: parse_trailers(body),
                    },
                ),
                None => None,
            },
            None => None,
        },
        None => None,
    }
}

/// The records of the blocks that parse, in order.
pub open spec fn parse_blocks(blocks: Seq<Seq<char>>) -> Seq<RecordView>
    decreases blocks.len(),
{
    if blocks.len() == 0 {
        Seq::empty()
    } else {
        let prev = parse_blocks(blocks.drop_last());
        match parse_block(blocks.last()) {
            Some(r) => prev.push(r),
            None => prev,
        }
    }
}

/// The records of the history log text, newest first as `git log` lists
/// them: the text after each commit marker is one block, and blocks that
/// lack an id line, a time line or an end marker are skipped.
pub open spec fn parse_log(text: Seq<char>) -> Seq<RecordView> {
    parse_blocks(split(text, commit_marker()).drop_first())
}

/// Reads one block of the log text.
pub fn parse_log_block(block: &[char]) -> (r: Option<HistoryRecord>)
    ensures
        r matches Some(rec) ==> parse_block(block@) == Some(rec@),
        r is None ==> parse_block(block@) is None,
{
    let nl = chars_of("\n");
    proof {
        reveal_strlit("\n");
        assert(nl@ =~= seq!['\n']);
    }
    let end = chars_of("--AFS-END--");
    let (sha, rest) = match split_once_exec(block, nl.as_slice()) {
        Some(p) => p,
        None => return None,
    };
    let (ts, body_with_end) = match split_once_exec(rest.as_slice(), nl.as_slice()) {
        Some(p) => p,
        None => return None,
    };
    let (body, _end) = match rsplit_once_exec(body_with_end.as_slice(), end.as_slice()) {
        Some(p) => p,
        None => return None,
    };
    let commit = trim_exec(sha.as_slice());
    let ts_trimmed = trim_exec(ts.as_slice());
    let timestamp_secs = match parse_u64_exec(ts_trimmed.as_slice()) {
        Some(v) => v,
        None => 0,
    };
    let trailers = parse_commit_trailers(body.as_slice());
    Some(HistoryRecord { commit: string_of(commit.as_slice()), timestamp_secs, trailers })
}

/// Reads the history log text written by
/// `git log --format=--AFS-COMMIT--%n%H%n%ct%n%B%n--AFS-END--`.
pub fn parse_log_records(text: &str) -> (out: Vec<HistoryRecord>)
    ensures
        record_views(out@) == parse_log(text@),
{
    let t = chars_of(text);
    let marker = chars_of("--AFS-COMMIT--\n");
    proof {
        reveal_strlit("--AFS-COMMIT--\n");
    }
    let blocks = split_exec(t.as_slice(), marker.as_slice());
    let ghost bs = split(text@, commit_marker());
    proof {
        crate::text::lemma_split_nonempty_any(text@, commit_marker(), 0);
    }
    let mut out: Vec<HistoryRecord> = Vec::new();
    let mut i: usize = 1;
    while i < blocks.len()
        invariant
            1 <= i <= blocks.len(),
            views(blocks@) == bs,
            record_views(out@) == parse_blocks(bs.drop_first().take(i - 1)),
        decreases blocks.len() - i,
    {
        assert(bs.drop_first().take(i as int).drop_last() =~= bs.drop_first().take(i - 1));
        assert(bs.drop_first().take(i as int).last() == blocks@[i as int]@);
        match parse_log_block(blocks[i].as_slice()) {
            Some(rec) => {
                let ghost before = record_views(out@);
                out.push(rec);
                assert(record_views(out@) =~= before.push(rec@));
            },
            None => {},
        }
        i += 1;
    }
    assert(bs.drop_first().take(blocks.len() - 1) =~= bs.drop_first());
    out
}

// ---------------------------------------------------------------------------
// History Entries.
// ---------------------------------------------------------------------------

/// A copy of `t`.
pub fn copy_trailers(t: &Trailers) -> (out: Trailers)
    ensures
        out@ == t@,
{
    Trailers {
        entry_id: clone_opt(&t.entry_id),
        kind: clone_opt(&t.kind),
        summary: clone_opt(&t.summary),
        undoable: clone_opt(&t.undoable),
        file_count: clone_opt(&t.file_count),
        files: clone_opt(&t.files),
        undoes: clone_opt(&t.undoes),
        origin: clone_opt(&t.origin),
    }
}

/// A copy of `r`.
pub fn copy_record(r: &HistoryRecord) -> (out: HistoryRecord)
    ensures
        out@ == r@,
{
    HistoryRecord {
        commit: r.commit.clone(),
        timestamp_secs: r.timestamp_secs,
        trailers: copy_trailers(&r.trailers),
    }
}

/// A History Entry as folded from the log: the record that first recorded
/// the entry, and the undoable trailer of the latest record of the entry.
pub struct FoldedEntry {
    pub record: HistoryRecord,
    pub latest_undoable: Option<String>,
}

/// The plain contents of a [`FoldedEntry`].
pub struct FoldedView {
    pub record: RecordView,
    pub latest_undoable: Option<Seq<char>>,
}

impl View for FoldedEntry {
    type V = FoldedView;

    open spec fn view(&self) -> FoldedView {
        FoldedView { record: self.record@, latest_undoable: opt_view(self.latest_undoable) }
    }
}

/// The views of a sequence of folded entries.
pub open spec fn folded_views(v: Seq<FoldedEntry>) -> Seq<FoldedView> {
    Seq::new(v.len(), |i: int| v[i]@)
}

/// The id of a folded entry.
pub open spec fn folded_id(f: FoldedView) -> Option<Seq<char>> {
    f.record.trailers.entry_id
}

/// The first of the first `n` entries of `acc` whose id is `id`.
pub open spec fn entry_index_below(acc: Seq<FoldedView>, id: Seq<char>, n: int) -> Option<int>
    decreases n,
{
    if n <= 0 {
        None
    } else {
        match entry_index_below(acc, id, n - 1) {
            Some(i) => Some(i),
            None => if folded_id(acc[n - 1]) == Some(id) {
                Some(n - 1)
            } else {
                None
            },
        }
    }
}

/// The position in `acc` of the entry whose id is `id`.
pub open spec fn entry_index(acc: Seq<FoldedView>, id: Seq<char>) -> Option<int> {
    entry_index_below(acc, id, acc.len() as int)
}

/// A record marks the install baseline.
pub open spec fn is_baseline(r: RecordView) -> bool {
    r.trailers.kind == Some("baseline"@)
}

/// One record, oldest first, folded into the entries seen so far: records
/// without an entry id and baseline records are skipped; the first record
/// of an id makes a new entry; a later record of the id only updates the
/// entry's undoable trailer.
pub open spec fn fold_step(acc: Seq<FoldedView>, r: RecordView) -> Seq<FoldedView> {
    match r.trailers.entry_id {
        None => acc,
        Some(id) => if is_baseline(r) {
            acc
        } else {
            match entry_index(acc, id) {
                Some(i) => acc.update(
                    i,
                    FoldedView { record: acc[i].record, latest_undoable: r.trailers.undoable },
                ),
                None => acc.push(FoldedView { record: r, latest_undoable: r.trailers.undoable }),
            }
        },
    }
}

/// The entries of records given oldest first, oldest entry first.
pub open spec fn fold_oldest_first(rs: Seq<RecordView>) -> Seq<FoldedView>
    decreases rs.len(),
{
    if rs.len() == 0 {
        Seq::empty()
    } else {
        fold_step(fold_oldest_first(rs.drop_last()), rs.last())
    }
}

/// The History Entries of a log listed newest first, newest entry first.
pub open spec fn folded_entries(newest_first: Seq<RecordView>) -> Seq<FoldedView> {
    fold_oldest_first(newest_first.reverse()).reverse()
}

/// Finds the entry whose id is `id`.
fn find_entry(acc: &Vec<FoldedEntry>, id: &String) -> (r: Option<usize>)
    ensures
        r matches Some(i) ==> entry_index(folded_views(acc@), id@) == Some(i as int) && i
            < acc.len(),
        r is None ==> entry_index(folded_views(acc@), id@) is None,
{
    let ghost av = folded_views(acc@);
    let idc = chars_of(id.as_str());
    let mut i: usize = 0;
    while i < acc.len()
        invariant
            i <= acc.len(),
            av == folded_views(acc@),
            idc@ == id@,
            entry_index_below(av, id@, i as int) is None,
        decreases acc.len() - i,
    {
        let same = match &acc[i].record.trailers.entry_id {
            Some(e) => {
                let ec = chars_of(e.as_str());
                chars_eq(ec.as_slice(), idc.as_slice())
            },
            None => false,
        };
        assert(av[i as int] == acc@[i as int]@);
        if same {
            proof {
                assert(entry_index_below(av, id@, i + 1) == Some(i as int));
                lemma_entry_index_below_stable(av, id@, i + 1, av.len() as int);
            }
            return Some(i);
        }
        i += 1;
    }
    None
}

proof fn lemma_entry_index_below_bounds(acc: Seq<FoldedView>, id: Seq<char>, n: int)
    ensures
        entry_index_below(acc, id, n) matches Some(i) ==> 0 <= i < n && folded_id(acc[i]) == Some(
            id,
        ) && forall|k: int| 0 <= k < i ==> folded_id(#[trigger] acc[k]) != Some(id),
        entry_index_below(acc, id, n) is None ==> forall|k: int|
            0 <= k < n ==> folded_id(#[trigger] acc[k]) != Some(id),
    decreases n,
{
    if n > 0 {
        lemma_entry_index_below_bounds(acc, id, n - 1);
    }
}

proof fn lemma_entry_index_below_stable(acc: Seq<FoldedView>, id: Seq<char>, n: int, m: int)
    requires
        n <= m,
        entry_index_below(acc, id, n) is Some,
    ensures
        entry_index_below(acc, id, m) == entry_index_below(acc, id, n),
    decreases m - n,
{
    if n < m {
        lemma_entry_index_below_stable(acc, id, n, m - 1);
    }
}

/// Folds the history log (newest first) into History Entries, newest entry
/// first: one entry per entry id, skipping baseline records and records
/// without an id, each carrying the record that first recorded it and the
/// undoable trailer of its latest record.
pub fn fold_history(records: &Vec<HistoryRecord>) -> (out: Vec<FoldedEntry>)
    ensures
        folded_views(out@) == folded_entries(record_views(records@)),
{
    let ghost rv = record_views(records@);
    let ghost rev = rv.reverse();
    let mut acc: Vec<FoldedEntry> = Vec::new();
    let mut j: usize = records.len();
    while j > 0
        invariant
            j <= records.len(),
            rv == record_views(records@),
            rev == rv.reverse(),
            folded_views(acc@) == fold_oldest_first(rev.take(records.len() - j)),
        decreases j,
    {
        j -= 1;
        let r = &records[j];
        proof {
            let n = records.len() - j;
            assert(rev.take(n).drop_last() =~= rev.take(n - 1));
            assert(rev.take(n).last() == rv[j as int]);
            assert(rv[j as int] == r@);
        }
        let ghost before = folded_views(acc@);
        match &r.trailers.entry_id {
            None => {},
            Some(id) => {
                let is_base = match &r.trailers.kind {
                    Some(k) => {
                        let kc = chars_of(k.as_str());
                        chars_eq_str(kc.as_slice(), "baseline")
                    },
                    None => false,
                };
                if !is_base {
                    match find_entry(&acc, id) {
                        Some(i) => {
                            let rec = copy_record(&acc[i].record);
                            let upd = FoldedEntry {
                                record: rec,
                                latest_undoable: clone_opt(&r.trailers.undoable),
                            };
                            acc.set(i, upd);
                            assert(folded_views(acc@) =~= before.update(
                                i as int,
                                FoldedView {
                                    record: before[i as int].record,
                                    latest_undoable: r@.trailers.undoable,
                                },
                            ));
                        },
                        None => {
                            let e = FoldedEntry {
                                record: copy_record(r),
                                latest_undoable: clone_opt(&r.trailers.undoable),
                            };
                            acc.push(e);
                            assert(folded_views(acc@) =~= before.push(
                                FoldedView { record: r@, latest_undoable: r@.trailers.undoable },
                            ));
                        },
                    }
                }
            },
        }
    }
    assert(rev.take(records.len() as int) =~= rev);
    let mut out: Vec<FoldedEntry> = Vec::new();
    let ghost av = folded_views(acc@);
    let mut k: usize = acc.len();
    while k > 0
        invariant
            k <= acc.len(),
            av == folded_views(acc@),
            folded_views(out@) == av.reverse().take(acc.len() - k),
        decreases k,
    {
        k -= 1;
        let e = FoldedEntry {
            record: copy_record(&acc[k].record),
            latest_undoable: clone_opt(&acc[k].latest_undoable),
        };
        let ghost before = folded_views(out@);
        out.push(e);
        assert(e@ == av[k as int]);
        assert(folded_views(out@) =~= before.push(av[k as int]));
        assert(av.reverse()[acc.len() - k - 1] == av[k as int]);
        assert(av.reverse().take(acc.len() - k) =~= av.reverse().take(acc.len() - k - 1).push(
            av[k as int],
        ));
    }
    assert(av.reverse().take(acc.len() as int) =~= av.reverse());
    out
}

/// The text of an optional trailer, empty when absent.
pub open spec fn text_or_empty(o: Option<Seq<char>>) -> Seq<char> {
    match o {
        Some(s) => s,
        None => Seq::empty(),
    }
}

/// The text of an optional string, empty when absent.
pub fn string_or_empty(o: &Option<String>) -> (out: String)
    ensures
        out@ == text_or_empty(opt_view(*o)),
{
    match o {
        Some(s) => s.clone(),
        None => String::new(),
    }
}

/// The file list of an `Afs-Files` trailer: empty when absent or empty,
/// otherwise the names separated by `, `.
pub open spec fn parse_files(field: Option<Seq<char>>) -> Seq<Seq<char>> {
    match field {
        Some(f) => if f.len() == 0 {
            Seq::empty()
        } else {
            split(f, ", "@)
        },
        None => Seq::empty(),
    }
}

/// The file list of an `Afs-Files` trailer.
pub fn files_of_field(field: &Option<String>) -> (out: Vec<String>)
    ensures
        string_views(out@) == parse_files(opt_view(*field)),
{
    match field {
        Some(f) => {
            let fc = chars_of(f.as_str());
            if fc.len() == 0 {
                let out: Vec<String> = Vec::new();
                assert(string_views(out@) =~= Seq::<Seq<char>>::empty());
                out
            } else {
                let sep = chars_of(", ");
                proof {
                    reveal_strlit(", ");
                }
                let parts = split_exec(fc.as_slice(), sep.as_slice());
                strings_of(&parts)
            }
        },
        None => {
            let out: Vec<String> = Vec::new();
            assert(string_views(out@) =~= Seq::<Seq<char>>::empty());
            out
        },
    }
}

/// One History Entry as the history listing presents it.
pub struct HistoryEntry {
    pub id: String,
    pub kind: String,
    pub summary: String,
    pub files: Vec<String>,
    pub undoable: bool,
    pub timestamp_secs: u64,
    pub origin: String,
}

/// The plain contents of a [`HistoryEntry`].
pub struct HistoryEntryView {
    pub id: Seq<char>,
    pub kind: Seq<char>,
    pub summary: Seq<char>,
    pub files: Seq<Seq<char>>,
    pub undoable: bool,
    pub timestamp_secs: u64,
    pub origin: Seq<char>,
}

impl View for HistoryEntry {
    type V = HistoryEntryView;

    open spec fn view(&self) -> HistoryEntryView {
        HistoryEntryView {
            id: self.id@,
            kind: self.kind@,
            summary: self.summary@,
            files: string_views(self.files@),
            undoable: self.undoable,
            timestamp_secs: self.timestamp_secs,
            origin: self.origin@,
        }
    }
}

/// The latest record of the entry marks it undoable.
pub open spec fn is_undoable(f: FoldedView) -> bool {
    f.latest_undoable == Some("yes"@)
}

/// The History Entry of a folded entry.
pub open spec fn entry_view(f: FoldedView) -> HistoryEntryView {
    HistoryEntryView {
        id: text_or_empty(f.record.trailers.entry_id),
        kind: text_or_empty(f.record.trailers.kind),
        summary: text_or_empty(f.record.trailers.summary),
        files: parse_files(f.record.trailers.files),
        undoable: is_undoable(f),
        timestamp_secs: f.record.timestamp_secs,
        origin: text_or_empty(f.record.trailers.origin),
    }
}

/// The entry's latest undoable trailer is `yes`.
pub fn folded_is_undoable(f: &FoldedEntry) -> (r: bool)
    ensures
        r == is_undoable(f@),
{
    match &f.latest_undoable {
        Some(u) => {
            let uc = chars_of(u.as_str());
            chars_eq_str(uc.as_slice(), "yes")
        },
        None => false,
    }
}

/// The History Entries of the history log (newest first), newest entry
/// first; the install baseline is not an entry.
pub fn history_entries(records: &Vec<HistoryRecord>) -> (out: Vec<HistoryEntry>)
    ensures
        out@.len() == folded_entries(record_views(records@)).len(),
        forall|i: int|
            0 <= i < out@.len() ==> #[trigger] out@[i]@ == entry_view(
                folded_entries(record_views(records@))[i],
            ),
{
    let folded = fold_history(records);
    let ghost fv = folded_views(folded@);
    let mut out: Vec<HistoryEntry> = Vec::new();
    let mut i: usize = 0;
    while i < folded.len()
        invariant
            i <= folded.len(),
            fv == folded_views(folded@),
            fv == folded_entries(record_views(records@)),
            out@.len() == i,
            forall|k: int| 0 <= k < i ==> #[trigger] out@[k]@ == entry_view(fv[k]),
        decreases folded.len() - i,
    {
        let f = &folded[i];
        assert(fv[i as int] == f@);
        let e = HistoryEntry {
            id: string_or_empty(&f.record.trailers.entry_id),
            kind: string_or_empty(&f.record.trailers.kind),
            summary: string_or_empty(&f.record.trailers.summary),
            files: files_of_field(&f.record.trailers.files),
            undoable: folded_is_undoable(f),
            timestamp_secs: f.record.timestamp_secs,
            origin: string_or_empty(&f.record.trailers.origin),
        };
        out.push(e);
        i += 1;
    }
    out
}

/// The file count of an entry's `Afs-File-Count` trailer, 0 when absent or
/// not a number.
pub open spec fn file_count_of(f: FoldedView) -> usize {
    match f.record.trailers.file_count {
        Some(v) => match parse_usize(v) {
            Some(n) => n,
            None => 0,
        },
        None => 0,
    }
}

/// The undoable text of the listing: the latest trailer, `no` when absent.
pub open spec fn listed_undoable(f: FoldedView) -> Seq<char> {
    match f.latest_undoable {
        Some(u) => u,
        None => "no"@,
    }
}

/// One line of the history listing.
pub open spec fn history_line(f: FoldedView) -> Seq<char> {
    "entry="@ + text_or_empty(f.record.trailers.entry_id) + " timestamp="@ + decimal(
        f.record.timestamp_secs as nat,
    ) + " type="@ + text_or_empty(f.record.trailers.kind) + " summary="@ + text_or_empty(
        f.record.trailers.summary,
    ) + " files="@ + decimal(file_count_of(f) as nat) + " undoable="@ + listed_undoable(f)
        + " origin="@ + text_or_empty(f.record.trailers.origin) + seq!['\n']
}

/// The lines of the given entries, in order.
pub open spec fn history_lines(es: Seq<FoldedView>) -> Seq<char>
    decreases es.len(),
{
    if es.len() == 0 {
        Seq::empty()
    } else {
        history_lines(es.drop_last()) + history_line(es.last())
    }
}

/// The history listing of a log: newest entry first, one line per entry.
pub open spec fn history_listing(records: Seq<RecordView>) -> Seq<char> {
    let es = folded_entries(records);
    if es.len() == 0 {
        "no history entries\n"@
    } else {
        history_lines(es)
    }
}

fn push_opt(out: &mut Vec<char>, o: &Option<String>)
    ensures
        final(out)@ == old(out)@ + text_or_empty(opt_view(*o)),
{
    match o {
        Some(s) => extend_str(out, s.as_str()),
        None => {
            assert(old(out)@ + Seq::<char>::empty() =~= old(out)@);
        },
    }
}

fn push_history_line(out: &mut Vec<char>, f: &FoldedEntry)
    ensures
        final(out)@ == old(out)@ + history_line(f@),
{
    let ghost fv = f@;
    let ghost t = fv.record.trailers;
    let ghost o = old(out)@;
    extend_str(out, "entry=");
    push_opt(out, &f.record.trailers.entry_id);
    extend_str(out, " timestamp=");
    push_decimal(out, f.record.timestamp_secs as u128);
    let ghost p1 = "entry="@ + text_or_empty(t.entry_id) + " timestamp="@ + decimal(
        fv.record.timestamp_secs as nat,
    );
    assert(out@ =~= o + p1);
    extend_str(out, " type=");
    push_opt(out, &f.record.trailers.kind);
    extend_str(out, " summary=");
    push_opt(out, &f.record.trailers.summary);
    let ghost p2 = p1 + " type="@ + text_or_empty(t.kind) + " summary="@ + text_or_empty(
        t.summary,
    );
    assert(out@ =~= o + p2);
    extend_str(out, " files=");
    let count: usize = match &f.record.trailers.file_count {
        Some(v) => {
            let vc = chars_of(v.as_str());
            match parse_usize_exec(vc.as_slice()) {
                Some(n) => n,
                None => 0,
            }
        },
        None => 0,
    };
    assert(count == file_count_of(fv));
    push_decimal(out, count as u128);
    let ghost p3 = p2 + " files="@ + decimal(file_count_of(fv) as nat);
    assert(out@ =~= o + p3);
    extend_str(out, " undoable=");
    match &f.latest_undoable {
        Some(u) => extend_str(out, u.as_str()),
        None => extend_str(out, "no"),
    }
    let ghost p4 = p3 + " undoable="@ + listed_undoable(fv);
    assert(out@ =~= o + p4);
    extend_str(out, " origin=");
    push_opt(out, &f.record.trailers.origin);
    out.push('\n');
    assert(out@ =~= o + (p4 + " origin="@ + text_or_empty(t.origin) + seq!['\n']));
    assert(history_line(fv) =~= p4 + " origin="@ + text_or_empty(t.origin) + seq!['\n']);
}

/// The history listing: `no history entries` when there is none, otherwise
/// one line per entry, newest first:
/// `entry=<id> timestamp=<secs> type=<kind> summary=<summary> files=<n> undoable=<yes|no> origin=<origin>`.
pub fn format_history(records: &Vec<HistoryRecord>) -> (out: String)
    ensures
        out@ == history_listing(record_views(records@)),
{
    let folded = fold_history(records);
    if folded.len() == 0 {
        return "no history entries\n".to_string();
    }
    let ghost fv = folded_views(folded@);
    let mut out: Vec<char> = Vec::new();
    let mut i: usize = 0;
    while i < folded.len()
        invariant
            i <= folded.len(),
            fv == folded_views(folded@),
            out@ == history_lines(fv.take(i as int)),
        decreases folded.len() - i,
    {
        let ghost before = out@;
        push_history_line(&mut out, &folded[i]);
        assert(fv.take(i + 1).drop_last() =~= fv.take(i as int));
        assert(fv.take(i + 1).last() == folded@[i as int]@);
        i += 1;
    }
    assert(fv.take(folded.len() as int) =~= fv);
    string_of(out.as_slice())
}

// ---------------------------------------------------------------------------
// Latest-entry undo.
// ---------------------------------------------------------------------------

/// The first (newest) of the first `n` entries that is undoable.
pub open spec fn newest_undoable_below(es: Seq<FoldedView>, n: int) -> Option<int>
    decreases n,
{
    if n <= 0 {
        None
    } else {
        match newest_undoable_below(es, n - 1) {
            Some(i) => Some(i),
            None => if is_undoable(es[n - 1]) {
                Some(n - 1)
            } else {
                None
            },
        }
    }
}

/// The position of the newest undoable entry.
pub open spec fn newest_undoable(es: Seq<FoldedView>) -> Option<int> {
    newest_undoable_below(es, es.len() as int)
}

/// What an undo reverses: the newest undoable entry, and the commit that
/// first recorded it (whose parent holds the content to restore).
pub struct UndoPlan {
    pub entry_id: String,
    pub kind: String,
    pub summary: String,
    pub files: Vec<String>,
    pub representative_commit: String,
}

/// The plain contents of an [`UndoPlan`].
pub struct UndoPlanView {
    pub entry_id: Seq<char>,
    pub kind: Seq<char>,
    pub summary: Seq<char>,
    pub files: Seq<Seq<char>>,
    pub representative_commit: Seq<char>,
}

impl View for UndoPlan {
    type V = UndoPlanView;

    open spec fn view(&self) -> UndoPlanView {
        UndoPlanView {
            entry_id: self.entry_id@,
            kind: self.kind@,
            summary: self.summary@,
            files: string_views(self.files@),
            representative_commit: self.representative_commit@,
        }
    }
}

/// Why an undo is refused.
pub enum UndoRefusal {
    /// No entry is undoable.
    NoUndoableEntries,
    /// The requested entry is not the newest undoable entry, named here.
    NotLatest(String),
    /// The newest undoable entry is an External Change (or a startup
    /// reconciliation) and the user did not confirm.
    ConfirmationRequired,
}

/// The plain contents of an [`UndoRefusal`].
pub enum UndoRefusalView {
    NoUndoableEntries,
    NotLatest(Seq<char>),
    ConfirmationRequired,
}

impl View for UndoRefusal {
    type V = UndoRefusalView;

    open spec fn view(&self) -> UndoRefusalView {
        match self {
            UndoRefusal::NoUndoableEntries => UndoRefusalView::NoUndoableEntries,
            UndoRefusal::NotLatest(id) => UndoRefusalView::NotLatest(id@),
            UndoRefusal::ConfirmationRequired => UndoRefusalView::ConfirmationRequired,
        }
    }
}

/// The plan for undoing the entry `f`.
pub open spec fn plan_of(f: FoldedView) -> UndoPlanView {
    UndoPlanView {
        entry_id: text_or_empty(f.record.trailers.entry_id),
        kind: text_or_empty(f.record.trailers.kind),
        summary: text_or_empty(f.record.trailers.summary),
        files: parse_files(f.record.trailers.files),
        representative_commit: f.record.commit,
    }
}

/// Undoing an entry of this kind needs the user's confirmation.
pub open spec fn needs_confirmation(kind: Seq<char>) -> bool {
    kind == "external"@ || kind == "reconciliation"@
}

/// The outcome of asking to undo `requested`: only the newest undoable
/// entry can be undone, and an External Change or reconciliation only with
/// confirmation.
pub open spec fn undo_decision(
    records: Seq<RecordView>,
    requested: Seq<char>,
    confirmed: bool,
) -> Result<UndoPlanView, UndoRefusalView> {
    let es = folded_entries(records);
    match newest_undoable(es) {
        None => Err(UndoRefusalView::NoUndoableEntries),
        Some(i) => {
            let plan = plan_of(es[i]);
            if plan.entry_id != requested {
                Err(UndoRefusalView::NotLatest(plan.entry_id))
            } else if needs_confirmation(plan.kind) && !confirmed {
                Err(UndoRefusalView::ConfirmationRequired)
            } else {
                Ok(plan)
            }
        },
    }
}

/// The view of an undo outcome.
pub open spec fn undo_result_view(r: Result<UndoPlan, UndoRefusal>) -> Result<
    UndoPlanView,
    UndoRefusalView,
> {
    match r {
        Ok(p) => Ok(p@),
        Err(e) => Err(e@),
    }
}

/// Decides whether `requested` may be undone: it must be the newest
/// undoable History Entry, and an External Change or reconciliation also
/// needs `confirmed`.  On success the plan names the entry and the commit
/// that first recorded it.
pub fn plan_undo(records: &Vec<HistoryRecord>, requested: &str, confirmed: bool) -> (r: Result<
    UndoPlan,
    UndoRefusal,
>)
    ensures
        undo_result_view(r) == undo_decision(record_views(records@), requested@, confirmed),
{
    let folded = fold_history(records);
    let ghost es = folded_views(folded@);
    let mut i: usize = 0;
    while i < folded.len()
        invariant
            i <= folded.len(),
            es == folded_views(folded@),
            es == folded_entries(record_views(records@)),
            newest_undoable_below(es, i as int) is None,
        decreases folded.len() - i,
    {
        assert(es[i as int] == folded@[i as int]@);
        if folded_is_undoable(&folded[i]) {
            proof {
                assert(newest_undoable_below(es, i + 1) == Some(i as int));
                lemma_newest_undoable_stable(es, i + 1, es.len() as int);
            }
            let f = &folded[i];
            let plan = UndoPlan {
                entry_id: string_or_empty(&f.record.trailers.entry_id),
                kind: string_or_empty(&f.record.trailers.kind),
                summary: string_or_empty(&f.record.trailers.summary),
                files: files_of_field(&f.record.trailers.files),
                representative_commit: f.record.commit.clone(),
            };
            let idc = chars_of(plan.entry_id.as_str());
            let rc = chars_of(requested);
            if !chars_eq(idc.as_slice(), rc.as_slice()) {
                return Err(UndoRefusal::NotLatest(plan.entry_id));
            }
            let kc = chars_of(plan.kind.as_str());
            if (chars_eq_str(kc.as_slice(), "external") || chars_eq_str(
                kc.as_slice(),
                "reconciliation",
            )) && !confirmed {
                return Err(UndoRefusal::ConfirmationRequired);
            }
            return Ok(plan);
        }
        i += 1;
    }
    Err(UndoRefusal::NoUndoableEntries)
}

proof fn lemma_newest_undoable_stable(es: Seq<FoldedView>, n: int, m: int)
    requires
        n <= m,
        newest_undoable_below(es, n) is Some,
    ensures
        newest_undoable_below(es, m) == newest_undoable_below(es, n),
    decreases m - n,
{
    if n < m {
        lemma_newest_undoable_stable(es, n, m - 1);
    }
}

impl UndoRefusal {
    /// The user-facing reason.
    pub open spec fn message_text(&self) -> Seq<char> {
        match self {
            UndoRefusal::NoUndoableEntries => "no undoable history entries"@,
            UndoRefusal::NotLatest(id) => "only the latest undoable history entry can be undone: "@
                + id@,
            UndoRefusal::ConfirmationRequired =>
                "undoing an External Change requires --yes in scripted use or interactive confirmation"@,
        }
    }

    /// The user-facing reason.
    pub fn message(&self) -> (out: String)
        ensures
            out@ == self.message_text(),
    {
        match self {
            UndoRefusal::NoUndoableEntries => "no undoable history entries".to_string(),
            UndoRefusal::NotLatest(id) => {
                let mut v = chars_of("only the latest undoable history entry can be undone: ");
                extend_str(&mut v, id.as_str());
                string_of(v.as_slice())
            },
            UndoRefusal::ConfirmationRequired =>
                "undoing an External Change requires --yes in scripted use or interactive confirmation".to_string(),
        }
    }
}

/// The commit that records the undo itself.
pub open spec fn undo_entry_request(plan: UndoPlanView, undo_entry_id: Seq<char>) -> CommitRequestView {
    CommitRequestView {
        entry_id: undo_entry_id,
        kind: "undo"@,
        summary: sanitize("Undo "@ + plan.entry_id + ": "@ + plan.summary),
        files: plan.files,
        undoable: false,
        undoes: Some(plan.entry_id),
        origin: None,
    }
}

/// The commit that marks the undone entry as no longer undoable.
pub open spec fn undone_marker_request(plan: UndoPlanView) -> CommitRequestView {
    CommitRequestView {
        entry_id: plan.entry_id,
        kind: plan.kind,
        summary: plan.summary,
        files: plan.files,
        undoable: false,
        undoes: None,
        origin: None,
    }
}

/// The two commits made after restoring the content of an undone entry:
/// first an `undo` entry, then a record of the undone entry itself that is
/// no longer undoable.
pub fn undo_commits(plan: &UndoPlan, undo_entry_id: &str) -> (out: (CommitRequest, CommitRequest))
    ensures
        out.0@ == undo_entry_request(plan@, undo_entry_id@),
        out.1@ == undone_marker_request(plan@),
{
    let mut s = chars_of("Undo ");
    extend_str(&mut s, plan.entry_id.as_str());
    extend_str(&mut s, ": ");
    extend_str(&mut s, plan.summary.as_str());
    let mut summary: Vec<char> = Vec::new();
    push_sanitized(&mut summary, s.as_slice());
    let undo = CommitRequest {
        entry_id: undo_entry_id.to_string(),
        kind: "undo".to_string(),
        summary: string_of(summary.as_slice()),
        files: clone_strings(&plan.files),
        undoable: false,
        undoes: Some(plan.entry_id.clone()),
        origin: None,
    };
    let marker = CommitRequest {
        entry_id: plan.entry_id.clone(),
        kind: plan.kind.clone(),
        summary: plan.summary.clone(),
        files: clone_strings(&plan.files),
        undoable: false,
        undoes: None,
        origin: None,
    };
    (undo, marker)
}

/// The reply to a successful undo.
pub open spec fn undo_response_text(plan: UndoPlanView) -> Seq<char> {
    "undid history entry "@ + plan.entry_id + "\nfiles="@ + decimal(plan.files.len()) + seq!['\n']
}

/// The reply to a successful undo: the entry and its number of files.
pub fn format_undo_response(plan: &UndoPlan) -> (out: String)
    ensures
        out@ == undo_response_text(plan@),
{
    let mut v = chars_of("undid history entry ");
    extend_str(&mut v, plan.entry_id.as_str());
    extend_str(&mut v, "\nfiles=");
    push_decimal(&mut v, plan.files.len() as u128);
    v.push('\n');
    string_of(v.as_slice())
}

// ---------------------------------------------------------------------------
// Recording changes.
// ---------------------------------------------------------------------------

/// The id of a new History Entry: `history-<pid>-<nanos>`.
pub fn history_entry_id(pid: u32, nanos: u128) -> (out: String)
    ensures
        out@ == "history-"@ + decimal(pid as nat) + seq!['-'] + decimal(nanos as nat),
{
    let mut v = chars_of("history-");
    push_decimal(&mut v, pid as u128);
    v.push('-');
    push_decimal(&mut v, nanos);
    string_of(v.as_slice())
}

/// The install baseline commit.
pub fn baseline_commit(entry_id: &str) -> (out: CommitRequest)
    ensures
        out@ == (CommitRequestView {
            entry_id: entry_id@,
            kind: "baseline"@,
            summary: "Install baseline"@,
            files: Seq::empty(),
            undoable: false,
            undoes: None,
            origin: None,
        }),
{
    let out = CommitRequest {
        entry_id: entry_id.to_string(),
        kind: "baseline".to_string(),
        summary: "Install baseline".to_string(),
        files: Vec::new(),
        undoable: false,
        undoes: None,
        origin: None,
    };
    assert(out@.files =~= Seq::<Seq<char>>::empty());
    out
}

/// The install baseline to record: a history that already has a commit
/// gets none, so a repeated baseline never commits.
pub fn baseline_for(history_has_commits: bool, entry_id: &str) -> (r: Option<CommitRequest>)
    ensures
        history_has_commits ==> r is None,
        !history_has_commits ==> (r matches Some(c) && c@ == (CommitRequestView {
            entry_id: entry_id@,
            kind: "baseline"@,
            summary: "Install baseline"@,
            files: Seq::empty(),
            undoable: false,
            undoes: None,
            origin: None,
        })),
{
    if history_has_commits {
        None
    } else {
        Some(baseline_commit(entry_id))
    }
}

/// The commit for a change to `changed` (sorted file names relative to the
/// managed directory): none when nothing changed, otherwise an undoable
/// entry of `kind` summarised with `summary_prefix`.
pub open spec fn change_request(
    entry_id: Seq<char>,
    kind: Seq<char>,
    summary_prefix: Seq<char>,
    changed: Seq<Seq<char>>,
) -> Option<CommitRequestView> {
    if changed.len() == 0 {
        None
    } else {
        Some(
            CommitRequestView {
                entry_id,
                kind,
                summary: history_summary_text(summary_prefix, changed),
                files: changed,
                undoable: true,
                undoes: None,
                origin: None,
            },
        )
    }
}

/// The commit for an Agent Change, External Change or startup
/// reconciliation: none when no file changed.
pub fn change_commit(entry_id: &str, kind: &str, summary_prefix: &str, changed: &Vec<String>) -> (out:
    Option<CommitRequest>)
    ensures
        match out {
            Some(r) => change_request(entry_id@, kind@, summary_prefix@, string_views(changed@))
                == Some(r@),
            None => change_request(entry_id@, kind@, summary_prefix@, string_views(changed@))
                is None,
        },
{
    if changed.len() == 0 {
        return None;
    }
    Some(
        CommitRequest {
            entry_id: entry_id.to_string(),
            kind: kind.to_string(),
            summary: history_summary(summary_prefix, changed.as_slice()),
            files: clone_strings(changed),
            undoable: true,
            undoes: None,
            origin: None,
        },
    )
}

/// The commit for an ownership split or merge: never undoable.
pub fn ownership_commit(entry_id: &str, summary: &str, changed: &Vec<String>) -> (out: CommitRequest)
    ensures
        out@ == (CommitRequestView {
            entry_id: entry_id@,
            kind: "ownership"@,
            summary: summary@,
            files: string_views(changed@),
            undoable: false,
            undoes: None,
            origin: None,
        }),
{
    CommitRequest {
        entry_id: entry_id.to_string(),
        kind: "ownership".to_string(),
        summary: summary.to_string(),
        files: clone_strings(changed),
        undoable: false,
        undoes: None,
        origin: None,
    }
}

/// The changed files that count as pending external changes: those that
/// are missing or were last modified at or before `cutoff` (`states[k]`
/// is what the filesystem says of `changed[k]`).
pub fn pending_external_files(changed: &Vec<String>, states: &Vec<ChangedFileState>, cutoff: i128) -> (out:
    Vec<String>)
    requires
        changed.len() == states.len(),
    ensures
        string_views(out@) == pending_spec(string_views(changed@), states@, cutoff),
{
    let mut out: Vec<String> = Vec::new();
    let mut i: usize = 0;
    while i < changed.len()
        invariant
            changed.len() == states.len(),
            i <= changed.len(),
            string_views(out@) == pending_spec(
                string_views(changed@).take(i as int),
                states@.take(i as int),
                cutoff,
            ),
        decreases changed.len() - i,
    {
        assert(string_views(changed@).take(i + 1).drop_last() =~= string_views(changed@).take(
            i as int,
        ));
        assert(states@.take(i + 1).drop_last() =~= states@.take(i as int));
        if changed_file_existed_before(&states[i], cutoff) {
            let ghost before = string_views(out@);
            out.push(changed[i].clone());
            assert(string_views(out@) =~= before.push(changed@[i as int]@));
        }
        i += 1;
    }
    assert(string_views(changed@).take(changed.len() as int) =~= string_views(changed@));
    assert(states@.take(changed.len() as int) =~= states@);
    out
}

/// What the filesystem says of a changed file when external changes are
/// collected.
pub enum ChangedFileState {
    /// The file no longer exists.
    Missing,
    /// Its metadata could not be read.
    Unreadable,
    /// Its modification time, in nanoseconds from the Unix epoch.
    Modified(i128),
    /// It has no modification time.
    NoModifiedTime,
}

/// A changed file is kept as a pending external change when it is missing
/// or was last modified at or before the cutoff.
pub open spec fn changed_before(state: ChangedFileState, cutoff: i128) -> bool {
    match state {
        ChangedFileState::Missing => true,
        ChangedFileState::Unreadable => false,
        ChangedFileState::Modified(t) => t <= cutoff,
        ChangedFileState::NoModifiedTime => false,
    }
}

/// Whether a changed file is kept as a pending external change.
pub fn changed_file_existed_before(state: &ChangedFileState, cutoff: i128) -> (r: bool)
    ensures
        r == changed_before(*state, cutoff),
{
    match state {
        ChangedFileState::Missing => true,
        ChangedFileState::Unreadable => false,
        ChangedFileState::Modified(t) => *t <= cutoff,
        ChangedFileState::NoModifiedTime => false,
    }
}

/// The changed files, in order, that were missing or last modified at or
/// before the cutoff.
pub open spec fn pending_spec(
    changed: Seq<Seq<char>>,
    states: Seq<ChangedFileState>,
    cutoff: i128,
) -> Seq<Seq<char>>
    decreases changed.len(),
{
    if changed.len() == 0 || states.len() == 0 {
        Seq::empty()
    } else {
        let prev = pending_spec(changed.drop_last(), states.drop_last(), cutoff);
        if changed_before(states.last(), cutoff) {
            prev.push(changed.last())
        } else {
            prev
        }
    }
}

// ---------------------------------------------------------------------------
// Merging a removed child's history into its parent.
// ---------------------------------------------------------------------------

/// Some record of `rs` has entry id `id`.
pub open spec fn id_among(rs: Seq<RecordView>, id: Seq<char>) -> bool
    decreases rs.len(),
{
    rs.len() > 0 && (rs.last().trailers.entry_id == Some(id) || id_among(rs.drop_last(), id))
}

/// Each file path placed under `origin`.
pub open spec fn prefixed_files(origin: Seq<char>, files: Seq<Seq<char>>) -> Seq<Seq<char>> {
    files.map_values(|f: Seq<char>| prefixed_path(origin, f))
}

/// The parent's commit replaying one child record: the same entry id and
/// kind, the files and the summary's paths placed under the child's
/// origin, never undoable in the parent, and the origin chained.
pub open spec fn merged_request(r: RecordView, id: Seq<char>, origin: Seq<char>) -> CommitRequestView {
    let kind = text_or_empty(r.trailers.kind);
    let summary = text_or_empty(r.trailers.summary);
    let files = parse_files(r.trailers.files);
    let rewritten = prefixed_files(origin, files);
    CommitRequestView {
        entry_id: id,
        kind,
        summary: if kind == "ownership"@ {
            rewritten_ownership_summary(summary, origin)
        } else {
            rewritten_summary(summary, files, rewritten)
        },
        files: rewritten,
        undoable: false,
        undoes: None,
        origin: Some(chained_origin(origin, text_or_empty(r.trailers.origin))),
    }
}

/// The replay of child records given oldest first: one commit for the
/// first record of each entry id, baseline records skipped.
pub open spec fn merge_plan_oldest_first(rs: Seq<RecordView>, origin: Seq<char>) -> Seq<
    CommitRequestView,
>
    decreases rs.len(),
{
    if rs.len() == 0 {
        Seq::empty()
    } else {
        let prev = merge_plan_oldest_first(rs.drop_last(), origin);
        let r = rs.last();
        match r.trailers.entry_id {
            None => prev,
            Some(id) => if id_among(rs.drop_last(), id) || is_baseline(r) {
                prev
            } else {
                prev.push(merged_request(r, id, origin))
            },
        }
    }
}

/// The commits that replay a child's history log (newest first) into the
/// parent, in the order they are to be made.
pub open spec fn merge_plan(child_newest_first: Seq<RecordView>, origin: Seq<char>) -> Seq<
    CommitRequestView,
> {
    merge_plan_oldest_first(child_newest_first.reverse(), origin)
}

/// The views of a sequence of commit requests.
pub open spec fn request_views(v: Seq<CommitRequest>) -> Seq<CommitRequestView> {
    Seq::new(v.len(), |i: int| v[i]@)
}

fn contains_string(v: &Vec<String>, s: &String) -> (r: bool)
    ensures
        r == string_views(v@).contains(s@),
{
    let sc = chars_of(s.as_str());
    let mut i: usize = 0;
    while i < v.len()
        invariant
            i <= v.len(),
            sc@ == s@,
            forall|k: int| 0 <= k < i ==> v@[k]@ != s@,
        decreases v.len() - i,
    {
        let vc = chars_of(v[i].as_str());
        if chars_eq(vc.as_slice(), sc.as_slice()) {
            assert(string_views(v@)[i as int] == s@);
            return true;
        }
        i += 1;
    }
    proof {
        assert forall|k: int| 0 <= k < string_views(v@).len() implies string_views(v@)[k] != s@ by {
            assert(string_views(v@)[k] == v@[k]@);
        }
    }
    false
}

/// The parent's commit replaying the child record `r` whose id is `id`.
fn merged_commit(r: &HistoryRecord, id: &String, child_origin: &str) -> (out: CommitRequest)
    ensures
        out@ == merged_request(r@, id@, child_origin@),
{
    let kind = string_or_empty(&r.trailers.kind);
    let summary = string_or_empty(&r.trailers.summary);
    let files = files_of_field(&r.trailers.files);
    let mut rewritten: Vec<String> = Vec::new();
    let mut i: usize = 0;
    while i < files.len()
        invariant
            i <= files.len(),
            string_views(rewritten@) == prefixed_files(child_origin@, string_views(files@)).take(
                i as int,
            ),
        decreases files.len() - i,
    {
        let p = prefix_child_path(child_origin, files[i].as_str());
        let ghost before = string_views(rewritten@);
        let ghost pv = p@;
        rewritten.push(p);
        assert(string_views(rewritten@) =~= before.push(pv));
        assert(string_views(files@)[i as int] == files@[i as int]@);
        assert(prefixed_files(child_origin@, string_views(files@)).take(i + 1)
            =~= prefixed_files(child_origin@, string_views(files@)).take(i as int).push(pv));
        i += 1;
    }
    assert(prefixed_files(child_origin@, string_views(files@)).take(files.len() as int)
        =~= prefixed_files(child_origin@, string_views(files@)));
    let kc = chars_of(kind.as_str());
    let new_summary = if chars_eq_str(kc.as_slice(), "ownership") {
        rewrite_ownership_summary(summary.as_str(), child_origin)
    } else {
        rewrite_summary_paths(summary.as_str(), files.as_slice(), rewritten.as_slice())
    };
    let existing_origin = string_or_empty(&r.trailers.origin);
    let chained = chain_origins(child_origin, existing_origin.as_str());
    CommitRequest {
        entry_id: id.clone(),
        kind,
        summary: new_summary,
        files: rewritten,
        undoable: false,
        undoes: None,
        origin: Some(chained),
    }
}

/// Plans the replay of a removed child's history log (newest first) into
/// its parent: oldest first, one commit per entry id (its first record),
/// skipping baseline records, with paths and origin rewritten under
/// `child_origin`; every replayed entry is non-undoable in the parent.
pub fn plan_history_merge(child_records: &Vec<HistoryRecord>, child_origin: &str) -> (out: Vec<
    CommitRequest,
>)
    ensures
        request_views(out@) == merge_plan(record_views(child_records@), child_origin@),
{
    let ghost rv = record_views(child_records@);
    let ghost rev = rv.reverse();
    let mut out: Vec<CommitRequest> = Vec::new();
    let mut seen: Vec<String> = Vec::new();
    let mut j: usize = child_records.len();
    while j > 0
        invariant
            j <= child_records.len(),
            rv == record_views(child_records@),
            rev == rv.reverse(),
            request_views(out@) == merge_plan_oldest_first(
                rev.take(child_records.len() - j),
                child_origin@,
            ),
            forall|id: Seq<char>|
                #![trigger string_views(seen@).contains(id)]
                string_views(seen@).contains(id) <==> id_among(
                    rev.take(child_records.len() - j),
                    id,
                ),
        decreases j,
    {
        j -= 1;
        let r = &child_records[j];
        let ghost n = child_records.len() - j;
        proof {
            assert(rev.take(n).drop_last() =~= rev.take(n - 1));
            assert(rev.take(n).last() == rv[j as int]);
            assert(rv[j as int] == r@);
        }
        match &r.trailers.entry_id {
            None => {
                proof {
                    assert forall|id: Seq<char>|
                        #![trigger string_views(seen@).contains(id)]
                        string_views(seen@).contains(id) <==> id_among(rev.take(n), id) by {
                        assert(id_among(rev.take(n), id) == (rev.take(n).last().trailers.entry_id
                            == Some(id) || id_among(rev.take(n - 1), id)));
                    }
                }
            },
            Some(id) => {
                let already = contains_string(&seen, id);
                let ghost seen_before = string_views(seen@);
                seen.push(id.clone());
                proof {
                    assert(string_views(seen@) =~= seen_before.push(id@));
                    assert forall|x: Seq<char>|
                        #![trigger string_views(seen@).contains(x)]
                        string_views(seen@).contains(x) <==> id_among(rev.take(n), x) by {
                        assert(id_among(rev.take(n), x) == (rev.take(n).last().trailers.entry_id
                            == Some(x) || id_among(rev.take(n - 1), x)));
                        if string_views(seen@).contains(x) && x != id@ {
                            let k = choose|k: int|
                                0 <= k < string_views(seen@).len() && string_views(seen@)[k]
                                    == x;
                            assert(seen_before[k] == x);
                        }
                        if seen_before.contains(x) {
                            let k = choose|k: int| 0 <= k < seen_before.len() && seen_before[k] == x;
                            assert(string_views(seen@)[k] == x);
                        }
                        if x == id@ {
                            assert(string_views(seen@)[seen_before.len() as int] == x);
                        }
                    }
                }
                if !already {
                    let is_base = match &r.trailers.kind {
                        Some(k) => {
                            let kc = chars_of(k.as_str());
                            chars_eq_str(kc.as_slice(), "baseline")
                        },
                        None => false,
                    };
                    if !is_base {
                        let c = merged_commit(r, id, child_origin);
                        let ghost before = request_views(out@);
                        out.push(c);
                        assert(request_views(out@) =~= before.push(
                            merged_request(r@, id@, child_origin@),
                        ));
                    }
                }
            },
        }
    }
    assert(rev.take(child_records.len() as int) =~= rev);
    out
}

/// Every commit that replays child history into the parent is
/// non-undoable there and records the child's origin.
pub proof fn law_merged_entries_not_undoable(child: Seq<RecordView>, origin: Seq<char>)
    ensures
        forall|i: int|
            0 <= i < merge_plan(child, origin).len() ==> !(#[trigger] merge_plan(child, origin)[i]).undoable
                && merge_plan(child, origin)[i].origin is Some,
{
    lemma_merge_plan_props(child.reverse(), origin);
}

proof fn lemma_merge_plan_props(rs: Seq<RecordView>, origin: Seq<char>)
    ensures
        forall|i: int|
            0 <= i < merge_plan_oldest_first(rs, origin).len() ==> !(#[trigger] merge_plan_oldest_first(
                rs,
                origin,
            )[i]).undoable && merge_plan_oldest_first(rs, origin)[i].origin is Some,
    decreases rs.len(),
{
    if rs.len() > 0 {
        lemma_merge_plan_props(rs.drop_last(), origin);
    }
}

// ---------------------------------------------------------------------------
// Reading back what was written.
// ---------------------------------------------------------------------------

/// A line without newline or carriage return characters.
pub open spec fn is_clean_line(l: Seq<char>) -> bool {
    forall|i: int| 0 <= i < l.len() ==> l[i] != '\n' && l[i] != '\r'
}

/// A line without a newline that does not end with a carriage return:
/// `str::lines` reads it back unchanged.
pub open spec fn is_line(l: Seq<char>) -> bool {
    (forall|i: int| 0 <= i < l.len() ==> l[i] != '\n') && (l.len() == 0 || l.last() != '\r')
}

proof fn lemma_split_text_of_lines(ls: Seq<Seq<char>>)
    requires
        forall|k: int| 0 <= k < ls.len() ==> is_line(#[trigger] ls[k]),
    ensures
        split(text_of_lines(ls), seq!['\n']) == ls.push(Seq::<char>::empty()),
    decreases ls.len(),
{
    if ls.len() == 0 {
        let e = Seq::<char>::empty();
        assert(text_of_lines(ls) == e);
        assert(find_from(e, seq!['\n'], 0) is None);
        assert(split_from(e, seq!['\n'], 0) =~= seq![e.subrange(0, 0)]);
        assert(e.subrange(0, 0) =~= e);
        assert(ls.push(e) =~= seq![e]);
    } else {
        let rest = ls.drop_first();
        assert forall|k: int| 0 <= k < rest.len() implies is_line(#[trigger] rest[k]) by {
            assert(rest[k] == ls[k + 1]);
        }
        lemma_split_text_of_lines(rest);
        assert(is_line(ls[0]));
        lemma_split_cons(ls[0], '\n', text_of_lines(rest));
        assert(seq![ls[0]] + rest.push(Seq::<char>::empty()) =~= ls.push(Seq::<char>::empty()));
    }
}

proof fn lemma_text_of_lines_last(ls: Seq<Seq<char>>)
    requires
        ls.len() > 0,
    ensures
        text_of_lines(ls).len() > 0,
        text_of_lines(ls).last() == '\n',
    decreases ls.len(),
{
    if ls.len() > 1 {
        lemma_text_of_lines_last(ls.drop_first());
    } else {
        assert(ls.drop_first().len() == 0);
        assert(text_of_lines(ls.drop_first()) == Seq::<char>::empty());
    }
}

/// Lines written one per line read back as the same lines.
pub proof fn lemma_lines_of_text(ls: Seq<Seq<char>>)
    requires
        forall|k: int| 0 <= k < ls.len() ==> is_line(#[trigger] ls[k]),
    ensures
        lines(text_of_lines(ls)) == ls,
{
    lemma_split_text_of_lines(ls);
    let t = text_of_lines(ls);
    if ls.len() == 0 {
        assert(t == Seq::<char>::empty());
    } else {
        lemma_text_of_lines_last(ls);
        assert(ls.push(Seq::<char>::empty()).drop_last() =~= ls);
        assert forall|k: int| 0 <= k < ls.len() implies strip_cr(ls[k]) == ls[k] by {
            assert(is_line(ls[k]));
        }
        assert(ls.map_values(|l: Seq<char>| strip_cr(l)) =~= ls);
    }
}

/// A sanitized field holds no tab, newline or carriage return, so it fits
/// on one trailer line.
pub proof fn law_sanitized_field_is_one_line(s: Seq<char>)
    ensures
        is_clean_line(sanitize(s)),
{
}

proof fn lemma_decimal_digits(n: nat)
    ensures
        forall|i: int| 0 <= i < decimal(n).len() ==> is_digit(#[trigger] decimal(n)[i]),
    decreases n,
{
    if n >= 10 {
        lemma_decimal_digits(n / 10);
        let d = decimal(n / 10);
        assert forall|i: int| 0 <= i < decimal(n).len() implies is_digit(#[trigger] decimal(n)[i]) by {
            if i < d.len() {
                assert(decimal(n)[i] == d[i]);
            }
        }
    }
}

/// A trailer key the history logic reads: no `:` and an `Afs-` prefix.
pub open spec fn is_plain_key(key: Seq<char>) -> bool {
    starts_with(key, "Afs-"@) && forall|i: int| 0 <= i < key.len() ==> key[i] != ':'
}

/// Reading the trailer line `<key>: <value>` sets the trailer `key`.
pub proof fn lemma_apply_trailer_line(t: TrailersView, key: Seq<char>, value: Seq<char>)
    requires
        is_plain_key(key),
    ensures
        apply_trailer_line(t, trailer_line(key, value)) == set_trailer(t, key, value),
{
    reveal_strlit(": ");
    let s = trailer_line(key, value);
    let pat = ": "@;
    assert(s.subrange(key.len() as int, key.len() as int + 2) =~= pat);
    assert(matches_at(s, pat, key.len() as int));
    assert forall|k: int| 0 <= k < key.len() implies !matches_at(s, pat, k) by {
        if matches_at(s, pat, k) {
            assert(s.subrange(k, k + 2)[0] == s[k]);
            assert(s[k] == key[k]);
        }
    }
    lemma_find_from_first(s, pat, 0, key.len() as int);
    assert(s.take(key.len() as int) =~= key);
    assert(s.skip(key.len() as int + 2) =~= value);
}

proof fn lemma_trailers_push(ls: Seq<Seq<char>>, l: Seq<char>)
    ensures
        trailers_of_lines(ls.push(l)) == apply_trailer_line(trailers_of_lines(ls), l),
{
    assert(ls.push(l).drop_last() =~= ls);
}

proof fn lemma_keys()
    ensures
        is_plain_key("Afs-Entry-Id"@),
        is_plain_key("Afs-Kind"@),
        is_plain_key("Afs-Summary"@),
        is_plain_key("Afs-Undoable"@),
        is_plain_key("Afs-File-Count"@),
        is_plain_key("Afs-Files"@),
        is_plain_key("Afs-Undoes"@),
        is_plain_key("Afs-Origin"@),
        "Afs-Entry-Id"@ != "Afs-Kind"@,
        "Afs-Entry-Id"@ != "Afs-Summary"@,
        "Afs-Entry-Id"@ != "Afs-Undoable"@,
        "Afs-Entry-Id"@ != "Afs-File-Count"@,
        "Afs-Entry-Id"@ != "Afs-Files"@,
        "Afs-Entry-Id"@ != "Afs-Undoes"@,
        "Afs-Entry-Id"@ != "Afs-Origin"@,
        "Afs-Kind"@ != "Afs-Summary"@,
        "Afs-Kind"@ != "Afs-Undoable"@,
        "Afs-Kind"@ != "Afs-File-Count"@,
        "Afs-Kind"@ != "Afs-Files"@,
        "Afs-Kind"@ != "Afs-Undoes"@,
        "Afs-Kind"@ != "Afs-Origin"@,
        "Afs-Summary"@ != "Afs-Undoable"@,
        "Afs-Summary"@ != "Afs-File-Count"@,
        "Afs-Summary"@ != "Afs-Files"@,
        "Afs-Summary"@ != "Afs-Undoes"@,
        "Afs-Summary"@ != "Afs-Origin"@,
        "Afs-Undoable"@ != "Afs-File-Count"@,
        "Afs-Undoable"@ != "Afs-Files"@,
        "Afs-Undoable"@ != "Afs-Undoes"@,
        "Afs-Undoable"@ != "Afs-Origin"@,
        "Afs-File-Count"@ != "Afs-Files"@,
        "Afs-File-Count"@ != "Afs-Undoes"@,
        "Afs-File-Count"@ != "Afs-Origin"@,
        "Afs-Files"@ != "Afs-Undoes"@,
        "Afs-Files"@ != "Afs-Origin"@,
        "Afs-Undoes"@ != "Afs-Origin"@,
{
    reveal_strlit("Afs-");
    reveal_strlit("Afs-Entry-Id");
    reveal_strlit("Afs-Kind");
    reveal_strlit("Afs-Summary");
    reveal_strlit("Afs-Undoable");
    reveal_strlit("Afs-File-Count");
    reveal_strlit("Afs-Files");
    reveal_strlit("Afs-Undoes");
    reveal_strlit("Afs-Origin");
    assert("Afs-Entry-Id"@.take(4) =~= "Afs-"@);
    assert("Afs-Kind"@.take(4) =~= "Afs-"@);
    assert("Afs-Summary"@.take(4) =~= "Afs-"@);
    assert("Afs-Undoable"@.take(4) =~= "Afs-"@);
    assert("Afs-File-Count"@.take(4) =~= "Afs-"@);
    assert("Afs-Files"@.take(4) =~= "Afs-"@);
    assert("Afs-Undoes"@.take(4) =~= "Afs-"@);
    assert("Afs-Origin"@.take(4) =~= "Afs-"@);
    assert("Afs-Entry-Id"@[4] != "Afs-Kind"@[4]);
    assert("Afs-Entry-Id"@[4] != "Afs-Summary"@[4]);
    assert("Afs-Entry-Id"@[4] != "Afs-Undoable"@[4]);
    assert("Afs-Entry-Id"@[4] != "Afs-File-Count"@[4]);
    assert("Afs-Entry-Id"@[4] != "Afs-Files"@[4]);
    assert("Afs-Entry-Id"@[4] != "Afs-Undoes"@[4]);
    assert("Afs-Entry-Id"@[4] != "Afs-Origin"@[4]);
    assert("Afs-Kind"@[4] != "Afs-Summary"@[4]);
    assert("Afs-Kind"@[4] != "Afs-Undoable"@[4]);
    assert("Afs-Kind"@[4] != "Afs-File-Count"@[4]);
    assert("Afs-Kind"@[4] != "Afs-Files"@[4]);
    assert("Afs-Kind"@[4] != "Afs-Undoes"@[4]);
    assert("Afs-Kind"@[4] != "Afs-Origin"@[4]);
    assert("Afs-Summary"@[4] != "Afs-Undoable"@[4]);
    assert("Afs-Summary"@[4] != "Afs-File-Count"@[4]);
    assert("Afs-Summary"@[4] != "Afs-Files"@[4]);
    assert("Afs-Summary"@[4] != "Afs-Undoes"@[4]);
    assert("Afs-Summary"@[4] != "Afs-Origin"@[4]);
    assert("Afs-Undoable"@[4] != "Afs-File-Count"@[4]);
    assert("Afs-Undoable"@[4] != "Afs-Files"@[4]);
    assert("Afs-Undoable"@.len() != "Afs-Undoes"@.len());
    assert("Afs-Undoable"@[4] != "Afs-Origin"@[4]);
    assert("Afs-File-Count"@.len() != "Afs-Files"@.len());
    assert("Afs-File-Count"@[4] != "Afs-Undoes"@[4]);
    assert("Afs-File-Count"@[4] != "Afs-Origin"@[4]);
    assert("Afs-Files"@[4] != "Afs-Undoes"@[4]);
    assert("Afs-Files"@[4] != "Afs-Origin"@[4]);
    assert("Afs-Undoes"@[4] != "Afs-Origin"@[4]);
}

proof fn lemma_message_lines_clean(r: CommitRequestView)
    ensures
        forall|k: int|
            0 <= k < message_lines(r).len() ==> is_clean_line(#[trigger] message_lines(r)[k]),
{
    reveal_strlit("Afs-Entry-Id");
    reveal_strlit("Afs-Kind");
    reveal_strlit("Afs-Summary");
    reveal_strlit("Afs-Undoable");
    reveal_strlit("Afs-File-Count");
    reveal_strlit("Afs-Files");
    reveal_strlit("Afs-Undoes");
    reveal_strlit("Afs-Origin");
    reveal_strlit(": ");
    reveal_strlit("yes");
    reveal_strlit("no");
    lemma_decimal_digits(r.files.len());
    let ls = message_lines(r);
    assert forall|k: int| 0 <= k < ls.len() implies is_clean_line(#[trigger] ls[k]) by {
        assert forall|i: int| 0 <= i < ls[k].len() implies ls[k][i] != '\n' && ls[k][i] != '\r' by {
            if k == 6 {
                let d = decimal(r.files.len());
                if i >= 16 {
                    assert(ls[k][i] == d[i - 16]);
                    assert(is_digit(d[i - 16]));
                }
            }
        }
    }
}

/// What the trailers of a commit message read back as: every field the
/// request wrote, sanitized; an absent `Afs-Undoes` or `Afs-Origin` stays
/// absent unless the summary line itself reads as that trailer.
pub proof fn law_commit_message_round_trip(r: CommitRequestView)
    ensures
        parse_trailers(commit_message_text(r)).entry_id == Some(sanitize(r.entry_id)),
        parse_trailers(commit_message_text(r)).kind == Some(sanitize(r.kind)),
        parse_trailers(commit_message_text(r)).summary == Some(sanitize(r.summary)),
        parse_trailers(commit_message_text(r)).undoable == Some(undoable_text(r.undoable)),
        parse_trailers(commit_message_text(r)).file_count == Some(decimal(r.files.len())),
        parse_trailers(commit_message_text(r)).files == Some(sanitize(join_with(r.files, ", "@))),
        r.undoes matches Some(u) ==> parse_trailers(commit_message_text(r)).undoes == Some(
            sanitize(u),
        ),
        r.origin matches Some(o) ==> parse_trailers(commit_message_text(r)).origin == Some(
            sanitize(o),
        ),
        r.undoes is None ==> parse_trailers(commit_message_text(r)).undoes == apply_trailer_line(
            no_trailers(),
            sanitize(r.summary),
        ).undoes,
        r.origin is None ==> parse_trailers(commit_message_text(r)).origin == apply_trailer_line(
            no_trailers(),
            sanitize(r.summary),
        ).origin,
{
    lemma_message_lines_clean(r);
    assert forall|k: int| 0 <= k < message_lines(r).len() implies is_line(
        #[trigger] message_lines(r)[k],
    ) by {
        assert(is_clean_line(message_lines(r)[k]));
        if message_lines(r)[k].len() > 0 {
            assert(message_lines(r)[k][message_lines(r)[k].len() - 1] != '\r');
        }
    }
    lemma_lines_of_text(message_lines(r));
    lemma_keys();
    reveal_strlit(": ");
    let e = Seq::<char>::empty();
    let l0 = sanitize(r.summary);
    let l2 = trailer_line("Afs-Entry-Id"@, sanitize(r.entry_id));
    let l3 = trailer_line("Afs-Kind"@, sanitize(r.kind));
    let l4 = trailer_line("Afs-Summary"@, sanitize(r.summary));
    let l5 = trailer_line("Afs-Undoable"@, undoable_text(r.undoable));
    let l6 = trailer_line("Afs-File-Count"@, decimal(r.files.len()));
    let l7 = trailer_line("Afs-Files"@, sanitize(join_with(r.files, ", "@)));
    let t0 = apply_trailer_line(no_trailers(), l0);
    lemma_trailers_push(Seq::empty(), l0);
    assert(trailers_of_lines(Seq::<Seq<char>>::empty()) == no_trailers());
    assert(Seq::<Seq<char>>::empty().push(l0) =~= seq![l0]);
    assert(trailers_of_lines(seq![l0]) == t0);
    lemma_trailers_push(seq![l0], e);
    assert(seq![l0].push(e) =~= seq![l0, e]);
    assert(find_from(e, ": "@, 0) is None);
    assert(apply_trailer_line(t0, e) == t0);
    lemma_trailers_push(seq![l0, e], l2);
    assert(seq![l0, e].push(l2) =~= seq![l0, e, l2]);
    lemma_apply_trailer_line(t0, "Afs-Entry-Id"@, sanitize(r.entry_id));
    let t2 = set_trailer(t0, "Afs-Entry-Id"@, sanitize(r.entry_id));
    lemma_trailers_push(seq![l0, e, l2], l3);
    assert(seq![l0, e, l2].push(l3) =~= seq![l0, e, l2, l3]);
    lemma_apply_trailer_line(t2, "Afs-Kind"@, sanitize(r.kind));
    let t3 = set_trailer(t2, "Afs-Kind"@, sanitize(r.kind));
    lemma_trailers_push(seq![l0, e, l2, l3], l4);
    assert(seq![l0, e, l2, l3].push(l4) =~= seq![l0, e, l2, l3, l4]);
    lemma_apply_trailer_line(t3, "Afs-Summary"@, sanitize(r.summary));
    let t4 = set_trailer(t3, "Afs-Summary"@, sanitize(r.summary));
    lemma_trailers_push(seq![l0, e, l2, l3, l4], l5);
    assert(seq![l0, e, l2, l3, l4].push(l5) =~= seq![l0, e, l2, l3, l4, l5]);
    lemma_apply_trailer_line(t4, "Afs-Undoable"@, undoable_text(r.undoable));
    let t5 = set_trailer(t4, "Afs-Undoable"@, undoable_text(r.undoable));
    lemma_trailers_push(seq![l0, e, l2, l3, l4, l5], l6);
    assert(seq![l0, e, l2, l3, l4, l5].push(l6) =~= seq![l0, e, l2, l3, l4, l5, l6]);
    lemma_apply_trailer_line(t5, "Afs-File-Count"@, decimal(r.files.len()));
    let t6 = set_trailer(t5, "Afs-File-Count"@, decimal(r.files.len()));
    lemma_trailers_push(seq![l0, e, l2, l3, l4, l5, l6], l7);
    assert(seq![l0, e, l2, l3, l4, l5, l6].push(l7) =~= seq![l0, e, l2, l3, l4, l5, l6, l7]);
    lemma_apply_trailer_line(t6, "Afs-Files"@, sanitize(join_with(r.files, ", "@)));
    let t7 = set_trailer(t6, "Afs-Files"@, sanitize(join_with(r.files, ", "@)));
    let base = seq![l0, e, l2, l3, l4, l5, l6, l7];
    assert(trailers_of_lines(base) == t7);
    match r.undoes {
        Some(u) => {
            let lu = trailer_line("Afs-Undoes"@, sanitize(u));
            lemma_trailers_push(base, lu);
            lemma_apply_trailer_line(t7, "Afs-Undoes"@, sanitize(u));
            let t8 = set_trailer(t7, "Afs-Undoes"@, sanitize(u));
            match r.origin {
                Some(o) => {
                    let lo = trailer_line("Afs-Origin"@, sanitize(o));
                    lemma_trailers_push(base.push(lu), lo);
                    lemma_apply_trailer_line(t8, "Afs-Origin"@, sanitize(o));
                },
                None => {},
            }
        },
        None => {
            match r.origin {
                Some(o) => {
                    let lo = trailer_line("Afs-Origin"@, sanitize(o));
                    lemma_trailers_push(base, lo);
                    lemma_apply_trailer_line(t7, "Afs-Origin"@, sanitize(o));
                },
                None => {},
            }
        },
    }
}

// ---------------------------------------------------------------------------
// Undo is final.
// ---------------------------------------------------------------------------

/// The record the history log shows for the commit `commit` of `req`.
pub open spec fn committed_record(commit: Seq<char>, ts: u64, req: CommitRequestView) -> RecordView {
    RecordView { commit, timestamp_secs: ts, trailers: parse_trailers(commit_message_text(req)) }
}

/// A field without tab, newline or carriage return: sanitizing keeps it.
pub open spec fn is_clean_field(s: Seq<char>) -> bool {
    forall|i: int| 0 <= i < s.len() ==> s[i] != '\t' && s[i] != '\n' && s[i] != '\r'
}

/// Folded entries all carry an id, no two the same, and none is a baseline.
pub open spec fn well_folded(acc: Seq<FoldedView>) -> bool {
    &&& forall|k: int| 0 <= k < acc.len() ==> (#[trigger] acc[k]).record.trailers.entry_id is Some
    &&& forall|k: int| 0 <= k < acc.len() ==> !is_baseline(#[trigger] acc[k].record)
    &&& forall|j: int, k: int|
        0 <= j < acc.len() && 0 <= k < acc.len() && j != k ==> folded_id(#[trigger] acc[j])
            != folded_id(#[trigger] acc[k])
}

proof fn lemma_fold_push(rs: Seq<RecordView>, x: RecordView)
    ensures
        fold_oldest_first(rs.push(x)) == fold_step(fold_oldest_first(rs), x),
{
    assert(rs.push(x).drop_last() =~= rs);
}

proof fn lemma_fold_step_well(acc: Seq<FoldedView>, r: RecordView)
    requires
        well_folded(acc),
    ensures
        well_folded(fold_step(acc, r)),
{
    match r.trailers.entry_id {
        None => {},
        Some(id) => {
            if !is_baseline(r) {
                lemma_entry_index_below_bounds(acc, id, acc.len() as int);
                match entry_index(acc, id) {
                    Some(i) => {
                        let n = fold_step(acc, r);
                        assert forall|k: int| 0 <= k < n.len() implies folded_id(#[trigger] n[k])
                            == folded_id(acc[k]) && n[k].record == acc[k].record by {}
                    },
                    None => {
                        let n = fold_step(acc, r);
                        assert forall|j: int, k: int|
                            0 <= j < n.len() && 0 <= k < n.len() && j != k implies folded_id(
                            #[trigger] n[j],
                        ) != folded_id(#[trigger] n[k]) by {
                            if j < acc.len() && k < acc.len() {
                                assert(n[j] == acc[j] && n[k] == acc[k]);
                            } else if j == acc.len() {
                                assert(n[k] == acc[k]);
                            } else {
                                assert(n[j] == acc[j]);
                            }
                        }
                        assert forall|k: int| 0 <= k < n.len() implies (#[trigger] n[k]).record.trailers.entry_id is Some && !is_baseline(n[k].record) by {
                            if k < acc.len() {
                                assert(n[k] == acc[k]);
                            }
                        }
                    },
                }
            }
        },
    }
}

proof fn lemma_fold_well(rs: Seq<RecordView>)
    ensures
        well_folded(fold_oldest_first(rs)),
    decreases rs.len(),
{
    if rs.len() > 0 {
        lemma_fold_well(rs.drop_last());
        lemma_fold_step_well(fold_oldest_first(rs.drop_last()), rs.last());
    }
}

/// Undoing an External Change or a startup reconciliation needs the
/// user's confirmation, and nothing else does: an undo granted without
/// confirmation is of neither kind; an undo of either kind that would be
/// granted with confirmation is refused without it for want of it; any
/// other outcome is the same either way.
pub proof fn law_undo_confirmation(records: Seq<RecordView>, requested: Seq<char>)
    ensures
        undo_decision(records, requested, false) matches Ok(p) ==> p.kind != "external"@ && p.kind
            != "reconciliation"@,
        undo_decision(records, requested, true) matches Ok(p) ==> (if p.kind == "external"@
            || p.kind == "reconciliation"@ {
            undo_decision(records, requested, false) == Err::<UndoPlanView, UndoRefusalView>(
                UndoRefusalView::ConfirmationRequired,
            )
        } else {
            undo_decision(records, requested, false) == Ok::<UndoPlanView, UndoRefusalView>(p)
        }),
        undo_decision(records, requested, true) is Err ==> undo_decision(records, requested, false)
            == undo_decision(records, requested, true),
{
}

/// A change summary names its file only when exactly one file changed;
/// two or more are counted, whatever their names.
pub proof fn law_summary_counts_files(prefix: Seq<char>, files: Seq<Seq<char>>, others: Seq<Seq<char>>)
    ensures
        files.len() == 0 ==> history_summary_text(prefix, files) == prefix + ": no files changed"@,
        files.len() == 1 ==> history_summary_text(prefix, files) == prefix + ": "@ + files[0],
        files.len() >= 2 ==> history_summary_text(prefix, files) == prefix + ": "@ + decimal(
            files.len(),
        ) + " files changed"@,
        files.len() >= 2 && others.len() == files.len() ==> history_summary_text(prefix, files)
            == history_summary_text(prefix, others),
        forall|id: Seq<char>, kind: Seq<char>|
            files.len() >= 2 ==> ((#[trigger] change_request(id, kind, prefix, files)) matches Some(r)
                && r.summary == prefix + ": "@ + decimal(files.len()) + " files changed"@),
{
}

/// Record `j` of `rs` (oldest first) is the last record, other than a
/// baseline, that carries the entry id `id`.
spec fn last_carrying(rs: Seq<RecordView>, id: Option<Seq<char>>, j: int) -> bool {
    &&& 0 <= j < rs.len()
    &&& rs[j].trailers.entry_id == id
    &&& !is_baseline(rs[j])
    &&& forall|m: int|
        j < m < rs.len() && rs[m].trailers.entry_id == id ==> is_baseline(#[trigger] rs[m])
}

/// Each folded entry keeps the undoable trailer of the last record of its
/// id.
proof fn lemma_fold_latest(rs: Seq<RecordView>)
    ensures
        forall|k: int|
            #![trigger fold_oldest_first(rs)[k]]
            0 <= k < fold_oldest_first(rs).len() ==> exists|j: int|
                #[trigger] last_carrying(rs, folded_id(fold_oldest_first(rs)[k]), j)
                    && fold_oldest_first(rs)[k].latest_undoable == rs[j].trailers.undoable,
    decreases rs.len(),
{
    if rs.len() > 0 {
        let p = rs.drop_last();
        let n = rs.len() - 1;
        let r = rs[n];
        lemma_fold_latest(p);
        lemma_fold_well(p);
        let acc = fold_oldest_first(p);
        let out = fold_oldest_first(rs);
        assert(out == fold_step(acc, r));
        // A witness for `p` stays one for `rs` when the new record does not carry the id.
        assert forall|k: int, j: int|
            0 <= k < acc.len() && last_carrying(p, folded_id(acc[k]), j) && (
            r.trailers.entry_id != folded_id(acc[k]) || is_baseline(r)) implies #[trigger] last_carrying(
            rs,
            folded_id(acc[k]),
            j,
        ) by {
            assert forall|m: int|
                j < m < rs.len() && rs[m].trailers.entry_id == folded_id(acc[k]) implies is_baseline(
                #[trigger] rs[m],
            ) by {
                if m < n {
                    assert(rs[m] == p[m]);
                }
            }
            assert(rs[j] == p[j]);
        }
        match r.trailers.entry_id {
            None => {
                assert forall|k: int| #![trigger out[k]] 0 <= k < out.len() implies exists|j: int|
                    #[trigger] last_carrying(rs, folded_id(out[k]), j)
                        && out[k].latest_undoable == rs[j].trailers.undoable by {
                    let j = choose|j: int|
                        #[trigger] last_carrying(p, folded_id(acc[k]), j)
                            && acc[k].latest_undoable == p[j].trailers.undoable;
                    assert(folded_id(acc[k]) is Some);
                    assert(last_carrying(rs, folded_id(acc[k]), j));
                    assert(rs[j] == p[j]);
                }
            },
            Some(id) => {
                if is_baseline(r) {
                    assert forall|k: int| #![trigger out[k]] 0 <= k < out.len() implies exists|j: int|
                        #[trigger] last_carrying(rs, folded_id(out[k]), j)
                            && out[k].latest_undoable == rs[j].trailers.undoable by {
                        let j = choose|j: int|
                            #[trigger] last_carrying(p, folded_id(acc[k]), j)
                                && acc[k].latest_undoable == p[j].trailers.undoable;
                        assert(last_carrying(rs, folded_id(acc[k]), j));
                        assert(rs[j] == p[j]);
                    }
                } else {
                    lemma_entry_index_below_bounds(acc, id, acc.len() as int);
                    match entry_index(acc, id) {
                        Some(i) => {
                            assert forall|k: int| #![trigger out[k]] 0 <= k < out.len() implies exists|j: int|
                                #[trigger] last_carrying(rs, folded_id(out[k]), j)
                                    && out[k].latest_undoable == rs[j].trailers.undoable by {
                                if k == i {
                                    assert(folded_id(out[k]) == Some(id));
                                    assert(last_carrying(rs, folded_id(out[k]), n));
                                } else {
                                    assert(out[k] == acc[k]);
                                    assert(folded_id(acc[k]) != folded_id(acc[i]));
                                    let j = choose|j: int|
                                        #[trigger] last_carrying(p, folded_id(acc[k]), j)
                                            && acc[k].latest_undoable == p[j].trailers.undoable;
                                    assert(last_carrying(rs, folded_id(acc[k]), j));
                                    assert(rs[j] == p[j]);
                                }
                            }
                        },
                        None => {
                            assert forall|k: int| #![trigger out[k]] 0 <= k < out.len() implies exists|j: int|
                                #[trigger] last_carrying(rs, folded_id(out[k]), j)
                                    && out[k].latest_undoable == rs[j].trailers.undoable by {
                                if k == acc.len() {
                                    assert(last_carrying(rs, folded_id(out[k]), n));
                                } else {
                                    assert(out[k] == acc[k]);
                                    let j = choose|j: int|
                                        #[trigger] last_carrying(p, folded_id(acc[k]), j)
                                            && acc[k].latest_undoable == p[j].trailers.undoable;
                                    assert(last_carrying(rs, folded_id(acc[k]), j));
                                    assert(rs[j] == p[j]);
                                }
                            }
                        },
                    }
                }
            },
        }
    }
}

/// Record `j` of a log listed newest first is the newest record, other
/// than a baseline, that carries the entry id `id`.
pub open spec fn newest_carrying(records: Seq<RecordView>, id: Option<Seq<char>>, j: int) -> bool {
    &&& 0 <= j < records.len()
    &&& records[j].trailers.entry_id == id
    &&& !is_baseline(records[j])
    &&& forall|m: int|
        0 <= m < j && records[m].trailers.entry_id == id ==> is_baseline(#[trigger] records[m])
}

/// A History Entry is listed, and counts as undoable, by the
/// `Afs-Undoable` trailer of the newest record of its id (`no` when that
/// record has none), not by that of the record that created the entry: an
/// entry undone later is listed as no longer undoable.
pub proof fn law_listed_undoable_is_newest(records: Seq<RecordView>)
    ensures
        forall|i: int|
            #![trigger folded_entries(records)[i]]
            0 <= i < folded_entries(records).len() ==> exists|j: int|
                #[trigger] newest_carrying(records, folded_id(folded_entries(records)[i]), j)
                    && listed_undoable(folded_entries(records)[i]) == (match records[j].trailers.undoable {
                    Some(u) => u,
                    None => "no"@,
                }) && is_undoable(folded_entries(records)[i]) == (records[j].trailers.undoable
                    == Some("yes"@)),
{
    let rs = records.reverse();
    lemma_fold_latest(rs);
    let acc = fold_oldest_first(rs);
    let es = folded_entries(records);
    assert(es == acc.reverse());
    assert forall|i: int| #![trigger es[i]] 0 <= i < es.len() implies exists|j: int|
        #[trigger] newest_carrying(records, folded_id(es[i]), j) && listed_undoable(es[i]) == (
        match records[j].trailers.undoable {
            Some(u) => u,
            None => "no"@,
        }) && is_undoable(es[i]) == (records[j].trailers.undoable == Some("yes"@)) by {
        let k = acc.len() - 1 - i;
        assert(es[i] == acc[k]);
        let j = choose|j: int|
            #[trigger] last_carrying(rs, folded_id(acc[k]), j) && acc[k].latest_undoable
                == rs[j].trailers.undoable;
        let jj = records.len() - 1 - j;
        assert(rs[j] == records[jj]);
        assert forall|m: int|
            0 <= m < jj && records[m].trailers.entry_id == folded_id(es[i]) implies is_baseline(
            #[trigger] records[m],
        ) by {
            assert(records[m] == rs[records.len() - 1 - m]);
        }
        assert(newest_carrying(records, folded_id(es[i]), jj));
    }
}

/// The History Entries of a log each carry an entry id, none is the
/// install baseline, and no two share an id.
pub proof fn law_entries_distinct_without_baseline(newest_first: Seq<RecordView>)
    ensures
        forall|k: int|
            0 <= k < folded_entries(newest_first).len() ==> (#[trigger] folded_entries(
                newest_first,
            )[k]).record.trailers.entry_id is Some && !is_baseline(
                folded_entries(newest_first)[k].record,
            ),
        forall|j: int, k: int|
            0 <= j < folded_entries(newest_first).len() && 0 <= k < folded_entries(
                newest_first,
            ).len() && j != k ==> folded_id(#[trigger] folded_entries(newest_first)[j])
                != folded_id(#[trigger] folded_entries(newest_first)[k]),
{
    let acc = fold_oldest_first(newest_first.reverse());
    lemma_fold_well(newest_first.reverse());
    let es = folded_entries(newest_first);
    assert(es == acc.reverse());
    assert forall|k: int| 0 <= k < es.len() implies (#[trigger] es[k]).record.trailers.entry_id is Some
        && !is_baseline(es[k].record) by {
        assert(es[k] == acc[acc.len() - 1 - k]);
    }
    assert forall|j: int, k: int| 0 <= j < es.len() && 0 <= k < es.len() && j != k implies folded_id(
        #[trigger] es[j],
    ) != folded_id(#[trigger] es[k]) by {
        assert(es[j] == acc[acc.len() - 1 - j]);
        assert(es[k] == acc[acc.len() - 1 - k]);
    }
}

proof fn lemma_newest_undoable_below_is(es: Seq<FoldedView>, n: int)
    ensures
        newest_undoable_below(es, n) matches Some(i) ==> 0 <= i < n && is_undoable(es[i]),
    decreases n,
{
    if n > 0 {
        lemma_newest_undoable_below_is(es, n - 1);
    }
}

proof fn lemma_sanitize_clean_field(s: Seq<char>)
    requires
        is_clean_field(s),
    ensures
        sanitize(s) == s,
{
    assert(sanitize(s) =~= s);
}

proof fn lemma_sanitize_baseline(k: Seq<char>)
    requires
        sanitize(k) == "baseline"@,
    ensures
        k == "baseline"@,
{
    reveal_strlit("baseline");
    let b = "baseline"@;
    assert(b =~= seq!['b', 'a', 's', 'e', 'l', 'i', 'n', 'e']);
    assert forall|i: int| 0 <= i < k.len() implies k[i] == b[i] by {
        assert(sanitize(k)[i] == sanitize_char(k[i]));
        assert(b[i] != ' ') by {
            if i == 0 {
            } else if i == 1 {
            } else if i == 2 {
            } else if i == 3 {
            } else if i == 4 {
            } else if i == 5 {
            } else if i == 6 {
            } else {
                assert(i == 7);
            }
        }
    }
    assert(k =~= "baseline"@);
}

/// Once an undo is recorded (its `undo` entry, then the record that marks
/// the undone entry as no longer undoable), the undone entry cannot be
/// undone again: asking for it is refused, whatever the confirmation.
pub proof fn law_undo_is_final(
    records: Seq<RecordView>,
    requested: Seq<char>,
    confirmed: bool,
    undo_entry_id: Seq<char>,
    undo_commit: Seq<char>,
    undo_time: u64,
    marker_commit: Seq<char>,
    marker_time: u64,
    confirmed_again: bool,
)
    requires
        undo_decision(records, requested, confirmed) is Ok,
        is_clean_field(requested),
    ensures
        ({
            let plan = undo_decision(records, requested, confirmed)->Ok_0;
            let after = seq![
                committed_record(marker_commit, marker_time, undone_marker_request(plan)),
                committed_record(undo_commit, undo_time, undo_entry_request(plan, undo_entry_id)),
            ] + records;
            undo_decision(after, requested, confirmed_again) is Err
        }),
{
    let plan = undo_decision(records, requested, confirmed)->Ok_0;
    let m = committed_record(marker_commit, marker_time, undone_marker_request(plan));
    let u = committed_record(undo_commit, undo_time, undo_entry_request(plan, undo_entry_id));
    let after = seq![m, u] + records;
    let rev = records.reverse();
    let f = fold_oldest_first(rev);
    let es = f.reverse();
    lemma_fold_well(rev);
    // The undone entry, as folded before the undo.
    lemma_newest_undoable_below_is(es, es.len() as int);
    let i = newest_undoable(es)->Some_0;
    let j = f.len() - 1 - i;
    assert(es[i] == f[j]);
    assert(folded_id(f[j]) == Some(requested));
    // Trailers of the two new records.
    law_commit_message_round_trip(undone_marker_request(plan));
    law_commit_message_round_trip(undo_entry_request(plan, undo_entry_id));
    lemma_sanitize_clean_field(requested);
    reveal_strlit("no");
    reveal_strlit("undo");
    reveal_strlit("baseline");
    assert(m.trailers.entry_id == Some(requested));
    assert(m.trailers.undoable == Some("no"@));
    assert(!is_baseline(m)) by {
        if is_baseline(m) {
            lemma_sanitize_baseline(plan.kind);
            assert(!is_baseline(f[j].record));
            match f[j].record.trailers.kind {
                Some(k) => {},
                None => {
                    assert(plan.kind == Seq::<char>::empty());
                },
            }
        }
    }
    assert(u.trailers.undoable == Some("no"@));
    assert(u.trailers.kind == Some(sanitize("undo"@)));
    assert(sanitize("undo"@) =~= "undo"@);
    assert(!is_baseline(u));
    // Folding the log after the undo.
    assert(after.reverse() =~= rev.push(u).push(m));
    lemma_fold_push(rev, u);
    lemma_fold_push(rev.push(u), m);
    let g = fold_step(f, u);
    let h = fold_step(g, m);
    assert(fold_oldest_first(after.reverse()) == h);
    lemma_fold_step_well(f, u);
    lemma_fold_step_well(g, m);
    // The undone entry is still there after the undo record.
    assert(exists|k: int| 0 <= k < g.len() && folded_id(g[k]) == Some(requested)) by {
        lemma_entry_index_below_bounds(f, u.trailers.entry_id->Some_0, f.len() as int);
        assert(folded_id(g[j]) == Some(requested));
    }
    lemma_entry_index_below_bounds(g, requested, g.len() as int);
    let gi = entry_index(g, requested)->Some_0;
    // Every entry with the requested id is no longer undoable.
    reveal_strlit("yes");
    assert("no"@ != "yes"@) by {
        assert("no"@.len() != "yes"@.len());
    }
    assert(folded_id(g[gi]) == Some(requested));
    assert(h == g.update(gi, FoldedView { record: g[gi].record, latest_undoable: Some("no"@) }));
    assert forall|k: int| 0 <= k < h.len() && folded_id(#[trigger] h[k]) == Some(requested) implies !is_undoable(h[k]) by {
        if k != gi {
            assert(h[k] == g[k]);
            assert(folded_id(g[k]) != folded_id(g[gi]));
        } else {
            assert(h[k].latest_undoable == Some("no"@));
        }
    }
    let es2 = h.reverse();
    lemma_newest_undoable_below_is(es2, es2.len() as int);
    match newest_undoable(es2) {
        None => {},
        Some(i2) => {
            let k2 = h.len() - 1 - i2;
            assert(es2[i2] == h[k2]);
            assert(is_undoable(h[k2]));
            assert(folded_id(h[k2]) != Some(requested));
            assert(h[k2].record.trailers.entry_id is Some);
        },
    }
}

} // verus!
