//! The logic of the stand-in Pi Agent Runtime that the end-to-end tests
//! run in place of a real one: which verb a prompt carries, the fields it
//! reads from the prompt, and the observation logs it keeps.
use vstd::prelude::*;
use crate::conversation::nonempty_trimmed;
use crate::protocol::{strip_prefix, strip_prefix_exec, trim_end_char, trim_end_char_exec};
use crate::text::{
    chars_of, extend_chars, extend_str, lines, lines_exec, split, split_exec, split_once,
    split_once_exec, starts_with, starts_with_str, string_of, string_views, trim, trim_exec, views,
};

verus! {

// ---------------------------------------------------------------------------
// Prompt fields.
// ---------------------------------------------------------------------------

/// The verb tag on the first line of a prompt.
pub open spec fn verb_of(message: Seq<char>) -> Seq<char> {
    let ls = lines(message);
    let first = if ls.len() > 0 {
        ls[0]
    } else {
        Seq::empty()
    };
    if starts_with(first, "<<<AFS:VERB=ask>>>"@) {
        "ask"@
    } else if starts_with(first, "<<<AFS:VERB=broadcast>>>"@) {
        "broadcast"@
    } else if starts_with(first, "<<<AFS:VERB=collaborate>>>"@) {
        "collaborate"@
    } else if starts_with(first, "<<<AFS:VERB=task>>>"@) {
        "task"@
    } else if starts_with(first, "<<<AFS:VERB=delegated_reply>>>"@) {
        "delegated_reply"@
    } else {
        "unknown"@
    }
}

/// The verb a prompt carries on its first line.
pub fn parse_verb(message: &str) -> (v: &'static str)
    ensures
        v@ == verb_of(message@),
{
    let mc = chars_of(message);
    let ls = lines_exec(mc.as_slice());
    let first: Vec<char> = if ls.len() > 0 {
        ls[0].clone()
    } else {
        Vec::new()
    };
    assert(first@ == (if lines(message@).len() > 0 {
        lines(message@)[0]
    } else {
        Seq::<char>::empty()
    }));
    if starts_with_str(first.as_slice(), "<<<AFS:VERB=ask>>>") {
        "ask"
    } else if starts_with_str(first.as_slice(), "<<<AFS:VERB=broadcast>>>") {
        "broadcast"
    } else if starts_with_str(first.as_slice(), "<<<AFS:VERB=collaborate>>>") {
        "collaborate"
    } else if starts_with_str(first.as_slice(), "<<<AFS:VERB=task>>>") {
        "task"
    } else if starts_with_str(first.as_slice(), "<<<AFS:VERB=delegated_reply>>>") {
        "delegated_reply"
    } else {
        "unknown"
    }
}

/// The first line that starts with `prefix`, from `k` on: the rest of it.
pub open spec fn field_line(ls: Seq<Seq<char>>, prefix: Seq<char>, k: int) -> Option<Seq<char>>
    decreases ls.len() - k,
{
    if k < 0 || k >= ls.len() {
        None
    } else {
        match strip_prefix(ls[k], prefix) {
            Some(rest) => Some(rest),
            None => field_line(ls, prefix, k + 1),
        }
    }
}

/// The rest of the first line of `message` that starts with `prefix`.
fn find_field_line(message: &str, prefix: &str) -> (r: Option<Vec<char>>)
    ensures
        r matches Some(v) ==> field_line(lines(message@), prefix@, 0) == Some(v@),
        r is None ==> field_line(lines(message@), prefix@, 0) is None,
{
    let mc = chars_of(message);
    let ls = lines_exec(mc.as_slice());
    let ghost lv = views(ls@);
    let mut i: usize = 0;
    while i < ls.len()
        invariant
            i <= ls.len(),
            lv == views(ls@),
            lv == lines(message@),
            field_line(lv, prefix@, 0) == field_line(lv, prefix@, i as int),
        decreases ls.len() - i,
    {
        assert(lv[i as int] == ls@[i as int]@);
        match strip_prefix_exec(ls[i].as_slice(), prefix) {
            Some(rest) => return Some(rest),
            None => {},
        }
        i += 1;
    }
    None
}

/// The trimmed rest of the first line of `message` that starts with
/// `prefix`.
pub open spec fn field_of(message: Seq<char>, prefix: Seq<char>) -> Option<Seq<char>> {
    match field_line(lines(message), prefix, 0) {
        Some(rest) => Some(trim(rest)),
        None => None,
    }
}

/// The value of the `prefix` line of a prompt.
pub fn extract_field(message: &str, prefix: &str) -> (r: Option<String>)
    ensures
        r matches Some(s) ==> field_of(message@, prefix@) == Some(s@),
        r is None ==> field_of(message@, prefix@) is None,
{
    match find_field_line(message, prefix) {
        Some(rest) => {
            let t = trim_exec(rest.as_slice());
            Some(string_of(t.as_slice()))
        },
        None => None,
    }
}

/// The value of the `prefix` line of a prompt, without trailing colons.
pub open spec fn delegated_field_of(message: Seq<char>, prefix: Seq<char>) -> Option<Seq<char>> {
    match field_line(lines(message), prefix, 0) {
        Some(rest) => Some(trim(trim_end_char(rest, ':'))),
        None => None,
    }
}

/// The value of the `prefix` line of a prompt, without trailing colons.
pub fn extract_delegated_field(message: &str, prefix: &str) -> (r: Option<String>)
    ensures
        r matches Some(s) ==> delegated_field_of(message@, prefix@) == Some(s@),
        r is None ==> delegated_field_of(message@, prefix@) is None,
{
    match find_field_line(message, prefix) {
        Some(rest) => {
            let u = trim_end_char_exec(rest.as_slice(), ':');
            let t = trim_exec(u.as_slice());
            Some(string_of(t.as_slice()))
        },
        None => None,
    }
}

/// The value of a field, empty when the prompt lacks it.
pub open spec fn field_or_empty(message: Seq<char>, prefix: Seq<char>) -> Seq<char> {
    match field_of(message, prefix) {
        Some(v) => v,
        None => Seq::empty(),
    }
}

fn field_text(message: &str, prefix: &str) -> (s: String)
    ensures
        s@ == field_or_empty(message@, prefix@),
{
    match extract_field(message, prefix) {
        Some(s) => s,
        None => String::new(),
    }
}

/// Commas read as semicolons.
pub open spec fn commas_as_semicolons(s: Seq<char>) -> Seq<char> {
    s.map_values(|c: char|
        if c == ',' {
            ';'
        } else {
            c
        })
}

/// The items of a list field separated by `;` or `,`: none for a blank
/// field or `none`, otherwise the trimmed non-empty items.
pub open spec fn csv_items(raw: Seq<char>) -> Seq<Seq<char>> {
    let t = trim(raw);
    if t.len() == 0 || t == "none"@ {
        Seq::empty()
    } else {
        nonempty_trimmed(split(commas_as_semicolons(t), seq![';']))
    }
}

/// Reads a list field separated by `;` or `,`.
pub fn parse_csv_list(raw: &str) -> (out: Vec<String>)
    ensures
        string_views(out@) == csv_items(raw@),
{
    let rc = chars_of(raw);
    let t = trim_exec(rc.as_slice());
    if t.len() == 0 || crate::text::chars_eq_str(t.as_slice(), "none") {
        assert(string_views(Seq::<String>::empty()) =~= Seq::<Seq<char>>::empty());
        return Vec::new();
    }
    let mut u: Vec<char> = Vec::new();
    let mut i: usize = 0;
    while i < t.len()
        invariant
            i <= t.len(),
            u@ == commas_as_semicolons(t@.take(i as int)),
        decreases t.len() - i,
    {
        u.push(
            if t[i] == ',' {
                ';'
            } else {
                t[i]
            },
        );
        assert(u@ =~= commas_as_semicolons(t@.take(i + 1)));
        i += 1;
    }
    assert(t@.take(t.len() as int) =~= t@);
    let semi = vec![';'];
    assert(semi@ =~= seq![';']);
    let parts = split_exec(u.as_slice(), semi.as_slice());
    let ghost pv = views(parts@);
    let mut out: Vec<String> = Vec::new();
    let mut j: usize = 0;
    while j < parts.len()
        invariant
            j <= parts.len(),
            pv == views(parts@),
            string_views(out@) == nonempty_trimmed(pv.take(j as int)),
        decreases parts.len() - j,
    {
        assert(pv.take(j + 1).drop_last() =~= pv.take(j as int));
        assert(pv.take(j + 1).last() == parts@[j as int]@);
        let item = trim_exec(parts[j].as_slice());
        if item.len() > 0 {
            let ghost before = string_views(out@);
            out.push(string_of(item.as_slice()));
            assert(string_views(out@) =~= before.push(item@));
        }
        j += 1;
    }
    assert(pv.take(parts.len() as int) =~= pv);
    out
}

// ---------------------------------------------------------------------------
// Collaboration peers.
// ---------------------------------------------------------------------------

/// The peer entry of a `- <identity> (<managed dir>)` line, as
/// `<identity>\t<managed dir>`.
pub open spec fn peer_entry(line: Seq<char>) -> Option<Seq<char>> {
    match strip_prefix(line, "- "@) {
        Some(rest) => match split_once(rest, " ("@) {
            Some((identity, tail)) => Some(identity + seq!['\t'] + trim(trim_end_char(tail, ')'))),
            None => None,
        },
        None => None,
    }
}

/// The peer entries listed after a `Peers:` line, up to the first line that
/// is neither an entry nor blank.
pub open spec fn peers_from(ls: Seq<Seq<char>>, in_peers: bool) -> Seq<Seq<char>>
    decreases ls.len(),
{
    if ls.len() == 0 {
        Seq::empty()
    } else if starts_with(ls[0], "Peers:"@) {
        peers_from(ls.drop_first(), true)
    } else if !in_peers {
        peers_from(ls.drop_first(), false)
    } else {
        match peer_entry(ls[0]) {
            Some(p) => seq![p] + peers_from(ls.drop_first(), true),
            None => if ls[0].len() == 0 {
                peers_from(ls.drop_first(), true)
            } else {
                Seq::empty()
            },
        }
    }
}

fn peer_entry_exec(line: &[char]) -> (r: Option<Vec<char>>)
    ensures
        r matches Some(p) ==> peer_entry(line@) == Some(p@),
        r is None ==> peer_entry(line@) is None,
{
    let rest = match strip_prefix_exec(line, "- ") {
        Some(r) => r,
        None => return None,
    };
    let sep = chars_of(" (");
    match split_once_exec(rest.as_slice(), sep.as_slice()) {
        Some((identity, tail)) => {
            let a = trim_end_char_exec(tail.as_slice(), ')');
            let dir = trim_exec(a.as_slice());
            let mut v = identity;
            v.push('\t');
            extend_chars(&mut v, dir.as_slice());
            Some(v)
        },
        None => None,
    }
}

/// The collaboration peers a prompt lists.
pub fn collaborate_peers(message: &str) -> (out: Vec<String>)
    ensures
        string_views(out@) == peers_from(lines(message@), false),
{
    let mc = chars_of(message);
    let ls = lines_exec(mc.as_slice());
    let ghost lv = views(ls@);
    let mut out: Vec<String> = Vec::new();
    let mut in_peers = false;
    let mut i: usize = 0;
    assert(lv.skip(0) =~= lv);
    while i < ls.len()
        invariant
            i <= ls.len(),
            lv == views(ls@),
            lv == lines(message@),
            peers_from(lv, false) == string_views(out@) + peers_from(lv.skip(i as int), in_peers),
        decreases ls.len() - i,
    {
        let ghost rest = lv.skip(i as int);
        assert(rest[0] == ls@[i as int]@);
        assert(rest.drop_first() =~= lv.skip(i + 1));
        let line = ls[i].as_slice();
        if starts_with_str(line, "Peers:") {
            in_peers = true;
            i += 1;
            continue;
        }
        if in_peers {
            match peer_entry_exec(line) {
                Some(p) => {
                    let ghost before = string_views(out@);
                    out.push(string_of(p.as_slice()));
                    assert(string_views(out@) =~= before.push(p@));
                    assert(string_views(out@) + peers_from(lv.skip(i + 1), true) =~= before + (
                    seq![p@] + peers_from(rest.drop_first(), true)));
                },
                None => {
                    if line.len() > 0 {
                        assert(string_views(out@) + Seq::<Seq<char>>::empty() =~= string_views(
                            out@,
                        ));
                        return out;
                    }
                },
            }
        }
        i += 1;
    }
    assert(string_views(out@) + Seq::<Seq<char>>::empty() =~= string_views(out@));
    out
}

// ---------------------------------------------------------------------------
// Observation logs.
// ---------------------------------------------------------------------------

/// One line appended to one observation log of the Agent Home.
pub struct LogLine {
    pub file: String,
    pub line: String,
}

/// A log line as plain values.
pub open spec fn log_view(l: LogLine) -> (Seq<char>, Seq<char>) {
    (l.file@, l.line@)
}

/// The log lines of a prompt with the given verb: the verb and the prompt
/// itself, then the fields each verb's tests look for.
pub open spec fn prompt_log_lines(verb: Seq<char>, message: Seq<char>) -> Seq<(Seq<char>, Seq<char>)> {
    let f = |p: Seq<char>| field_or_empty(message, p);
    let common = seq![("prompt-received"@, "verb="@ + verb), ("prompt-received"@, message)];
    common + if verb == "ask"@ {
        seq![
            ("ask-received"@, "path="@ + f("Path: "@)),
            ("ask-received"@, "prompt="@ + f("Question: "@)),
        ]
    } else if verb == "broadcast"@ {
        seq![("broadcast-received"@, "prompt="@ + f("Question: "@))]
    } else if verb == "collaborate"@ {
        seq![("collaborate-received"@, "prompt="@ + f("Question: "@))]
    } else if verb == "task"@ {
        seq![
            ("task-received"@, "requester="@ + f("Requester: "@)),
            ("task-received"@, "reply_target="@ + f("Reply target: "@)),
            ("task-received"@, "prompt="@ + f("Task: "@)),
        ]
    } else if verb == "delegated_reply"@ {
        seq![
            ("delegated-reply-received"@, "agent="@ + match delegated_field_of(
                message,
                "Delegated reply from "@,
            ) {
                Some(a) => a,
                None => Seq::empty(),
            }),
            ("delegated-reply-received"@, "answer="@ + f("Answer: "@)),
            ("delegated-reply-received"@, "changed_files="@ + f("Changed files: "@)),
            ("delegated-reply-received"@, "history_entries="@ + f("History entries: "@)),
        ]
    } else {
        Seq::empty()
    }
}

/// The views of log lines.
pub open spec fn log_views(v: Seq<LogLine>) -> Seq<(Seq<char>, Seq<char>)> {
    Seq::new(v.len(), |i: int| log_view(v[i]))
}

fn log_line(file: &str, key: &str, value: &str) -> (l: LogLine)
    ensures
        l.file@ == file@,
        l.line@ == key@ + value@,
{
    let mut v = chars_of(key);
    extend_str(&mut v, value);
    LogLine { file: file.to_string(), line: string_of(v.as_slice()) }
}

fn push_log(out: &mut Vec<LogLine>, l: LogLine)
    ensures
        log_views(final(out)@) == log_views(old(out)@).push(log_view(l)),
{
    out.push(l);
    assert(log_views(out@) =~= log_views(old(out)@).push(log_view(l)));
}

/// The lines a prompt appends to the observation logs.
pub fn prompt_log(verb: &str, message: &str) -> (out: Vec<LogLine>)
    ensures
        log_views(out@) == prompt_log_lines(verb@, message@),
{
    let mut out: Vec<LogLine> = Vec::new();
    push_log(&mut out, log_line("prompt-received", "verb=", verb));
    push_log(&mut out, LogLine { file: "prompt-received".to_string(), line: message.to_string() });
    let vc = chars_of(verb);
    if crate::text::chars_eq_str(vc.as_slice(), "ask") {
        push_log(&mut out, log_line("ask-received", "path=", field_text(message, "Path: ").as_str()));
        push_log(
            &mut out,
            log_line("ask-received", "prompt=", field_text(message, "Question: ").as_str()),
        );
    } else if crate::text::chars_eq_str(vc.as_slice(), "broadcast") {
        push_log(
            &mut out,
            log_line("broadcast-received", "prompt=", field_text(message, "Question: ").as_str()),
        );
    } else if crate::text::chars_eq_str(vc.as_slice(), "collaborate") {
        push_log(
            &mut out,
            log_line("collaborate-received", "prompt=", field_text(message, "Question: ").as_str()),
        );
    } else if crate::text::chars_eq_str(vc.as_slice(), "task") {
        push_log(
            &mut out,
            log_line("task-received", "requester=", field_text(message, "Requester: ").as_str()),
        );
        push_log(
            &mut out,
            log_line(
                "task-received",
                "reply_target=",
                field_text(message, "Reply target: ").as_str(),
            ),
        );
        push_log(&mut out, log_line("task-received", "prompt=", field_text(message, "Task: ").as_str()));
    } else if crate::text::chars_eq_str(vc.as_slice(), "delegated_reply") {
        let agent = match extract_delegated_field(message, "Delegated reply from ") {
            Some(a) => a,
            None => String::new(),
        };
        push_log(&mut out, log_line("delegated-reply-received", "agent=", agent.as_str()));
        push_log(
            &mut out,
            log_line("delegated-reply-received", "answer=", field_text(message, "Answer: ").as_str()),
        );
        push_log(
            &mut out,
            log_line(
                "delegated-reply-received",
                "changed_files=",
                field_text(message, "Changed files: ").as_str(),
            ),
        );
        push_log(
            &mut out,
            log_line(
                "delegated-reply-received",
                "history_entries=",
                field_text(message, "History entries: ").as_str(),
            ),
        );
    }
    assert(log_views(out@) =~= prompt_log_lines(verb@, message@));
    out
}

} // verus!
