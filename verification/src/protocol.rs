//! The line protocol spoken over the Supervisor Socket.
//!
//! The AFS CLI sends one request line; the supervisor answers `OK\n`
//! followed by the body, or `ERR\n` followed by the message and a newline.
use vstd::prelude::*;
use crate::text::{
    chars_eq_str, chars_of, extend_str, find_from, lemma_find_from_first, matches_at,
    split_once, split_once_exec, starts_with, starts_with_str, string_of,
};

verus! {

/// A request to the supervisor.
pub enum Request {
    /// `ASK\t<cwd>\t<prompt>`
    Ask { cwd: String, prompt: String },
    /// `INSTALL <path>`
    Install { path: String },
    /// `REMOVE\t<path>\t<discard|keep>`
    Remove { path: String, discard_history: bool },
    /// `AGENTS`
    Agents,
    /// `HISTORY <path>`
    History { path: String },
    /// `UNDO\t<path>\t<history-entry>\t<yes|no>`
    Undo { path: String, history_entry: String, confirmed: bool },
}

/// The plain contents of a [`Request`].
pub enum RequestView {
    Ask { cwd: Seq<char>, prompt: Seq<char> },
    Install { path: Seq<char> },
    Remove { path: Seq<char>, discard_history: bool },
    Agents,
    History { path: Seq<char> },
    Undo { path: Seq<char>, history_entry: Seq<char>, confirmed: bool },
}

impl View for Request {
    type V = RequestView;

    open spec fn view(&self) -> RequestView {
        match self {
            Request::Ask { cwd, prompt } => RequestView::Ask { cwd: cwd@, prompt: prompt@ },
            Request::Install { path } => RequestView::Install { path: path@ },
            Request::Remove { path, discard_history } => RequestView::Remove {
                path: path@,
                discard_history: *discard_history,
            },
            Request::Agents => RequestView::Agents,
            Request::History { path } => RequestView::History { path: path@ },
            Request::Undo { path, history_entry, confirmed } => RequestView::Undo {
                path: path@,
                history_entry: history_entry@,
                confirmed: *confirmed,
            },
        }
    }
}

/// Why a request line is not served.
pub enum RequestError {
    /// `ASK` without the tab that ends the current directory.
    AskMissingDirectory,
    /// `REMOVE` without the discard-history flag.
    RemoveMissingFlag,
    /// `REMOVE` with a flag other than `discard` or `keep`.
    RemoveUnknownFlag,
    /// `UNDO` without the history entry.
    UndoMissingEntry,
    /// `UNDO` without the confirmation mode.
    UndoMissingConfirmation,
    /// No known request verb.
    Unknown,
}

impl RequestError {
    /// The error message.
    pub open spec fn message_text(&self) -> Seq<char> {
        match self {
            RequestError::AskMissingDirectory => "ASK request is missing current directory"@,
            RequestError::RemoveMissingFlag => "REMOVE request is missing discard-history flag"@,
            RequestError::RemoveUnknownFlag => "REMOVE request has unknown discard-history flag"@,
            RequestError::UndoMissingEntry => "UNDO request is missing history entry"@,
            RequestError::UndoMissingConfirmation => "UNDO request is missing confirmation mode"@,
            RequestError::Unknown => "unknown supervisor request"@,
        }
    }

    /// The error message.
    pub fn message(&self) -> (out: String)
        ensures
            out@ == self.message_text(),
    {
        match self {
            RequestError::AskMissingDirectory => "ASK request is missing current directory".to_string(),
            RequestError::RemoveMissingFlag => "REMOVE request is missing discard-history flag".to_string(),
            RequestError::RemoveUnknownFlag => "REMOVE request has unknown discard-history flag".to_string(),
            RequestError::UndoMissingEntry => "UNDO request is missing history entry".to_string(),
            RequestError::UndoMissingConfirmation => "UNDO request is missing confirmation mode".to_string(),
            RequestError::Unknown => "unknown supervisor request".to_string(),
        }
    }

    /// Only an unknown request is answered with `ERR`; a malformed known
    /// request closes the connection without an answer.
    pub open spec fn is_answered(&self) -> bool {
        self is Unknown
    }

    /// Only an unknown request is answered with `ERR`.
    pub fn answered(&self) -> (r: bool)
        ensures
            r == self.is_answered(),
    {
        match self {
            RequestError::Unknown => true,
            _ => false,
        }
    }
}

/// `s` without all trailing copies of `c` (`trim_end_matches(c)`).
pub open spec fn trim_end_char(s: Seq<char>, c: char) -> Seq<char>
    decreases s.len(),
{
    if s.len() > 0 && s.last() == c {
        trim_end_char(s.drop_last(), c)
    } else {
        s
    }
}

/// The request line without its line ending: trailing newlines, then
/// trailing carriage returns, removed.
pub open spec fn request_body(line: Seq<char>) -> Seq<char> {
    trim_end_char(trim_end_char(line, '\n'), '\r')
}

/// The rest of `s` after the prefix `p`, when `s` starts with it.
pub open spec fn strip_prefix(s: Seq<char>, p: Seq<char>) -> Option<Seq<char>> {
    if starts_with(s, p) {
        Some(s.skip(p.len() as int))
    } else {
        None
    }
}

/// The three fields of an `UNDO` payload (`splitn(3, '\t')`).
pub open spec fn undo_fields(payload: Seq<char>) -> Result<RequestView, RequestError> {
    match split_once(payload, seq!['\t']) {
        None => Err(RequestError::UndoMissingEntry),
        Some((path, rest)) => match split_once(rest, seq!['\t']) {
            None => Err(RequestError::UndoMissingConfirmation),
            Some((entry, confirmation)) => Ok(
                RequestView::Undo {
                    path,
                    history_entry: entry,
                    confirmed: confirmation == "yes"@,
                },
            ),
        },
    }
}

/// What a request line asks for.
pub open spec fn parse_request_spec(line: Seq<char>) -> Result<RequestView, RequestError> {
    let body = request_body(line);
    if let Some(payload) = strip_prefix(body, "ASK\t"@) {
        match split_once(payload, seq!['\t']) {
            Some((cwd, prompt)) => Ok(RequestView::Ask { cwd, prompt }),
            None => Err(RequestError::AskMissingDirectory),
        }
    } else if let Some(path) = strip_prefix(body, "INSTALL "@) {
        Ok(RequestView::Install { path })
    } else if let Some(payload) = strip_prefix(body, "REMOVE\t"@) {
        match split_once(payload, seq!['\t']) {
            Some((path, flag)) => if flag == "discard"@ {
                Ok(RequestView::Remove { path, discard_history: true })
            } else if flag == "keep"@ {
                Ok(RequestView::Remove { path, discard_history: false })
            } else {
                Err(RequestError::RemoveUnknownFlag)
            },
            None => Err(RequestError::RemoveMissingFlag),
        }
    } else if body == "AGENTS"@ {
        Ok(RequestView::Agents)
    } else if let Some(path) = strip_prefix(body, "HISTORY "@) {
        Ok(RequestView::History { path })
    } else if let Some(payload) = strip_prefix(body, "UNDO\t"@) {
        undo_fields(payload)
    } else {
        Err(RequestError::Unknown)
    }
}

/// The view of a parse outcome.
pub open spec fn parsed_view(r: Result<Request, RequestError>) -> Result<RequestView, RequestError> {
    match r {
        Ok(req) => Ok(req@),
        Err(e) => Err(e),
    }
}

pub fn trim_end_char_exec(s: &[char], c: char) -> (out: Vec<char>)
    ensures
        out@ == trim_end_char(s@, c),
{
    let mut n: usize = s.len();
    assert(s@.take(n as int) =~= s@);
    while n > 0 && s[n - 1] == c
        invariant
            n <= s.len(),
            trim_end_char(s@, c) == trim_end_char(s@.take(n as int), c),
        decreases n,
    {
        assert(s@.take(n as int).drop_last() =~= s@.take(n - 1));
        n -= 1;
    }
    let mut out: Vec<char> = Vec::new();
    let mut i: usize = 0;
    while i < n
        invariant
            i <= n <= s.len(),
            out@ == s@.take(i as int),
        decreases n - i,
    {
        out.push(s[i]);
        assert(out@ =~= s@.take(i + 1));
        i += 1;
    }
    out
}

pub fn strip_prefix_exec(s: &[char], p: &str) -> (out: Option<Vec<char>>)
    ensures
        out matches Some(v) ==> strip_prefix(s@, p@) == Some(v@),
        out is None ==> strip_prefix(s@, p@) is None,
{
    if starts_with_str(s, p) {
        let pc = chars_of(p);
        let mut out: Vec<char> = Vec::new();
        let mut i: usize = pc.len();
        while i < s.len()
            invariant
                pc@ == p@,
                pc.len() <= i <= s.len(),
                out@ == s@.subrange(pc.len() as int, i as int),
            decreases s.len() - i,
        {
            out.push(s[i]);
            assert(out@ =~= s@.subrange(pc.len() as int, i + 1));
            i += 1;
        }
        assert(out@ =~= s@.skip(pc.len() as int));
        Some(out)
    } else {
        None
    }
}

/// Reads one request line (as received, possibly with its line ending).
pub fn parse_request(line: &str) -> (r: Result<Request, RequestError>)
    ensures
        parsed_view(r) == parse_request_spec(line@),
{
    let lc = chars_of(line);
    let a = trim_end_char_exec(lc.as_slice(), '\n');
    let body = trim_end_char_exec(a.as_slice(), '\r');
    let tab = vec!['\t'];
    proof {
        assert(tab@ =~= seq!['\t']);
    }
    if let Some(payload) = strip_prefix_exec(body.as_slice(), "ASK\t") {
        return match split_once_exec(payload.as_slice(), tab.as_slice()) {
            Some(p) => Ok(
                Request::Ask { cwd: string_of(p.0.as_slice()), prompt: string_of(p.1.as_slice()) },
            ),
            None => Err(RequestError::AskMissingDirectory),
        };
    }
    if let Some(path) = strip_prefix_exec(body.as_slice(), "INSTALL ") {
        return Ok(Request::Install { path: string_of(path.as_slice()) });
    }
    if let Some(payload) = strip_prefix_exec(body.as_slice(), "REMOVE\t") {
        return match split_once_exec(payload.as_slice(), tab.as_slice()) {
            Some(p) => {
                if chars_eq_str(p.1.as_slice(), "discard") {
                    Ok(Request::Remove { path: string_of(p.0.as_slice()), discard_history: true })
                } else if chars_eq_str(p.1.as_slice(), "keep") {
                    Ok(Request::Remove { path: string_of(p.0.as_slice()), discard_history: false })
                } else {
                    Err(RequestError::RemoveUnknownFlag)
                }
            },
            None => Err(RequestError::RemoveMissingFlag),
        };
    }
    if chars_eq_str(body.as_slice(), "AGENTS") {
        return Ok(Request::Agents);
    }
    if let Some(path) = strip_prefix_exec(body.as_slice(), "HISTORY ") {
        return Ok(Request::History { path: string_of(path.as_slice()) });
    }
    if let Some(payload) = strip_prefix_exec(body.as_slice(), "UNDO\t") {
        return match split_once_exec(payload.as_slice(), tab.as_slice()) {
            None => Err(RequestError::UndoMissingEntry),
            Some(p) => match split_once_exec(p.1.as_slice(), tab.as_slice()) {
                None => Err(RequestError::UndoMissingConfirmation),
                Some(q) => Ok(
                    Request::Undo {
                        path: string_of(p.0.as_slice()),
                        history_entry: string_of(q.0.as_slice()),
                        confirmed: chars_eq_str(q.1.as_slice(), "yes"),
                    },
                ),
            },
        };
    }
    Err(RequestError::Unknown)
}

/// The answer to a served request.
pub open spec fn framed_response(r: Result<Seq<char>, Seq<char>>) -> Seq<char> {
    match r {
        Ok(body) => "OK\n"@ + body,
        Err(message) => "ERR\n"@ + message + seq!['\n'],
    }
}

/// The answer written back on the socket: `OK\n<body>` or
/// `ERR\n<message>\n`.
pub fn frame_response(r: &Result<String, String>) -> (out: String)
    ensures
        out@ == framed_response(match r {
            Ok(b) => Ok(b@),
            Err(m) => Err(m@),
        }),
{
    match r {
        Ok(body) => {
            let mut v = chars_of("OK\n");
            extend_str(&mut v, body.as_str());
            string_of(v.as_slice())
        },
        Err(message) => {
            let mut v = chars_of("ERR\n");
            extend_str(&mut v, message.as_str());
            v.push('\n');
            string_of(v.as_slice())
        },
    }
}

/// The request line (without its newline) that asks for `r`.
pub open spec fn encoded_request(r: RequestView) -> Seq<char> {
    match r {
        RequestView::Ask { cwd, prompt } => "ASK\t"@ + cwd + seq!['\t'] + prompt,
        RequestView::Install { path } => "INSTALL "@ + path,
        RequestView::Remove { path, discard_history } => "REMOVE\t"@ + path + seq!['\t'] + (
        if discard_history {
            "discard"@
        } else {
            "keep"@
        }),
        RequestView::Agents => "AGENTS"@,
        RequestView::History { path } => "HISTORY "@ + path,
        RequestView::Undo { path, history_entry, confirmed } => "UNDO\t"@ + path + seq!['\t']
            + history_entry + seq!['\t'] + (if confirmed {
            "yes"@
        } else {
            "no"@
        }),
    }
}

/// The request line (without its newline) that asks for `r`.
pub fn encode_request(r: &Request) -> (out: String)
    ensures
        out@ == encoded_request(r@),
{
    let mut v: Vec<char> = Vec::new();
    match r {
        Request::Ask { cwd, prompt } => {
            extend_str(&mut v, "ASK\t");
            extend_str(&mut v, cwd.as_str());
            v.push('\t');
            extend_str(&mut v, prompt.as_str());
        },
        Request::Install { path } => {
            extend_str(&mut v, "INSTALL ");
            extend_str(&mut v, path.as_str());
        },
        Request::Remove { path, discard_history } => {
            extend_str(&mut v, "REMOVE\t");
            extend_str(&mut v, path.as_str());
            v.push('\t');
            if *discard_history {
                extend_str(&mut v, "discard");
            } else {
                extend_str(&mut v, "keep");
            }
        },
        Request::Agents => {
            extend_str(&mut v, "AGENTS");
        },
        Request::History { path } => {
            extend_str(&mut v, "HISTORY ");
            extend_str(&mut v, path.as_str());
        },
        Request::Undo { path, history_entry, confirmed } => {
            extend_str(&mut v, "UNDO\t");
            extend_str(&mut v, path.as_str());
            v.push('\t');
            extend_str(&mut v, history_entry.as_str());
            v.push('\t');
            if *confirmed {
                extend_str(&mut v, "yes");
            } else {
                extend_str(&mut v, "no");
            }
        },
    }
    assert(v@ =~= encoded_request(r@));
    string_of(v.as_slice())
}

/// `c` does not occur in `s`.
pub open spec fn lacks(s: Seq<char>, c: char) -> bool {
    forall|i: int| 0 <= i < s.len() ==> s[i] != c
}

/// A field that fits on the request line and does not end it with a
/// carriage return.
pub open spec fn is_last_field(s: Seq<char>) -> bool {
    lacks(s, '\n') && (s.len() == 0 || s.last() != '\r')
}

/// A request whose fields survive the trip over the socket: no field
/// holds a newline, fields followed by another field hold no tab, and the
/// last field does not end with a carriage return.
pub open spec fn is_wire_safe(r: RequestView) -> bool {
    match r {
        RequestView::Ask { cwd, prompt } => lacks(cwd, '\t') && lacks(cwd, '\n') && is_last_field(
            prompt,
        ),
        RequestView::Install { path } => is_last_field(path),
        RequestView::Remove { path, discard_history } => lacks(path, '\t') && lacks(path, '\n'),
        RequestView::Agents => true,
        RequestView::History { path } => is_last_field(path),
        RequestView::Undo { path, history_entry, confirmed } => lacks(path, '\t') && lacks(
            path,
            '\n',
        ) && lacks(history_entry, '\t') && lacks(history_entry, '\n'),
    }
}

pub proof fn lemma_split_once_first(a: Seq<char>, c: char, b: Seq<char>)
    requires
        lacks(a, c),
    ensures
        split_once(a + seq![c] + b, seq![c]) == Some((a, b)),
{
    let s = a + seq![c] + b;
    let pat = seq![c];
    assert(s.subrange(a.len() as int, a.len() as int + 1) =~= pat);
    assert forall|k: int| 0 <= k < a.len() implies !matches_at(s, pat, k) by {
        if matches_at(s, pat, k) {
            assert(s.subrange(k, k + 1)[0] == s[k]);
        }
    }
    lemma_find_from_first(s, pat, 0, a.len() as int);
    assert(s.take(a.len() as int) =~= a);
    assert(s.skip(a.len() as int + 1) =~= b);
}

proof fn lemma_trim_end_char_plain(s: Seq<char>, c: char)
    requires
        s.len() == 0 || s.last() != c,
    ensures
        trim_end_char(s, c) == s,
{
}

pub proof fn lemma_prefix_skip(p: Seq<char>, rest: Seq<char>)
    ensures
        strip_prefix(p + rest, p) == Some(rest),
{
    assert((p + rest).take(p.len() as int) =~= p);
    assert((p + rest).skip(p.len() as int) =~= rest);
}

proof fn lemma_not_prefix(s: Seq<char>, p: Seq<char>, i: int)
    requires
        0 <= i < p.len(),
        i < s.len(),
        s[i] != p[i],
    ensures
        strip_prefix(s, p) is None,
{
    if starts_with(s, p) {
        assert(s.take(p.len() as int)[i] == s[i]);
    }
}

/// A request read back from the line that encodes it is the same request:
/// what the AFS CLI sends is what the supervisor serves.
pub proof fn law_request_round_trip(r: RequestView)
    requires
        is_wire_safe(r),
    ensures
        parse_request_spec(encoded_request(r) + seq!['\n']) == Ok::<RequestView, RequestError>(r),
{
    reveal_strlit("ASK\t");
    reveal_strlit("INSTALL ");
    reveal_strlit("REMOVE\t");
    reveal_strlit("AGENTS");
    reveal_strlit("HISTORY ");
    reveal_strlit("UNDO\t");
    reveal_strlit("discard");
    reveal_strlit("keep");
    reveal_strlit("yes");
    reveal_strlit("no");
    let e = encoded_request(r);
    let line = e + seq!['\n'];
    assert(line.drop_last() =~= e);
    assert(e.len() > 0);
    assert(e.last() != '\n' && e.last() != '\r') by {
        match r {
            RequestView::Ask { cwd, prompt } => {
                if prompt.len() > 0 {
                    assert(e.last() == prompt.last());
                } else {
                    assert(e.last() == '\t');
                }
            },
            RequestView::Install { path } => {
                if path.len() > 0 {
                    assert(e.last() == path.last());
                }
            },
            RequestView::History { path } => {
                if path.len() > 0 {
                    assert(e.last() == path.last());
                }
            },
            _ => {},
        }
    }
    assert(trim_end_char(line, '\n') == trim_end_char(e, '\n'));
    lemma_trim_end_char_plain(e, '\n');
    lemma_trim_end_char_plain(e, '\r');
    assert(request_body(line) == e);
    match r {
        RequestView::Ask { cwd, prompt } => {
            assert(e =~= "ASK\t"@ + (cwd + seq!['\t'] + prompt));
            lemma_prefix_skip("ASK\t"@, cwd + seq!['\t'] + prompt);
            lemma_split_once_first(cwd, '\t', prompt);
        },
        RequestView::Install { path } => {
            lemma_not_prefix(e, "ASK\t"@, 0);
            lemma_prefix_skip("INSTALL "@, path);
        },
        RequestView::Remove { path, discard_history } => {
            lemma_not_prefix(e, "ASK\t"@, 0);
            lemma_not_prefix(e, "INSTALL "@, 0);
            let flag = if discard_history {
                "discard"@
            } else {
                "keep"@
            };
            assert(e =~= "REMOVE\t"@ + (path + seq!['\t'] + flag));
            lemma_prefix_skip("REMOVE\t"@, path + seq!['\t'] + flag);
            lemma_split_once_first(path, '\t', flag);
            assert("discard"@ != "keep"@);
        },
        RequestView::Agents => {
            lemma_not_prefix(e, "ASK\t"@, 1);
            lemma_not_prefix(e, "INSTALL "@, 0);
            lemma_not_prefix(e, "REMOVE\t"@, 0);
        },
        RequestView::History { path } => {
            lemma_not_prefix(e, "ASK\t"@, 0);
            lemma_not_prefix(e, "INSTALL "@, 0);
            lemma_not_prefix(e, "REMOVE\t"@, 0);
            assert(e != "AGENTS"@) by {
                assert(e[0] != "AGENTS"@[0]);
            }
            lemma_prefix_skip("HISTORY "@, path);
        },
        RequestView::Undo { path, history_entry, confirmed } => {
            lemma_not_prefix(e, "ASK\t"@, 0);
            lemma_not_prefix(e, "INSTALL "@, 0);
            lemma_not_prefix(e, "REMOVE\t"@, 0);
            assert(e != "AGENTS"@) by {
                assert(e[0] != "AGENTS"@[0]);
            }
            lemma_not_prefix(e, "HISTORY "@, 0);
            let conf = if confirmed {
                "yes"@
            } else {
                "no"@
            };
            assert(e =~= "UNDO\t"@ + (path + seq!['\t'] + (history_entry + seq!['\t'] + conf)));
            lemma_prefix_skip("UNDO\t"@, path + seq!['\t'] + (history_entry + seq!['\t'] + conf));
            lemma_split_once_first(path, '\t', history_entry + seq!['\t'] + conf);
            lemma_split_once_first(history_entry, '\t', conf);
            assert("no"@ != "yes"@) by {
                assert("no"@.len() != "yes"@.len());
            }
        },
    }
}

} // verus!
