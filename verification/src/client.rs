//! The AFS CLI side of the Supervisor Socket: the request line each
//! command sends, and how the supervisor's answer is read.
use vstd::prelude::*;
use crate::paths::join;
use crate::paths::join_exec;
use crate::protocol::{encode_request, encoded_request, framed_response, Request, RequestView};
use crate::text::{chars_of, string_of, trim_end, trim_end_exec};

verus! {

#[verifier::external_type_specification]
#[verifier::external_body]
pub struct ExIoError(std::io::Error);

/// `std::io::Error::new(ErrorKind::InvalidData, message)`.  The error value
/// is opaque here: nothing is stated of it.
#[verifier::external_body]
fn invalid_data_error(message: String) -> std::io::Error {
    std::io::Error::new(std::io::ErrorKind::InvalidData, message)
}

/// The message of the error for an answer that is neither `OK` nor `ERR`.
pub open spec fn invalid_response_text() -> Seq<char> {
    "supervisor returned an invalid response"@
}

/// The message of the error for an answer that is neither `OK` nor `ERR`.
pub fn invalid_response_message() -> (m: String)
    ensures
        m@ == invalid_response_text(),
{
    "supervisor returned an invalid response".to_string()
}

/// Why a CLI command did not get a successful answer.
#[derive(Debug)]
pub enum Error {
    /// No supervisor listens on the socket.
    DaemonNotRunning,
    /// The supervisor refused the request with this message.
    Supervisor(String),
    /// The exchange itself failed.
    Io(std::io::Error),
}

/// What an answer reads as: the body after `OK\n`, the message after
/// `ERR\n` without trailing whitespace, or an invalid answer.
pub enum AnswerView {
    Body(Seq<char>),
    Refused(Seq<char>),
    Invalid,
}

/// How the supervisor's answer reads.
pub open spec fn read_answer(response: Seq<char>) -> AnswerView {
    if crate::text::starts_with(response, "OK\n"@) {
        AnswerView::Body(response.skip(3))
    } else if crate::text::starts_with(response, "ERR\n"@) {
        AnswerView::Refused(trim_end(response.skip(4)))
    } else {
        AnswerView::Invalid
    }
}

/// The view of a decoded answer.
pub open spec fn answer_view(r: Result<String, Error>) -> AnswerView {
    match r {
        Ok(body) => AnswerView::Body(body@),
        Err(Error::Supervisor(m)) => AnswerView::Refused(m@),
        Err(_) => AnswerView::Invalid,
    }
}

/// Reads the supervisor's answer: `OK\n<body>` gives the body, `ERR\n<msg>`
/// gives the message (trailing whitespace removed), anything else is an
/// I/O error of kind `InvalidData` whose message is
/// `invalid_response_message()`.
pub fn decode_response(response: &str) -> (r: Result<String, Error>)
    ensures
        answer_view(r) == read_answer(response@),
        r matches Err(e) ==> !(e is DaemonNotRunning),
{
    proof {
        reveal_strlit("OK\n");
        reveal_strlit("ERR\n");
    }
    let rc = chars_of(response);
    if crate::text::starts_with_str(rc.as_slice(), "OK\n") {
        let body = crate::text::slice_to_vec(rc.as_slice(), 3, rc.len());
        return Ok(string_of(body.as_slice()));
    }
    if crate::text::starts_with_str(rc.as_slice(), "ERR\n") {
        let rest = crate::text::slice_to_vec(rc.as_slice(), 4, rc.len());
        let msg = trim_end_exec(rest.as_slice());
        return Err(Error::Supervisor(string_of(msg.as_slice())));
    }
    Err(Error::Io(invalid_data_error(invalid_response_message())))
}

/// An answer framed by the supervisor reads back as what was framed: the
/// body of a success, and the message of a refusal without trailing
/// whitespace.
pub proof fn law_response_round_trip(body: Seq<char>, message: Seq<char>)
    ensures
        read_answer(framed_response(Ok(body))) == AnswerView::Body(body),
        read_answer(framed_response(Err(message))) == AnswerView::Refused(
            trim_end(message + seq!['\n']),
        ),
{
    reveal_strlit("OK\n");
    reveal_strlit("ERR\n");
    let a = "OK\n"@ + body;
    assert(a.take(3) =~= "OK\n"@);
    assert(a.skip(3) =~= body);
    let b = "ERR\n"@ + message + seq!['\n'];
    assert(b.take(4) =~= "ERR\n"@);
    assert(b.skip(4) =~= message + seq!['\n']);
    assert(!crate::text::starts_with(b, "OK\n"@)) by {
        assert(b[0] != "OK\n"@[0]);
        assert(b.take(3)[0] == b[0]);
    }
}

/// `path` made absolute against the current directory `cwd`
/// (an absolute `path` is kept as it is).
pub open spec fn absolute(cwd: Seq<char>, path: Seq<char>) -> Seq<char> {
    join(cwd, path)
}

/// The request line for `afs ask <prompt>` run in `cwd`.
pub fn ask(cwd: &str, prompt: &str) -> (out: String)
    ensures
        out@ == encoded_request(RequestView::Ask { cwd: cwd@, prompt: prompt@ }),
{
    encode_request(&Request::Ask { cwd: cwd.to_string(), prompt: prompt.to_string() })
}

/// The request line for `afs install <path>` run in `cwd`.
pub fn install(cwd: &str, path: &str) -> (out: String)
    ensures
        out@ == encoded_request(RequestView::Install { path: absolute(cwd@, path@) }),
{
    encode_request(&Request::Install { path: join_exec(cwd, path) })
}

/// The request line for `afs remove <path> [--discard-history]` run in `cwd`.
pub fn remove(cwd: &str, path: &str, discard_history: bool) -> (out: String)
    ensures
        out@ == encoded_request(
            RequestView::Remove { path: absolute(cwd@, path@), discard_history },
        ),
{
    encode_request(&Request::Remove { path: join_exec(cwd, path), discard_history })
}

/// The request line for `afs agents`.
pub fn agents() -> (out: String)
    ensures
        out@ == encoded_request(RequestView::Agents),
{
    encode_request(&Request::Agents)
}

/// The request line for `afs history <path>` run in `cwd`.
pub fn history(cwd: &str, path: &str) -> (out: String)
    ensures
        out@ == encoded_request(RequestView::History { path: absolute(cwd@, path@) }),
{
    encode_request(&Request::History { path: join_exec(cwd, path) })
}

/// The request line for `afs undo <path> <history-entry> [--yes]` run in `cwd`.
pub fn undo(cwd: &str, path: &str, history_entry: &str, confirmed: bool) -> (out: String)
    ensures
        out@ == encoded_request(
            RequestView::Undo {
                path: absolute(cwd@, path@),
                history_entry: history_entry@,
                confirmed,
            },
        ),
{
    encode_request(
        &Request::Undo {
            path: join_exec(cwd, path),
            history_entry: history_entry.to_string(),
            confirmed,
        },
    )
}


/// `c` is `lower` or its ASCII upper-case form.
pub open spec fn folds_to(c: char, lower: char) -> bool {
    c == lower || ('A' <= c && c <= 'Z' && (c as u32) + 32 == (lower as u32))
}

/// `s` equals the lower-case `word` when ASCII letters are compared without
/// case (`to_ascii_lowercase() == word`).
pub open spec fn is_word_ignoring_case(s: Seq<char>, word: Seq<char>) -> bool {
    s.len() == word.len() && forall|i: int| 0 <= i < s.len() ==> folds_to(#[trigger] s[i], word[i])
}

/// An interactive answer that confirms an undo: `y` or `yes` in any case,
/// around whitespace.
pub open spec fn confirms_spec(answer: Seq<char>) -> bool {
    is_word_ignoring_case(crate::text::trim(answer), "y"@) || is_word_ignoring_case(
        crate::text::trim(answer),
        "yes"@,
    )
}

/// Whether an interactive answer confirms an undo.
pub fn confirms(answer: &str) -> (r: bool)
    ensures
        r == confirms_spec(answer@),
{
    proof {
        reveal_strlit("y");
        reveal_strlit("yes");
    }
    let ac = chars_of(answer);
    let t = crate::text::trim_exec(ac.as_slice());
    let r = if t.len() == 1 {
        t[0] == 'y' || t[0] == 'Y'
    } else if t.len() == 3 {
        (t[0] == 'y' || t[0] == 'Y') && (t[1] == 'e' || t[1] == 'E') && (t[2] == 's' || t[2] == 'S')
    } else {
        false
    };
    proof {
        if t.len() == 1 {
            if !r {
                assert(!folds_to(t@[0], "y"@[0]));
            }
        } else if t.len() == 3 {
            if !r {
                assert(!folds_to(t@[0], "yes"@[0]) || !folds_to(t@[1], "yes"@[1]) || !folds_to(
                    t@[2],
                    "yes"@[2],
                ));
            }
        }
    }
    r
}

} // verus!
