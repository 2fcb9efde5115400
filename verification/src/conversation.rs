//! What the supervisor and the Directory Agents say to each other, and the
//! answers the supervisor composes from it: direct answers, delegated
//! tasks and their replies, and broadcast answers.
use vstd::prelude::*;
use crate::paths::{join, join_exec, path_starts_with, path_starts_with_exec};
use crate::protocol::{strip_prefix, strip_prefix_exec, trim_end_char, trim_end_char_exec};
use crate::text::{
    chars_eq_str, chars_of, decimal, extend_chars, push_decimal, extend_str, join_with, push_joined, split, split_exec,
    split_once, split_once_exec, string_of, string_views, strings_of, trim, trim_exec, views,
};

verus! {

// ---------------------------------------------------------------------------
// Line endings.
// ---------------------------------------------------------------------------

/// `s` without its trailing newlines and carriage returns
/// (`trim_end_matches(['\n', '\r'])`).
pub open spec fn trim_line_end(s: Seq<char>) -> Seq<char>
    decreases s.len(),
{
    if s.len() > 0 && (s.last() == '\n' || s.last() == '\r') {
        trim_line_end(s.drop_last())
    } else {
        s
    }
}

/// `s` without its trailing newlines and carriage returns.
pub fn trim_line_end_exec(s: &[char]) -> (out: Vec<char>)
    ensures
        out@ == trim_line_end(s@),
{
    let mut n: usize = s.len();
    assert(s@.take(n as int) =~= s@);
    while n > 0 && (s[n - 1] == '\n' || s[n - 1] == '\r')
        invariant
            n <= s.len(),
            trim_line_end(s@) == trim_line_end(s@.take(n as int)),
        decreases n,
    {
        assert(s@.take(n as int).drop_last() =~= s@.take(n - 1));
        n -= 1;
    }
    let mut out: Vec<char> = Vec::new();
    let mut i: usize = 0;
    while i < n
        invariant
            i <= n <= s.len(),
            out@ == s@.take(i as int),
        decreases n - i,
    {
        out.push(s[i]);
        assert(out@ =~= s@.take(i + 1));
        i += 1;
    }
    out
}

// ---------------------------------------------------------------------------
// Delegation requests.
// ---------------------------------------------------------------------------

/// Where the reply of a delegated task goes.
#[derive(Debug, Clone, Copy, PartialEq, Eq, Structural)]
pub enum ReplyTarget {
    /// Back to the agent that delegated the task.
    Delegator,
    /// To the supervisor, which composes the answer itself.
    Supervisor,
}

impl ReplyTarget {
    /// The field naming the reply target on the wire.
    pub open spec fn field(self) -> Seq<char> {
        match self {
            ReplyTarget::Delegator => "delegator"@,
            ReplyTarget::Supervisor => "supervisor"@,
        }
    }

    /// The field naming the reply target on the wire.
    pub fn as_protocol_field(&self) -> (f: &'static str)
        ensures
            f@ == self.field(),
    {
        match self {
            ReplyTarget::Delegator => "delegator",
            ReplyTarget::Supervisor => "supervisor",
        }
    }
}

/// The reply target a wire field names.
pub open spec fn reply_target_of(field: Seq<char>) -> Option<ReplyTarget> {
    if field == "delegator"@ {
        Some(ReplyTarget::Delegator)
    } else if field == "supervisor"@ {
        Some(ReplyTarget::Supervisor)
    } else {
        None
    }
}

/// The field of a reply target names it again.
pub proof fn law_reply_target_field_round_trip(t: ReplyTarget)
    ensures
        reply_target_of(t.field()) == Some(t),
{
    reveal_strlit("delegator");
    reveal_strlit("supervisor");
    assert("delegator"@.len() != "supervisor"@.len());
    assert("delegator"@ != "supervisor"@);
}

/// A task that a Directory Agent asks the supervisor to hand to another
/// agent.
#[derive(Debug)]
pub struct DelegateRequest {
    /// The target: an Agent Identity or an absolute path.
    pub target: String,
    pub reply_target: ReplyTarget,
    pub prompt: String,
}

/// The plain contents of a [`DelegateRequest`].
pub struct DelegateRequestView {
    pub target: Seq<char>,
    pub reply_target: ReplyTarget,
    pub prompt: Seq<char>,
}

impl View for DelegateRequest {
    type V = DelegateRequestView;

    open spec fn view(&self) -> DelegateRequestView {
        DelegateRequestView {
            target: self.target@,
            reply_target: self.reply_target,
            prompt: self.prompt@,
        }
    }
}

/// Why a `DELEGATE` line is refused.
#[derive(Debug, Clone, Copy, PartialEq, Eq, Structural)]
pub enum DelegateError {
    MissingTarget,
    MissingReplyTarget,
    MissingPrompt,
    UnknownReplyTarget,
}

impl DelegateError {
    /// The error text.
    pub open spec fn text(self) -> Seq<char> {
        match self {
            DelegateError::MissingTarget => "delegation request is missing target"@,
            DelegateError::MissingReplyTarget => "delegation request is missing reply target"@,
            DelegateError::MissingPrompt => "delegation request is missing prompt"@,
            DelegateError::UnknownReplyTarget =>
                "delegation reply target must be delegator or supervisor"@,
        }
    }

    /// The error text.
    pub fn message(&self) -> (m: String)
        ensures
            m@ == self.text(),
    {
        match self {
            DelegateError::MissingTarget => "delegation request is missing target".to_string(),
            DelegateError::MissingReplyTarget =>
                "delegation request is missing reply target".to_string(),
            DelegateError::MissingPrompt => "delegation request is missing prompt".to_string(),
            DelegateError::UnknownReplyTarget =>
                "delegation reply target must be delegator or supervisor".to_string(),
        }
    }
}

/// What an agent's answer line asks of the supervisor: nothing (a plain
/// answer), a delegated task, or a malformed `DELEGATE` line.
pub open spec fn delegate_request_spec(line: Seq<char>) -> Result<
    Option<DelegateRequestView>,
    DelegateError,
> {
    match strip_prefix(trim_line_end(line), "DELEGATE\t"@) {
        None => Ok(None),
        Some(payload) => match split_once(payload, seq!['\t']) {
            None => if payload.len() == 0 {
                Err(DelegateError::MissingTarget)
            } else {
                Err(DelegateError::MissingReplyTarget)
            },
            Some((target, rest)) => if target.len() == 0 {
                Err(DelegateError::MissingTarget)
            } else {
                match split_once(rest, seq!['\t']) {
                    None => Err(DelegateError::MissingPrompt),
                    Some((field, prompt)) => match reply_target_of(field) {
                        Some(t) => Ok(
                            Some(DelegateRequestView { target, reply_target: t, prompt }),
                        ),
                        None => Err(DelegateError::UnknownReplyTarget),
                    },
                }
            },
        },
    }
}

/// The view of a parsed `DELEGATE` line.
pub open spec fn delegate_view(r: Result<Option<DelegateRequest>, DelegateError>) -> Result<
    Option<DelegateRequestView>,
    DelegateError,
> {
    match r {
        Ok(Some(d)) => Ok(Some(d@)),
        Ok(None) => Ok(None),
        Err(e) => Err(e),
    }
}

/// Reads an agent's answer line: `DELEGATE\t<target>\t<reply target>\t<prompt>`
/// asks for a delegated task; any other line is a plain answer.
pub fn parse_delegate_request(line: &str) -> (r: Result<Option<DelegateRequest>, DelegateError>)
    ensures
        delegate_view(r) == delegate_request_spec(line@),
{
    let lc = chars_of(line);
    let l = trim_line_end_exec(lc.as_slice());
    let tab = vec!['\t'];
    assert(tab@ =~= seq!['\t']);
    let payload = match strip_prefix_exec(l.as_slice(), "DELEGATE\t") {
        None => return Ok(None),
        Some(p) => p,
    };
    let (target, rest) = match split_once_exec(payload.as_slice(), tab.as_slice()) {
        None => {
            if payload.len() == 0 {
                return Err(DelegateError::MissingTarget);
            }
            return Err(DelegateError::MissingReplyTarget);
        },
        Some(p) => p,
    };
    if target.len() == 0 {
        return Err(DelegateError::MissingTarget);
    }
    let (field, prompt) = match split_once_exec(rest.as_slice(), tab.as_slice()) {
        None => return Err(DelegateError::MissingPrompt),
        Some(p) => p,
    };
    let reply_target = if chars_eq_str(field.as_slice(), "delegator") {
        ReplyTarget::Delegator
    } else if chars_eq_str(field.as_slice(), "supervisor") {
        ReplyTarget::Supervisor
    } else {
        return Err(DelegateError::UnknownReplyTarget);
    };
    Ok(
        Some(
            DelegateRequest {
                target: string_of(target.as_slice()),
                reply_target,
                prompt: string_of(prompt.as_slice()),
            },
        ),
    )
}

// ---------------------------------------------------------------------------
// Report lists.
// ---------------------------------------------------------------------------

/// The trimmed, non-empty parts.
pub open spec fn nonempty_trimmed(parts: Seq<Seq<char>>) -> Seq<Seq<char>>
    decreases parts.len(),
{
    if parts.len() == 0 {
        Seq::empty()
    } else {
        let prev = nonempty_trimmed(parts.drop_last());
        let t = trim(parts.last());
        if t.len() > 0 {
            prev.push(t)
        } else {
            prev
        }
    }
}

/// The items of a report list field: none for `none` or a blank field,
/// otherwise the trimmed non-empty `;`-separated parts.
pub open spec fn report_items(field: Seq<char>) -> Seq<Seq<char>> {
    if field == "none"@ || trim(field).len() == 0 {
        Seq::empty()
    } else {
        nonempty_trimmed(split(field, seq![';']))
    }
}

/// Reads a report list field.
pub fn parse_report_list(field: &str) -> (out: Vec<String>)
    ensures
        string_views(out@) == report_items(field@),
{
    let fc = chars_of(field);
    let t = trim_exec(fc.as_slice());
    if chars_eq_str(fc.as_slice(), "none") || t.len() == 0 {
        assert(string_views(Seq::<String>::empty()) =~= Seq::<Seq<char>>::empty());
        return Vec::new();
    }
    let semi = vec![';'];
    assert(semi@ =~= seq![';']);
    let parts = split_exec(fc.as_slice(), semi.as_slice());
    let ghost pv = views(parts@);
    let mut out: Vec<String> = Vec::new();
    let mut i: usize = 0;
    while i < parts.len()
        invariant
            i <= parts.len(),
            pv == views(parts@),
            string_views(out@) == nonempty_trimmed(pv.take(i as int)),
        decreases parts.len() - i,
    {
        assert(pv.take(i + 1).drop_last() =~= pv.take(i as int));
        assert(pv.take(i + 1).last() == parts@[i as int]@);
        let item = trim_exec(parts[i].as_slice());
        if item.len() > 0 {
            let ghost before = string_views(out@);
            out.push(string_of(item.as_slice()));
            assert(string_views(out@) =~= before.push(item@));
        }
        i += 1;
    }
    assert(pv.take(parts.len() as int) =~= pv);
    out
}

/// A report list field: `none` for no items, else the items joined with
/// `, `.
pub open spec fn report_field(values: Seq<Seq<char>>) -> Seq<char> {
    if values.len() == 0 {
        "none"@
    } else {
        join_with(values, ", "@)
    }
}

/// Writes a report list field.
pub fn report_list(values: &[String]) -> (out: String)
    ensures
        out@ == report_field(string_views(values@)),
{
    if values.len() == 0 {
        return "none".to_string();
    }
    let mut v: Vec<char> = Vec::new();
    push_joined(&mut v, values, ", ");
    assert(v@ =~= report_field(string_views(values@)));
    string_of(v.as_slice())
}

// ---------------------------------------------------------------------------
// Task replies.
// ---------------------------------------------------------------------------

/// The reply of an agent to a delegated task.
#[derive(Debug)]
pub struct TaskReply {
    pub agent_identity: String,
    pub answer: String,
    pub changed_files: Vec<String>,
    pub history_entries: Vec<String>,
}

/// The plain contents of a [`TaskReply`].
pub struct TaskReplyView {
    pub agent_identity: Seq<char>,
    pub answer: Seq<char>,
    pub changed_files: Seq<Seq<char>>,
    pub history_entries: Seq<Seq<char>>,
}

impl View for TaskReply {
    type V = TaskReplyView;

    open spec fn view(&self) -> TaskReplyView {
        TaskReplyView {
            agent_identity: self.agent_identity@,
            answer: self.answer@,
            changed_files: string_views(self.changed_files@),
            history_entries: string_views(self.history_entries@),
        }
    }
}

/// The reply read from an agent's task answer line: a
/// `TASK_REPLY\t<answer>\t<changed files>\t<history entries>` line, or any
/// other line as the answer alone.
pub open spec fn task_reply_spec(line: Seq<char>, identity: Seq<char>) -> TaskReplyView {
    let l = trim_line_end(line);
    match strip_prefix(l, "TASK_REPLY\t"@) {
        None => TaskReplyView {
            agent_identity: identity,
            answer: l,
            changed_files: Seq::empty(),
            history_entries: Seq::empty(),
        },
        Some(p) => match split_once(p, seq!['\t']) {
            None => TaskReplyView {
                agent_identity: identity,
                answer: p,
                changed_files: Seq::empty(),
                history_entries: Seq::empty(),
            },
            Some((answer, rest)) => match split_once(rest, seq!['\t']) {
                None => TaskReplyView {
                    agent_identity: identity,
                    answer,
                    changed_files: report_items(rest),
                    history_entries: Seq::empty(),
                },
                Some((changed, entries)) => TaskReplyView {
                    agent_identity: identity,
                    answer,
                    changed_files: report_items(changed),
                    history_entries: report_items(entries),
                },
            },
        },
    }
}

/// Reads an agent's answer to a delegated task.
pub fn parse_task_reply(line: &str, agent_identity: &str) -> (r: TaskReply)
    ensures
        r@ == task_reply_spec(line@, agent_identity@),
{
    let lc = chars_of(line);
    let l = trim_line_end_exec(lc.as_slice());
    let tab = vec!['\t'];
    assert(tab@ =~= seq!['\t']);
    let empty: Vec<String> = Vec::new();
    assert(string_views(empty@) =~= Seq::<Seq<char>>::empty());
    let p = match strip_prefix_exec(l.as_slice(), "TASK_REPLY\t") {
        None => {
            return TaskReply {
                agent_identity: agent_identity.to_string(),
                answer: string_of(l.as_slice()),
                changed_files: Vec::new(),
                history_entries: Vec::new(),
            };
        },
        Some(p) => p,
    };
    match split_once_exec(p.as_slice(), tab.as_slice()) {
        None => TaskReply {
            agent_identity: agent_identity.to_string(),
            answer: string_of(p.as_slice()),
            changed_files: Vec::new(),
            history_entries: Vec::new(),
        },
        Some((answer, rest)) => match split_once_exec(rest.as_slice(), tab.as_slice()) {
            None => {
                let rs = string_of(rest.as_slice());
                TaskReply {
                    agent_identity: agent_identity.to_string(),
                    answer: string_of(answer.as_slice()),
                    changed_files: parse_report_list(rs.as_str()),
                    history_entries: Vec::new(),
                }
            },
            Some((changed, entries)) => {
                let cs = string_of(changed.as_slice());
                let es = string_of(entries.as_slice());
                TaskReply {
                    agent_identity: agent_identity.to_string(),
                    answer: string_of(answer.as_slice()),
                    changed_files: parse_report_list(cs.as_str()),
                    history_entries: parse_report_list(es.as_str()),
                }
            },
        },
    }
}


// ---------------------------------------------------------------------------
// Answers to a path-scoped question.
// ---------------------------------------------------------------------------

/// `s` ending with a newline: unchanged when it has one, else with one
/// appended.
pub open spec fn with_newline(s: Seq<char>) -> Seq<char> {
    if s.len() > 0 && s.last() == '\n' {
        s
    } else {
        s.push('\n')
    }
}

/// Appends a newline unless `v` already ends with one.
fn end_line(v: &mut Vec<char>)
    ensures
        final(v)@ == with_newline(old(v)@),
{
    if v.len() == 0 || v[v.len() - 1] != '\n' {
        v.push('\n');
    }
}

/// The lines that close every path-scoped answer: the referenced path and
/// the warming-index caveat.
pub open spec fn reference_block(requested_path: Seq<char>) -> Seq<char> {
    "references:\n- "@ + requested_path
        + "\ncaveat: local index is warming; answer may be incomplete\n"@
}

fn push_reference_block(v: &mut Vec<char>, requested_path: &str)
    ensures
        final(v)@ == old(v)@ + reference_block(requested_path@),
{
    extend_str(v, "references:\n- ");
    extend_str(v, requested_path);
    extend_str(v, "\ncaveat: local index is warming; answer may be incomplete\n");
    assert(v@ =~= old(v)@ + reference_block(requested_path@));
}

/// The answer of the owning agent, as the AFS CLI prints it.
pub open spec fn direct_response(answer: Seq<char>, requested_path: Seq<char>, identity: Seq<char>) -> Seq<
    char,
> {
    with_newline(answer) + reference_block(requested_path) + "participating_agents: "@ + identity
        + "\nchanged_files: none\n"@
}

/// The answer of the owning agent, as the AFS CLI prints it.
pub fn format_direct_ask_response(answer: &str, requested_path: &str, agent_identity: &str) -> (out:
    String)
    ensures
        out@ == direct_response(answer@, requested_path@, agent_identity@),
{
    let mut v = chars_of(answer);
    end_line(&mut v);
    push_reference_block(&mut v, requested_path);
    extend_str(&mut v, "participating_agents: ");
    extend_str(&mut v, agent_identity);
    extend_str(&mut v, "\nchanged_files: none\n");
    assert(v@ =~= direct_response(answer@, requested_path@, agent_identity@));
    string_of(v.as_slice())
}

/// The answer of the delegating agent after the delegated agent's reply
/// was delivered back to it.
pub open spec fn delegator_response(
    answer: Seq<char>,
    reply: TaskReplyView,
    requested_path: Seq<char>,
    requester_identity: Seq<char>,
) -> Seq<char> {
    with_newline(answer) + reference_block(requested_path) + "participating_agents: "@
        + requester_identity + ", "@ + reply.agent_identity + "\nchanged_files: "@ + report_field(
        reply.changed_files,
    ) + "\nhistory_entries: "@ + report_field(reply.history_entries) + seq!['\n']
}

/// The answer of the delegating agent after the delegated agent's reply
/// was delivered back to it.
pub fn format_delegated_delegator_response(
    answer: &str,
    reply: &TaskReply,
    requested_path: &str,
    requester_identity: &str,
) -> (out: String)
    ensures
        out@ == delegator_response(answer@, reply@, requested_path@, requester_identity@),
{
    let mut v = chars_of(answer);
    end_line(&mut v);
    push_reference_block(&mut v, requested_path);
    extend_str(&mut v, "participating_agents: ");
    extend_str(&mut v, requester_identity);
    extend_str(&mut v, ", ");
    extend_str(&mut v, reply.agent_identity.as_str());
    extend_str(&mut v, "\nchanged_files: ");
    let c = report_list(reply.changed_files.as_slice());
    extend_str(&mut v, c.as_str());
    extend_str(&mut v, "\nhistory_entries: ");
    let h = report_list(reply.history_entries.as_slice());
    extend_str(&mut v, h.as_str());
    v.push('\n');
    assert(v@ =~= delegator_response(answer@, reply@, requested_path@, requester_identity@));
    string_of(v.as_slice())
}

/// `s` without repeats, each item kept where it first occurs.
pub open spec fn dedup(s: Seq<Seq<char>>) -> Seq<Seq<char>>
    decreases s.len(),
{
    if s.len() == 0 {
        Seq::empty()
    } else {
        let p = dedup(s.drop_last());
        if p.contains(s.last()) {
            p
        } else {
            p.push(s.last())
        }
    }
}

/// `v` holds a string equal to `s`.
pub fn contains_string(v: &Vec<String>, s: &str) -> (r: bool)
    ensures
        r == string_views(v@).contains(s@),
{
    let sc = chars_of(s);
    let mut i: usize = 0;
    while i < v.len()
        invariant
            i <= v.len(),
            sc@ == s@,
            forall|k: int| 0 <= k < i ==> v@[k]@ != s@,
        decreases v.len() - i,
    {
        let vc = chars_of(v[i].as_str());
        if crate::text::chars_eq(vc.as_slice(), sc.as_slice()) {
            assert(string_views(v@)[i as int] == s@);
            return true;
        }
        i += 1;
    }
    assert forall|k: int| 0 <= k < string_views(v@).len() implies string_views(v@)[k] != s@ by {
        assert(string_views(v@)[k] == v@[k]@);
    }
    false
}

/// The agents that took part in a supervised delegation: the requester,
/// then each replying agent once, in order of first reply.
pub open spec fn participants(requester: Seq<char>, reply_identities: Seq<Seq<char>>) -> Seq<Seq<char>> {
    dedup(seq![requester] + reply_identities)
}

/// The Agent Identities of the replies.
pub open spec fn reply_identities(replies: Seq<TaskReply>) -> Seq<Seq<char>> {
    Seq::new(replies.len(), |i: int| replies[i].agent_identity@)
}

/// The agents that took part in a supervised delegation, each once.
pub fn participating_agents(requester_identity: &str, replies: &Vec<TaskReply>) -> (out: Vec<String>)
    ensures
        string_views(out@) == participants(requester_identity@, reply_identities(replies@)),
{
    let ghost all = seq![requester_identity@] + reply_identities(replies@);
    let mut out: Vec<String> = Vec::new();
    out.push(requester_identity.to_string());
    assert(all.take(1).drop_last() =~= Seq::<Seq<char>>::empty());
    assert(dedup(all.take(1).drop_last()) =~= Seq::<Seq<char>>::empty());
    assert(all.take(1).last() == requester_identity@);
    assert(!Seq::<Seq<char>>::empty().contains(requester_identity@));
    assert(dedup(all.take(1)) =~= seq![requester_identity@]);
    assert(string_views(out@) =~= dedup(all.take(1)));
    let mut i: usize = 0;
    while i < replies.len()
        invariant
            i <= replies.len(),
            all == seq![requester_identity@] + reply_identities(replies@),
            string_views(out@) == dedup(all.take(i + 1)),
        decreases replies.len() - i,
    {
        assert(all.take(i + 2).drop_last() =~= all.take(i + 1));
        assert(all.take(i + 2).last() == replies@[i as int].agent_identity@);
        let id = replies[i].agent_identity.as_str();
        if !contains_string(&out, id) {
            let ghost before = string_views(out@);
            out.push(id.to_string());
            assert(string_views(out@) =~= before.push(id@));
        }
        i += 1;
    }
    assert(all.take(replies.len() + 1) =~= all);
    out
}

/// The changed files of the replies, in order.
pub open spec fn all_changed_files(replies: Seq<TaskReplyView>) -> Seq<Seq<char>>
    decreases replies.len(),
{
    if replies.len() == 0 {
        Seq::empty()
    } else {
        all_changed_files(replies.drop_last()) + replies.last().changed_files
    }
}

/// The history entries of the replies, in order.
pub open spec fn all_history_entries(replies: Seq<TaskReplyView>) -> Seq<Seq<char>>
    decreases replies.len(),
{
    if replies.len() == 0 {
        Seq::empty()
    } else {
        all_history_entries(replies.drop_last()) + replies.last().history_entries
    }
}

/// The views of the replies.
pub open spec fn reply_views(replies: Seq<TaskReply>) -> Seq<TaskReplyView> {
    Seq::new(replies.len(), |i: int| replies[i]@)
}

/// Appends copies of the strings of `from` to `to`.
fn append_strings(to: &mut Vec<String>, from: &Vec<String>)
    ensures
        string_views(final(to)@) == string_views(old(to)@) + string_views(from@),
{
    let mut i: usize = 0;
    while i < from.len()
        invariant
            i <= from.len(),
            string_views(to@) == string_views(old(to)@) + string_views(from@).take(i as int),
        decreases from.len() - i,
    {
        let ghost before = string_views(to@);
        to.push(from[i].clone());
        assert(string_views(to@) =~= before.push(from@[i as int]@));
        assert(string_views(to@) =~= string_views(old(to)@) + string_views(from@).take(i + 1));
        i += 1;
    }
    assert(string_views(from@).take(from.len() as int) =~= string_views(from@));
}

/// The changed files (`files` true) or history entries of all replies.
fn collect_reports(replies: &Vec<TaskReply>, files: bool) -> (out: Vec<String>)
    ensures
        string_views(out@) == if files {
            all_changed_files(reply_views(replies@))
        } else {
            all_history_entries(reply_views(replies@))
        },
{
    let ghost rv = reply_views(replies@);
    let mut out: Vec<String> = Vec::new();
    let mut i: usize = 0;
    assert(string_views(out@) =~= Seq::<Seq<char>>::empty());
    while i < replies.len()
        invariant
            i <= replies.len(),
            rv == reply_views(replies@),
            string_views(out@) == if files {
                all_changed_files(rv.take(i as int))
            } else {
                all_history_entries(rv.take(i as int))
            },
        decreases replies.len() - i,
    {
        assert(rv.take(i + 1).drop_last() =~= rv.take(i as int));
        assert(rv.take(i + 1).last() == replies@[i as int]@);
        if files {
            append_strings(&mut out, &replies[i].changed_files);
        } else {
            append_strings(&mut out, &replies[i].history_entries);
        }
        i += 1;
    }
    assert(rv.take(replies.len() as int) =~= rv);
    out
}

/// The lines `- agent=<identity>` and the indented answer, for each reply.
pub open spec fn answer_lines(replies: Seq<TaskReplyView>) -> Seq<char>
    decreases replies.len(),
{
    if replies.len() == 0 {
        Seq::empty()
    } else {
        answer_lines(replies.drop_last()) + "- agent="@ + replies.last().agent_identity + "\n  "@
            + replies.last().answer + seq!['\n']
    }
}

/// Each line followed by a newline.
pub open spec fn line_block(lines: Seq<Seq<char>>) -> Seq<char>
    decreases lines.len(),
{
    if lines.len() == 0 {
        Seq::empty()
    } else {
        line_block(lines.drop_last()) + lines.last() + seq!['\n']
    }
}

/// Appends each string followed by a newline.
fn push_line_block(v: &mut Vec<char>, lines: &Vec<String>)
    ensures
        final(v)@ == old(v)@ + line_block(string_views(lines@)),
{
    let ghost lv = string_views(lines@);
    let mut i: usize = 0;
    while i < lines.len()
        invariant
            i <= lines.len(),
            lv == string_views(lines@),
            v@ == old(v)@ + line_block(lv.take(i as int)),
        decreases lines.len() - i,
    {
        assert(lv.take(i + 1).drop_last() =~= lv.take(i as int));
        assert(lv.take(i + 1).last() == lines@[i as int]@);
        extend_str(v, lines[i].as_str());
        v.push('\n');
        assert(v@ =~= old(v)@ + line_block(lv.take(i + 1)));
        i += 1;
    }
    assert(lv.take(lines.len() as int) =~= lv);
}

/// The replies and the queue progress of a supervised delegation.
pub struct DelegationOutcome {
    pub replies: Vec<TaskReply>,
    pub progress: Vec<String>,
}

/// The answer the supervisor composes from the replies of a supervised
/// delegation: the single answer, or each agent's answer, then the queue
/// progress, the references, every participating agent once, and what the
/// tasks changed.
pub open spec fn supervisor_response(
    replies: Seq<TaskReplyView>,
    progress: Seq<Seq<char>>,
    requested_path: Seq<char>,
    requester_identity: Seq<char>,
) -> Seq<char> {
    (if replies.len() == 1 {
        with_newline(replies[0].answer)
    } else {
        "answers:\n"@ + answer_lines(replies)
    }) + line_block(progress) + reference_block(requested_path) + "participating_agents: "@
        + join_with(
        participants(requester_identity, Seq::new(replies.len(), |i: int| replies[i].agent_identity)),
        ", "@,
    ) + "\nchanged_files: "@ + report_field(all_changed_files(replies)) + "\nhistory_entries: "@
        + report_field(all_history_entries(replies)) + seq!['\n']
}

/// The answer the supervisor composes from a supervised delegation.
pub fn format_delegated_supervisor_response(
    outcome: &DelegationOutcome,
    requested_path: &str,
    requester_identity: &str,
) -> (out: String)
    ensures
        out@ == supervisor_response(
            reply_views(outcome.replies@),
            string_views(outcome.progress@),
            requested_path@,
            requester_identity@,
        ),
{
    let replies = &outcome.replies;
    let ghost rv = reply_views(replies@);
    let mut v: Vec<char> = Vec::new();
    if replies.len() == 1 {
        extend_str(&mut v, replies[0].answer.as_str());
        end_line(&mut v);
        assert(v@ =~= with_newline(rv[0].answer));
    } else {
        extend_str(&mut v, "answers:\n");
        let mut i: usize = 0;
        while i < replies.len()
            invariant
                i <= replies.len(),
                rv == reply_views(replies@),
                v@ == "answers:\n"@ + answer_lines(rv.take(i as int)),
            decreases replies.len() - i,
        {
            assert(rv.take(i + 1).drop_last() =~= rv.take(i as int));
            assert(rv.take(i + 1).last() == replies@[i as int]@);
            extend_str(&mut v, "- agent=");
            extend_str(&mut v, replies[i].agent_identity.as_str());
            extend_str(&mut v, "\n  ");
            extend_str(&mut v, replies[i].answer.as_str());
            v.push('\n');
            assert(v@ =~= "answers:\n"@ + answer_lines(rv.take(i + 1)));
            i += 1;
        }
        assert(rv.take(replies.len() as int) =~= rv);
    }
    let ghost head = v@;
    push_line_block(&mut v, &outcome.progress);
    push_reference_block(&mut v, requested_path);
    extend_str(&mut v, "participating_agents: ");
    let who = participating_agents(requester_identity, replies);
    push_joined(&mut v, who.as_slice(), ", ");
    extend_str(&mut v, "\nchanged_files: ");
    let changed = collect_reports(replies, true);
    let c = report_list(changed.as_slice());
    extend_str(&mut v, c.as_str());
    extend_str(&mut v, "\nhistory_entries: ");
    let entries = collect_reports(replies, false);
    let h = report_list(entries.as_slice());
    extend_str(&mut v, h.as_str());
    v.push('\n');
    assert(reply_identities(replies@) =~= Seq::new(rv.len(), |i: int| rv[i].agent_identity));
    assert(v@ =~= supervisor_response(
        rv,
        string_views(outcome.progress@),
        requested_path@,
        requester_identity@,
    ));
    string_of(v.as_slice())
}


// ---------------------------------------------------------------------------
// Broadcast answers.
// ---------------------------------------------------------------------------

/// `a` sorts before `b` (`str` order: lexicographic by character).
pub open spec fn lex_less(a: Seq<char>, b: Seq<char>) -> bool
    decreases a.len(),
{
    if a.len() == 0 {
        b.len() > 0
    } else if b.len() == 0 {
        false
    } else if a[0] != b[0] {
        a[0] < b[0]
    } else {
        lex_less(a.drop_first(), b.drop_first())
    }
}

/// `a` sorts before `b`.
pub fn lex_less_exec(a: &[char], b: &[char]) -> (r: bool)
    ensures
        r == lex_less(a@, b@),
{
    let mut i: usize = 0;
    assert(a@.skip(0) =~= a@);
    assert(b@.skip(0) =~= b@);
    while i < a.len() && i < b.len() && a[i] == b[i]
        invariant
            i <= a.len(),
            i <= b.len(),
            lex_less(a@, b@) == lex_less(a@.skip(i as int), b@.skip(i as int)),
        decreases a.len() - i,
    {
        assert(a@.skip(i as int).drop_first() =~= a@.skip(i + 1));
        assert(b@.skip(i as int).drop_first() =~= b@.skip(i + 1));
        i += 1;
    }
    if i == a.len() {
        i < b.len()
    } else if i == b.len() {
        false
    } else {
        assert(a@.skip(i as int)[0] == a@[i as int]);
        assert(b@.skip(i as int)[0] == b@[i as int]);
        a[i] < b[i]
    }
}

/// `x` added to the sorted `sorted` unless it is there already.
pub open spec fn insert_sorted(sorted: Seq<Seq<char>>, x: Seq<char>) -> Seq<Seq<char>>
    decreases sorted.len(),
{
    if sorted.len() == 0 {
        seq![x]
    } else if sorted[0] == x {
        sorted
    } else if lex_less(x, sorted[0]) {
        seq![x] + sorted
    } else {
        seq![sorted[0]] + insert_sorted(sorted.drop_first(), x)
    }
}

/// The items of `s`, sorted, each once (a `BTreeSet` of them, in order).
pub open spec fn sorted_unique(s: Seq<Seq<char>>) -> Seq<Seq<char>>
    decreases s.len(),
{
    if s.len() == 0 {
        Seq::empty()
    } else {
        insert_sorted(sorted_unique(s.drop_last()), s.last())
    }
}

proof fn lemma_insert_sorted_at(v: Seq<Seq<char>>, x: Seq<char>, i: int)
    requires
        0 <= i <= v.len(),
        forall|k: int| 0 <= k < i ==> v[k] != x && !lex_less(x, #[trigger] v[k]),
    ensures
        insert_sorted(v, x) == v.take(i) + insert_sorted(v.skip(i), x),
    decreases i,
{
    if i > 0 {
        assert(v[0] != x && !lex_less(x, v[0]));
        let t = v.drop_first();
        assert forall|k: int| 0 <= k < i - 1 implies t[k] != x && !lex_less(x, #[trigger] t[k]) by {
            assert(t[k] == v[k + 1]);
        }
        lemma_insert_sorted_at(t, x, i - 1);
        assert(t.skip(i - 1) =~= v.skip(i));
        assert(v.take(i) =~= seq![v[0]] + t.take(i - 1));
    } else {
        assert(v.skip(0) =~= v);
        assert(v.take(0) + insert_sorted(v, x) =~= insert_sorted(v, x));
    }
}

/// Adds `x` to the sorted list `v` unless it is there already.
fn insert_sorted_exec(v: &mut Vec<String>, x: &str)
    ensures
        string_views(final(v)@) == insert_sorted(string_views(old(v)@), x@),
{
    let ghost sv = string_views(v@);
    let xc = chars_of(x);
    let mut i: usize = 0;
    while i < v.len()
        invariant
            i <= v.len(),
            sv == string_views(v@),
            xc@ == x@,
            sv == string_views(old(v)@),
            v@ == old(v)@,
            forall|k: int| 0 <= k < i ==> sv[k] != x@ && !lex_less(x@, #[trigger] sv[k]),
        decreases v.len() - i,
    {
        let vc = chars_of(v[i].as_str());
        assert(sv[i as int] == vc@);
        if crate::text::chars_eq(vc.as_slice(), xc.as_slice()) {
            proof {
                lemma_insert_sorted_at(sv, x@, i as int);
                assert(sv.skip(i as int)[0] == x@);
                assert(sv.take(i as int) + sv.skip(i as int) =~= sv);
            }
            return;
        }
        if lex_less_exec(xc.as_slice(), vc.as_slice()) {
            proof {
                lemma_insert_sorted_at(sv, x@, i as int);
                assert(sv.skip(i as int)[0] == vc@);
            }
            v.insert(i, x.to_string());
            assert(string_views(v@) =~= sv.take(i as int) + (seq![x@] + sv.skip(i as int)));
            return;
        }
        i += 1;
    }
    proof {
        lemma_insert_sorted_at(sv, x@, i as int);
        assert(sv.skip(i as int) =~= Seq::<Seq<char>>::empty());
        assert(sv.take(i as int) =~= sv);
    }
    v.push(x.to_string());
    assert(string_views(v@) =~= sv.push(x@));
}

/// The strings of `items`, sorted, each once.
pub fn sort_unique(items: &Vec<String>) -> (out: Vec<String>)
    ensures
        string_views(out@) == sorted_unique(string_views(items@)),
{
    let ghost iv = string_views(items@);
    let mut out: Vec<String> = Vec::new();
    let mut i: usize = 0;
    assert(string_views(out@) =~= sorted_unique(iv.take(0)));
    while i < items.len()
        invariant
            i <= items.len(),
            iv == string_views(items@),
            string_views(out@) == sorted_unique(iv.take(i as int)),
        decreases items.len() - i,
    {
        assert(iv.take(i + 1).drop_last() =~= iv.take(i as int));
        assert(iv.take(i + 1).last() == items@[i as int]@);
        insert_sorted_exec(&mut out, items[i].as_str());
        i += 1;
    }
    assert(iv.take(items.len() as int) =~= iv);
    out
}

/// A file reference of a broadcast reply, as a path: relative references
/// are taken inside the agent's Managed Directory; blank ones and those
/// outside it are dropped.
pub open spec fn normalized_reference(reference: Seq<char>, managed_dir: Seq<char>) -> Option<
    Seq<char>,
> {
    let t = trim(reference);
    if t.len() == 0 {
        None
    } else if path_starts_with(join(managed_dir, t), managed_dir) {
        Some(join(managed_dir, t))
    } else {
        None
    }
}

/// A file reference of a broadcast reply, as a path inside the agent's
/// Managed Directory.
pub fn normalize_broadcast_reference(reference: &str, managed_dir: &str) -> (r: Option<String>)
    ensures
        r matches Some(p) ==> normalized_reference(reference@, managed_dir@) == Some(p@),
        r is None ==> normalized_reference(reference@, managed_dir@) is None,
{
    let rc = chars_of(reference);
    let t = trim_exec(rc.as_slice());
    if t.len() == 0 {
        return None;
    }
    let ts = string_of(t.as_slice());
    let p = join_exec(managed_dir, ts.as_str());
    if path_starts_with_exec(p.as_str(), managed_dir) {
        Some(p)
    } else {
        None
    }
}

/// The references kept from the `;`-separated parts.
pub open spec fn kept_references(parts: Seq<Seq<char>>, managed_dir: Seq<char>) -> Seq<Seq<char>>
    decreases parts.len(),
{
    if parts.len() == 0 {
        Seq::empty()
    } else {
        let prev = kept_references(parts.drop_last(), managed_dir);
        match normalized_reference(parts.last(), managed_dir) {
            Some(p) => prev.push(p),
            None => prev,
        }
    }
}

/// The reply of one agent to a broadcast question.
#[derive(Debug)]
pub struct BroadcastReply {
    pub agent_identity: String,
    pub managed_dir: String,
    /// `possible` or `strong`.
    pub relevance: String,
    pub reason: String,
    pub answer: String,
    pub file_references: Vec<String>,
}

/// The plain contents of a [`BroadcastReply`].
pub struct BroadcastReplyView {
    pub agent_identity: Seq<char>,
    pub managed_dir: Seq<char>,
    pub relevance: Seq<char>,
    pub reason: Seq<char>,
    pub answer: Seq<char>,
    pub file_references: Seq<Seq<char>>,
}

impl View for BroadcastReply {
    type V = BroadcastReplyView;

    open spec fn view(&self) -> BroadcastReplyView {
        BroadcastReplyView {
            agent_identity: self.agent_identity@,
            managed_dir: self.managed_dir@,
            relevance: self.relevance@,
            reason: self.reason@,
            answer: self.answer@,
            file_references: string_views(self.file_references@),
        }
    }
}

/// The broadcast reply read from an agent's line
/// `<relevance>\t<reason>\t<answer>[\t<references>]`; `None` when the agent
/// declared itself not relevant or the line lacks a field.
pub open spec fn broadcast_reply_spec(line: Seq<char>, identity: Seq<char>, managed_dir: Seq<char>) -> Option<
    BroadcastReplyView,
> {
    let l = trim_end_char(line, '\r');
    match split_once(l, seq!['\t']) {
        None => None,
        Some((relevance, r1)) => if relevance != "possible"@ && relevance != "strong"@ {
            None
        } else {
            match split_once(r1, seq!['\t']) {
                None => None,
                Some((reason, r2)) => {
                    let (answer, refs) = match split_once(r2, seq!['\t']) {
                        None => (r2, Seq::<char>::empty()),
                        Some((a, r)) => (a, r),
                    };
                    Some(
                        BroadcastReplyView {
                            agent_identity: identity,
                            managed_dir,
                            relevance,
                            reason,
                            answer,
                            file_references: kept_references(split(refs, seq![';']), managed_dir),
                        },
                    )
                },
            }
        },
    }
}

/// The view of an optional broadcast reply.
pub open spec fn broadcast_view(r: Option<BroadcastReply>) -> Option<BroadcastReplyView> {
    match r {
        Some(b) => Some(b@),
        None => None,
    }
}

/// Reads an agent's answer to a broadcast question.
pub fn parse_broadcast_reply(line: &str, agent_identity: &str, managed_dir: &str) -> (r: Option<
    BroadcastReply,
>)
    ensures
        broadcast_view(r) == broadcast_reply_spec(line@, agent_identity@, managed_dir@),
{
    let lc = chars_of(line);
    let l = trim_end_char_exec(lc.as_slice(), '\r');
    let tab = vec!['\t'];
    assert(tab@ =~= seq!['\t']);
    let (relevance, r1) = match split_once_exec(l.as_slice(), tab.as_slice()) {
        None => return None,
        Some(p) => p,
    };
    if !chars_eq_str(relevance.as_slice(), "possible") && !chars_eq_str(
        relevance.as_slice(),
        "strong",
    ) {
        return None;
    }
    let (reason, r2) = match split_once_exec(r1.as_slice(), tab.as_slice()) {
        None => return None,
        Some(p) => p,
    };
    let (answer, refs) = match split_once_exec(r2.as_slice(), tab.as_slice()) {
        None => (r2, Vec::new()),
        Some(p) => p,
    };
    let semi = vec![';'];
    assert(semi@ =~= seq![';']);
    let parts = split_exec(refs.as_slice(), semi.as_slice());
    let ghost pv = views(parts@);
    let mut kept: Vec<String> = Vec::new();
    let mut i: usize = 0;
    while i < parts.len()
        invariant
            i <= parts.len(),
            pv == views(parts@),
            string_views(kept@) == kept_references(pv.take(i as int), managed_dir@),
        decreases parts.len() - i,
    {
        assert(pv.take(i + 1).drop_last() =~= pv.take(i as int));
        assert(pv.take(i + 1).last() == parts@[i as int]@);
        let part = string_of(parts[i].as_slice());
        match normalize_broadcast_reference(part.as_str(), managed_dir) {
            Some(p) => {
                let ghost before = string_views(kept@);
                kept.push(p);
                assert(string_views(kept@) =~= before.push(kept@.last()@));
            },
            None => {},
        }
        i += 1;
    }
    assert(pv.take(parts.len() as int) =~= pv);
    Some(
        BroadcastReply {
            agent_identity: agent_identity.to_string(),
            managed_dir: managed_dir.to_string(),
            relevance: string_of(relevance.as_slice()),
            reason: string_of(reason.as_slice()),
            answer: string_of(answer.as_slice()),
            file_references: kept,
        },
    )
}

/// The file references of the replies, in order.
pub open spec fn all_references(replies: Seq<BroadcastReplyView>) -> Seq<Seq<char>>
    decreases replies.len(),
{
    if replies.len() == 0 {
        Seq::empty()
    } else {
        all_references(replies.drop_last()) + replies.last().file_references
    }
}

/// The answer lines of the broadcast replies.
pub open spec fn broadcast_answer_lines(replies: Seq<BroadcastReplyView>) -> Seq<char>
    decreases replies.len(),
{
    if replies.len() == 0 {
        Seq::empty()
    } else {
        let r = replies.last();
        broadcast_answer_lines(replies.drop_last()) + "- agent="@ + r.agent_identity
            + " managed_dir="@ + r.managed_dir + " relevance="@ + r.relevance + " reason="@
            + r.reason + "\n  "@ + r.answer + seq!['\n']
    }
}

/// The reference lines of a broadcast answer.
pub open spec fn reference_lines(refs: Seq<Seq<char>>) -> Seq<char>
    decreases refs.len(),
{
    if refs.len() == 0 {
        Seq::empty()
    } else {
        reference_lines(refs.drop_last()) + "- "@ + refs.last() + seq!['\n']
    }
}

/// The answer to a question that names no path: every relevant agent's
/// answer, the references of all of them sorted and each once, and the
/// broadcast timeout.
pub open spec fn broadcast_response(replies: Seq<BroadcastReplyView>, timeout_ms: nat) -> Seq<char> {
    let refs = sorted_unique(all_references(replies));
    let ids = Seq::new(replies.len(), |i: int| replies[i].agent_identity);
    (if replies.len() == 0 {
        "no relevant agents replied before broadcast timeout\n"@
    } else {
        "answers:\n"@ + broadcast_answer_lines(replies)
    }) + "references:\n"@ + (if refs.len() == 0 {
        "- none\n"@
    } else {
        reference_lines(refs)
    }) + "participating_agents: "@ + (if replies.len() == 0 {
        "none"@
    } else {
        join_with(ids, ", "@)
    }) + "\nchanged_files: none\nbroadcast_timeout_ms: "@ + decimal(timeout_ms) + seq!['\n']
}

/// The views of the broadcast replies.
pub open spec fn broadcast_views(replies: Seq<BroadcastReply>) -> Seq<BroadcastReplyView> {
    Seq::new(replies.len(), |i: int| replies[i]@)
}

/// The answer to a question that names no path.
pub fn format_broadcast_ask_response(replies: &Vec<BroadcastReply>, timeout_ms: u64) -> (out: String)
    ensures
        out@ == broadcast_response(broadcast_views(replies@), timeout_ms as nat),
{
    let ghost rv = broadcast_views(replies@);
    let mut v: Vec<char> = Vec::new();
    let mut all: Vec<String> = Vec::new();
    let mut ids: Vec<String> = Vec::new();
    if replies.len() == 0 {
        extend_str(&mut v, "no relevant agents replied before broadcast timeout\n");
    } else {
        extend_str(&mut v, "answers:\n");
    }
    let ghost head = v@;
    let mut i: usize = 0;
    assert(string_views(all@) =~= all_references(rv.take(0)));
    assert(string_views(ids@) =~= Seq::new(0, |k: int| rv[k].agent_identity));
    while i < replies.len()
        invariant
            i <= replies.len(),
            rv == broadcast_views(replies@),
            v@ == head + broadcast_answer_lines(rv.take(i as int)),
            string_views(all@) == all_references(rv.take(i as int)),
            string_views(ids@) == Seq::new(i as nat, |k: int| rv[k].agent_identity),
        decreases replies.len() - i,
    {
        let r = &replies[i];
        assert(rv.take(i + 1).drop_last() =~= rv.take(i as int));
        assert(rv.take(i + 1).last() == r@);
        extend_str(&mut v, "- agent=");
        extend_str(&mut v, r.agent_identity.as_str());
        extend_str(&mut v, " managed_dir=");
        extend_str(&mut v, r.managed_dir.as_str());
        extend_str(&mut v, " relevance=");
        extend_str(&mut v, r.relevance.as_str());
        extend_str(&mut v, " reason=");
        extend_str(&mut v, r.reason.as_str());
        extend_str(&mut v, "\n  ");
        extend_str(&mut v, r.answer.as_str());
        v.push('\n');
        assert(v@ =~= head + broadcast_answer_lines(rv.take(i + 1)));
        append_strings(&mut all, &r.file_references);
        let ghost before = string_views(ids@);
        ids.push(r.agent_identity.clone());
        assert(rv[i as int] == r@);
        assert(string_views(ids@) =~= before.push(r.agent_identity@));
        assert(string_views(ids@) =~= Seq::new((i + 1) as nat, |k: int| rv[k].agent_identity));
        i += 1;
    }
    assert(rv.take(replies.len() as int) =~= rv);
    let refs = sort_unique(&all);
    let ghost rs = string_views(refs@);
    extend_str(&mut v, "references:\n");
    if refs.len() == 0 {
        extend_str(&mut v, "- none\n");
    } else {
        let ghost start = v@;
        let mut j: usize = 0;
        while j < refs.len()
            invariant
                j <= refs.len(),
                rs == string_views(refs@),
                v@ == start + reference_lines(rs.take(j as int)),
            decreases refs.len() - j,
        {
            assert(rs.take(j + 1).drop_last() =~= rs.take(j as int));
            assert(rs.take(j + 1).last() == refs@[j as int]@);
            extend_str(&mut v, "- ");
            extend_str(&mut v, refs[j].as_str());
            v.push('\n');
            assert(v@ =~= start + reference_lines(rs.take(j + 1)));
            j += 1;
        }
        assert(rs.take(refs.len() as int) =~= rs);
    }
    extend_str(&mut v, "participating_agents: ");
    if replies.len() == 0 {
        extend_str(&mut v, "none");
    } else {
        push_joined(&mut v, ids.as_slice(), ", ");
    }
    extend_str(&mut v, "\nchanged_files: none\nbroadcast_timeout_ms: ");
    push_decimal(&mut v, timeout_ms as u128);
    v.push('\n');
    assert(v@ =~= broadcast_response(rv, timeout_ms as nat));
    string_of(v.as_slice())
}


// ---------------------------------------------------------------------------
// The order of the broadcast references.
// ---------------------------------------------------------------------------

/// Each item sorts strictly before every later one.
pub open spec fn strictly_sorted(s: Seq<Seq<char>>) -> bool {
    forall|i: int, j: int| 0 <= i < j < s.len() ==> lex_less(#[trigger] s[i], #[trigger] s[j])
}

pub proof fn lemma_lex_irreflexive(a: Seq<char>)
    ensures
        !lex_less(a, a),
    decreases a.len(),
{
    if a.len() > 0 {
        lemma_lex_irreflexive(a.drop_first());
    }
}

pub proof fn lemma_lex_transitive(a: Seq<char>, b: Seq<char>, c: Seq<char>)
    requires
        lex_less(a, b),
        lex_less(b, c),
    ensures
        lex_less(a, c),
    decreases a.len(),
{
    if a.len() > 0 && b.len() > 0 && c.len() > 0 && a[0] == b[0] && b[0] == c[0] {
        lemma_lex_transitive(a.drop_first(), b.drop_first(), c.drop_first());
    }
}

pub proof fn lemma_lex_total(a: Seq<char>, b: Seq<char>)
    requires
        a != b,
    ensures
        lex_less(a, b) || lex_less(b, a),
    decreases a.len(),
{
    if a.len() > 0 && b.len() > 0 && a[0] == b[0] {
        if a.drop_first() == b.drop_first() {
            assert(a =~= seq![a[0]] + a.drop_first());
            assert(b =~= seq![b[0]] + b.drop_first());
        }
        lemma_lex_total(a.drop_first(), b.drop_first());
    } else if a.len() == 0 && b.len() == 0 {
        assert(a =~= b);
    }
}

proof fn lemma_insert_sorted(v: Seq<Seq<char>>, x: Seq<char>)
    requires
        strictly_sorted(v),
    ensures
        strictly_sorted(insert_sorted(v, x)),
        forall|y: Seq<char>| #[trigger] insert_sorted(v, x).contains(y) <==> (v.contains(y) || y == x),
    decreases v.len(),
{
    let r = insert_sorted(v, x);
    if v.len() == 0 {
        assert forall|y: Seq<char>| #[trigger] r.contains(y) <==> (v.contains(y) || y == x) by {
            if r.contains(y) {
                let k = choose|k: int| 0 <= k < r.len() && r[k] == y;
                assert(k == 0);
            }
            if y == x {
                assert(r[0] == y);
            }
        }
    } else if v[0] == x {
        assert forall|y: Seq<char>| #[trigger] r.contains(y) <==> (v.contains(y) || y == x) by {
            if y == x {
                assert(v[0] == y);
            }
        }
    } else if lex_less(x, v[0]) {
        assert forall|i: int, j: int| 0 <= i < j < r.len() implies lex_less(
            #[trigger] r[i],
            #[trigger] r[j],
        ) by {
            if i == 0 {
                assert(r[j] == v[j - 1]);
                if j - 1 > 0 {
                    assert(lex_less(v[0], v[j - 1]));
                    lemma_lex_transitive(x, v[0], v[j - 1]);
                }
            } else {
                assert(r[i] == v[i - 1] && r[j] == v[j - 1]);
            }
        }
        assert forall|y: Seq<char>| #[trigger] r.contains(y) <==> (v.contains(y) || y == x) by {
            if r.contains(y) {
                let k = choose|k: int| 0 <= k < r.len() && r[k] == y;
                if k > 0 {
                    assert(v[k - 1] == y);
                }
            }
            if v.contains(y) {
                let k = choose|k: int| 0 <= k < v.len() && v[k] == y;
                assert(r[k + 1] == y);
            }
            if y == x {
                assert(r[0] == y);
            }
        }
    } else {
        lemma_lex_total(x, v[0]);
        let t = v.drop_first();
        assert forall|i: int, j: int| 0 <= i < j < t.len() implies lex_less(
            #[trigger] t[i],
            #[trigger] t[j],
        ) by {
            assert(t[i] == v[i + 1] && t[j] == v[j + 1]);
        }
        lemma_insert_sorted(t, x);
        let rt = insert_sorted(t, x);
        assert(r == seq![v[0]] + rt);
        assert forall|k: int| 0 <= k < rt.len() implies lex_less(v[0], #[trigger] rt[k]) by {
            assert(rt.contains(rt[k]));
            if rt[k] != x {
                let m = choose|m: int| 0 <= m < t.len() && t[m] == rt[k];
                assert(v[m + 1] == rt[k]);
            }
        }
        assert forall|i: int, j: int| 0 <= i < j < r.len() implies lex_less(
            #[trigger] r[i],
            #[trigger] r[j],
        ) by {
            if i == 0 {
                assert(r[j] == rt[j - 1]);
            } else {
                assert(r[i] == rt[i - 1] && r[j] == rt[j - 1]);
            }
        }
        assert forall|y: Seq<char>| #[trigger] r.contains(y) <==> (v.contains(y) || y == x) by {
            if r.contains(y) {
                let k = choose|k: int| 0 <= k < r.len() && r[k] == y;
                if k > 0 {
                    assert(rt[k - 1] == y);
                    assert(rt.contains(y));
                    if t.contains(y) {
                        let m = choose|m: int| 0 <= m < t.len() && t[m] == y;
                        assert(v[m + 1] == y);
                    }
                } else {
                    assert(v[0] == y);
                }
            }
            if v.contains(y) {
                let k = choose|k: int| 0 <= k < v.len() && v[k] == y;
                if k > 0 {
                    assert(t[k - 1] == y);
                    assert(rt.contains(y));
                    let m = choose|m: int| 0 <= m < rt.len() && rt[m] == y;
                    assert(r[m + 1] == y);
                } else {
                    assert(r[0] == y);
                }
            }
            if y == x {
                assert(rt.contains(y));
                let m = choose|m: int| 0 <= m < rt.len() && rt[m] == y;
                assert(r[m + 1] == y);
            }
        }
    }
}

/// The references of a broadcast answer are sorted, without repeats, and
/// are exactly the references that the replies gave.
pub proof fn law_references_sorted_unique(s: Seq<Seq<char>>)
    ensures
        strictly_sorted(sorted_unique(s)),
        forall|y: Seq<char>| #[trigger] sorted_unique(s).contains(y) <==> s.contains(y),
    decreases s.len(),
{
    if s.len() > 0 {
        law_references_sorted_unique(s.drop_last());
        lemma_insert_sorted(sorted_unique(s.drop_last()), s.last());
        assert forall|y: Seq<char>| #[trigger] sorted_unique(s).contains(y) <==> s.contains(y) by {
            if s.drop_last().contains(y) {
                let k = choose|k: int| 0 <= k < s.drop_last().len() && s.drop_last()[k] == y;
                assert(s[k] == y);
            }
            if s.contains(y) {
                let k = choose|k: int| 0 <= k < s.len() && s[k] == y;
                if k < s.len() - 1 {
                    assert(s.drop_last()[k] == y);
                }
            }
        }
    }
}


// ---------------------------------------------------------------------------
// Messages to a Directory Agent.
// ---------------------------------------------------------------------------

/// The lines that ask the owning agent about a path.
pub open spec fn ask_lines(requested_path: Seq<char>, prompt: Seq<char>) -> Seq<char> {
    "ASK\n"@ + requested_path + seq!['\n'] + prompt + seq!['\n']
}

/// The lines that ask the owning agent about a path.
pub fn agent_ask_message(requested_path: &str, prompt: &str) -> (m: String)
    ensures
        m@ == ask_lines(requested_path@, prompt@),
{
    let mut v = chars_of("ASK\n");
    extend_str(&mut v, requested_path);
    v.push('\n');
    extend_str(&mut v, prompt);
    v.push('\n');
    string_of(v.as_slice())
}

/// The lines that put a question to every agent.
pub fn broadcast_message(prompt: &str) -> (m: String)
    ensures
        m@ == "BROADCAST\n"@ + prompt@ + seq!['\n'],
{
    let mut v = chars_of("BROADCAST\n");
    extend_str(&mut v, prompt);
    v.push('\n');
    string_of(v.as_slice())
}

/// The lines that hand a delegated task to its target agent.
pub open spec fn task_lines(requester: Seq<char>, reply_target: ReplyTarget, prompt: Seq<char>) -> Seq<
    char,
> {
    "TASK\n"@ + requester + seq!['\n'] + reply_target.field() + seq!['\n'] + prompt + seq!['\n']
}

/// The lines that hand a delegated task to its target agent.
pub fn task_message(requester_identity: &str, reply_target: ReplyTarget, prompt: &str) -> (m: String)
    ensures
        m@ == task_lines(requester_identity@, reply_target, prompt@),
{
    let mut v = chars_of("TASK\n");
    extend_str(&mut v, requester_identity);
    v.push('\n');
    extend_str(&mut v, reply_target.as_protocol_field());
    v.push('\n');
    extend_str(&mut v, prompt);
    v.push('\n');
    string_of(v.as_slice())
}

/// The lines that deliver a delegated agent's reply to the delegator.
pub open spec fn delegated_reply_lines(reply: TaskReplyView) -> Seq<char> {
    "DELEGATED_REPLY\n"@ + reply.agent_identity + seq!['\n'] + reply.answer + seq!['\n']
        + report_field(reply.changed_files) + seq!['\n'] + report_field(reply.history_entries)
        + seq!['\n']
}

/// The lines that deliver a delegated agent's reply to the delegator.
pub fn delegated_reply_message(reply: &TaskReply) -> (m: String)
    ensures
        m@ == delegated_reply_lines(reply@),
{
    let mut v = chars_of("DELEGATED_REPLY\n");
    extend_str(&mut v, reply.agent_identity.as_str());
    v.push('\n');
    extend_str(&mut v, reply.answer.as_str());
    v.push('\n');
    let c = report_list(reply.changed_files.as_slice());
    extend_str(&mut v, c.as_str());
    v.push('\n');
    let h = report_list(reply.history_entries.as_slice());
    extend_str(&mut v, h.as_str());
    v.push('\n');
    string_of(v.as_slice())
}


// ---------------------------------------------------------------------------
// Laws of the exchange.
// ---------------------------------------------------------------------------

/// The `DELEGATE` line an agent writes to delegate a task.
pub open spec fn delegate_line(r: DelegateRequestView) -> Seq<char> {
    "DELEGATE\t"@ + r.target + seq!['\t'] + r.reply_target.field() + seq!['\t'] + r.prompt
}

/// A `DELEGATE` line is read back as the task it describes, when the target
/// is non-empty and holds no tab, and the prompt does not end in a line
/// ending.
pub proof fn law_delegate_line_round_trip(r: DelegateRequestView)
    requires
        r.target.len() > 0,
        crate::protocol::lacks(r.target, '\t'),
        r.prompt.len() == 0 || (r.prompt.last() != '\n' && r.prompt.last() != '\r'),
    ensures
        delegate_request_spec(delegate_line(r) + seq!['\n']) == Ok::<
            Option<DelegateRequestView>,
            DelegateError,
        >(Some(r)),
{
    reveal_strlit("DELEGATE\t");
    reveal_strlit("delegator");
    reveal_strlit("supervisor");
    let l = delegate_line(r);
    assert((l + seq!['\n']).drop_last() =~= l);
    assert(l.len() > 0);
    if r.prompt.len() > 0 {
        assert(l.last() == r.prompt.last());
    } else {
        assert(l.last() == '\t');
    }
    assert(trim_line_end(l + seq!['\n']) == trim_line_end(l));
    assert(trim_line_end(l) == l);
    let f = r.reply_target.field();
    assert(l =~= "DELEGATE\t"@ + (r.target + seq!['\t'] + (f + seq!['\t'] + r.prompt)));
    crate::protocol::lemma_prefix_skip("DELEGATE\t"@, r.target + seq!['\t'] + (f + seq!['\t'] + r.prompt));
    crate::protocol::lemma_split_once_first(r.target, '\t', f + seq!['\t'] + r.prompt);
    assert(crate::protocol::lacks(f, '\t')) by {
        assert(f.len() == 9 || f.len() == 10);
    }
    crate::protocol::lemma_split_once_first(f, '\t', r.prompt);
    law_reply_target_field_round_trip(r.reply_target);
}

proof fn lemma_dedup(s: Seq<Seq<char>>)
    ensures
        forall|i: int, j: int|
            0 <= i < j < dedup(s).len() ==> #[trigger] dedup(s)[i] != #[trigger] dedup(s)[j],
        forall|x: Seq<char>| #[trigger] dedup(s).contains(x) <==> s.contains(x),
        s.len() > 0 ==> dedup(s).len() > 0 && dedup(s)[0] == s[0],
    decreases s.len(),
{
    if s.len() > 0 {
        let t = s.drop_last();
        lemma_dedup(t);
        let p = dedup(t);
        assert forall|x: Seq<char>| #[trigger] dedup(s).contains(x) <==> s.contains(x) by {
            if t.contains(x) {
                let k = choose|k: int| 0 <= k < t.len() && t[k] == x;
                assert(s[k] == x);
            }
            if s.contains(x) {
                let k = choose|k: int| 0 <= k < s.len() && s[k] == x;
                if k < s.len() - 1 {
                    assert(t[k] == x);
                }
            }
            if !p.contains(s.last()) {
                if p.push(s.last()).contains(x) {
                    let k = choose|k: int| 0 <= k < p.push(s.last()).len() && p.push(s.last())[k] == x;
                    if k < p.len() {
                        assert(p[k] == x);
                    }
                }
                if p.contains(x) {
                    let k = choose|k: int| 0 <= k < p.len() && p[k] == x;
                    assert(p.push(s.last())[k] == x);
                }
                if x == s.last() {
                    assert(p.push(s.last())[p.len() as int] == x);
                }
            }
        }
        if t.len() == 0 {
            assert(p =~= Seq::<Seq<char>>::empty());
        }
    }
}

/// Every agent that took part in a supervised delegation is listed once:
/// the requester first, then only agents that replied, none twice.
pub proof fn law_participants_each_once(requester: Seq<char>, reply_identities: Seq<Seq<char>>)
    ensures
        participants(requester, reply_identities).len() > 0,
        participants(requester, reply_identities)[0] == requester,
        forall|i: int, j: int|
            0 <= i < j < participants(requester, reply_identities).len() ==> #[trigger] participants(
                requester,
                reply_identities,
            )[i] != #[trigger] participants(requester, reply_identities)[j],
        forall|x: Seq<char>|
            #[trigger] participants(requester, reply_identities).contains(x) <==> (x == requester
                || reply_identities.contains(x)),
{
    let s = seq![requester] + reply_identities;
    lemma_dedup(s);
    assert forall|x: Seq<char>| #[trigger] s.contains(x) <==> (x == requester
        || reply_identities.contains(x)) by {
        if s.contains(x) {
            let k = choose|k: int| 0 <= k < s.len() && s[k] == x;
            if k > 0 {
                assert(reply_identities[k - 1] == x);
            }
        }
        if x == requester {
            assert(s[0] == x);
        }
        if reply_identities.contains(x) {
            let k = choose|k: int| 0 <= k < reply_identities.len() && reply_identities[k] == x;
            assert(s[k + 1] == x);
        }
    }
}


/// Every file reference kept from a broadcast reply lies inside the
/// replying agent's Managed Directory.
pub proof fn law_broadcast_references_inside(parts: Seq<Seq<char>>, managed_dir: Seq<char>)
    ensures
        forall|k: int|
            0 <= k < kept_references(parts, managed_dir).len() ==> path_starts_with(
                #[trigger] kept_references(parts, managed_dir)[k],
                managed_dir,
            ),
    decreases parts.len(),
{
    if parts.len() > 0 {
        law_broadcast_references_inside(parts.drop_last(), managed_dir);
        let prev = kept_references(parts.drop_last(), managed_dir);
        let all = kept_references(parts, managed_dir);
        assert forall|k: int| 0 <= k < all.len() implies path_starts_with(
            #[trigger] all[k],
            managed_dir,
        ) by {
            if k < prev.len() {
                assert(all[k] == prev[k]);
            }
        }
    }
}

} // verus!
