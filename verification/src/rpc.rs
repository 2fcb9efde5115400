//! The JSONL JSON-RPC conversation with a Pi Agent Runtime: line framing
//! on `\n` only, the events the runtime emits, the commands sent to it,
//! and the decisions of one prompt-to-`agent_end` turn.
use vstd::prelude::*;
use crate::conversation::DelegateRequest;
use crate::text::{chars_of, decimal, extend_str, push_decimal, string_of, string_views};

verus! {

// ---------------------------------------------------------------------------
// Line framing.
// ---------------------------------------------------------------------------

/// The text `String::from_utf8_lossy` decodes from `bytes`.
pub uninterp spec fn utf8_lossy(bytes: Seq<u8>) -> Seq<char>;

/// `String::from_utf8_lossy`: the text of the bytes, each invalid sequence
/// replaced by U+FFFD.  Only its being this function of the bytes is
/// stated.
#[verifier::external_body]
fn decode_utf8_lossy(bytes: &[u8]) -> (s: String)
    ensures
        s@ == utf8_lossy(bytes@),
{
    String::from_utf8_lossy(bytes).into_owned()
}

/// The bytes of a line without one trailing carriage return.
pub open spec fn without_cr(bytes: Seq<u8>) -> Seq<u8> {
    if bytes.len() > 0 && bytes.last() == 13u8 {
        bytes.drop_last()
    } else {
        bytes
    }
}

/// A line's text: its bytes without a trailing `\r`, decoded.
pub fn decode_line(bytes: &[u8]) -> (s: String)
    ensures
        s@ == utf8_lossy(without_cr(bytes@)),
{
    if bytes.len() > 0 && bytes[bytes.len() - 1] == 13u8 {
        let mut v: Vec<u8> = Vec::new();
        let mut i: usize = 0;
        while i + 1 < bytes.len()
            invariant
                bytes.len() > 0,
                i + 1 <= bytes.len(),
                v@ == bytes@.take(i as int),
            decreases bytes.len() - i,
        {
            v.push(bytes[i]);
            assert(v@ =~= bytes@.take(i + 1));
            i += 1;
        }
        assert(v@ =~= without_cr(bytes@));
        decode_utf8_lossy(v.as_slice())
    } else {
        decode_utf8_lossy(bytes)
    }
}

/// Why a runtime line could not be read or decoded: its class and message.
#[derive(Debug)]
pub struct LineError {
    pub kind: TurnErrorKind,
    pub message: String,
}

impl LineError {
    /// The class of the error.
    pub fn kind(&self) -> (k: TurnErrorKind)
        ensures
            k == self.kind,
    {
        self.kind
    }
}

/// The message for a stream that ends inside a line.
pub open spec fn mid_line_message() -> Seq<char> {
    "Pi RPC stream ended mid-line"@
}

/// The error for a stream that ends inside a line.
fn mid_line_error() -> (e: LineError)
    ensures
        e.kind == TurnErrorKind::UnexpectedEof,
        e.message@ == mid_line_message(),
{
    LineError { kind: TurnErrorKind::UnexpectedEof, message: "Pi RPC stream ended mid-line".to_string() }
}

/// A line read from a stream byte by byte: at its `\n` the line's text; at
/// the end of the stream nothing when no byte was read, else an error of
/// kind `UnexpectedEof`.
pub fn frame_line(buffer: &[u8], at_newline: bool) -> (r: Result<Option<String>, LineError>)
    ensures
        at_newline ==> (r matches Ok(Some(line)) && line@ == utf8_lossy(without_cr(buffer@))),
        !at_newline && buffer@.len() == 0 ==> r matches Ok(None),
        !at_newline && buffer@.len() > 0 ==> (r matches Err(e) && e.kind == TurnErrorKind::UnexpectedEof
            && e.message@ == mid_line_message()),
{
    if at_newline {
        Ok(Some(decode_line(buffer)))
    } else if buffer.len() == 0 {
        Ok(None)
    } else {
        Err(mid_line_error())
    }
}

/// The position of the first `\n` in `s`.
pub open spec fn newline_at(s: Seq<u8>, from: int) -> Option<int>
    decreases s.len() - from,
{
    if from < 0 || from >= s.len() {
        None
    } else if s[from] == 10u8 {
        Some(from)
    } else {
        newline_at(s, from + 1)
    }
}

proof fn lemma_newline_at_bounds(s: Seq<u8>, from: int)
    requires
        0 <= from,
    ensures
        newline_at(s, from) matches Some(k) ==> from <= k < s.len() && s[k] == 10u8,
    decreases s.len() - from,
{
    if from < s.len() && s[from] != 10u8 {
        lemma_newline_at_bounds(s, from + 1);
    }
}

/// Records written one per line: each record followed by `\n`.
pub open spec fn jsonl_text(records: Seq<Seq<u8>>) -> Seq<u8>
    decreases records.len(),
{
    if records.len() == 0 {
        Seq::empty()
    } else {
        records[0] + seq![10u8] + jsonl_text(records.drop_first())
    }
}

/// No `\n` stands between `from` and `to`, so the first one at or after
/// `from` is the first one at or after `to`.
proof fn lemma_newline_at_skips(s: Seq<u8>, from: int, to: int)
    requires
        0 <= from <= to <= s.len(),
        forall|i: int| from <= i < to ==> s[i] != 10u8,
    ensures
        newline_at(s, from) == newline_at(s, to),
    decreases to - from,
{
    if from < to {
        lemma_newline_at_skips(s, from + 1, to);
    }
}

/// Records that hold no `\n`, written one per line, are read back in
/// order: the first line of the text is the first record, and after it
/// stand the lines of the other records.  With the contract of
/// `JsonlReader::read_line`, each read gives the next record (without one
/// trailing `\r`, decoded) and a read after the last gives `Ok(None)`;
/// other line separators and inner `\r` stay in the records.
pub proof fn law_records_read_in_order(records: Seq<Seq<u8>>)
    requires
        records.len() > 0,
        forall|k: int, j: int|
            0 <= k < records.len() && 0 <= j < records[k].len() ==> #[trigger] records[k][j] != 10u8,
    ensures
        newline_at(jsonl_text(records), 0) == Some(records[0].len() as int),
        jsonl_text(records).take(records[0].len() as int) == records[0],
        jsonl_text(records).skip(records[0].len() as int + 1) == jsonl_text(records.drop_first()),
{
    let t = jsonl_text(records);
    let first = records[0];
    let rest = jsonl_text(records.drop_first());
    assert(t == first + seq![10u8] + rest);
    assert forall|i: int| 0 <= i < first.len() implies t[i] != 10u8 by {
        assert(t[i] == first[i]);
        assert(records[0][i] != 10u8);
    }
    lemma_newline_at_skips(t, 0, first.len() as int);
    assert(t[first.len() as int] == 10u8);
    assert(t.take(first.len() as int) =~= first);
    assert(t.skip(first.len() as int + 1) =~= rest);
}

/// What is left of unread bytes after one line is read: the bytes after
/// the first `\n`, or nothing when there is none.
pub open spec fn read_step(rem: Seq<u8>) -> Seq<u8> {
    match newline_at(rem, 0) {
        Some(i) => rem.skip(i + 1),
        None => Seq::empty(),
    }
}

/// What is left of unread bytes after `k` lines are read.
pub open spec fn remaining_after(rem: Seq<u8>, k: nat) -> Seq<u8>
    decreases k,
{
    if k == 0 {
        rem
    } else {
        read_step(remaining_after(rem, (k - 1) as nat))
    }
}

/// After `k` reads of records written one per line, the unread bytes are
/// the lines of the records from `k` on.
proof fn lemma_remaining_after_records(records: Seq<Seq<u8>>, k: nat)
    requires
        k <= records.len(),
        forall|m: int, j: int|
            0 <= m < records.len() && 0 <= j < records[m].len() ==> #[trigger] records[m][j] != 10u8,
    ensures
        remaining_after(jsonl_text(records), k) == jsonl_text(records.skip(k as int)),
    decreases k,
{
    if k == 0 {
        assert(records.skip(0) =~= records);
    } else {
        let p = (k - 1) as nat;
        lemma_remaining_after_records(records, p);
        let rest = records.skip(p as int);
        assert forall|m: int, j: int| 0 <= m < rest.len() && 0 <= j < rest[m].len() implies #[trigger] rest[m][j]
            != 10u8 by {
            assert(rest[m] == records[m + p]);
        }
        law_records_read_in_order(rest);
        assert(rest.drop_first() =~= records.skip(k as int));
    }
}

/// Records that hold no `\n`, written one per line, are read back one per
/// read and in order: before the `k`-th read the first line of the unread
/// bytes is record `k` (so `JsonlReader::read_line` gives it without one
/// trailing `\r`, decoded), and after the last record nothing is left (so
/// the next read gives `Ok(None)`).
pub proof fn law_reads_return_records(records: Seq<Seq<u8>>)
    requires
        forall|m: int, j: int|
            0 <= m < records.len() && 0 <= j < records[m].len() ==> #[trigger] records[m][j] != 10u8,
    ensures
        forall|k: nat|
            k < records.len() ==> newline_at(#[trigger] remaining_after(jsonl_text(records), k), 0)
                == Some(records[k as int].len() as int) && remaining_after(jsonl_text(records), k).take(
                records[k as int].len() as int,
            ) == records[k as int],
        remaining_after(jsonl_text(records), records.len()) == Seq::<u8>::empty(),
{
    assert forall|k: nat| k < records.len() implies newline_at(
        #[trigger] remaining_after(jsonl_text(records), k),
        0,
    ) == Some(records[k as int].len() as int) && remaining_after(jsonl_text(records), k).take(
        records[k as int].len() as int,
    ) == records[k as int] by {
        lemma_remaining_after_records(records, k);
        let rest = records.skip(k as int);
        assert forall|m: int, j: int| 0 <= m < rest.len() && 0 <= j < rest[m].len() implies #[trigger] rest[m][j]
            != 10u8 by {
            assert(rest[m] == records[m + k]);
        }
        law_records_read_in_order(rest);
        assert(rest[0] == records[k as int]);
    }
    lemma_remaining_after_records(records, records.len());
    assert(records.skip(records.len() as int) =~= Seq::<Seq<u8>>::empty());
}

/// A JSONL reader over the bytes a runtime wrote: records end at `\n`
/// only, never at other Unicode line separators.
pub struct JsonlReader {
    input: Vec<u8>,
    pos: usize,
}

impl JsonlReader {
    #[verifier::type_invariant]
    spec fn inv(self) -> bool {
        self.pos <= self.input.len()
    }

    /// The bytes not read yet.
    pub closed spec fn remaining(self) -> Seq<u8> {
        self.input@.skip(self.pos as int)
    }

    /// A reader over `input`.
    pub fn new(input: &[u8]) -> (r: Self)
        ensures
            r.remaining() == input@,
    {
        let mut v: Vec<u8> = Vec::new();
        let mut i: usize = 0;
        while i < input.len()
            invariant
                i <= input.len(),
                v@ == input@.take(i as int),
            decreases input.len() - i,
        {
            v.push(input[i]);
            assert(v@ =~= input@.take(i + 1));
            i += 1;
        }
        assert(v@.skip(0) =~= input@);
        JsonlReader { input: v, pos: 0 }
    }

    /// Reads one line.  `Ok(None)` at the end of the input; an error of
    /// kind `UnexpectedEof` when the input ends inside a line; otherwise
    /// the line without its `\n` and one trailing `\r`.
    pub fn read_line(&mut self) -> (r: Result<Option<String>, LineError>)
        ensures
            final(self).remaining() == read_step(old(self).remaining()),
            match newline_at(old(self).remaining(), 0) {
                Some(k) => r matches Ok(Some(line)) && line@ == utf8_lossy(
                    without_cr(old(self).remaining().take(k)),
                ) && final(self).remaining() == old(self).remaining().skip(k + 1),
                None => final(self).remaining() == Seq::<u8>::empty() && (if old(
                    self,
                ).remaining().len() == 0 {
                    r matches Ok(None)
                } else {
                    r matches Err(e) && e.kind == TurnErrorKind::UnexpectedEof && e.message@
                        == mid_line_message()
                }),
            },
    {
        proof {
            use_type_invariant(&*self);
            lemma_newline_at_bounds(self.remaining(), 0);
        }
        let ghost rem = self.remaining();
        let start = self.pos;
        let mut i: usize = self.pos;
        while i < self.input.len() && self.input[i] != 10u8
            invariant
                start <= i <= self.input.len(),
                start == self.pos,
                self.pos <= self.input.len(),
                rem == self.input@.skip(start as int),
                newline_at(rem, 0) == newline_at(rem, i - start),
            decreases self.input.len() - i,
        {
            i += 1;
        }
        if i == self.input.len() {
            self.pos = self.input.len();
            assert(self.remaining() =~= Seq::<u8>::empty());
            if i == start {
                return Ok(None);
            }
            return Err(mid_line_error());
        }
        let mut line: Vec<u8> = Vec::new();
        let mut j: usize = start;
        while j < i
            invariant
                start <= j <= i,
                i < self.input.len(),
                line@ == self.input@.subrange(start as int, j as int),
            decreases i - j,
        {
            line.push(self.input[j]);
            assert(line@ =~= self.input@.subrange(start as int, j + 1));
            j += 1;
        }
        assert(line@ =~= rem.take(i - start));
        self.pos = i + 1;
        assert(self.remaining() =~= rem.skip(i - start + 1));
        Ok(Some(decode_line(line.as_slice())))
    }
}

// ---------------------------------------------------------------------------
// Events.
// ---------------------------------------------------------------------------

/// The fields of one runtime event that the adapter reads, as plain values.
pub struct EventFields {
    pub event_type: Option<String>,
    pub command: Option<String>,
    pub id: Option<String>,
    pub success: Option<bool>,
    pub error: Option<String>,
    pub tool_name: Option<String>,
    pub method: Option<String>,
    /// `result.details`, as JSON text.
    pub details: Option<String>,
}

/// The plain contents of [`EventFields`].
pub struct EventFieldsView {
    pub event_type: Option<Seq<char>>,
    pub command: Option<Seq<char>>,
    pub id: Option<Seq<char>>,
    pub success: Option<bool>,
    pub error: Option<Seq<char>>,
    pub tool_name: Option<Seq<char>>,
    pub method: Option<Seq<char>>,
    pub details: Option<Seq<char>>,
}

/// The view of an optional string.
pub open spec fn opt_chars(o: Option<String>) -> Option<Seq<char>> {
    match o {
        Some(s) => Some(s@),
        None => None,
    }
}

impl View for EventFields {
    type V = EventFieldsView;

    open spec fn view(&self) -> EventFieldsView {
        EventFieldsView {
            event_type: opt_chars(self.event_type),
            command: opt_chars(self.command),
            id: opt_chars(self.id),
            success: self.success,
            error: opt_chars(self.error),
            tool_name: opt_chars(self.tool_name),
            method: opt_chars(self.method),
            details: opt_chars(self.details),
        }
    }
}

/// What `serde_json` reads from one line: the event's fields, or the text
/// of its error when the line is not JSON.
pub uninterp spec fn json_event(line: Seq<char>) -> Result<EventFieldsView, Seq<char>>;

/// The view of a read of event fields.
pub open spec fn fields_result(r: Result<EventFields, String>) -> Result<EventFieldsView, Seq<char>> {
    match r {
        Ok(f) => Ok(f@),
        Err(e) => Err(e@),
    }
}

/// `serde_json::from_str::<Value>` on the line, then the string fields
/// `type`, `command`, `id`, `error`, `toolName`, `method`, the boolean
/// `success`, and `result.details` as JSON text; on a parse failure the
/// error's text.  Only its being this function of the line is stated.
#[verifier::external_body]
fn read_event_fields(line: &str) -> (r: Result<EventFields, String>)
    ensures
        fields_result(r) == json_event(line@),
{
    let v: serde_json::Value = serde_json::from_str(line).map_err(|e| e.to_string())?;
    let text = |key: &str| v.get(key).and_then(|x| x.as_str()).map(|x| x.to_string());
    Ok(EventFields {
        event_type: text("type"),
        command: text("command"),
        id: text("id"),
        success: v.get("success").and_then(|x| x.as_bool()),
        error: text("error"),
        tool_name: text("toolName"),
        method: text("method"),
        details: v.pointer("/result/details").map(|d| d.to_string()),
    })
}

/// The text `{:?}` writes for a string.
pub uninterp spec fn debug_quoted(s: Seq<char>) -> Seq<char>;

/// `format!("{s:?}")`: the string quoted and escaped as `Debug` writes it.
#[verifier::external_body]
fn quote_debug(s: &str) -> (r: String)
    ensures
        r@ == debug_quoted(s@),
{
    format!("{s:?}")
}

/// One event of a runtime.
#[derive(Debug)]
pub enum RpcEvent {
    /// The answer to a `prompt` command.
    PromptResponse { id: Option<String>, success: bool, error: Option<String> },
    /// The turn finished.
    AgentEnd,
    /// A tool call finished; `details` is its `result.details` as JSON.
    ToolExecutionEnd { tool_name: String, details: Option<String> },
    /// The runtime asks its user interface something.
    ExtensionUiRequest { id: String, method: String },
    /// Any other event, by its type.
    Ignored { event_type: String },
}

/// The plain contents of an [`RpcEvent`].
pub enum RpcEventView {
    PromptResponse { id: Option<Seq<char>>, success: bool, error: Option<Seq<char>> },
    AgentEnd,
    ToolExecutionEnd { tool_name: Seq<char>, details: Option<Seq<char>> },
    ExtensionUiRequest { id: Seq<char>, method: Seq<char> },
    Ignored { event_type: Seq<char> },
}

impl View for RpcEvent {
    type V = RpcEventView;

    open spec fn view(&self) -> RpcEventView {
        match self {
            RpcEvent::PromptResponse { id, success, error } => RpcEventView::PromptResponse {
                id: opt_chars(*id),
                success: *success,
                error: opt_chars(*error),
            },
            RpcEvent::AgentEnd => RpcEventView::AgentEnd,
            RpcEvent::ToolExecutionEnd { tool_name, details } => RpcEventView::ToolExecutionEnd {
                tool_name: tool_name@,
                details: opt_chars(*details),
            },
            RpcEvent::ExtensionUiRequest { id, method } => RpcEventView::ExtensionUiRequest {
                id: id@,
                method: method@,
            },
            RpcEvent::Ignored { event_type } => RpcEventView::Ignored { event_type: event_type@ },
        }
    }
}

/// An optional text field, empty when absent.
pub open spec fn or_empty(o: Option<Seq<char>>) -> Seq<char> {
    match o {
        Some(s) => s,
        None => Seq::empty(),
    }
}

/// The event that the fields of a runtime line describe, by its `type`.
pub open spec fn event_spec(f: EventFieldsView) -> RpcEventView {
    let t = or_empty(f.event_type);
    if t == "response"@ {
        if or_empty(f.command) == "prompt"@ {
            RpcEventView::PromptResponse {
                id: f.id,
                success: match f.success {
                    Some(b) => b,
                    None => false,
                },
                error: f.error,
            }
        } else {
            RpcEventView::Ignored { event_type: t }
        }
    } else if t == "agent_end"@ {
        RpcEventView::AgentEnd
    } else if t == "tool_execution_end"@ {
        RpcEventView::ToolExecutionEnd { tool_name: or_empty(f.tool_name), details: f.details }
    } else if t == "extension_ui_request"@ {
        RpcEventView::ExtensionUiRequest { id: or_empty(f.id), method: or_empty(f.method) }
    } else {
        RpcEventView::Ignored { event_type: t }
    }
}

fn text_or_empty(o: Option<String>) -> (s: String)
    ensures
        s@ == or_empty(opt_chars(o)),
{
    match o {
        Some(s) => s,
        None => String::new(),
    }
}

fn text_is(o: &Option<String>, lit: &str) -> (r: bool)
    ensures
        r == (or_empty(opt_chars(*o)) == lit@),
{
    match o {
        Some(s) => {
            let c = chars_of(s.as_str());
            crate::text::chars_eq_str(c.as_slice(), lit)
        },
        None => {
            let c: Vec<char> = Vec::new();
            assert(c@ =~= Seq::<char>::empty());
            crate::text::chars_eq_str(c.as_slice(), lit)
        },
    }
}

/// The event that the fields of a runtime line describe.
pub fn event_of_fields(f: EventFields) -> (e: RpcEvent)
    ensures
        e@ == event_spec(f@),
{
    let ghost fv = f@;
    if text_is(&f.event_type, "response") {
        if text_is(&f.command, "prompt") {
            let success = match f.success {
                Some(b) => b,
                None => false,
            };
            RpcEvent::PromptResponse { id: f.id, success, error: f.error }
        } else {
            RpcEvent::Ignored { event_type: text_or_empty(f.event_type) }
        }
    } else if text_is(&f.event_type, "agent_end") {
        RpcEvent::AgentEnd
    } else if text_is(&f.event_type, "tool_execution_end") {
        RpcEvent::ToolExecutionEnd { tool_name: text_or_empty(f.tool_name), details: f.details }
    } else if text_is(&f.event_type, "extension_ui_request") {
        RpcEvent::ExtensionUiRequest { id: text_or_empty(f.id), method: text_or_empty(f.method) }
    } else {
        RpcEvent::Ignored { event_type: text_or_empty(f.event_type) }
    }
}

/// The message for a line that is not JSON.
pub open spec fn not_json_message(error: Seq<char>, line: Seq<char>) -> Seq<char> {
    "Pi RPC line is not JSON: "@ + error + " (line: "@ + debug_quoted(line) + ")"@
}

/// Decodes one runtime line into an event; a line that is not JSON is an
/// error of kind `InvalidData`.
pub fn dispatch(line: &str) -> (r: Result<RpcEvent, LineError>)
    ensures
        r matches Ok(e) ==> json_event(line@) matches Ok(f) && e@ == event_spec(f),
        r matches Err(e) ==> json_event(line@) matches Err(m) && e.kind == TurnErrorKind::InvalidData
            && e.message@ == not_json_message(m, line@),
        json_event(line@) is Err ==> r is Err,
{
    match read_event_fields(line) {
        Ok(f) => Ok(event_of_fields(f)),
        Err(e) => Err(LineError { kind: TurnErrorKind::InvalidData, message: not_json_text(e.as_str(), line) }),
    }
}

/// The message for a line that is not JSON.
pub fn not_json_text(error: &str, line: &str) -> (m: String)
    ensures
        m@ == not_json_message(error@, line@),
{
    let mut v = chars_of("Pi RPC line is not JSON: ");
    extend_str(&mut v, error);
    extend_str(&mut v, " (line: ");
    let q = quote_debug(line);
    extend_str(&mut v, q.as_str());
    extend_str(&mut v, ")");
    assert(v@ =~= not_json_message(error@, line@));
    string_of(v.as_slice())
}

// ---------------------------------------------------------------------------
// Commands.
// ---------------------------------------------------------------------------

/// The lower-case hexadecimal digit of `n` (below 16).
pub open spec fn hex_digit(n: int) -> char {
    seq!['0', '1', '2', '3', '4', '5', '6', '7', '8', '9', 'a', 'b', 'c', 'd', 'e', 'f'][n]
}

/// How `serde_json` writes one character inside a string literal: `"` and
/// `\\` escaped with a backslash; backspace, form feed, line feed, carriage
/// return and tab as `\\b`, `\\f`, `\\n`, `\\r`, `\\t`; any other control
/// character below U+0020 as `\\u00` and two lower-case hex digits; every
/// other character as itself.
pub open spec fn json_escape_char(c: char) -> Seq<char> {
    if c == '"' {
        seq!['\\', '"']
    } else if c == '\\' {
        seq!['\\', '\\']
    } else if c == '\u{8}' {
        seq!['\\', 'b']
    } else if c == '\u{c}' {
        seq!['\\', 'f']
    } else if c == '\n' {
        seq!['\\', 'n']
    } else if c == '\r' {
        seq!['\\', 'r']
    } else if c == '\t' {
        seq!['\\', 't']
    } else if (c as int) < 0x20 {
        seq!['\\', 'u', '0', '0', hex_digit((c as int) / 16), hex_digit((c as int) % 16)]
    } else {
        seq![c]
    }
}

/// The characters of `s`, each written as inside a JSON string literal.
pub open spec fn json_escaped(s: Seq<char>) -> Seq<char>
    decreases s.len(),
{
    if s.len() == 0 {
        Seq::empty()
    } else {
        json_escaped(s.drop_last()) + json_escape_char(s.last())
    }
}

/// The JSON string literal `serde_json` writes for a text: the escaped
/// text between double quotes.
pub open spec fn json_string(s: Seq<char>) -> Seq<char> {
    seq!['"'] + json_escaped(s) + seq!['"']
}

/// `serde_json::to_string` of a string: the text as a JSON string literal,
/// escaped as `json_escape_char` says (`format_escaped_str`; writing a
/// string never fails).
#[verifier::external_body]
fn json_string_literal(s: &str) -> (r: String)
    ensures
        r@ == json_string(s@),
{
    serde_json::to_string(s).unwrap_or_default()
}

/// A command sent to a runtime.
pub enum RpcCommand {
    Prompt { id: String, message: String },
    Abort { id: String },
    ExtensionUiResponse { id: String, cancelled: bool },
}

/// The JSON object of a command, its `type` tag first.
pub open spec fn command_json(c: RpcCommand) -> Seq<char> {
    match c {
        RpcCommand::Prompt { id, message } => "{\"type\":\"prompt\",\"id\":"@ + json_string(id@)
            + ",\"message\":"@ + json_string(message@) + "}"@,
        RpcCommand::Abort { id } => "{\"type\":\"abort\",\"id\":"@ + json_string(id@) + "}"@,
        RpcCommand::ExtensionUiResponse { id, cancelled } => "{\"type\":\"extension_ui_response\",\"id\":"@
            + json_string(id@) + ",\"cancelled\":"@ + (if cancelled {
            "true"@
        } else {
            "false"@
        }) + "}"@,
    }
}

/// The JSON object of a command.
pub fn encode_command(c: &RpcCommand) -> (s: String)
    ensures
        s@ == command_json(*c),
{
    let mut v: Vec<char> = Vec::new();
    match c {
        RpcCommand::Prompt { id, message } => {
            extend_str(&mut v, "{\"type\":\"prompt\",\"id\":");
            let i = json_string_literal(id.as_str());
            extend_str(&mut v, i.as_str());
            extend_str(&mut v, ",\"message\":");
            let m = json_string_literal(message.as_str());
            extend_str(&mut v, m.as_str());
            extend_str(&mut v, "}");
        },
        RpcCommand::Abort { id } => {
            extend_str(&mut v, "{\"type\":\"abort\",\"id\":");
            let i = json_string_literal(id.as_str());
            extend_str(&mut v, i.as_str());
            extend_str(&mut v, "}");
        },
        RpcCommand::ExtensionUiResponse { id, cancelled } => {
            extend_str(&mut v, "{\"type\":\"extension_ui_response\",\"id\":");
            let i = json_string_literal(id.as_str());
            extend_str(&mut v, i.as_str());
            extend_str(&mut v, ",\"cancelled\":");
            if *cancelled {
                extend_str(&mut v, "true");
            } else {
                extend_str(&mut v, "false");
            }
            extend_str(&mut v, "}");
        },
    }
    assert(v@ =~= command_json(*c));
    string_of(v.as_slice())
}

/// The JSONL writer's output: each command's JSON object and `\n`.
pub struct JsonlWriter {
    output: Vec<char>,
}

impl JsonlWriter {
    /// What has been written.
    pub closed spec fn written(self) -> Seq<char> {
        self.output@
    }

    /// A writer with nothing written.
    pub fn new() -> (w: Self)
        ensures
            w.written() == Seq::<char>::empty(),
    {
        JsonlWriter { output: Vec::new() }
    }

    /// Writes one command as one line.
    pub fn send(&mut self, command: &RpcCommand)
        ensures
            final(self).written() == old(self).written() + command_json(*command) + seq!['\n'],
    {
        let s = encode_command(command);
        extend_str(&mut self.output, s.as_str());
        self.output.push('\n');
    }

    /// What has been written, as text.
    pub fn text(&self) -> (s: String)
        ensures
            s@ == self.written(),
    {
        string_of(self.output.as_slice())
    }
}

// ---------------------------------------------------------------------------
// The structured reply.
// ---------------------------------------------------------------------------

/// How relevant an agent judged itself to a question.
#[derive(Debug, Clone, Copy, PartialEq, Eq, Structural)]
pub enum Relevance {
    /// Not relevant (`none` on the wire).
    NoRelevance,
    Possible,
    Strong,
}

impl Relevance {
    /// The wire name of the relevance.
    pub open spec fn wire(self) -> Seq<char> {
        match self {
            Relevance::NoRelevance => "none"@,
            Relevance::Possible => "possible"@,
            Relevance::Strong => "strong"@,
        }
    }

    /// The wire name of the relevance.
    pub fn as_wire_str(&self) -> (s: &'static str)
        ensures
            s@ == self.wire(),
    {
        match self {
            Relevance::NoRelevance => "none",
            Relevance::Possible => "possible",
            Relevance::Strong => "strong",
        }
    }
}

/// The `afs_reply` tool call that ends every turn.
#[derive(Debug)]
pub struct AfsReply {
    pub schema_version: u32,
    pub relevance: Relevance,
    pub reason: String,
    pub answer: String,
    pub file_references: Vec<String>,
    pub changed_files: Vec<String>,
    pub history_entries: Vec<String>,
    pub delegates: Vec<DelegateRequest>,
}

/// The `afs_reply` schema version this adapter reads.
pub const AFS_REPLY_SCHEMA_VERSION: u32 = 1;

// ---------------------------------------------------------------------------
// One turn.
// ---------------------------------------------------------------------------

/// Why a turn failed.
#[derive(Debug)]
pub enum TurnError {
    /// The runtime refused the prompt; the message.
    PromptRejected(String),
    /// An `afs_reply` without `result.details`.
    MissingDetails,
    /// The details did not decode; the decoder's error text.
    SchemaMismatch(String),
    /// The reply has another schema version.
    UnsupportedSchema(u32),
    /// The turn ended without an `afs_reply`.
    NoReply,
    /// The runtime's output ended before `agent_end`.
    Closed,
}

/// How the error of a failed turn is classed.
#[derive(Debug, Clone, Copy, PartialEq, Eq, Structural)]
pub enum TurnErrorKind {
    InvalidData,
    UnexpectedEof,
    Other,
}

impl TurnError {
    /// The error text.
    pub open spec fn text(self) -> Seq<char> {
        match self {
            TurnError::PromptRejected(m) => m@,
            TurnError::MissingDetails => "afs_reply tool_execution_end is missing result.details"@,
            TurnError::SchemaMismatch(e) => "afs_reply details did not match schema: "@ + e@,
            TurnError::UnsupportedSchema(v) => "afs_reply schema_version "@ + decimal(v as nat)
                + " not supported (expected 1)"@,
            TurnError::NoReply => "agent finished without afs_reply tool call"@,
            TurnError::Closed => "Pi closed stdout before agent_end"@,
        }
    }

    /// The error's kind.
    pub open spec fn kind_spec(self) -> TurnErrorKind {
        match self {
            TurnError::PromptRejected(_) => TurnErrorKind::Other,
            TurnError::MissingDetails => TurnErrorKind::InvalidData,
            TurnError::SchemaMismatch(_) => TurnErrorKind::InvalidData,
            TurnError::UnsupportedSchema(_) => TurnErrorKind::InvalidData,
            TurnError::NoReply => TurnErrorKind::Other,
            TurnError::Closed => TurnErrorKind::UnexpectedEof,
        }
    }

    /// The error text.
    pub fn message(&self) -> (m: String)
        ensures
            m@ == self.text(),
    {
        match self {
            TurnError::PromptRejected(m) => m.clone(),
            TurnError::MissingDetails => "afs_reply tool_execution_end is missing result.details".to_string(),
            TurnError::SchemaMismatch(e) => {
                let mut v = chars_of("afs_reply details did not match schema: ");
                extend_str(&mut v, e.as_str());
                string_of(v.as_slice())
            },
            TurnError::UnsupportedSchema(n) => {
                let mut v = chars_of("afs_reply schema_version ");
                push_decimal(&mut v, *n as u128);
                extend_str(&mut v, " not supported (expected 1)");
                string_of(v.as_slice())
            },
            TurnError::NoReply => "agent finished without afs_reply tool call".to_string(),
            TurnError::Closed => "Pi closed stdout before agent_end".to_string(),
        }
    }

    /// The error's kind.
    pub fn kind(&self) -> (k: TurnErrorKind)
        ensures
            k == self.kind_spec(),
    {
        match self {
            TurnError::PromptRejected(_) => TurnErrorKind::Other,
            TurnError::MissingDetails => TurnErrorKind::InvalidData,
            TurnError::SchemaMismatch(_) => TurnErrorKind::InvalidData,
            TurnError::UnsupportedSchema(_) => TurnErrorKind::InvalidData,
            TurnError::NoReply => TurnErrorKind::Other,
            TurnError::Closed => TurnErrorKind::UnexpectedEof,
        }
    }
}

/// The message when the runtime refuses the prompt `id`.
pub open spec fn rejection_text(id: Seq<char>, response_id: Option<Seq<char>>, error: Option<Seq<char>>) -> Seq<
    char,
> {
    let reason = match error {
        Some(e) => e,
        None => "prompt rejected"@,
    };
    match response_id {
        Some(rid) => if rid == id {
            "Pi rejected prompt: "@ + reason
        } else {
            "Pi rejected prompt "@ + rid + ": "@ + reason
        },
        None => "Pi rejected prompt (no id): "@ + reason,
    }
}

/// What the turn driver does next.
pub enum TurnAction {
    /// Read the next event.
    Continue,
    /// Answer this user interface request with a cancellation.
    Cancel(String),
    /// Decode these `afs_reply` details and hand them to [`TurnState::take_reply`].
    Decode(String),
    /// The turn is over: take the outcome with [`TurnState::finish`].
    Finish,
    /// The turn failed.
    Fail(TurnError),
}

/// A user interface request that blocks the runtime until answered.
pub open spec fn is_dialog(method: Seq<char>) -> bool {
    method == "select"@ || method == "confirm"@ || method == "input"@ || method == "editor"@
}

/// The state of a turn: the first `afs_reply` and the warnings so far.
pub struct TurnState {
    pub captured: Option<AfsReply>,
    pub warnings: Vec<String>,
}

/// The warning when a turn emits a second `afs_reply`.
pub open spec fn repeat_warning() -> Seq<char> {
    "afs_reply emitted more than once in one turn; using the first reply"@
}

/// The result of a turn: the first reply and the warnings.
#[derive(Debug)]
pub struct TurnOutcome {
    pub reply: AfsReply,
    pub warnings: Vec<String>,
}

impl TurnState {
    /// A turn that has seen nothing yet.
    pub fn new() -> (s: Self)
        ensures
            s.captured is None,
            s.warnings@.len() == 0,
    {
        TurnState { captured: None, warnings: Vec::new() }
    }

    /// What to do on an event of the prompt `id`: refused prompts fail the
    /// turn, `afs_reply` details are decoded, dialog requests are
    /// cancelled, and `agent_end` ends the turn, which fails when no reply
    /// was captured.  Every other event is passed over.
    pub fn on_event(&self, id: &str, event: &RpcEvent) -> (a: TurnAction)
        ensures
            match event@ {
                RpcEventView::PromptResponse { id: rid, success, error } => if success {
                    a is Continue
                } else {
                    a matches TurnAction::Fail(TurnError::PromptRejected(m)) && m@ == rejection_text(
                        id@,
                        rid,
                        error,
                    )
                },
                RpcEventView::ToolExecutionEnd { tool_name, details } => if tool_name
                    == "afs_reply"@ {
                    match details {
                        Some(d) => a matches TurnAction::Decode(s) && s@ == d,
                        None => a matches TurnAction::Fail(TurnError::MissingDetails),
                    }
                } else {
                    a is Continue
                },
                RpcEventView::ExtensionUiRequest { id: ui, method } => if is_dialog(method) {
                    a matches TurnAction::Cancel(s) && s@ == ui
                } else {
                    a is Continue
                },
                RpcEventView::AgentEnd => if self.captured is Some {
                    a is Finish
                } else {
                    a matches TurnAction::Fail(TurnError::NoReply)
                },
                RpcEventView::Ignored { .. } => a is Continue,
            },
    {
        match event {
            RpcEvent::PromptResponse { id: rid, success, error } => {
                if *success {
                    return TurnAction::Continue;
                }
                let mut v = chars_of("Pi rejected prompt");
                match rid {
                    Some(r) => {
                        let rc = chars_of(r.as_str());
                        let ic = chars_of(id);
                        if crate::text::chars_eq(rc.as_slice(), ic.as_slice()) {
                            extend_str(&mut v, ": ");
                        } else {
                            v.push(' ');
                            extend_str(&mut v, r.as_str());
                            extend_str(&mut v, ": ");
                        }
                    },
                    None => extend_str(&mut v, " (no id): "),
                }
                match error {
                    Some(e) => extend_str(&mut v, e.as_str()),
                    None => extend_str(&mut v, "prompt rejected"),
                }
                proof {
                    reveal_strlit("Pi rejected prompt");
                    reveal_strlit(": ");
                    reveal_strlit(" (no id): ");
                    reveal_strlit("Pi rejected prompt: ");
                    reveal_strlit("Pi rejected prompt ");
                    reveal_strlit("Pi rejected prompt (no id): ");
                    assert(v@ =~= rejection_text(id@, opt_chars(*rid), opt_chars(*error)));
                }
                TurnAction::Fail(TurnError::PromptRejected(string_of(v.as_slice())))
            },
            RpcEvent::ToolExecutionEnd { tool_name, details } => {
                let tc = chars_of(tool_name.as_str());
                if crate::text::chars_eq_str(tc.as_slice(), "afs_reply") {
                    match details {
                        Some(d) => TurnAction::Decode(d.clone()),
                        None => TurnAction::Fail(TurnError::MissingDetails),
                    }
                } else {
                    TurnAction::Continue
                }
            },
            RpcEvent::ExtensionUiRequest { id: ui, method } => {
                let mc = chars_of(method.as_str());
                if crate::text::chars_eq_str(mc.as_slice(), "select") || crate::text::chars_eq_str(
                    mc.as_slice(),
                    "confirm",
                ) || crate::text::chars_eq_str(mc.as_slice(), "input")
                    || crate::text::chars_eq_str(mc.as_slice(), "editor") {
                    TurnAction::Cancel(ui.clone())
                } else {
                    TurnAction::Continue
                }
            },
            RpcEvent::AgentEnd => {
                if self.captured.is_some() {
                    TurnAction::Finish
                } else {
                    TurnAction::Fail(TurnError::NoReply)
                }
            },
            RpcEvent::Ignored { .. } => TurnAction::Continue,
        }
    }

    /// Takes a decoded `afs_reply` (or the decoder's error text): a reply
    /// of another schema version fails the turn; the first reply is kept
    /// and each later one only adds a warning.
    pub fn take_reply(&mut self, decoded: Result<AfsReply, String>) -> (e: Option<TurnError>)
        ensures
            match decoded {
                Err(m) => e matches Some(TurnError::SchemaMismatch(t)) && t@ == m@
                    && final(self).captured == old(self).captured && final(self).warnings@
                    == old(self).warnings@,
                Ok(r) => if r.schema_version != AFS_REPLY_SCHEMA_VERSION {
                    e matches Some(TurnError::UnsupportedSchema(v)) && v == r.schema_version
                        && final(self).captured == old(self).captured && final(self).warnings@
                        == old(self).warnings@
                } else if old(self).captured is Some {
                    e is None && final(self).captured == old(self).captured && string_views(
                        final(self).warnings@,
                    ) == string_views(old(self).warnings@).push(repeat_warning())
                } else {
                    e is None && final(self).captured == Some(r) && final(self).warnings@ == old(
                        self,
                    ).warnings@
                },
            },
    {
        match decoded {
            Err(m) => Some(TurnError::SchemaMismatch(m)),
            Ok(r) => {
                if r.schema_version != AFS_REPLY_SCHEMA_VERSION {
                    return Some(TurnError::UnsupportedSchema(r.schema_version));
                }
                if self.captured.is_some() {
                    let ghost before = string_views(self.warnings@);
                    self.warnings.push(
                        "afs_reply emitted more than once in one turn; using the first reply".to_string(),
                    );
                    assert(string_views(self.warnings@) =~= before.push(repeat_warning()));
                } else {
                    self.captured = Some(r);
                }
                None
            },
        }
    }

    /// Ends the turn: its first reply and its warnings, or the failure of a
    /// turn without reply.
    pub fn finish(self) -> (r: Result<TurnOutcome, TurnError>)
        ensures
            match self.captured {
                Some(reply) => r matches Ok(o) && o.reply == reply && o.warnings == self.warnings,
                None => r matches Err(TurnError::NoReply),
            },
    {
        match self.captured {
            Some(reply) => Ok(TurnOutcome { reply, warnings: self.warnings }),
            None => Err(TurnError::NoReply),
        }
    }
}

/// The first command of a turn.
pub fn prompt_command(id: &str, message: &str) -> (c: RpcCommand)
    ensures
        c matches RpcCommand::Prompt { id: i, message: m } && i@ == id@ && m@ == message@,
{
    RpcCommand::Prompt { id: id.to_string(), message: message.to_string() }
}

/// The answer to a dialog request: a cancellation.
pub fn cancel_command(ui_id: &str) -> (c: RpcCommand)
    ensures
        c matches RpcCommand::ExtensionUiResponse { id: i, cancelled } && i@ == ui_id@ && cancelled,
{
    RpcCommand::ExtensionUiResponse { id: ui_id.to_string(), cancelled: true }
}

} // verus!
