use afs::conversation::{DelegateRequest, ReplyTarget};
use afs::rpc::{
    cancel_command, decode_line, dispatch, encode_command, frame_line, not_json_text,
    prompt_command, AfsReply, JsonlReader, JsonlWriter, Relevance, RpcCommand, RpcEvent,
    TurnAction, TurnError, TurnErrorKind, TurnOutcome, TurnState,
};

/// Decodes `afs_reply` details the way the adapter's decoder does.
fn decode_reply(details: &str) -> Result<AfsReply, String> {
    let v: serde_json::Value = serde_json::from_str(details).map_err(|e| e.to_string())?;
    let text = |k: &str| v.get(k).and_then(|x| x.as_str()).map(|s| s.to_string());
    let list = |k: &str| -> Vec<String> {
        v.get(k)
            .and_then(|x| x.as_array())
            .map(|a| a.iter().filter_map(|x| x.as_str().map(|s| s.to_string())).collect())
            .unwrap_or_default()
    };
    let schema_version = v
        .get("schema_version")
        .and_then(|x| x.as_u64())
        .ok_or_else(|| "missing field `schema_version`".to_string())? as u32;
    let relevance = match text("relevance").as_deref() {
        Some("none") => Relevance::NoRelevance,
        Some("possible") => Relevance::Possible,
        Some("strong") => Relevance::Strong,
        _ => return Err("unknown variant".to_string()),
    };
    let mut delegates = Vec::new();
    if let Some(items) = v.get("delegates").and_then(|x| x.as_array()) {
        for item in items {
            let field = |k: &str| item.get(k).and_then(|x| x.as_str()).unwrap_or("").to_string();
            let reply_target = match field("reply_target").as_str() {
                "delegator" => ReplyTarget::Delegator,
                "supervisor" => ReplyTarget::Supervisor,
                _ => return Err("unknown variant".to_string()),
            };
            delegates.push(DelegateRequest {
                target: field("target"),
                reply_target,
                prompt: field("prompt"),
            });
        }
    }
    Ok(AfsReply {
        schema_version,
        relevance,
        reason: text("reason").ok_or_else(|| "missing field `reason`".to_string())?,
        answer: text("answer").ok_or_else(|| "missing field `answer`".to_string())?,
        file_references: list("file_references"),
        changed_files: list("changed_files"),
        history_entries: list("history_entries"),
        delegates,
    })
}

/// Drives one turn over the given input and writer with the adapter's turn
/// decisions.
fn run(
    reader: &mut JsonlReader,
    writer: &mut JsonlWriter,
    id: &str,
    message: &str,
) -> Result<TurnOutcome, String> {
    writer.send(&prompt_command(id, message));
    let mut state = TurnState::new();
    loop {
        let line = match reader.read_line() {
            Ok(Some(line)) => line,
            Ok(None) => return Err(TurnError::Closed.message()),
            Err(error) => return Err(error.message),
        };
        let event = dispatch(&line).map_err(|e| e.message)?;
        match state.on_event(id, &event) {
            TurnAction::Continue => {}
            TurnAction::Cancel(ui) => writer.send(&cancel_command(&ui)),
            TurnAction::Decode(details) => {
                if let Some(error) = state.take_reply(decode_reply(&details)) {
                    return Err(error.message());
                }
            }
            TurnAction::Finish => return state.finish().map_err(|e| e.message()),
            TurnAction::Fail(error) => return Err(error.message()),
        }
    }
}

fn run_with_events(events: &[&str], id: &str, message: &str) -> (Result<TurnOutcome, String>, String) {
    let mut input = Vec::new();
    for event in events {
        input.extend_from_slice(event.as_bytes());
        input.push(b'\n');
    }
    let mut reader = JsonlReader::new(input.as_slice());
    let mut writer = JsonlWriter::new();
    let outcome = run(&mut reader, &mut writer, id, message);
    (outcome, writer.text())
}

#[test]
fn end_to_end_turn_returns_afs_reply() {
    let events = [
        r#"{"type":"response","command":"prompt","id":"t-1","success":true}"#,
        r#"{"type":"agent_start"}"#,
        r#"{"type":"tool_execution_end","toolName":"afs_reply","result":{"details":{"schema_version":1,"relevance":"strong","reason":"ok","answer":"hello","file_references":["a.txt"],"changed_files":[],"history_entries":[],"delegates":[]}}}"#,
        r#"{"type":"agent_end","messages":[]}"#,
    ];
    let (outcome, output) = run_with_events(&events, "t-1", "ping");
    let outcome = outcome.expect("turn succeeds");
    assert_eq!(outcome.reply.relevance, Relevance::Strong);
    assert_eq!(outcome.reply.answer, "hello");
    assert_eq!(outcome.reply.file_references, vec!["a.txt".to_string()]);
    assert!(outcome.warnings.is_empty());
    assert!(
        output.contains(r#""type":"prompt""#) && output.contains(r#""id":"t-1""#),
        "writer should send prompt with id; got: {output}"
    );
}

#[test]
fn missing_afs_reply_is_typed_error() {
    let events = [
        r#"{"type":"response","command":"prompt","id":"t-1","success":true}"#,
        r#"{"type":"agent_end","messages":[]}"#,
    ];
    let (outcome, _) = run_with_events(&events, "t-1", "ping");
    let error = outcome.expect_err("turn should fail when no afs_reply");
    assert!(
        error.contains("agent finished without afs_reply"),
        "unexpected error: {error}"
    );
}

#[test]
fn prompt_rejection_propagates() {
    let events = [
        r#"{"type":"response","command":"prompt","id":"t-1","success":false,"error":"Failed to parse command: Unexpected token"}"#,
    ];
    let (outcome, _) = run_with_events(&events, "t-1", "ping");
    let error = outcome.expect_err("turn should fail when prompt is rejected");
    assert!(error.contains("Pi rejected prompt"), "unexpected error: {error}");
}

#[test]
fn schema_version_mismatch_is_typed_error() {
    let events = [
        r#"{"type":"response","command":"prompt","id":"t-1","success":true}"#,
        r#"{"type":"tool_execution_end","toolName":"afs_reply","result":{"details":{"schema_version":2,"relevance":"strong","reason":"ok","answer":"hello"}}}"#,
        r#"{"type":"agent_end","messages":[]}"#,
    ];
    let (outcome, _) = run_with_events(&events, "t-1", "ping");
    let error = outcome.expect_err("turn should reject schema_version != 1");
    assert!(error.contains("schema_version 2"), "unexpected error: {error}");
}

#[test]
fn double_afs_reply_keeps_first_and_warns() {
    let events = [
        r#"{"type":"response","command":"prompt","id":"t-1","success":true}"#,
        r#"{"type":"tool_execution_end","toolName":"afs_reply","result":{"details":{"schema_version":1,"relevance":"strong","reason":"first","answer":"first"}}}"#,
        r#"{"type":"tool_execution_end","toolName":"afs_reply","result":{"details":{"schema_version":1,"relevance":"none","reason":"second","answer":"second"}}}"#,
        r#"{"type":"agent_end","messages":[]}"#,
    ];
    let (outcome, _) = run_with_events(&events, "t-1", "ping");
    let outcome = outcome.expect("turn succeeds");
    assert_eq!(outcome.reply.answer, "first");
    assert_eq!(outcome.warnings.len(), 1);
    assert!(outcome.warnings[0].contains("more than once"));
}

#[test]
fn dialog_extension_ui_requests_are_auto_cancelled() {
    let events = [
        r#"{"type":"response","command":"prompt","id":"t-1","success":true}"#,
        r#"{"type":"extension_ui_request","id":"ui-1","method":"confirm","title":"Allow?"}"#,
        r#"{"type":"extension_ui_request","id":"ui-2","method":"select","title":"Pick","options":["a","b"]}"#,
        r#"{"type":"extension_ui_request","id":"ui-3","method":"input","title":"Type"}"#,
        r#"{"type":"extension_ui_request","id":"ui-4","method":"editor","title":"Edit"}"#,
        r#"{"type":"extension_ui_request","id":"ui-fire","method":"notify","message":"hi"}"#,
        r#"{"type":"tool_execution_end","toolName":"afs_reply","result":{"details":{"schema_version":1,"relevance":"strong","reason":"ok","answer":"done"}}}"#,
        r#"{"type":"agent_end","messages":[]}"#,
    ];
    let (outcome, output) = run_with_events(&events, "t-1", "ping");
    outcome.expect("turn succeeds");
    for id in ["ui-1", "ui-2", "ui-3", "ui-4"] {
        assert!(
            output.contains(&format!(r#""id":"{id}""#)) && output.contains(r#""cancelled":true"#),
            "expected auto-cancel for {id}; got: {output}"
        );
    }
    assert!(
        !output.contains(r#""id":"ui-fire""#),
        "fire-and-forget ui request should not get a response; got: {output}"
    );
}

#[test]
fn delegates_array_round_trips() {
    let events = [
        r#"{"type":"response","command":"prompt","id":"t-1","success":true}"#,
        r#"{"type":"tool_execution_end","toolName":"afs_reply","result":{"details":{"schema_version":1,"relevance":"strong","reason":"ok","answer":"see peers","delegates":[{"target":"agent-A","reply_target":"delegator","prompt":"q1"},{"target":"agent-B","reply_target":"supervisor","prompt":"q2"}]}}}"#,
        r#"{"type":"agent_end","messages":[]}"#,
    ];
    let (outcome, _) = run_with_events(&events, "t-1", "ping");
    let outcome = outcome.expect("turn succeeds");
    assert_eq!(outcome.reply.delegates.len(), 2);
    assert_eq!(outcome.reply.delegates[0].target, "agent-A");
    assert_eq!(outcome.reply.delegates[0].reply_target, ReplyTarget::Delegator);
    assert_eq!(outcome.reply.delegates[1].reply_target, ReplyTarget::Supervisor);
}

#[test]
fn jsonl_reader_strips_cr_and_keeps_unicode_separators() {
    // Pi's framing rule: split only on \n. U+2028 / U+2029 must
    // stay in the line because they are valid inside JSON strings.
    let input = "{\"a\":\"x\u{2028}y\"}\r\n{\"b\":\"z\"}\n";
    let mut reader = JsonlReader::new(input.as_bytes());
    let first = reader.read_line().expect("read 1").expect("not eof");
    let second = reader.read_line().expect("read 2").expect("not eof");
    assert_eq!(first, "{\"a\":\"x\u{2028}y\"}");
    assert_eq!(second, "{\"b\":\"z\"}");
    assert!(reader.read_line().expect("read 3").is_none());
}

#[test]
fn ignored_event_types_do_not_break_dispatch() {
    let event = dispatch(r#"{"type":"queue_update","steering":[],"followUp":[]}"#)
        .expect("dispatch ok");
    match event {
        RpcEvent::Ignored { event_type } => {
            assert_eq!(event_type, "queue_update");
        }
        other => panic!("expected Ignored, got {other:?}"),
    }
}

#[test]
fn late_ui_request_buffered_before_next_turn_is_auto_cancelled() {
    let events = [
        r#"{"type":"extension_ui_request","id":"late-1","method":"confirm","title":"Resume?"}"#,
        r#"{"type":"response","command":"prompt","id":"t-2","success":true}"#,
        r#"{"type":"tool_execution_end","toolName":"afs_reply","result":{"details":{"schema_version":1,"relevance":"strong","reason":"ok","answer":"resumed"}}}"#,
        r#"{"type":"agent_end","messages":[]}"#,
    ];
    let (outcome, output) = run_with_events(&events, "t-2", "ping");
    outcome.expect("turn succeeds with buffered UI cancel");
    assert!(
        output.contains(r#""id":"late-1""#) && output.contains(r#""cancelled":true"#),
        "buffered UI request should be auto-cancelled; got: {output}"
    );
}

#[test]
fn malformed_line_returns_typed_error() {
    let result = dispatch("not-json");
    assert!(result.is_err(), "non-JSON line should fail dispatch; got {result:?}");
    let error = result.unwrap_err();
    assert_eq!(error.kind(), TurnErrorKind::InvalidData);
}

#[test]
fn malformed_line_message_names_the_quoted_line() {
    let error = dispatch("not-json").unwrap_err();
    let text = error.message.clone();
    assert!(text.starts_with("Pi RPC line is not JSON: "), "{text}");
    assert!(text.ends_with(" (line: \"not-json\")"), "{text}");
    assert_eq!(not_json_text("boom", "a\"b"), "Pi RPC line is not JSON: boom (line: \"a\\\"b\")");
}

#[test]
fn reader_reports_end_of_stream_inside_a_line() {
    let mut reader = JsonlReader::new(b"{\"a\":1}\n{\"partial\"");
    assert_eq!(reader.read_line().unwrap().unwrap(), "{\"a\":1}");
    let error = reader.read_line().unwrap_err();
    assert_eq!(error.kind(), TurnErrorKind::UnexpectedEof);
    assert_eq!(error.message, "Pi RPC stream ended mid-line");
    assert!(reader.read_line().unwrap().is_none());
}

#[test]
fn reader_keeps_inner_carriage_returns_and_replaces_invalid_bytes() {
    let mut reader = JsonlReader::new(b"a\rb\r\r\n\xff\xfex\n");
    assert_eq!(reader.read_line().unwrap().unwrap(), "a\rb\r");
    assert_eq!(reader.read_line().unwrap().unwrap(), "\u{fffd}\u{fffd}x");
    assert!(reader.read_line().unwrap().is_none());
}

#[test]
fn frame_line_handles_end_of_stream() {
    assert_eq!(frame_line(b"abc\r", true).unwrap().unwrap(), "abc");
    assert!(frame_line(b"", false).unwrap().is_none());
    let error = frame_line(b"abc", false).unwrap_err();
    assert_eq!(error.kind(), TurnErrorKind::UnexpectedEof);
    assert_eq!(error.message, "Pi RPC stream ended mid-line");
    assert_eq!(decode_line(b"\xc3\xa9\r"), "\u{e9}");
}

#[test]
fn dispatch_reads_each_event_kind() {
    match dispatch(r#"{"type":"response","command":"prompt","id":"x","success":false,"error":"bad"}"#).unwrap() {
        RpcEvent::PromptResponse { id, success, error } => {
            assert_eq!(id.as_deref(), Some("x"));
            assert!(!success);
            assert_eq!(error.as_deref(), Some("bad"));
        }
        other => panic!("unexpected {other:?}"),
    }
    match dispatch(r#"{"type":"response","command":"abort","id":"x","success":true}"#).unwrap() {
        RpcEvent::Ignored { event_type } => assert_eq!(event_type, "response"),
        other => panic!("unexpected {other:?}"),
    }
    match dispatch(r#"{"type":"tool_execution_end","toolName":"bash","result":{"details":{"k":[1,2]}}}"#).unwrap() {
        RpcEvent::ToolExecutionEnd { tool_name, details } => {
            assert_eq!(tool_name, "bash");
            assert_eq!(details.as_deref(), Some(r#"{"k":[1,2]}"#));
        }
        other => panic!("unexpected {other:?}"),
    }
    match dispatch(r#"{"type":"extension_ui_request","id":"u","method":"notify"}"#).unwrap() {
        RpcEvent::ExtensionUiRequest { id, method } => {
            assert_eq!(id, "u");
            assert_eq!(method, "notify");
        }
        other => panic!("unexpected {other:?}"),
    }
    assert!(matches!(dispatch(r#"{"type":"agent_end"}"#).unwrap(), RpcEvent::AgentEnd));
    match dispatch(r#"{"no_type":true}"#).unwrap() {
        RpcEvent::Ignored { event_type } => assert_eq!(event_type, ""),
        other => panic!("unexpected {other:?}"),
    }
}

#[test]
fn command_text_is_escaped_as_a_json_string() {
    assert_eq!(
        encode_command(&RpcCommand::Abort { id: "q\"\\\u{1}\u{8}\u{c}\r\t\u{1f}/\u{7f}\u{e9}".to_string() }),
        "{\"type\":\"abort\",\"id\":\"q\\\"\\\\\\u0001\\b\\f\\r\\t\\u001f/\u{7f}\u{e9}\"}"
    );
}

#[test]
fn commands_are_encoded_with_their_tag_first() {
    assert_eq!(
        encode_command(&RpcCommand::Prompt { id: "t-1".to_string(), message: "say \"hi\"\n".to_string() }),
        r#"{"type":"prompt","id":"t-1","message":"say \"hi\"\n"}"#
    );
    assert_eq!(encode_command(&RpcCommand::Abort { id: "a".to_string() }), r#"{"type":"abort","id":"a"}"#);
    assert_eq!(
        encode_command(&RpcCommand::ExtensionUiResponse { id: "u".to_string(), cancelled: false }),
        r#"{"type":"extension_ui_response","id":"u","cancelled":false}"#
    );
    let mut writer = JsonlWriter::new();
    writer.send(&cancel_command("ui-9"));
    assert_eq!(writer.text(), "{\"type\":\"extension_ui_response\",\"id\":\"ui-9\",\"cancelled\":true}\n");
}

#[test]
fn prompt_rejection_names_the_other_prompt() {
    let state = TurnState::new();
    let event = RpcEvent::PromptResponse { id: Some("t-9".to_string()), success: false, error: None };
    match state.on_event("t-1", &event) {
        TurnAction::Fail(error) => {
            assert_eq!(error.message(), "Pi rejected prompt t-9: prompt rejected");
            assert_eq!(error.kind(), TurnErrorKind::Other);
        }
        _ => panic!("expected a failure"),
    }
    let event = RpcEvent::PromptResponse { id: None, success: false, error: Some("busy".to_string()) };
    match state.on_event("t-1", &event) {
        TurnAction::Fail(error) => assert_eq!(error.message(), "Pi rejected prompt (no id): busy"),
        _ => panic!("expected a failure"),
    }
}

#[test]
fn afs_reply_without_details_fails_the_turn() {
    let state = TurnState::new();
    let event = RpcEvent::ToolExecutionEnd { tool_name: "afs_reply".to_string(), details: None };
    match state.on_event("t-1", &event) {
        TurnAction::Fail(error) => {
            assert_eq!(error.message(), "afs_reply tool_execution_end is missing result.details");
            assert_eq!(error.kind(), TurnErrorKind::InvalidData);
        }
        _ => panic!("expected a failure"),
    }
    let mut state = TurnState::new();
    match state.take_reply(Err("missing field `reason`".to_string())) {
        Some(error) => assert_eq!(
            error.message(),
            "afs_reply details did not match schema: missing field `reason`"
        ),
        None => panic!("expected a failure"),
    }
    assert_eq!(TurnError::Closed.kind(), TurnErrorKind::UnexpectedEof);
    assert_eq!(TurnError::UnsupportedSchema(7).message(), "afs_reply schema_version 7 not supported (expected 1)");
}

#[test]
fn relevance_wire_names() {
    assert_eq!(Relevance::NoRelevance.as_wire_str(), "none");
    assert_eq!(Relevance::Possible.as_wire_str(), "possible");
    assert_eq!(Relevance::Strong.as_wire_str(), "strong");
}

#[test]
fn reader_returns_each_record_in_order_then_none() {
    let records: [&[u8]; 4] = [b"one\r", "two\u{2028}x\ry".as_bytes(), b"", b"\xffz"];
    let mut text = Vec::new();
    for r in records.iter() {
        text.extend_from_slice(r);
        text.push(b'\n');
    }
    let mut reader = JsonlReader::new(&text);
    assert_eq!(reader.read_line().unwrap().unwrap(), "one");
    assert_eq!(reader.read_line().unwrap().unwrap(), "two\u{2028}x\ry");
    assert_eq!(reader.read_line().unwrap().unwrap(), "");
    assert_eq!(reader.read_line().unwrap().unwrap(), "\u{fffd}z");
    assert!(reader.read_line().unwrap().is_none());
}
