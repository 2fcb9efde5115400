use afs::conversation::{
    agent_ask_message, broadcast_message, delegated_reply_message, format_broadcast_ask_response,
    format_delegated_delegator_response, format_delegated_supervisor_response,
    format_direct_ask_response, normalize_broadcast_reference, parse_broadcast_reply,
    parse_delegate_request, parse_report_list, parse_task_reply, participating_agents,
    report_list, sort_unique, task_message, BroadcastReply, DelegateError, DelegationOutcome,
    ReplyTarget, TaskReply,
};

fn strings(v: &[&str]) -> Vec<String> {
    v.iter().map(|s| s.to_string()).collect()
}

fn reply(id: &str, answer: &str, changed: &[&str], entries: &[&str]) -> TaskReply {
    TaskReply {
        agent_identity: id.to_string(),
        answer: answer.to_string(),
        changed_files: strings(changed),
        history_entries: strings(entries),
    }
}

#[test]
fn delegate_lines_are_read() {
    let r = parse_delegate_request("DELEGATE\tagent-2\tsupervisor\tcount the files\r\n")
        .ok()
        .unwrap()
        .unwrap();
    assert_eq!(r.target, "agent-2");
    assert_eq!(r.reply_target, ReplyTarget::Supervisor);
    assert_eq!(r.prompt, "count the files");
    let d = parse_delegate_request("DELEGATE\t/abs/path\tdelegator\tp\tq").ok().unwrap().unwrap();
    assert_eq!(d.reply_target, ReplyTarget::Delegator);
    assert_eq!(d.prompt, "p\tq");
    assert!(parse_delegate_request("plain answer\n").ok().unwrap().is_none());
    assert_eq!(ReplyTarget::Delegator.as_protocol_field(), "delegator");
    assert_eq!(ReplyTarget::Supervisor.as_protocol_field(), "supervisor");
}

#[test]
fn malformed_delegate_lines_are_refused() {
    let cases = [
        ("DELEGATE\t", DelegateError::MissingTarget, "delegation request is missing target"),
        ("DELEGATE\t\tsupervisor\tp", DelegateError::MissingTarget, "delegation request is missing target"),
        ("DELEGATE\tagent", DelegateError::MissingReplyTarget, "delegation request is missing reply target"),
        ("DELEGATE\tagent\tsupervisor", DelegateError::MissingPrompt, "delegation request is missing prompt"),
        (
            "DELEGATE\tagent\teveryone\tp",
            DelegateError::UnknownReplyTarget,
            "delegation reply target must be delegator or supervisor",
        ),
    ];
    for (line, error, message) in cases {
        match parse_delegate_request(line) {
            Err(e) => {
                assert_eq!(e, error, "{line}");
                assert_eq!(e.message(), message);
            }
            Ok(_) => panic!("{line} should be refused"),
        }
    }
}

#[test]
fn report_lists() {
    assert!(parse_report_list("none").is_empty());
    assert!(parse_report_list("   ").is_empty());
    assert_eq!(parse_report_list(" a.txt ; ;b.txt"), strings(&["a.txt", "b.txt"]));
    assert_eq!(report_list(&[]), "none");
    assert_eq!(report_list(&strings(&["a", "b"])), "a, b");
}

#[test]
fn task_replies_are_read() {
    let r = parse_task_reply("TASK_REPLY\tdone\ta.txt;b.txt\thistory-1\n", "agent-2");
    assert_eq!(r.agent_identity, "agent-2");
    assert_eq!(r.answer, "done");
    assert_eq!(r.changed_files, strings(&["a.txt", "b.txt"]));
    assert_eq!(r.history_entries, strings(&["history-1"]));
    let plain = parse_task_reply("just words\r\n", "agent-3");
    assert_eq!(plain.answer, "just words");
    assert!(plain.changed_files.is_empty());
    let short = parse_task_reply("TASK_REPLY\tonly\tx.txt", "a");
    assert_eq!(short.changed_files, strings(&["x.txt"]));
    assert!(short.history_entries.is_empty());
}

#[test]
fn direct_answer_format() {
    assert_eq!(
        format_direct_ask_response("hello", "/w/notes.txt", "agent-1"),
        "hello\nreferences:\n- /w/notes.txt\ncaveat: local index is warming; answer may be incomplete\nparticipating_agents: agent-1\nchanged_files: none\n"
    );
    assert!(format_direct_ask_response("done\n", "/w", "a").starts_with("done\nreferences:"));
}

#[test]
fn delegator_answer_format() {
    let r = reply("agent-2", "peer says hi", &["x.txt"], &["history-9"]);
    assert_eq!(
        format_delegated_delegator_response("refined", &r, "/w", "agent-1"),
        "refined\nreferences:\n- /w\ncaveat: local index is warming; answer may be incomplete\nparticipating_agents: agent-1, agent-2\nchanged_files: x.txt\nhistory_entries: history-9\n"
    );
}

#[test]
fn supervisor_answer_format() {
    let one = DelegationOutcome { replies: vec![reply("agent-2", "counted", &[], &[])], progress: Vec::new() };
    assert_eq!(
        format_delegated_supervisor_response(&one, "/w", "agent-1"),
        "counted\nreferences:\n- /w\ncaveat: local index is warming; answer may be incomplete\nparticipating_agents: agent-1, agent-2\nchanged_files: none\nhistory_entries: none\n"
    );
    let two = DelegationOutcome {
        replies: vec![
            reply("agent-2", "first", &["a.txt"], &["h-1"]),
            reply("agent-2", "second", &["b.txt"], &["h-2"]),
        ],
        progress: strings(&["progress: queued task agent=agent-2 queue=1"]),
    };
    assert_eq!(
        format_delegated_supervisor_response(&two, "/w", "agent-1"),
        "answers:\n- agent=agent-2\n  first\n- agent=agent-2\n  second\nprogress: queued task agent=agent-2 queue=1\nreferences:\n- /w\ncaveat: local index is warming; answer may be incomplete\nparticipating_agents: agent-1, agent-2\nchanged_files: a.txt, b.txt\nhistory_entries: h-1, h-2\n"
    );
}

#[test]
fn participants_are_listed_once() {
    let replies = vec![
        reply("agent-2", "", &[], &[]),
        reply("agent-1", "", &[], &[]),
        reply("agent-3", "", &[], &[]),
        reply("agent-2", "", &[], &[]),
    ];
    assert_eq!(participating_agents("agent-1", &replies), strings(&["agent-1", "agent-2", "agent-3"]));
}

#[test]
fn broadcast_replies_are_read() {
    let r = parse_broadcast_reply("possible\tworkout plan\tUse it\tworkout.md; /etc/passwd;;/w/a.md\r", "agent-1", "/w")
        .unwrap();
    assert_eq!(r.relevance, "possible");
    assert_eq!(r.reason, "workout plan");
    assert_eq!(r.answer, "Use it");
    assert_eq!(r.file_references, strings(&["/w/workout.md", "/w/a.md"]));
    let no_refs = parse_broadcast_reply("strong\tr\ta", "agent-1", "/w").unwrap();
    assert!(no_refs.file_references.is_empty());
    assert!(parse_broadcast_reply("none\tnot relevant\t", "agent-1", "/w").is_none());
    assert!(parse_broadcast_reply("strong\tmissing answer", "agent-1", "/w").is_none());
    assert_eq!(normalize_broadcast_reference("  ", "/w"), None);
    assert_eq!(normalize_broadcast_reference("../x", "/w").unwrap(), "/w/../x");
    assert_eq!(normalize_broadcast_reference("/v/x", "/w"), None);
}

#[test]
fn broadcast_answer_format() {
    assert_eq!(
        format_broadcast_ask_response(&Vec::new(), 2000),
        "no relevant agents replied before broadcast timeout\nreferences:\n- none\nparticipating_agents: none\nchanged_files: none\nbroadcast_timeout_ms: 2000\n"
    );
    let replies = vec![
        BroadcastReply {
            agent_identity: "agent-b".to_string(),
            managed_dir: "/w/b".to_string(),
            relevance: "strong".to_string(),
            reason: "why".to_string(),
            answer: "B".to_string(),
            file_references: strings(&["/w/b/z.md", "/w/b/a.md"]),
        },
        BroadcastReply {
            agent_identity: "agent-a".to_string(),
            managed_dir: "/w/a".to_string(),
            relevance: "possible".to_string(),
            reason: "maybe".to_string(),
            answer: "A".to_string(),
            file_references: strings(&["/w/b/a.md", "/w/a/m.md"]),
        },
    ];
    assert_eq!(
        format_broadcast_ask_response(&replies, 100),
        "answers:\n- agent=agent-b managed_dir=/w/b relevance=strong reason=why\n  B\n- agent=agent-a managed_dir=/w/a relevance=possible reason=maybe\n  A\nreferences:\n- /w/a/m.md\n- /w/b/a.md\n- /w/b/z.md\nparticipating_agents: agent-b, agent-a\nchanged_files: none\nbroadcast_timeout_ms: 100\n"
    );
}

#[test]
fn references_sort_by_characters_without_repeats() {
    let items = strings(&["b", "a", "ab", "b", "", "B", "é"]);
    assert_eq!(sort_unique(&items), strings(&["", "B", "a", "ab", "b", "é"]));
}

#[test]
fn messages_to_directory_agents() {
    assert_eq!(agent_ask_message("/w/notes.txt", "summarize"), "ASK\n/w/notes.txt\nsummarize\n");
    assert_eq!(broadcast_message("anyone?"), "BROADCAST\nanyone?\n");
    assert_eq!(task_message("agent-1", ReplyTarget::Delegator, "count"), "TASK\nagent-1\ndelegator\ncount\n");
    let r = reply("agent-2", "42", &[], &["h-1", "h-2"]);
    assert_eq!(delegated_reply_message(&r), "DELEGATED_REPLY\nagent-2\n42\nnone\nh-1, h-2\n");
}
