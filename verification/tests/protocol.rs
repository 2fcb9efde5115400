use afs::client::{
    agents, ask, decode_response, history, install, invalid_response_message, remove, undo, Error,
};
use afs::protocol::{encode_request, frame_response, parse_request, Request, RequestError};

#[test]
fn request_lines_for_each_command() {
    assert_eq!(ask("/work", "what is here?"), "ASK\t/work\twhat is here?");
    assert_eq!(install("/work", "project"), "INSTALL /work/project");
    assert_eq!(install("/work", "/abs/dir"), "INSTALL /abs/dir");
    assert_eq!(remove("/work", "project", true), "REMOVE\t/work/project\tdiscard");
    assert_eq!(remove("/work/", "project", false), "REMOVE\t/work/project\tkeep");
    assert_eq!(agents(), "AGENTS");
    assert_eq!(history("/work", "notes.txt"), "HISTORY /work/notes.txt");
    assert_eq!(undo("/work", "notes.txt", "history-1-2", true), "UNDO\t/work/notes.txt\thistory-1-2\tyes");
    assert_eq!(undo("/work", "notes.txt", "history-1-2", false), "UNDO\t/work/notes.txt\thistory-1-2\tno");
}

#[test]
fn parse_request_reads_each_request() {
    match parse_request("ASK\t/work\tsummarize notes.txt\r\n") {
        Ok(Request::Ask { cwd, prompt }) => {
            assert_eq!(cwd, "/work");
            assert_eq!(prompt, "summarize notes.txt");
        }
        _ => panic!("expected ASK"),
    }
    match parse_request("INSTALL /a b\n") {
        Ok(Request::Install { path }) => assert_eq!(path, "/a b"),
        _ => panic!("expected INSTALL"),
    }
    match parse_request("REMOVE\t/a\tdiscard") {
        Ok(Request::Remove { path, discard_history }) => {
            assert_eq!(path, "/a");
            assert!(discard_history);
        }
        _ => panic!("expected REMOVE"),
    }
    assert!(matches!(parse_request("AGENTS\n"), Ok(Request::Agents)));
    match parse_request("HISTORY /a/x") {
        Ok(Request::History { path }) => assert_eq!(path, "/a/x"),
        _ => panic!("expected HISTORY"),
    }
    match parse_request("UNDO\t/a\th-1\tyes\tmore") {
        Ok(Request::Undo { path, history_entry, confirmed }) => {
            assert_eq!(path, "/a");
            assert_eq!(history_entry, "h-1");
            assert!(!confirmed, "only the exact field `yes` confirms");
        }
        _ => panic!("expected UNDO"),
    }
}

#[test]
fn parse_request_errors() {
    let cases = [
        ("ASK\tno-prompt", "ASK request is missing current directory", false),
        ("REMOVE\t/a", "REMOVE request is missing discard-history flag", false),
        ("REMOVE\t/a\tmaybe", "REMOVE request has unknown discard-history flag", false),
        ("UNDO\t/a", "UNDO request is missing history entry", false),
        ("UNDO\t/a\th-1", "UNDO request is missing confirmation mode", false),
        ("HELLO", "unknown supervisor request", true),
    ];
    for (line, message, answered) in cases {
        match parse_request(line) {
            Err(e) => {
                assert_eq!(e.message(), message);
                assert_eq!(e.answered(), answered);
            }
            Ok(_) => panic!("{line} should be refused"),
        }
    }
    assert!(matches!(parse_request("AGENTS extra"), Err(RequestError::Unknown)));
}

#[test]
fn encoded_requests_parse_back() {
    let requests = vec![
        Request::Ask { cwd: "/w".to_string(), prompt: "hi there".to_string() },
        Request::Remove { path: "/w/p".to_string(), discard_history: false },
        Request::Undo { path: "/w".to_string(), history_entry: "h".to_string(), confirmed: true },
    ];
    for r in &requests {
        let line = encode_request(r) + "\n";
        let back = parse_request(&line);
        assert_eq!(encode_request(&back.ok().unwrap()), encode_request(r));
    }
}

#[test]
fn responses_are_framed_and_read_back() {
    let ok: Result<String, String> = Ok("body\n".to_string());
    assert_eq!(frame_response(&ok), "OK\nbody\n");
    let err: Result<String, String> = Err("path is not managed".to_string());
    assert_eq!(frame_response(&err), "ERR\npath is not managed\n");
    assert_eq!(decode_response(&frame_response(&ok)).ok().unwrap(), "body\n");
    match decode_response(&frame_response(&err)) {
        Err(Error::Supervisor(m)) => assert_eq!(m, "path is not managed"),
        _ => panic!("expected a refusal"),
    }
    match decode_response("HELLO\n") {
        Err(Error::Io(e)) => {
            assert_eq!(e.kind(), std::io::ErrorKind::InvalidData);
            assert_eq!(e.to_string(), invalid_response_message());
            assert_eq!(invalid_response_message(), "supervisor returned an invalid response");
        }
        _ => panic!("expected an invalid answer"),
    }
}
