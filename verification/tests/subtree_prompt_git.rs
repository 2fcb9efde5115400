use afs::fake_runtime::{
    collaborate_peers, extract_delegated_field, extract_field, parse_csv_list, parse_verb,
    prompt_log,
};
use afs::git::{changed_file_list, git_base_args, git_failure_message, git_stage_args, parent_commit_of};
use afs::prompt::{looks_like_explicit_path_token, prompt_path_candidates, trim_punct_exec, words_exec};
use afs::subtree::{
    clear_action, event_affects_managed_subtree, ClearAction, file_reference, ignore_file_lines, is_base_content_path,
    is_content_path_with_nested, is_ignored, is_managed_content_path,
    is_nested_managed_path_with_list, nested_marker_paths, path_has_agent_home_component,
    reference_candidate, Resolution,
};

fn strings(v: &[&str]) -> Vec<String> {
    v.iter().map(|s| s.to_string()).collect()
}

fn text(v: Vec<char>) -> String {
    v.into_iter().collect()
}

#[test]
fn prompt_words_and_tokens() {
    let words: Vec<String> = words_exec(&" see\t./a.txt,\n  (notes.md)? ".chars().collect::<Vec<_>>())
        .into_iter()
        .map(text)
        .collect();
    assert_eq!(words, strings(&["see", "./a.txt,", "(notes.md)?"]));
    assert_eq!(text(trim_punct_exec(&"\"(notes.md)?\"".chars().collect::<Vec<_>>())), "notes.md");
    assert_eq!(text(trim_punct_exec(&"?!".chars().collect::<Vec<_>>())), "");
    for token in ["/abs", ".", "..", "./x", "../y", "a/b", "notes.md"] {
        assert!(looks_like_explicit_path_token(token), "{token}");
    }
    for token in ["plain", ".bashrc", "word."] {
        assert_eq!(looks_like_explicit_path_token(token), token == "word.", "{token}");
    }
}

#[test]
fn prompt_path_candidates_in_word_order() {
    assert_eq!(
        prompt_path_candidates("/work", "summarize \"notes.md\" and /etc/hosts, please"),
        strings(&["/work/notes.md", "/etc/hosts"])
    );
    assert!(prompt_path_candidates("/work", "what is the run workout today").is_empty());
}

#[test]
fn managed_content_paths() {
    assert!(path_has_agent_home_component("/w", "/w/sub/.afs/x"));
    assert!(!path_has_agent_home_component("/w", "/v/.afs"));
    assert!(is_base_content_path("/w", "/w/.afs", "/w/owned.txt"));
    assert!(!is_base_content_path("/w", "/w/.afs", "/w/.afs/history"));
    assert!(!is_base_content_path("/w", "/w/.afs", "/w"));
    assert!(!is_base_content_path("/w", "/w/.afs", "/v/x"));
    let nested = strings(&["child"]);
    assert!(is_nested_managed_path_with_list("/w", "/w/child/owned-by-child.txt", &nested));
    assert!(!is_content_path_with_nested("/w", "/w/.afs", "/w/child/x", &nested, false));
    assert!(is_content_path_with_nested("/w", "/w/.afs", "/w/other/x", &nested, false));
    assert!(!is_content_path_with_nested("/w", "/w/.afs", "/w/other/x", &nested, true));
    assert!(is_managed_content_path("/w", "/w/a.txt", false));
    assert!(event_affects_managed_subtree("/w", &strings(&["/w/.afs/x", "/w/a.txt"]), &vec![false, false]));
    assert!(!event_affects_managed_subtree("/w", &strings(&["/w/.afs/x"]), &vec![false]));
    assert_eq!(
        nested_marker_paths("/w", "/w/a/b"),
        strings(&["/w/a/b/.afs/identity", "/w/a/.afs/identity"])
    );
    assert!(nested_marker_paths("/w", "/v/a").is_empty());
}

#[test]
fn ignore_file_hides_matching_paths() {
    let globs = ignore_file_lines("\u{feff}secrets/\n# comment\r\n*.log\n");
    assert_eq!(globs, strings(&["secrets/", "# comment", "*.log"]));
    assert!(is_ignored("/w", Some(&globs), "/w/secrets/token.txt"));
    assert!(is_ignored("/w", Some(&globs), "/w/deep/run.log"));
    assert!(!is_ignored("/w", Some(&globs), "/w/README.md"));
    assert!(!is_ignored("/w", None, "/w/secrets/token.txt"));
    assert!(!is_ignored("/w", Some(&globs), "/v/secrets/token.txt"));
    let negated = strings(&["*.log", "!keep.log"]);
    assert!(!is_ignored("/w", Some(&negated), "/w/keep.log"));
}

#[test]
fn ignore_matching_takes_the_path_below_the_managed_directory() {
    let globs = strings(&["*.log"]);
    // Backslashes stay as they are, so no empty component reaches the matcher.
    assert!(!is_ignored("m", Some(&globs), "m/m/\\x"));
    assert!(is_ignored("m", Some(&globs), "m/m/\\x.log"));
    assert!(!is_ignored("", Some(&globs), "./\\x"));
    assert!(is_ignored("/w", Some(&globs), "/w/./a//b.log"));
}

#[test]
fn clearing_before_undo_keeps_nested_managed_directories() {
    let nested = strings(&["a/b", "c"]);
    assert!(matches!(clear_action("/w", "/w/.afs", &nested), ClearAction::Keep));
    assert!(matches!(clear_action("/w", "/w/c", &nested), ClearAction::Keep));
    assert!(matches!(clear_action("/w", "/w/a/b", &nested), ClearAction::Keep));
    assert!(matches!(clear_action("/w", "/w/a", &nested), ClearAction::Descend));
    assert!(matches!(clear_action("/w", "/w/a/x.txt", &nested), ClearAction::Remove));
    assert!(matches!(clear_action("/w", "/w/notes.md", &nested), ClearAction::Remove));
    assert!(matches!(clear_action("/w", "/w/a", &Vec::new()), ClearAction::Remove));
}

#[test]
fn file_references_stay_inside_and_visible() {
    let globs = strings(&["secrets/"]);
    assert_eq!(reference_candidate("/w", " README.md ").unwrap(), "/w/README.md");
    assert!(reference_candidate("/w", "  ").is_none());
    assert_eq!(
        file_reference("/w", "/w/README.md", Resolution::Canonical("/w/README.md".to_string()), Some(&globs)).unwrap(),
        "/w/README.md"
    );
    assert!(file_reference("/w", "/w/secrets/token.txt", Resolution::Missing, Some(&globs)).is_none());
    assert!(file_reference("/w", "/w/escape", Resolution::Canonical("/tmp/escape.txt".to_string()), None).is_none());
    assert!(file_reference("/w", "/w/x", Resolution::Unresolvable, None).is_none());
    assert_eq!(file_reference("/w", "/w/new.txt", Resolution::Missing, None).unwrap(), "/w/new.txt");
}

#[test]
fn git_arguments_and_output() {
    assert_eq!(
        git_base_args("/w/.afs/history/repo", Some("/w")),
        strings(&[
            "-c", "safe.directory=*", "-c", "user.email=afs@localhost", "-c", "user.name=AFS",
            "-c", "init.defaultBranch=afs", "-c", "commit.gpgsign=false",
            "--git-dir=/w/.afs/history/repo", "--work-tree=/w",
        ])
    );
    assert_eq!(git_base_args("/r", None).len(), 11);
    assert_eq!(
        git_stage_args(&strings(&["child"])),
        strings(&["add", "--all", "--force", "--", ".", ":(exclude,top).afs", ":(exclude,top)child"])
    );
    assert_eq!(git_failure_message("add", "  fatal: bad\n"), "git add failed: fatal: bad");
    assert_eq!(parent_commit_of("abc123\n").unwrap(), "abc123");
    assert!(parent_commit_of(" \n").is_none());
    assert_eq!(
        changed_file_list("b.txt\n\na.txt\nB.txt\n"),
        strings(&["B.txt", "a.txt", "b.txt"])
    );
}

#[test]
fn runtime_prompt_fields() {
    let message = "<<<AFS:VERB=task>>>\nRequester: agent-1 \nReply target: supervisor\nTask: count files\n";
    assert_eq!(parse_verb(message), "task");
    assert_eq!(parse_verb("<<<AFS:VERB=ask>>> extra\nPath: /w"), "ask");
    assert_eq!(parse_verb("hello"), "unknown");
    assert_eq!(parse_verb(""), "unknown");
    assert_eq!(extract_field(message, "Requester: ").unwrap(), "agent-1");
    assert!(extract_field(message, "Path: ").is_none());
    assert_eq!(
        extract_delegated_field("x\nDelegated reply from agent-2:\n", "Delegated reply from ").unwrap(),
        "agent-2"
    );
    assert_eq!(parse_csv_list(" a.txt, b.txt;;c "), strings(&["a.txt", "b.txt", "c"]));
    assert!(parse_csv_list("none").is_empty());
}

#[test]
fn runtime_logs_and_peers() {
    let message = "<<<AFS:VERB=collaborate>>>\nQuestion: plan?\nPeers:\n- agent-2 (/w/b)\n\n- agent-3 (/w/c))\nOther: x\n- agent-4 (/w/d)\n";
    assert_eq!(collaborate_peers(message), strings(&["agent-2\t/w/b", "agent-3\t/w/c"]));
    let log = prompt_log("collaborate", message);
    let lines: Vec<(String, String)> = log.into_iter().map(|l| (l.file, l.line)).collect();
    assert_eq!(
        lines,
        vec![
            ("prompt-received".to_string(), "verb=collaborate".to_string()),
            ("prompt-received".to_string(), message.to_string()),
            ("collaborate-received".to_string(), "prompt=plan?".to_string()),
        ]
    );
    let ask = prompt_log("ask", "<<<AFS:VERB=ask>>>\nPath: /w/a\nQuestion: what?\n");
    assert_eq!(ask[2].line, "path=/w/a");
    assert_eq!(ask[3].file, "ask-received");
    assert_eq!(ask[3].line, "prompt=what?");
    assert_eq!(prompt_log("unknown", "x").len(), 2);
}
