use afs::history::{
    baseline_commit, baseline_for, chain_origins, change_commit, format_history, format_undo_response,
    git_commit_message, history_entries, history_entry_id, history_summary, ownership_commit,
    parse_commit_trailers, parse_log_records, pending_external_files, ChangedFileState,
    changed_file_existed_before, plan_history_merge,
    plan_undo, prefix_child_path, rewrite_ownership_summary, rewrite_summary_paths,
    sanitize_field, undo_commits, undoable_field, CommitRequest, HistoryRecord, Trailers,
    UndoRefusal,
};

fn s(v: &str) -> String {
    v.to_string()
}

fn request(id: &str, kind: &str, summary: &str, files: &[&str], undoable: bool) -> CommitRequest {
    CommitRequest {
        entry_id: s(id),
        kind: s(kind),
        summary: s(summary),
        files: files.iter().map(|f| s(f)).collect(),
        undoable,
        undoes: None,
        origin: None,
    }
}

/// The log text `git log` prints for commits (newest first).
fn log_text(commits: &[(&str, u64, &CommitRequest)]) -> String {
    let mut text = String::new();
    for (sha, ts, req) in commits {
        text.push_str("--AFS-COMMIT--\n");
        text.push_str(&format!("{sha}\n{ts}\n"));
        text.push_str(&git_commit_message(req));
        text.push_str("\n--AFS-END--\n");
    }
    text
}

fn records(commits: &[(&str, u64, &CommitRequest)]) -> Vec<HistoryRecord> {
    parse_log_records(&log_text(commits))
}

#[test]
fn sanitize_field_replaces_line_breaks_and_tabs() {
    assert_eq!(sanitize_field("a\tb\nc\rd"), "a b c d");
    assert_eq!(undoable_field(true), "yes");
    assert_eq!(undoable_field(false), "no");
}

#[test]
fn history_summary_counts_files() {
    assert_eq!(history_summary("Agent change", &[]), "Agent change: no files changed");
    assert_eq!(history_summary("Agent change", &[s("a.txt")]), "Agent change: a.txt");
    assert_eq!(
        history_summary("External change", &[s("a"), s("b"), s("c")]),
        "External change: 3 files changed"
    );
}

#[test]
fn child_paths_and_origins_chain() {
    assert_eq!(prefix_child_path("child", "notes.txt"), "child/notes.txt");
    assert_eq!(prefix_child_path("", "notes.txt"), "notes.txt");
    assert_eq!(prefix_child_path("child", ""), "");
    assert_eq!(chain_origins("child", "grandchild"), "child/grandchild");
    assert_eq!(chain_origins("", "grandchild"), "grandchild");
    assert_eq!(chain_origins("child", ""), "child");
    // Chaining is associative: merging twice equals merging once under the
    // joined origin.
    assert_eq!(
        chain_origins(&chain_origins("a", "b"), "c"),
        chain_origins("a", &chain_origins("b", "c"))
    );
    assert_eq!(
        prefix_child_path("a", &prefix_child_path("b", "f.txt")),
        prefix_child_path(&chain_origins("a", "b"), "f.txt")
    );
}

#[test]
fn summaries_are_rewritten_under_the_origin() {
    let original = vec![s("src/lib.rs")];
    let rewritten = vec![s("app/src/lib.rs")];
    assert_eq!(
        rewrite_summary_paths("Agent change: src/lib.rs", &original, &rewritten),
        "Agent change: app/src/lib.rs"
    );
    assert_eq!(rewrite_ownership_summary("Ownership split: child", "app"), "Ownership split: app/child");
    assert_eq!(rewrite_ownership_summary("Ownership split: child", ""), "Ownership split: child");
    assert_eq!(rewrite_ownership_summary("no separator", "app"), "no separator");
}

#[test]
fn commit_message_lists_the_trailers() {
    let mut req = request("history-1-2", "agent", "Agent change: a.txt", &["a.txt", "b\tc.txt"], true);
    req.undoes = Some(s("history-0-1"));
    req.origin = Some(s("child"));
    assert_eq!(
        git_commit_message(&req),
        "Agent change: a.txt\n\nAfs-Entry-Id: history-1-2\nAfs-Kind: agent\nAfs-Summary: Agent change: a.txt\nAfs-Undoable: yes\nAfs-File-Count: 2\nAfs-Files: a.txt, b c.txt\nAfs-Undoes: history-0-1\nAfs-Origin: child\n"
    );
}

#[test]
fn commit_message_trailers_read_back() {
    let req = request("history-7-8", "external", "External change: x", &["x"], true);
    let message: Vec<char> = git_commit_message(&req).chars().collect();
    let t: Trailers = parse_commit_trailers(&message);
    assert_eq!(t.entry_id.as_deref(), Some("history-7-8"));
    assert_eq!(t.kind.as_deref(), Some("external"));
    assert_eq!(t.summary.as_deref(), Some("External change: x"));
    assert_eq!(t.undoable.as_deref(), Some("yes"));
    assert_eq!(t.file_count.as_deref(), Some("1"));
    assert_eq!(t.files.as_deref(), Some("x"));
    assert!(t.undoes.is_none());
    assert!(t.origin.is_none());
}

#[test]
fn log_records_parse_in_log_order() {
    let a = request("history-a", "agent", "Agent change: a.txt", &["a.txt"], true);
    let b = request("history-b", "external", "External change: b.txt", &["b.txt"], true);
    let rs = records(&[("bbbb", 20, &b), ("aaaa", 10, &a)]);
    assert_eq!(rs.len(), 2);
    assert_eq!(rs[0].commit, "bbbb");
    assert_eq!(rs[0].timestamp_secs, 20);
    assert_eq!(rs[0].trailers.entry_id.as_deref(), Some("history-b"));
    assert_eq!(rs[1].commit, "aaaa");
    // A block without an end marker is skipped.
    let broken = parse_log_records("--AFS-COMMIT--\nsha\n5\nbody without end\n");
    assert!(broken.is_empty());
}

#[test]
fn history_listing_is_newest_first_without_baseline() {
    let base = baseline_commit("history-base");
    let a = request("history-a", "agent", "Agent change: a.txt", &["a.txt"], true);
    let b = request("history-b", "external", "External change: b.txt", &["b.txt"], true);
    let rs = records(&[("c3", 30, &b), ("c2", 20, &a), ("c1", 10, &base)]);
    assert_eq!(
        format_history(&rs),
        "entry=history-b timestamp=30 type=external summary=External change: b.txt files=1 undoable=yes origin=\nentry=history-a timestamp=20 type=agent summary=Agent change: a.txt files=1 undoable=yes origin=\n"
    );
    let entries = history_entries(&rs);
    assert_eq!(entries.len(), 2);
    assert_eq!(entries[0].id, "history-b");
    assert_eq!(entries[1].id, "history-a");
    assert!(entries.iter().all(|e| e.kind != "baseline"));
    assert_eq!(format_history(&records(&[("c1", 10, &base)])), "no history entries\n");
}

#[test]
fn later_record_of_an_entry_updates_its_undoable_state() {
    let a = request("history-a", "agent", "Agent change: a.txt", &["a.txt"], true);
    let a_done = request("history-a", "agent", "Agent change: a.txt", &["a.txt"], false);
    let rs = records(&[("c2", 20, &a_done), ("c1", 10, &a)]);
    let entries = history_entries(&rs);
    assert_eq!(entries.len(), 1);
    assert!(!entries[0].undoable);
    assert_eq!(entries[0].timestamp_secs, 10);
}

#[test]
fn undo_refusals() {
    let none: Vec<HistoryRecord> = Vec::new();
    match plan_undo(&none, "history-bogus-0", false) {
        Err(UndoRefusal::NoUndoableEntries) => {}
        _ => panic!("expected no undoable entries"),
    }
    assert_eq!(UndoRefusal::NoUndoableEntries.message(), "no undoable history entries");
    let a = request("history-a", "agent", "Agent change: a.txt", &["a.txt"], true);
    let b = request("history-b", "agent", "Agent change: b.txt", &["b.txt"], true);
    let rs = records(&[("c2", 20, &b), ("c1", 10, &a)]);
    match plan_undo(&rs, "history-a", false) {
        Err(e @ UndoRefusal::NotLatest(_)) => assert_eq!(
            e.message(),
            "only the latest undoable history entry can be undone: history-b"
        ),
        _ => panic!("expected not latest"),
    }
    let ext = request("history-x", "external", "External change: draft.md", &["draft.md"], true);
    let rs = records(&[("c1", 10, &ext)]);
    match plan_undo(&rs, "history-x", false) {
        Err(e @ UndoRefusal::ConfirmationRequired) => assert!(e.message().contains("requires --yes")),
        _ => panic!("expected confirmation to be required"),
    }
    assert!(plan_undo(&rs, "history-x", true).is_ok());
}

#[test]
fn undo_plan_commits_and_reply() {
    let a = request("history-a", "agent", "Agent change: a.txt", &["a.txt"], true);
    let rs = records(&[("c1", 10, &a)]);
    let plan = match plan_undo(&rs, "history-a", false) {
        Ok(p) => p,
        Err(_) => panic!("undo should be planned"),
    };
    assert_eq!(plan.representative_commit, "c1");
    let (undo, marker) = undo_commits(&plan, "history-u");
    assert_eq!(undo.kind, "undo");
    assert_eq!(undo.summary, "Undo history-a: Agent change: a.txt");
    assert_eq!(undo.undoes.as_deref(), Some("history-a"));
    assert!(!undo.undoable);
    assert_eq!(marker.entry_id, "history-a");
    assert!(!marker.undoable);
    assert_eq!(format_undo_response(&plan), "undid history entry history-a\nfiles=1\n");
    // After both commits the entry can no longer be undone.
    let after = records(&[("c3", 30, &marker), ("c2", 20, &undo), ("c1", 10, &a)]);
    match plan_undo(&after, "history-a", true) {
        Err(UndoRefusal::NoUndoableEntries) => {}
        _ => panic!("an undone entry must stay undone"),
    }
}

#[test]
fn change_and_ownership_commits() {
    assert_eq!(history_entry_id(42, 1234), "history-42-1234");
    assert!(change_commit("h", "agent", "Agent change", &Vec::new()).is_none());
    let c = change_commit("h", "agent", "Agent change", &vec![s("notes.txt")]).unwrap();
    assert_eq!(c.summary, "Agent change: notes.txt");
    assert!(c.undoable);
    let o = ownership_commit("h", "Ownership split: child", &Vec::new());
    assert_eq!(o.kind, "ownership");
    assert!(!o.undoable);
    assert!(baseline_for(true, "h0").is_none());
    assert_eq!(baseline_for(false, "h0").unwrap().kind, "baseline");
    let base = baseline_commit("h0");
    assert_eq!(base.kind, "baseline");
    assert_eq!(base.summary, "Install baseline");
}

#[test]
fn pending_files_keep_those_that_existed_before() {
    let changed = vec![s("new.txt"), s("old.txt"), s("gone.txt"), s("odd.txt"), s("edge.txt"), s("bare.txt")];
    let states = vec![
        ChangedFileState::Modified(200),
        ChangedFileState::Modified(50),
        ChangedFileState::Missing,
        ChangedFileState::Unreadable,
        ChangedFileState::Modified(100),
        ChangedFileState::NoModifiedTime,
    ];
    assert_eq!(pending_external_files(&changed, &states, 100), vec![s("old.txt"), s("gone.txt"), s("edge.txt")]);
    assert!(changed_file_existed_before(&ChangedFileState::Modified(-5), 0));
    assert!(!changed_file_existed_before(&ChangedFileState::Modified(1), 0));
}

#[test]
fn merged_child_history_is_rewritten_and_not_undoable() {
    let base = baseline_commit("history-base");
    let a = request("history-a", "agent", "Agent change: src/lib.rs", &["src/lib.rs"], true);
    let a_done = request("history-a", "agent", "Agent change: src/lib.rs", &["src/lib.rs"], false);
    let mut split = request("history-o", "ownership", "Ownership split: inner", &[], false);
    split.origin = Some(s("inner"));
    let rs = records(&[("c4", 40, &split), ("c3", 30, &a_done), ("c2", 20, &a), ("c1", 10, &base)]);
    let plan = plan_history_merge(&rs, "app");
    assert_eq!(plan.len(), 2);
    assert_eq!(plan[0].entry_id, "history-a");
    assert_eq!(plan[0].files, vec![s("app/src/lib.rs")]);
    assert_eq!(plan[0].summary, "Agent change: app/src/lib.rs");
    assert_eq!(plan[0].origin.as_deref(), Some("app"));
    assert_eq!(plan[1].summary, "Ownership split: app/inner");
    assert_eq!(plan[1].origin.as_deref(), Some("app/inner"));
    assert!(plan.iter().all(|r| !r.undoable));
}
