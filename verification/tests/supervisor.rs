use afs::supervisor::{
    agent_runtime_args, archive_safe_name, archived_home_path, broadcast_reply_timeout,
    format_agents, format_install_response, format_registry, format_remove_response,
    history_repo_dir, nested_archive, new_agent_identity, owning_agent_index,
    ownership_merge_summary, parent_agent_index, parse_registry, pi_runtime_command, plan_install,
    plan_remove, registered_index, remove_outcome, runtime_not_found_message, socket_path,
    supervisor_archive_root, home, top_level_archive, AgentRecord, AgentStatus,
    IndexState, ReconciliationState, RemoveOutcome, RemoveRefusal,
};

fn agent(identity: &str, dir: &str) -> AgentRecord {
    AgentRecord {
        identity: identity.to_string(),
        managed_dir: dir.to_string(),
        agent_home: format!("{dir}/.afs"),
    }
}

#[test]
fn supervisor_paths() {
    assert_eq!(socket_path("/home/u/.afs"), "/home/u/.afs/supervisor.sock");
    assert_eq!(history_repo_dir("/p/.afs"), "/p/.afs/history/repo");
    assert_eq!(supervisor_archive_root("/home/u/.afs"), "/home/u/.afs/archives");
    assert_eq!(home(Some("/custom"), Some("/home/u")).unwrap(), "/custom");
    assert_eq!(home(None, Some("/home/u")).unwrap(), "/home/u/.afs");
    assert!(home(None, None).is_none());
}

#[test]
fn owner_is_the_deepest_managed_directory() {
    let agents = vec![agent("a", "/w"), agent("b", "/w/child"), agent("c", "/other")];
    assert_eq!(owning_agent_index(&agents, "/w/child/x.txt"), Some(1));
    assert_eq!(owning_agent_index(&agents, "/w/child"), Some(1));
    assert_eq!(owning_agent_index(&agents, "/w/x.txt"), Some(0));
    assert_eq!(owning_agent_index(&agents, "/w/childish"), Some(0));
    assert_eq!(owning_agent_index(&agents, "/nowhere"), None);
    assert_eq!(parent_agent_index(&agents, "/w/child"), Some(0));
    assert_eq!(parent_agent_index(&agents, "/w"), None);
    assert_eq!(registered_index(&agents, "/w/child/"), Some(1));
}

#[test]
fn registry_round_trips() {
    let agents = vec![agent("agent-1-2", "/w"), agent("agent-3-4", "/w/child")];
    let text = format_registry(&agents);
    assert_eq!(
        text,
        "identity\tmanaged_dir\tagent_home\nagent-1-2\t/w\t/w/.afs\nagent-3-4\t/w/child\t/w/child/.afs\n"
    );
    let back = parse_registry(&text);
    assert_eq!(back.len(), 2);
    assert_eq!(back[1].identity, "agent-3-4");
    assert_eq!(back[1].managed_dir, "/w/child");
    assert_eq!(back[1].agent_home, "/w/child/.afs");
    let skipped = parse_registry("identity\tmanaged_dir\tagent_home\nbad line\na\tb\tc\n");
    assert_eq!(skipped.len(), 1);
    assert!(parse_registry("").is_empty());
}

#[test]
fn install_plan_and_reply() {
    let agents = vec![agent("parent", "/w")];
    let plan = plan_install(&agents, "/w/child", false);
    assert!(plan.register);
    let (parent, summary) = plan.split.unwrap();
    assert_eq!(parent, 0);
    assert_eq!(summary, "Ownership split: child");
    let again = plan_install(&agents, "/w/child", true);
    assert!(again.split.is_none());
    let same = plan_install(&agents, "/w", true);
    assert!(!same.register);
    assert!(same.split.is_none());
    let same_spelled_otherwise = plan_install(&agents, "/w/./", true);
    assert!(!same_spelled_otherwise.register);
    assert_eq!(
        format_install_response(false, "/w/child", "agent-1-2\n"),
        "installed managed directory /w/child\nagent agent-1-2\n"
    );
    assert_eq!(
        format_install_response(true, "/w", " agent-9 "),
        "already managed directory /w\nagent agent-9\n"
    );
    assert_eq!(new_agent_identity(12, 345), "agent-12-345\n");
}

#[test]
fn remove_refusals_and_plan() {
    let agents = vec![agent("parent", "/w"), agent("child", "/w/child")];
    match plan_remove(&agents, "/home/u/.afs", "/nowhere") {
        Err(RemoveRefusal::NotInstalled) => {}
        _ => panic!("expected not installed"),
    }
    assert_eq!(RemoveRefusal::NotInstalled.message(), "managed directory is not installed");
    match plan_remove(&agents, "/w/.afs-home", "/w") {
        Err(e @ RemoveRefusal::ContainsSupervisorHome) => assert_eq!(
            e.message(),
            "cannot remove a managed directory that contains the AFS supervisor home"
        ),
        _ => panic!("expected the supervisor home refusal"),
    }
    let nested = plan_remove(&agents, "/home/u/.afs", "/w/child").ok().unwrap();
    assert_eq!(nested.agent_index, 1);
    assert_eq!(nested.parent_index, Some(0));
    let top = plan_remove(&agents, "/home/u/.afs", "/w").ok().unwrap();
    assert_eq!(top.agent_index, 0);
    assert_eq!(top.parent_index, None);
}

#[test]
fn remove_outcomes_and_reply() {
    assert_eq!(remove_outcome(false, true), RemoveOutcome::Missing);
    assert_eq!(remove_outcome(true, true), RemoveOutcome::Discarded);
    assert_eq!(remove_outcome(true, false), RemoveOutcome::Archived);
    assert_eq!(ownership_merge_summary("child", RemoveOutcome::Archived), "Ownership merge: child");
    assert_eq!(
        ownership_merge_summary("child", RemoveOutcome::Discarded),
        "Ownership merge: child (history discarded)"
    );
    assert_eq!(
        ownership_merge_summary("child", RemoveOutcome::Missing),
        "Ownership merge: child (home missing)"
    );
    assert_eq!(
        format_remove_response("/w/child", "agent-1\n", "/w/.afs/archives/agent-1-99", RemoveOutcome::Archived),
        "removed managed directory /w/child\nagent agent-1\narchived_agent_home /w/.afs/archives/agent-1-99\n"
    );
    assert_eq!(
        format_remove_response("/w", "a", "/w/.afs", RemoveOutcome::Missing),
        "removed managed directory /w\nagent a\nmissing_agent_home /w/.afs\n"
    );
}

#[test]
fn archive_names_are_safe() {
    assert_eq!(archive_safe_name("agent 1/2:ok_-"), "agent-1-2-ok_-");
    assert_eq!(archive_safe_name(""), "agent");
    assert_eq!(archive_safe_name("é"), "-");
    assert_eq!(top_level_archive("/w/my project", "agent-1\n"), "my-project-agent-1");
    assert_eq!(top_level_archive("/", "agent-1"), "managed-agent-1");
    assert_eq!(nested_archive("  agent-7 "), "agent-7");
    assert_eq!(archived_home_path("/w/.afs/archives", "agent-7", 55), "/w/.afs/archives/agent-7-55");
}

#[test]
fn agents_listing() {
    assert_eq!(format_agents(&Vec::new()), "no agents registered\n");
    let statuses = vec![
        AgentStatus {
            managed_dir: "/w".to_string(),
            identity: "a".to_string(),
            running: true,
            index: IndexState::Warming,
            reconciliation: ReconciliationState::Idle,
            active: false,
            queued_tasks: 0,
        },
        AgentStatus {
            managed_dir: "/v".to_string(),
            identity: "b".to_string(),
            running: false,
            index: IndexState::Ready { files: 2 },
            reconciliation: ReconciliationState::Complete { changed_files: 2 },
            active: true,
            queued_tasks: 1,
        },
    ];
    assert_eq!(
        format_agents(&statuses),
        "/w agent=a runtime=pi-rpc-stdio health=running index=warming reconciliation=idle active=false queue=0\n\
         /v agent=b runtime=pi-rpc-stdio health=stopped index=ready(files=2) reconciliation=complete(changed_files=2) active=true queue=1\n"
    );
}

#[test]
fn agents_listing_index_and_reconciliation_states() {
    let status = |index: IndexState, reconciliation: ReconciliationState| AgentStatus {
        managed_dir: "/m".to_string(),
        identity: "x".to_string(),
        running: true,
        index,
        reconciliation,
        active: false,
        queued_tasks: 0,
    };
    let line = |index, reconciliation| format_agents(&vec![status(index, reconciliation)]);
    assert!(line(IndexState::WarmingScanned { scanned: 3 }, ReconciliationState::Running)
        .contains(" index=warming(scanned=3) reconciliation=running "));
    assert!(line(IndexState::WarmingScannedOf { scanned: 3, total: 9 }, ReconciliationState::Error)
        .contains(" index=warming(scanned=3/total=9) reconciliation=error "));
    assert!(line(IndexState::Incomplete { files: 0, failed: 1 }, ReconciliationState::Idle)
        .contains(" index=incomplete(files=0, failed=1) reconciliation=idle "));
    assert!(line(IndexState::Ready { files: 0 }, ReconciliationState::Idle).contains("index=ready(files=0)"));
}

#[test]
fn broadcast_timeout_setting() {
    assert_eq!(broadcast_reply_timeout(None), 2000);
    assert_eq!(broadcast_reply_timeout(Some("100")), 100);
    assert_eq!(broadcast_reply_timeout(Some("+250")), 250);
    assert_eq!(broadcast_reply_timeout(Some("0")), 2000);
    assert_eq!(broadcast_reply_timeout(Some("-5")), 2000);
    assert_eq!(broadcast_reply_timeout(Some("18446744073709551616")), 2000);
}

#[test]
fn runtime_command_and_arguments() {
    assert_eq!(pi_runtime_command(None), "pi");
    assert_eq!(pi_runtime_command(Some("/bin/fake")), "/bin/fake");
    assert_eq!(
        agent_runtime_args("/w", "/w/.afs", "agent-1"),
        vec!["agent", "--rpc", "stdio", "--managed-dir", "/w", "--agent-home", "/w/.afs", "--identity", "agent-1"]
    );
    assert_eq!(
        runtime_not_found_message("pi"),
        "AFS agent runtime not found: pi (set AFS_PI_RUNTIME)"
    );
}
