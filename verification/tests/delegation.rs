use afs::conversation::{DelegateRequest, ReplyTarget};
use afs::delegation::{
    batch_reply_target, delegated_target_agent_index, path_not_managed_message,
    queue_delegated_tasks, start_delegated_task, target_not_managed_message, BatchError,
};
use afs::supervisor::AgentRecord;
use afs::waiting::{BroadcastWait, DelegateCollection, WaitStep};

fn agent(identity: &str, dir: &str) -> AgentRecord {
    AgentRecord {
        identity: identity.to_string(),
        managed_dir: dir.to_string(),
        agent_home: format!("{dir}/.afs"),
    }
}

fn request(target: ReplyTarget) -> DelegateRequest {
    DelegateRequest { target: "t".to_string(), reply_target: target, prompt: "p".to_string() }
}

#[test]
fn delegation_targets() {
    let agents = vec![agent("agent-a", "/w"), agent("agent-b", "/w/child")];
    assert_eq!(delegated_target_agent_index(&agents, " agent-b ", None), Some(1));
    assert_eq!(delegated_target_agent_index(&agents, "/w/child/x", Some("/w/child/x")), Some(1));
    assert_eq!(delegated_target_agent_index(&agents, "/w/missing", None), None);
    assert_eq!(delegated_target_agent_index(&agents, "child/x", Some("/w/child/x")), None);
    assert_eq!(
        target_not_managed_message("agent-z"),
        "delegated target is not managed: agent-z"
    );
    assert_eq!(
        path_not_managed_message("/x/file.txt", "/x"),
        "path is not managed: /x/file.txt. Run afs install /x or afs install a suitable parent directory."
    );
}

#[test]
fn delegation_batches() {
    assert_eq!(batch_reply_target(&Vec::new()), Err(BatchError::Empty));
    assert_eq!(
        batch_reply_target(&vec![request(ReplyTarget::Supervisor), request(ReplyTarget::Supervisor)]),
        Ok(ReplyTarget::Supervisor)
    );
    assert_eq!(batch_reply_target(&vec![request(ReplyTarget::Delegator)]), Ok(ReplyTarget::Delegator));
    let mixed = batch_reply_target(&vec![request(ReplyTarget::Supervisor), request(ReplyTarget::Delegator)]);
    assert_eq!(mixed, Err(BatchError::MixedReplyTargets));
    assert_eq!(mixed.unwrap_err().message(), "delegated task batch must use one reply target");
    let two = batch_reply_target(&vec![request(ReplyTarget::Delegator), request(ReplyTarget::Delegator)]);
    assert_eq!(
        two.unwrap_err().message(),
        "delegator reply target supports one delegated task per request"
    );
    assert_eq!(BatchError::Empty.message(), "delegation request is missing");
}

#[test]
fn queued_tasks_drain_as_they_start() {
    let identities = vec!["agent-a".to_string(), "agent-b".to_string()];
    let mut queued = vec![0, 0];
    let targets = vec![1, 1, 0, 1];
    let mut progress = queue_delegated_tasks(&identities, &mut queued, &targets);
    assert_eq!(queued, vec![0, 2]);
    assert_eq!(progress, vec!["progress: queued task agent=agent-b queue=2".to_string()]);
    for &t in &targets {
        start_delegated_task(&identities, &mut queued, t, &mut progress);
    }
    assert_eq!(queued, vec![0, 0]);
    assert_eq!(
        progress,
        vec![
            "progress: queued task agent=agent-b queue=2".to_string(),
            "progress: started task agent=agent-b queue=1".to_string(),
            "progress: started task agent=agent-b queue=0".to_string(),
        ]
    );
}

#[test]
fn delegate_collection_waits_after_each_line() {
    let first = DelegateRequest { target: "a".to_string(), reply_target: ReplyTarget::Delegator, prompt: "p".to_string() };
    let mut c = DelegateCollection::new(first, 100);
    assert_eq!(c.deadline_ms, 150);
    assert_eq!(c.on_quiet(149), WaitStep::Pause(5));
    assert_eq!(c.on_quiet(150), WaitStep::Stop);
    assert_eq!(c.on_line("DELEGATE\tb\tsupervisor\tq", 140).unwrap(), WaitStep::Continue);
    assert_eq!(c.deadline_ms, 190);
    assert_eq!(c.requests.len(), 2);
    assert_eq!(c.requests[1].target, "b");
    assert_eq!(c.on_line("plain answer", 150).unwrap(), WaitStep::Stop);
    assert_eq!(c.requests.len(), 2);
    assert!(c.on_line("DELEGATE\t", 150).is_err());
    let late = DelegateCollection::new(
        DelegateRequest { target: "a".to_string(), reply_target: ReplyTarget::Delegator, prompt: "p".to_string() },
        u64::MAX - 1,
    );
    assert_eq!(late.deadline_ms, u64::MAX);
}

#[test]
fn broadcast_wait_ends_at_the_deadline_or_the_last_reply() {
    let mut w = BroadcastWait::new(2, 0, 100);
    assert_eq!(w.pending, vec![true, true]);
    assert!(w.keeps_waiting(99));
    assert!(!w.keeps_waiting(100));
    w.on_reply(1);
    assert!(w.keeps_waiting(50));
    w.on_reply(0);
    assert!(!w.keeps_waiting(50));
    assert_eq!(BroadcastWait::pause_after_sweep(true), 0);
    assert_eq!(BroadcastWait::pause_after_sweep(false), 10);
    assert!(!BroadcastWait::new(0, 0, 100).keeps_waiting(0));
}
