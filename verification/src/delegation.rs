//! Delegation between Directory Agents: which agent a delegated task goes
//! to, which batches of tasks the supervisor accepts, and the task queue
//! progress it reports while working through a batch.
use vstd::prelude::*;
use crate::conversation::{DelegateRequest, ReplyTarget};
use crate::supervisor::{agent_views, owning_agent_index, owning_index, AgentRecord, AgentRecordView};
use crate::text::{chars_eq, chars_of, decimal, extend_str, push_decimal, string_of, string_views, trim, trim_exec};

verus! {

// ---------------------------------------------------------------------------
// Delegation targets.
// ---------------------------------------------------------------------------

/// Among the first `n` agents, the first whose Agent Identity is `id`.
pub open spec fn identity_position(agents: Seq<AgentRecordView>, id: Seq<char>, n: int) -> Option<int>
    decreases n,
{
    if n <= 0 {
        None
    } else {
        match identity_position(agents, id, n - 1) {
            Some(i) => Some(i),
            None => if agents[n - 1].identity == id {
                Some(n - 1)
            } else {
                None
            },
        }
    }
}

proof fn lemma_identity_position_stable(agents: Seq<AgentRecordView>, id: Seq<char>, n: int, m: int)
    requires
        n <= m,
        identity_position(agents, id, n) is Some,
    ensures
        identity_position(agents, id, m) == identity_position(agents, id, n),
    decreases m - n,
{
    if n < m {
        lemma_identity_position_stable(agents, id, n, m - 1);
    }
}

/// The agent a delegated task goes to: the agent whose Agent Identity is
/// the trimmed target; otherwise, for an absolute target, the agent that
/// owns its canonical path (`canonical`, when it could be resolved).
pub open spec fn delegated_target(
    agents: Seq<AgentRecordView>,
    target: Seq<char>,
    canonical: Option<Seq<char>>,
) -> Option<int> {
    match identity_position(agents, trim(target), agents.len() as int) {
        Some(i) => Some(i),
        None => if target.len() > 0 && target[0] == '/' {
            match canonical {
                Some(c) => owning_index(agents, c),
                None => None,
            }
        } else {
            None
        },
    }
}

/// The index of the agent a delegated task goes to; `canonical_target` is
/// the canonical form of an absolute target, when it exists.
pub fn delegated_target_agent_index(
    agents: &Vec<AgentRecord>,
    target: &str,
    canonical_target: Option<&str>,
) -> (r: Option<usize>)
    ensures
        r matches Some(i) ==> delegated_target(
            agent_views(agents@),
            target@,
            match canonical_target {
                Some(c) => Some(c@),
                None => None,
            },
        ) == Some(i as int),
        r is None ==> delegated_target(
            agent_views(agents@),
            target@,
            match canonical_target {
                Some(c) => Some(c@),
                None => None,
            },
        ) is None,
{
    let ghost av = agent_views(agents@);
    let tc = chars_of(target);
    let id = trim_exec(tc.as_slice());
    let mut i: usize = 0;
    while i < agents.len()
        invariant
            i <= agents.len(),
            av == agent_views(agents@),
            id@ == trim(target@),
            identity_position(av, id@, i as int) is None,
        decreases agents.len() - i,
    {
        assert(av[i as int] == agents@[i as int]@);
        let ic = chars_of(agents[i].identity.as_str());
        if chars_eq(ic.as_slice(), id.as_slice()) {
            proof {
                lemma_identity_position_stable(av, id@, i + 1, av.len() as int);
            }
            return Some(i);
        }
        i += 1;
    }
    if tc.len() == 0 || tc[0] != '/' {
        return None;
    }
    match canonical_target {
        Some(c) => owning_agent_index(agents, c),
        None => None,
    }
}

/// The message for a delegated task whose target no agent manages.
pub fn target_not_managed_message(target: &str) -> (m: String)
    ensures
        m@ == "delegated target is not managed: "@ + target@,
{
    let mut v = chars_of("delegated target is not managed: ");
    extend_str(&mut v, target);
    string_of(v.as_slice())
}

/// The message for a question about a path no agent manages, with the
/// directory to install.
pub fn path_not_managed_message(requested_path: &str, suggestion: &str) -> (m: String)
    ensures
        m@ == "path is not managed: "@ + requested_path@ + ". Run afs install "@ + suggestion@
            + " or afs install a suitable parent directory."@,
{
    let mut v = chars_of("path is not managed: ");
    extend_str(&mut v, requested_path);
    extend_str(&mut v, ". Run afs install ");
    extend_str(&mut v, suggestion);
    extend_str(&mut v, " or afs install a suitable parent directory.");
    string_of(v.as_slice())
}

// ---------------------------------------------------------------------------
// Batches.
// ---------------------------------------------------------------------------

/// Why a batch of delegated tasks is refused.
#[derive(Debug, Clone, Copy, PartialEq, Eq, Structural)]
pub enum BatchError {
    Empty,
    MixedReplyTargets,
    DelegatorBatch,
}

impl BatchError {
    /// The error text.
    pub open spec fn text(self) -> Seq<char> {
        match self {
            BatchError::Empty => "delegation request is missing"@,
            BatchError::MixedReplyTargets => "delegated task batch must use one reply target"@,
            BatchError::DelegatorBatch =>
                "delegator reply target supports one delegated task per request"@,
        }
    }

    /// The error text.
    pub fn message(&self) -> (m: String)
        ensures
            m@ == self.text(),
    {
        match self {
            BatchError::Empty => "delegation request is missing".to_string(),
            BatchError::MixedReplyTargets =>
                "delegated task batch must use one reply target".to_string(),
            BatchError::DelegatorBatch =>
                "delegator reply target supports one delegated task per request".to_string(),
        }
    }
}

/// The reply target of a batch of delegated tasks: all tasks must share
/// it, and a batch whose replies go to the delegator holds one task.
pub open spec fn batch_target(targets: Seq<ReplyTarget>) -> Result<ReplyTarget, BatchError> {
    if targets.len() == 0 {
        Err(BatchError::Empty)
    } else if exists|k: int| 0 <= k < targets.len() && #[trigger] targets[k] != targets[0] {
        Err(BatchError::MixedReplyTargets)
    } else if targets[0] == ReplyTarget::Delegator && targets.len() != 1 {
        Err(BatchError::DelegatorBatch)
    } else {
        Ok(targets[0])
    }
}

/// The reply targets of the requests.
pub open spec fn reply_targets(requests: Seq<DelegateRequest>) -> Seq<ReplyTarget> {
    Seq::new(requests.len(), |i: int| requests[i].reply_target)
}

/// Checks a batch of delegated tasks and gives its reply target.
pub fn batch_reply_target(requests: &Vec<DelegateRequest>) -> (r: Result<ReplyTarget, BatchError>)
    ensures
        r == batch_target(reply_targets(requests@)),
{
    let ghost ts = reply_targets(requests@);
    if requests.len() == 0 {
        return Err(BatchError::Empty);
    }
    let first = requests[0].reply_target;
    let mut i: usize = 0;
    while i < requests.len()
        invariant
            i <= requests.len(),
            ts == reply_targets(requests@),
            requests.len() > 0,
            first == ts[0],
            forall|k: int| 0 <= k < i ==> #[trigger] ts[k] == ts[0],
        decreases requests.len() - i,
    {
        let same = match (requests[i].reply_target, first) {
            (ReplyTarget::Delegator, ReplyTarget::Delegator) => true,
            (ReplyTarget::Supervisor, ReplyTarget::Supervisor) => true,
            _ => false,
        };
        assert(ts[i as int] == requests@[i as int].reply_target);
        if !same {
            return Err(BatchError::MixedReplyTargets);
        }
        i += 1;
    }
    match first {
        ReplyTarget::Delegator => if requests.len() != 1 {
            Err(BatchError::DelegatorBatch)
        } else {
            Ok(first)
        },
        ReplyTarget::Supervisor => Ok(first),
    }
}

// ---------------------------------------------------------------------------
// Task queue progress.
// ---------------------------------------------------------------------------

/// How often agent `t` is a target in `targets`.
pub open spec fn occurrences(targets: Seq<usize>, t: int) -> nat
    decreases targets.len(),
{
    if targets.len() == 0 {
        0
    } else {
        occurrences(targets.drop_last(), t) + if targets.last() == t {
            1nat
        } else {
            0nat
        }
    }
}

/// The progress line when tasks are queued for an agent.
pub open spec fn queued_line(identity: Seq<char>, queue: nat) -> Seq<char> {
    "progress: queued task agent="@ + identity + " queue="@ + decimal(queue)
}

/// The progress line when an agent starts a queued task.
pub open spec fn started_line(identity: Seq<char>, queue: nat) -> Seq<char> {
    "progress: started task agent="@ + identity + " queue="@ + decimal(queue)
}

/// The queue lines for the agents below `n`, in agent order: each agent
/// given more than one task queues all but one.
pub open spec fn queue_lines(identities: Seq<Seq<char>>, targets: Seq<usize>, n: int) -> Seq<
    Seq<char>,
>
    decreases n,
{
    if n <= 0 {
        Seq::empty()
    } else {
        let prev = queue_lines(identities, targets, n - 1);
        let c = occurrences(targets, n - 1);
        if c > 1 {
            prev.push(queued_line(identities[n - 1], (c - 1) as nat))
        } else {
            prev
        }
    }
}

/// The task queues once a batch has been counted.
pub open spec fn queued_after(queued: Seq<usize>, targets: Seq<usize>) -> Seq<usize> {
    Seq::new(
        queued.len(),
        |t: int|
            if occurrences(targets, t) > 1 {
                (occurrences(targets, t) - 1) as usize
            } else {
                queued[t]
            },
    )
}

/// Counts the tasks of a batch per target agent, queues all but one task
/// of each agent given several, and reports each queue.
pub fn queue_delegated_tasks(
    identities: &Vec<String>,
    queued: &mut Vec<usize>,
    targets: &Vec<usize>,
) -> (progress: Vec<String>)
    requires
        old(queued).len() == identities.len(),
    ensures
        final(queued)@ == queued_after(old(queued)@, targets@),
        string_views(progress@) == queue_lines(
            string_views(identities@),
            targets@,
            identities.len() as int,
        ),
{
    let ghost ids = string_views(identities@);
    let mut progress: Vec<String> = Vec::new();
    let mut t: usize = 0;
    while t < identities.len()
        invariant
            t <= identities.len(),
            queued.len() == identities.len(),
            old(queued)@.len() == identities.len(),
            ids == string_views(identities@),
            string_views(progress@) == queue_lines(ids, targets@, t as int),
            forall|k: int|
                0 <= k < t ==> #[trigger] queued@[k] == queued_after(old(queued)@, targets@)[k],
            forall|k: int| t <= k < queued.len() ==> #[trigger] queued@[k] == old(queued)@[k],
        decreases identities.len() - t,
    {
        let mut count: usize = 0;
        let mut j: usize = 0;
        while j < targets.len()
            invariant
                j <= targets.len(),
                count == occurrences(targets@.take(j as int), t as int),
                count <= j,
            decreases targets.len() - j,
        {
            assert(targets@.take(j + 1).drop_last() =~= targets@.take(j as int));
            if targets[j] == t {
                count += 1;
            }
            j += 1;
        }
        assert(targets@.take(targets.len() as int) =~= targets@);
        if count > 1 {
            queued.set(t, count - 1);
            let mut line = chars_of("progress: queued task agent=");
            extend_str(&mut line, identities[t].as_str());
            extend_str(&mut line, " queue=");
            push_decimal(&mut line, (count - 1) as u128);
            let ghost before = string_views(progress@);
            progress.push(string_of(line.as_slice()));
            assert(ids[t as int] == identities@[t as int]@);
            assert(string_views(progress@) =~= before.push(
                queued_line(ids[t as int], (count - 1) as nat),
            ));
        }
        t += 1;
    }
    assert(queued@ =~= queued_after(old(queued)@, targets@));
    progress
}

/// Starts a task for `target`: when tasks are queued for it, one leaves
/// the queue and the start is reported.
pub fn start_delegated_task(
    identities: &Vec<String>,
    queued: &mut Vec<usize>,
    target: usize,
    progress: &mut Vec<String>,
)
    requires
        target < old(queued).len(),
        old(queued).len() == identities.len(),
    ensures
        old(queued)@[target as int] > 0 ==> final(queued)@ == old(queued)@.update(
            target as int,
            (old(queued)@[target as int] - 1) as usize,
        ) && string_views(final(progress)@) == string_views(old(progress)@).push(
            started_line(
                identities@[target as int]@,
                (old(queued)@[target as int] - 1) as nat,
            ),
        ),
        old(queued)@[target as int] == 0 ==> final(queued)@ == old(queued)@ && final(progress)@
            == old(progress)@,
{
    let q = queued[target];
    if q > 0 {
        queued.set(target, q - 1);
        let mut line = chars_of("progress: started task agent=");
        extend_str(&mut line, identities[target].as_str());
        extend_str(&mut line, " queue=");
        push_decimal(&mut line, (q - 1) as u128);
        let ghost before = string_views(progress@);
        progress.push(string_of(line.as_slice()));
        assert(string_views(progress@) =~= before.push(
            started_line(identities@[target as int]@, (q - 1) as nat),
        ));
    }
}

/// The task queues after the first `m` tasks of a batch have started.
pub open spec fn queues_after_starts(queued: Seq<usize>, targets: Seq<usize>, m: int) -> Seq<usize>
    decreases m,
{
    if m <= 0 {
        queued
    } else {
        let q = queues_after_starts(queued, targets, m - 1);
        let t = targets[m - 1] as int;
        if 0 <= t < q.len() && q[t] > 0 {
            q.update(t, (q[t] - 1) as usize)
        } else {
            q
        }
    }
}

proof fn lemma_queues_after_starts(queued: Seq<usize>, targets: Seq<usize>, m: int, t: int)
    requires
        0 <= m <= targets.len(),
        0 <= t < queued.len(),
    ensures
        queues_after_starts(queued, targets, m).len() == queued.len(),
        queues_after_starts(queued, targets, m)[t] == if occurrences(targets.take(m), t)
            >= queued[t] {
            0
        } else {
            queued[t] - occurrences(targets.take(m), t)
        },
    decreases m,
{
    if m > 0 {
        lemma_queues_after_starts(queued, targets, m - 1, t);
        assert(targets.take(m).drop_last() =~= targets.take(m - 1));
        assert(targets.take(m).last() == targets[m - 1]);
        let q = queues_after_starts(queued, targets, m - 1);
        let u = targets[m - 1] as int;
        if 0 <= u < q.len() && q[u] > 0 {
            lemma_queues_after_starts(queued, targets, m - 1, u);
        }
    }
}

/// Once every task of a batch has started, no agent that was given several
/// of its tasks has any left queued.
pub proof fn law_batch_drains_queues(queued: Seq<usize>, targets: Seq<usize>, t: int)
    requires
        0 <= t < queued.len(),
        occurrences(targets, t) > 1,
    ensures
        queues_after_starts(queued_after(queued, targets), targets, targets.len() as int)[t] == 0,
{
    lemma_queues_after_starts(queued_after(queued, targets), targets, targets.len() as int, t);
    assert(targets.take(targets.len() as int) =~= targets);
}

} // verus!
