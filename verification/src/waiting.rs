//! How long the supervisor keeps listening to agents: for more `DELEGATE`
//! lines after an agent asked for a delegated task, and for replies to a
//! broadcast.  Times are milliseconds on a clock the caller reads.
use vstd::prelude::*;
use crate::conversation::{
    delegate_request_spec, parse_delegate_request, DelegateError, DelegateRequest,
    DelegateRequestView,
};

verus! {

/// How long the supervisor listens for another `DELEGATE` line after the
/// last one.
pub const DELEGATE_REST_MS: u64 = 50;

/// The pause while no `DELEGATE` line is ready.
pub const DELEGATE_POLL_MS: u64 = 5;

/// The pause after a sweep over the agents that found no reply.
pub const BROADCAST_POLL_MS: u64 = 10;

/// `now + span`, capped at the largest time.
pub open spec fn later(now: u64, span: u64) -> u64 {
    if now + span > u64::MAX {
        u64::MAX
    } else {
        (now + span) as u64
    }
}

/// What a waiting loop does next.
#[derive(Debug, Clone, Copy, PartialEq, Eq, Structural)]
pub enum WaitStep {
    /// Read again at once.
    Continue,
    /// Sleep this many milliseconds, then read again.
    Pause(u64),
    /// Stop waiting.
    Stop,
}

/// The `DELEGATE` lines collected from one agent, and until when more are
/// awaited.
pub struct DelegateCollection {
    pub requests: Vec<DelegateRequest>,
    pub deadline_ms: u64,
}

impl DelegateCollection {
    /// The plain contents of the collected requests, in order.
    pub open spec fn request_views(&self) -> Seq<DelegateRequestView> {
        self.requests@.map_values(|r: DelegateRequest| r@)
    }

    /// Starts collecting after the first `DELEGATE` line, read at `now_ms`.
    pub fn new(first: DelegateRequest, now_ms: u64) -> (c: Self)
        ensures
            c.request_views() == seq![first@],
            c.deadline_ms == later(now_ms, DELEGATE_REST_MS),
    {
        let c = DelegateCollection {
            requests: vec![first],
            deadline_ms: now_ms.saturating_add(DELEGATE_REST_MS),
        };
        assert(c.request_views() =~= seq![first@]);
        c
    }

    /// A line the agent wrote at `now_ms`: another `DELEGATE` line is kept
    /// and extends the wait; any other line ends the collection (and is not
    /// kept); a malformed `DELEGATE` line is refused with its error.
    pub fn on_line(&mut self, line: &str, now_ms: u64) -> (r: Result<WaitStep, DelegateError>)
        ensures
            match delegate_request_spec(line@) {
                Err(e) => r == Err::<WaitStep, DelegateError>(e)
                    && final(self).request_views() == old(self).request_views()
                    && final(self).deadline_ms == old(self).deadline_ms,
                Ok(None) => r == Ok::<WaitStep, DelegateError>(WaitStep::Stop)
                    && final(self).request_views() == old(self).request_views()
                    && final(self).deadline_ms == old(self).deadline_ms,
                Ok(Some(d)) => r == Ok::<WaitStep, DelegateError>(WaitStep::Continue)
                    && final(self).request_views() == old(self).request_views().push(d)
                    && final(self).deadline_ms == later(now_ms, DELEGATE_REST_MS),
            },
    {
        match parse_delegate_request(line) {
            Err(e) => Err(e),
            Ok(None) => Ok(WaitStep::Stop),
            Ok(Some(d)) => {
                let ghost before = self.request_views();
                let ghost dv = d@;
                self.requests.push(d);
                assert(self.request_views() =~= before.push(dv));
                self.deadline_ms = now_ms.saturating_add(DELEGATE_REST_MS);
                Ok(WaitStep::Continue)
            },
        }
    }

    /// No line is ready at `now_ms`: pause and listen again until the
    /// deadline, then stop.
    pub fn on_quiet(&self, now_ms: u64) -> (s: WaitStep)
        ensures
            s == (if now_ms < self.deadline_ms {
                WaitStep::Pause(DELEGATE_POLL_MS)
            } else {
                WaitStep::Stop
            }),
    {
        if now_ms < self.deadline_ms {
            WaitStep::Pause(DELEGATE_POLL_MS)
        } else {
            WaitStep::Stop
        }
    }
}

/// Which agents a broadcast still waits for, and until when.
pub struct BroadcastWait {
    /// `pending[k]`: agent `k` has not replied yet.
    pub pending: Vec<bool>,
    pub deadline_ms: u64,
}

impl BroadcastWait {
    /// Some agent has not replied yet.
    pub open spec fn any_pending(&self) -> bool {
        exists|k: int| 0 <= k < self.pending@.len() && #[trigger] self.pending@[k]
    }

    /// Starts waiting at `now_ms` for `agents` replies, at most `timeout_ms`.
    pub fn new(agents: usize, now_ms: u64, timeout_ms: u64) -> (w: Self)
        ensures
            w.pending@ == Seq::new(agents as nat, |k: int| true),
            w.deadline_ms == later(now_ms, timeout_ms),
    {
        let mut pending: Vec<bool> = Vec::new();
        let mut i: usize = 0;
        while i < agents
            invariant
                i <= agents,
                pending@ == Seq::new(i as nat, |k: int| true),
            decreases agents - i,
        {
            pending.push(true);
            assert(pending@ =~= Seq::new((i + 1) as nat, |k: int| true));
            i += 1;
        }
        BroadcastWait { pending, deadline_ms: now_ms.saturating_add(timeout_ms) }
    }

    /// Whether to sweep over the agents again at `now_ms`: while a reply is
    /// missing and the deadline has not come.
    pub fn keeps_waiting(&self, now_ms: u64) -> (b: bool)
        ensures
            b == (self.any_pending() && now_ms < self.deadline_ms),
    {
        if now_ms >= self.deadline_ms {
            return false;
        }
        let mut i: usize = 0;
        while i < self.pending.len()
            invariant
                i <= self.pending.len(),
                now_ms < self.deadline_ms,
                forall|k: int| 0 <= k < i ==> !self.pending@[k],
            decreases self.pending.len() - i,
        {
            if self.pending[i] {
                assert(self.pending@[i as int]);
                return true;
            }
            i += 1;
        }
        false
    }

    /// Agent `agent` replied: it is no longer awaited.
    pub fn on_reply(&mut self, agent: usize)
        requires
            agent < old(self).pending.len(),
        ensures
            final(self).pending@ == old(self).pending@.update(agent as int, false),
            final(self).deadline_ms == old(self).deadline_ms,
    {
        self.pending.set(agent, false);
    }

    /// The pause after a sweep over the agents: none when a reply came.
    pub fn pause_after_sweep(made_progress: bool) -> (ms: u64)
        ensures
            ms == (if made_progress {
                0
            } else {
                BROADCAST_POLL_MS
            }),
    {
        if made_progress {
            0
        } else {
            BROADCAST_POLL_MS
        }
    }
}

} // verus!
