use vstd::prelude::*;
use crate::state::SidecarHandle;

verus! {

/// The supervisor gives up after this many consecutive failed starts (runs in
/// which the handshake was never observed) rather than retrying forever.
pub const MAX_CONSECUTIVE_FAILURES: u32 = 5;

/// Seconds to wait before each restart attempt.
pub const RESTART_DELAY_SECS: u64 = 1;

/// The basename under which the backend binary is bundled.
pub const SIDECAR_NAME: &'static str = "sidecar";

/// The restart decision after one run: with `failures` consecutive failed
/// starts behind it, the supervisor restarts with the new count (`Some`), or
/// gives up (`None`).
pub open spec fn supervisor_step(failures: nat, handshook: bool) -> Option<nat> {
    if handshook {
        Some(0)
    } else if failures + 1 >= MAX_CONSECUTIVE_FAILURES {
        None
    } else {
        Some(failures + 1)
    }
}

/// Where a fresh supervisor stands after the runs `runs` (each `true` when
/// the handshake was observed): `Some` of its failure count while it keeps
/// restarting, `None` once it has given up.
pub open spec fn supervise_runs(runs: Seq<bool>) -> Option<nat>
    decreases runs.len(),
{
    if runs.len() == 0 {
        Some(0)
    } else {
        match supervise_runs(runs.drop_last()) {
            Some(failures) => supervisor_step(failures, runs.last()),
            None => None,
        }
    }
}

/// The number of failed runs at the end of `runs`, since the last run that
/// handshook.
pub open spec fn trailing_failures(runs: Seq<bool>) -> nat
    decreases runs.len(),
{
    if runs.len() == 0 {
        0
    } else if runs.last() {
        0
    } else {
        trailing_failures(runs.drop_last()) + 1
    }
}

/// Whether some prefix of `runs` ends in `MAX_CONSECUTIVE_FAILURES` failed
/// runs in a row.
pub open spec fn reaches_failure_limit(runs: Seq<bool>) -> bool {
    exists|k: int|
        0 <= k <= runs.len() && #[trigger] trailing_failures(runs.take(k))
            >= MAX_CONSECUTIVE_FAILURES
}

/// The supervisor gives up exactly when it has seen `MAX_CONSECUTIVE_FAILURES`
/// failed starts in a row, and never otherwise; while it keeps going, its
/// count is the number of failed starts since the last successful one.
pub proof fn lemma_gives_up_exactly_at_failure_limit(runs: Seq<bool>)
    ensures
        supervise_runs(runs) is None <==> reaches_failure_limit(runs),
        supervise_runs(runs) matches Some(failures) ==> failures == trailing_failures(runs)
            && failures < MAX_CONSECUTIVE_FAILURES,
    decreases runs.len(),
{
    if runs.len() == 0 {
        assert forall|k: int| 0 <= k <= runs.len() implies #[trigger] trailing_failures(
            runs.take(k),
        ) < MAX_CONSECUTIVE_FAILURES by {
            assert(runs.take(k).len() == 0);
        }
    } else {
        let prev = runs.drop_last();
        lemma_gives_up_exactly_at_failure_limit(prev);
        assert forall|k: int| 0 <= k <= prev.len() implies #[trigger] prev.take(k) == runs.take(
            k,
        ) by {
            assert(prev.take(k) =~= runs.take(k));
        }
        assert(runs.take(runs.len() as int) =~= runs);
        assert(runs.drop_last() == prev);
        if reaches_failure_limit(prev) {
            let k = choose|k: int|
                0 <= k <= prev.len() && #[trigger] trailing_failures(prev.take(k))
                    >= MAX_CONSECUTIVE_FAILURES;
            assert(prev.take(k) == runs.take(k));
            assert(reaches_failure_limit(runs));
        } else {
            if reaches_failure_limit(runs) {
                let k = choose|k: int|
                    0 <= k <= runs.len() && #[trigger] trailing_failures(runs.take(k))
                        >= MAX_CONSECUTIVE_FAILURES;
                if k < runs.len() {
                    assert(prev.take(k) == runs.take(k));
                    assert(trailing_failures(prev.take(k)) >= MAX_CONSECUTIVE_FAILURES);
                }
            }
            if !runs.last() && trailing_failures(prev) + 1 >= MAX_CONSECUTIVE_FAILURES {
                assert(trailing_failures(runs.take(runs.len() as int))
                    >= MAX_CONSECUTIVE_FAILURES);
            }
        }
    }
}

/// The restart policy of the backend's supervisor: it counts the consecutive
/// runs in which the handshake was never observed.
pub struct Supervisor {
    consecutive_failures: u32,
}

/// What the supervisor does after a run of the backend has ended.
pub enum SupervisorAction {
    /// Wait `RESTART_DELAY_SECS`, then start the backend again.
    Restart(Supervisor),
    /// Stop supervising, after this many consecutive failed starts.
    GiveUp { consecutive_failures: u32 },
}

impl Supervisor {
    #[verifier::type_invariant]
    spec fn below_limit(self) -> bool {
        self.consecutive_failures < MAX_CONSECUTIVE_FAILURES
    }

    /// The number of consecutive failed starts so far.
    pub closed spec fn failures(self) -> nat {
        self.consecutive_failures as nat
    }

    /// A supervisor that has seen no failed start.
    pub fn new() -> (s: Self)
        ensures
            s.failures() == 0,
    {
        Supervisor { consecutive_failures: 0 }
    }

    /// The number of consecutive failed starts so far.
    pub fn consecutive_failures(&self) -> (n: u32)
        ensures
            n == self.failures(),
            n < MAX_CONSECUTIVE_FAILURES,
    {
        proof {
            use_type_invariant(self);
        }
        self.consecutive_failures
    }

    /// Ends a run of the backend: forgets the URL and process handle of the
    /// run in `handle`, so that nothing sees them once the process is gone,
    /// then decides what follows as `on_run_ended` does.
    pub fn end_run<C>(self, handle: &mut SidecarHandle<C>, handshook: bool) -> (action:
        SupervisorAction)
        ensures
            final(handle).base_url is None,
            final(handle).child is None,
            match action {
                SupervisorAction::Restart(next) => supervisor_step(self.failures(), handshook)
                    == Some(next.failures()),
                SupervisorAction::GiveUp { consecutive_failures } => supervisor_step(
                    self.failures(),
                    handshook,
                ) is None && consecutive_failures == self.failures() + 1,
            },
    {
        handle.clear();
        self.on_run_ended(handshook)
    }

    /// Decides what follows a run of the backend, given whether its handshake
    /// was observed during that run: a run that handshook resets the count;
    /// a failed one raises it, and the supervisor gives up once it reaches
    /// `MAX_CONSECUTIVE_FAILURES`.
    pub fn on_run_ended(self, handshook: bool) -> (action: SupervisorAction)
        ensures
            match action {
                SupervisorAction::Restart(next) => supervisor_step(self.failures(), handshook)
                    == Some(next.failures()),
                SupervisorAction::GiveUp { consecutive_failures } => supervisor_step(
                    self.failures(),
                    handshook,
                ) is None && consecutive_failures == self.failures() + 1,
            },
    {
        proof {
            use_type_invariant(&self);
        }
        if handshook {
            SupervisorAction::Restart(Supervisor { consecutive_failures: 0 })
        } else {
            let failures = self.consecutive_failures + 1;
            if failures >= MAX_CONSECUTIVE_FAILURES {
                SupervisorAction::GiveUp { consecutive_failures: failures }
            } else {
                SupervisorAction::Restart(Supervisor { consecutive_failures: failures })
            }
        }
    }
}

} // verus!
