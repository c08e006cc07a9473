//! The bus's decisions: which pipeline an event goes to, which service a
//! command goes to, and when a service that stopped is run again.

use vstd::prelude::*;
use crate::command::Command;
use crate::config::{
    capped_delay, jitter_high, jitter_low, jittered, next_attempt, ExponentialBackoff,
    ReconnectionConfig,
};
use crate::middleware::middlewares_to_start;
use crate::service::ServiceId;

verus! {

/// A run that lasted longer than this, in milliseconds, counts as a
/// recovery: the failures before it are forgotten.
pub const RECOVERY_MS: u64 = 30_000;

/// What the bus does about a service whose run returned.
#[derive(Debug, Clone, Copy, PartialEq, Eq, Structural)]
pub enum ExitAction {
    /// Wait this many milliseconds, then run the service again.
    Restart { delay_ms: u64 },
    /// Shutdown is under way: leave the service stopped.
    Retire,
}

/// Supervision record of one service: failures since the last recovery, the
/// backoff that spaces restarts, and when the current run began.
#[derive(Debug, Clone, Copy)]
pub struct Supervision {
    pub attempt_count: u32,
    pub backoff: ExponentialBackoff,
    pub connection_start_ms: u64,
}

/// Whether the run that began at `s.connection_start_ms` and ended at `now`
/// closes a series of failures after lasting long enough.
pub open spec fn recovered(s: Supervision, now: u64) -> bool {
    now > s.connection_start_ms && now - s.connection_start_ms > RECOVERY_MS && s.attempt_count > 0
}

/// The record after a service's run returned at `now` without shutdown, with
/// the jitter factor `f`, and the delay before the next run.
/// The delay follows the failure count: before the `n`-th consecutive
/// failure's restart it is `initial × multiplier^(n-1)`, capped and jittered.
pub open spec fn exit_step(s: Supervision, now: u64, f: nat) -> (Supervision, nat) {
    let base_count: u32 = if recovered(s, now) { 0 } else { s.attempt_count };
    (
        Supervision {
            attempt_count: next_attempt(base_count),
            backoff: ExponentialBackoff { attempt: next_attempt(base_count), ..s.backoff },
            ..s
        },
        jittered(capped_delay(s.backoff.config, base_count as nat), f),
    )
}

/// The record after a backoff delay ended at `now`, and whether the service
/// runs again.
pub open spec fn resume_step(s: Supervision, now: u64, cancelled: bool) -> (Supervision, bool) {
    if cancelled {
        (s, false)
    } else {
        (Supervision { connection_start_ms: now, ..s }, true)
    }
}

impl Supervision {
    /// The backoff has handed out one delay per counted failure.
    pub open spec fn wf(self) -> bool {
        self.backoff.attempt == self.attempt_count
    }

    /// A service that has not failed yet, started at `now`.
    pub fn new(config: ReconnectionConfig, now_ms: u64) -> (r: Supervision)
        ensures
            r.attempt_count == 0,
            r.backoff == (ExponentialBackoff { config, attempt: 0 }),
            r.connection_start_ms == now_ms,
            r.wf(),
    {
        Supervision {
            attempt_count: 0,
            backoff: ExponentialBackoff::new(config),
            connection_start_ms: now_ms,
        }
    }

    /// The service's run returned at `now`; `f` is the jitter factor in
    /// thousandths for the delay before the next run.
    pub fn on_exit_with(&mut self, now_ms: u64, cancelled: bool, f: u64) -> (r: ExitAction)
        requires
            old(self).wf(),
        ensures
            final(self).wf(),
            cancelled ==> r == ExitAction::Retire && *final(self) == *old(self),
            !cancelled ==> *final(self) == exit_step(*old(self), now_ms, f as nat).0 && r
                == (ExitAction::Restart { delay_ms: exit_step(*old(self), now_ms, f as nat).1 as u64 }),
    {
        if cancelled {
            return ExitAction::Retire;
        }
        let ran_ms: u64 = if now_ms > self.connection_start_ms {
            now_ms - self.connection_start_ms
        } else {
            0
        };
        if ran_ms > RECOVERY_MS && self.attempt_count > 0 {
            self.backoff.reset();
            self.attempt_count = 0;
        }
        if self.attempt_count < u32::MAX {
            self.attempt_count = self.attempt_count + 1;
        }
        let delay_ms = self.backoff.next_delay_with(f);
        ExitAction::Restart { delay_ms }
    }

    /// The service's run returned at `now`; without shutdown, the delay before
    /// the next run is drawn with a random jitter.
    pub fn on_exit(&mut self, now_ms: u64, cancelled: bool) -> (r: ExitAction)
        requires
            old(self).wf(),
        ensures
            final(self).wf(),
            cancelled ==> r == ExitAction::Retire && *final(self) == *old(self),
            !cancelled ==> exists|f: nat|
                jitter_low(old(self).backoff.config) <= f <= jitter_high(old(self).backoff.config)
                    && *final(self) == exit_step(*old(self), now_ms, f).0 && r == (ExitAction::Restart {
                    delay_ms: exit_step(*old(self), now_ms, f).1 as u64,
                }),
    {
        if cancelled {
            return ExitAction::Retire;
        }
        let c = self.backoff.config;
        let low: u64 = if c.jitter_milli <= 1000 {
            1000 - c.jitter_milli
        } else {
            0
        };
        let high: u64 = c.jitter_milli.saturating_add(1000);
        let f = crate::config::random_between(low, high);
        self.on_exit_with(now_ms, false, f)
    }

    /// The backoff delay ended at `now`: without shutdown the service runs
    /// again from `now`; with shutdown nothing changes.
    pub fn on_backoff_elapsed(&mut self, now_ms: u64, cancelled: bool) -> (r: bool)
        ensures
            (*final(self), r) == resume_step(*old(self), now_ms, cancelled),
    {
        if cancelled {
            return false;
        }
        self.connection_start_ms = now_ms;
        true
    }
}

/// After a run that returns without shutdown the service is run again, once,
/// after the one delay computed for that exit, and the failure count never
/// falls except through a recovery.
pub proof fn lemma_restart_once(s: Supervision, now: u64, f: nat)
    ensures
        recovered(s, now) ==> exit_step(s, now, f).0.attempt_count == next_attempt(0),
        !recovered(s, now) ==> exit_step(s, now, f).0.attempt_count == next_attempt(s.attempt_count),
        exit_step(s, now, f).0.attempt_count >= 1,
        !recovered(s, now) ==> exit_step(s, now, f).0.attempt_count >= s.attempt_count,
        !recovered(s, now) && s.attempt_count < u32::MAX ==> exit_step(s, now, f).0.attempt_count
            == s.attempt_count + 1,
        resume_step(exit_step(s, now, f).0, now, false).1,
{
}

/// The record after `n` runs that each returned at once, every one followed
/// by its backoff delay and a restart.
pub open spec fn after_quick_failures(s: Supervision, n: nat, f: nat) -> Supervision
    decreases n,
{
    if n == 0 {
        s
    } else {
        let t = after_quick_failures(s, (n - 1) as nat, f);
        resume_step(exit_step(t, t.connection_start_ms, f).0, t.connection_start_ms, false).0
    }
}

/// Each failure that is no recovery is counted once and followed by exactly
/// one restart: after `n` such failures the count has risen by `n` (below
/// the count's ceiling) and the service has been run `n + 1` times.
pub proof fn lemma_failures_counted(s: Supervision, n: nat, f: nat)
    requires
        s.attempt_count + n <= u32::MAX,
    ensures
        after_quick_failures(s, n, f).attempt_count == s.attempt_count + n,
        forall|k: nat|
            k < n ==> resume_step(
                exit_step(
                    #[trigger] after_quick_failures(s, k, f),
                    after_quick_failures(s, k, f).connection_start_ms,
                    f,
                ).0,
                after_quick_failures(s, k, f).connection_start_ms,
                false,
            ).1,
    decreases n,
{
    if n > 0 {
        lemma_failures_counted(s, (n - 1) as nat, f);
    }
}

/// Shutdown during a backoff delay: the service is not run again, and the
/// failure that started the delay is the only one counted.
pub proof fn lemma_cancel_during_backoff(s: Supervision, now: u64, f: nat, later: u64)
    requires
        !recovered(s, now),
        s.attempt_count < u32::MAX,
    ensures
        !resume_step(exit_step(s, now, f).0, later, true).1,
        resume_step(exit_step(s, now, f).0, later, true).0 == exit_step(s, now, f).0,
        exit_step(s, now, f).0.attempt_count == s.attempt_count + 1,
{
}

/// A run that lasted more than the recovery time after earlier failures
/// starts the count over: the exit is counted as the first failure and
/// waits the initial delay.
pub proof fn lemma_long_run_resets(s: Supervision, now: u64, f: nat)
    requires
        now > s.connection_start_ms,
        now - s.connection_start_ms > RECOVERY_MS,
        s.attempt_count > 0,
    ensures
        exit_step(s, now, f).0.attempt_count == 1,
        exit_step(s, now, f).0.backoff.attempt == 1,
        exit_step(s, now, f).1 == jittered(capped_delay(s.backoff.config, 0), f),
{
}

/// Services, pipelines and supervision records of one bus. Pipeline `p`
/// belongs to the service named `pipeline_services[p]` and lists positions in
/// the bus's middleware registry.
pub struct Bus {
    pub services: Vec<ServiceId>,
    pub supervision: Vec<Supervision>,
    pub pipeline_services: Vec<ServiceId>,
    pub pipelines: Vec<Vec<usize>>,
}

/// Position of the first name in `v` equal to `id`, or the length of `v`.
pub open spec fn index_of(v: Seq<ServiceId>, id: Seq<char>) -> nat
    decreases v.len(),
{
    if v.len() == 0 {
        0
    } else if v[0]@ == id {
        0
    } else {
        1 + index_of(v.drop_first(), id)
    }
}

proof fn lemma_index_of(v: Seq<ServiceId>, id: Seq<char>)
    ensures
        index_of(v, id) <= v.len(),
        index_of(v, id) < v.len() ==> v[index_of(v, id) as int]@ == id,
        forall|j: int| 0 <= j < index_of(v, id) ==> (#[trigger] v[j])@ != id,
    decreases v.len(),
{
    if v.len() > 0 && v[0]@ != id {
        lemma_index_of(v.drop_first(), id);
        assert forall|j: int| 0 <= j < index_of(v, id) implies (#[trigger] v[j])@ != id by {
            if j > 0 {
                assert(v[j] == v.drop_first()[j - 1]);
            }
        }
    }
}

fn find_service(v: &Vec<ServiceId>, id: &ServiceId) -> (r: Option<usize>)
    ensures
        r == (if index_of(v@, id@) < v@.len() { Some(index_of(v@, id@) as usize) } else { None }),
{
    let mut j: usize = 0;
    while j < v.len()
        invariant
            j <= v.len(),
            j <= index_of(v@, id@),
        decreases v.len() - j,
    {
        proof {
            lemma_index_of(v@, id@);
        }
        if v[j] == *id {
            return Some(j);
        }
        j = j + 1;
    }
    proof {
        lemma_index_of(v@, id@);
    }
    None
}

impl Bus {
    pub open spec fn wf(&self) -> bool {
        &&& self.supervision@.len() == self.services@.len()
        &&& self.pipelines@.len() == self.pipeline_services@.len()
        &&& forall|i: int| 0 <= i < self.supervision@.len() ==> (#[trigger] self.supervision@[i]).wf()
    }

    /// A bus over the given services, each started at `now` with no failure
    /// behind it, and the given pipelines.
    pub fn new(
        services: Vec<ServiceId>,
        pipeline_services: Vec<ServiceId>,
        pipelines: Vec<Vec<usize>>,
        config: ReconnectionConfig,
        now_ms: u64,
    ) -> (r: Bus)
        requires
            pipelines@.len() == pipeline_services@.len(),
        ensures
            r.wf(),
            r.services == services,
            r.pipeline_services == pipeline_services,
            r.pipelines == pipelines,
            forall|i: int|
                0 <= i < r.supervision@.len() ==> #[trigger] r.supervision@[i] == (Supervision {
                    attempt_count: 0,
                    backoff: ExponentialBackoff { config, attempt: 0 },
                    connection_start_ms: now_ms,
                }),
    {
        let mut supervision: Vec<Supervision> = Vec::new();
        let mut i: usize = 0;
        while i < services.len()
            invariant
                i <= services.len(),
                supervision@.len() == i,
                forall|k: int|
                    0 <= k < i ==> #[trigger] supervision@[k] == (Supervision {
                        attempt_count: 0,
                        backoff: ExponentialBackoff { config, attempt: 0 },
                        connection_start_ms: now_ms,
                    }),
            decreases services.len() - i,
        {
            supervision.push(Supervision::new(config, now_ms));
            i = i + 1;
        }
        Bus { services, supervision, pipeline_services, pipelines }
    }

    /// The pipeline that events of `id` go through, if the service has one;
    /// an event of a service without one is dropped.
    pub fn pipeline_for(&self, id: &ServiceId) -> (r: Option<usize>)
        ensures
            r == (if index_of(self.pipeline_services@, id@) < self.pipeline_services@.len() {
                Some(index_of(self.pipeline_services@, id@) as usize)
            } else {
                None
            }),
    {
        find_service(&self.pipeline_services, id)
    }

    /// The service that `cmd` is addressed to, if the bus has it; a command
    /// to an unknown service is dropped, and nothing about the bus changes.
    pub fn route_command(&self, cmd: &Command) -> (r: Option<usize>)
        ensures
            r == (if index_of(self.services@, cmd.target()) < self.services@.len() {
                Some(index_of(self.services@, cmd.target()) as usize)
            } else {
                None
            }),
            r is None <==> forall|j: int| 0 <= j < self.services@.len() ==> (#[trigger] self.services@[j])@ != cmd.target(),
    {
        proof {
            lemma_index_of(self.services@, cmd.target());
        }
        find_service(&self.services, cmd.service_id())
    }

    /// The middleware instances to start, each once.
    pub fn middlewares_to_start(&self) -> (r: Vec<usize>)
        ensures
            forall|a: int, b: int| 0 <= a < b < r@.len() ==> r@[a] != r@[b],
            forall|m: usize| r@.contains(m) <==> crate::middleware::referenced(self.pipelines@, m),
    {
        middlewares_to_start(&self.pipelines)
    }

    /// Service `i` returned from its run at `now`.
    pub fn service_exited(&mut self, i: usize, now_ms: u64, cancelled: bool) -> (r: ExitAction)
        requires
            old(self).wf(),
            i < old(self).services@.len(),
        ensures
            final(self).wf(),
            final(self).services == old(self).services,
            final(self).pipelines == old(self).pipelines,
            final(self).pipeline_services == old(self).pipeline_services,
            final(self).supervision@ == old(self).supervision@.update(i as int, final(self).supervision@[i as int]),
            cancelled ==> r == ExitAction::Retire && final(self).supervision@ == old(self).supervision@,
            !cancelled ==> exists|f: nat|
                jitter_low(old(self).supervision@[i as int].backoff.config) <= f <= jitter_high(
                    old(self).supervision@[i as int].backoff.config,
                ) && final(self).supervision@[i as int] == exit_step(
                    old(self).supervision@[i as int],
                    now_ms,
                    f,
                ).0 && r == (ExitAction::Restart {
                    delay_ms: exit_step(old(self).supervision@[i as int], now_ms, f).1 as u64,
                }),
    {
        let mut s = self.supervision[i];
        let r = s.on_exit(now_ms, cancelled);
        self.supervision.set(i, s);
        r
    }

    /// The backoff delay of service `i` ended at `now`: whether to run it
    /// again. Under shutdown the answer is no and nothing changes.
    pub fn backoff_elapsed(&mut self, i: usize, now_ms: u64, cancelled: bool) -> (r: bool)
        requires
            old(self).wf(),
            i < old(self).services@.len(),
        ensures
            final(self).wf(),
            final(self).services == old(self).services,
            final(self).pipelines == old(self).pipelines,
            final(self).pipeline_services == old(self).pipeline_services,
            r == !cancelled,
            cancelled ==> final(self).supervision@ == old(self).supervision@,
            !cancelled ==> final(self).supervision@ == old(self).supervision@.update(
                i as int,
                Supervision { connection_start_ms: now_ms, ..old(self).supervision@[i as int] },
            ),
    {
        let mut s = self.supervision[i];
        let r = s.on_backoff_elapsed(now_ms, cancelled);
        self.supervision.set(i, s);
        r
    }
}

} // verus!
