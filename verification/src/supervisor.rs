use std::time::Duration;
use vstd::prelude::*;

verus! {

/// Respawn delays, in milliseconds, of the default backoff ladder.
pub const DEFAULT_BACKOFF_MS: [u64; 3] = [250, 1_000, 5_000];

/// Number of consecutive healthy samples that clears the failure counter.
pub const DEFAULT_HEALTHY_RESET: u32 = 10;

/// What `Duration::from_millis` returns for a number of milliseconds.
pub uninterp spec fn duration_from_millis(millis: u64) -> Duration;

/// Wraps `std::time::Duration::from_millis`; the result is named by
/// `duration_from_millis` and nothing more is claimed of it.
#[verifier::external_body]
fn millis_to_duration(millis: u64) -> (d: Duration)
    ensures
        d == duration_from_millis(millis),
{
    Duration::from_millis(millis)
}

#[derive(Debug, Clone, Copy, PartialEq, Eq, Structural)]
pub enum CbState {
    Running,
    Waiting,
    Failed,
}

#[derive(Debug, Clone, Copy, PartialEq, Eq)]
pub enum NextAction {
    Wait(Duration),
    Failed,
}

/// The abstract state of a circuit breaker.
pub struct BreakerModel {
    pub backoff_ms: Seq<u64>,
    pub healthy_reset: u32,
    pub state: CbState,
    pub consecutive_failures: u32,
    pub consecutive_healthy: u32,
}

/// The breaker that a fresh `CircuitBreaker::new()` stands for.
pub open spec fn initial_model() -> BreakerModel {
    BreakerModel {
        backoff_ms: DEFAULT_BACKOFF_MS@,
        healthy_reset: DEFAULT_HEALTHY_RESET,
        state: CbState::Running,
        consecutive_failures: 0,
        consecutive_healthy: 0,
    }
}

/// Effect of reporting a child failure: the next state and the action returned.
/// A failure breaks any healthy streak. The ladder length is compared as the
/// `u32` it is truncated to.
pub open spec fn failure_step(m: BreakerModel) -> (BreakerModel, NextAction) {
    if m.consecutive_failures >= (m.backoff_ms.len() as u32) {
        (
            BreakerModel { state: CbState::Failed, consecutive_healthy: 0, ..m },
            NextAction::Failed,
        )
    } else {
        (
            BreakerModel {
                consecutive_failures: (m.consecutive_failures + 1) as u32,
                consecutive_healthy: 0,
                state: CbState::Waiting,
                ..m
            },
            NextAction::Wait(duration_from_millis(m.backoff_ms[m.consecutive_failures as int])),
        )
    }
}

/// Effect of a respawn attempt.
pub open spec fn respawn_step(m: BreakerModel) -> BreakerModel {
    BreakerModel { state: CbState::Running, ..m }
}

/// Effect of one healthy sample.
pub open spec fn health_step(m: BreakerModel) -> BreakerModel {
    if m.state != CbState::Running {
        m
    } else if m.consecutive_healthy + 1 >= m.healthy_reset {
        BreakerModel { consecutive_failures: 0, consecutive_healthy: 0, ..m }
    } else {
        BreakerModel { consecutive_healthy: (m.consecutive_healthy + 1) as u32, ..m }
    }
}

/// Effect of a full reset.
pub open spec fn reset_step(m: BreakerModel) -> BreakerModel {
    BreakerModel {
        state: CbState::Running,
        consecutive_failures: 0,
        consecutive_healthy: 0,
        ..m
    }
}

/// Restarts the child after a failure supervision loop would make.
pub open spec fn fail_and_respawn(m: BreakerModel, n: nat) -> BreakerModel
    decreases n,
{
    if n == 0 {
        m
    } else {
        respawn_step(failure_step(fail_and_respawn(m, (n - 1) as nat)).0)
    }
}

/// `n` healthy samples in a row.
pub open spec fn healthy_run(m: BreakerModel, n: nat) -> BreakerModel
    decreases n,
{
    if n == 0 {
        m
    } else {
        health_step(healthy_run(m, (n - 1) as nat))
    }
}

/// Law: when failures keep coming and the child is respawned after each wait,
/// the n-th failure waits the n-th delay of the ladder, in order; once the
/// ladder is used up every further failure answers `Failed` and leaves the
/// breaker failed. The ladder itself never changes.
pub proof fn lemma_backoff_ladder(m: BreakerModel, n: nat)
    requires
        m.consecutive_failures == 0,
        m.backoff_ms.len() <= u32::MAX,
    ensures
        fail_and_respawn(m, n).backoff_ms == m.backoff_ms,
        fail_and_respawn(m, n).healthy_reset == m.healthy_reset,
        fail_and_respawn(m, n).consecutive_failures == (if n <= m.backoff_ms.len() {
            n
        } else {
            m.backoff_ms.len()
        }),
        n < m.backoff_ms.len() ==> failure_step(fail_and_respawn(m, n)).1 == NextAction::Wait(
            duration_from_millis(m.backoff_ms[n as int]),
        ),
        n >= m.backoff_ms.len() ==> failure_step(fail_and_respawn(m, n)).1 == NextAction::Failed,
        n >= m.backoff_ms.len() ==> failure_step(fail_and_respawn(m, n)).0.state == CbState::Failed,
    decreases n,
{
    if n > 0 {
        lemma_backoff_ladder(m, (n - 1) as nat);
    }
}

/// Law: while the breaker runs, a streak of healthy samples that reaches
/// `healthy_reset` clears both counters; a shorter streak only counts up and
/// keeps the failure counter as it was.
pub proof fn lemma_healthy_streak(m: BreakerModel, n: nat)
    requires
        m.state == CbState::Running,
        m.consecutive_healthy + n <= m.healthy_reset,
        m.consecutive_healthy < m.healthy_reset,
    ensures
        m.consecutive_healthy + n < m.healthy_reset ==> healthy_run(m, n) == (BreakerModel {
            consecutive_healthy: (m.consecutive_healthy + n) as u32,
            ..m
        }),
        m.consecutive_healthy + n == m.healthy_reset ==> healthy_run(m, n) == (BreakerModel {
            consecutive_failures: 0,
            consecutive_healthy: 0,
            ..m
        }),
    decreases n,
{
    if n > 0 {
        lemma_healthy_streak(m, (n - 1) as nat);
    }
}

/// Law: healthy samples are ignored while the breaker waits or has failed.
pub proof fn lemma_health_ignored_unless_running(m: BreakerModel, n: nat)
    requires
        m.state != CbState::Running,
    ensures
        healthy_run(m, n) == m,
    decreases n,
{
    if n > 0 {
        lemma_health_ignored_unless_running(m, (n - 1) as nat);
    }
}

/// Law: a respawn changes neither counter nor the configuration, so the
/// ladder goes on where it stood.
pub proof fn lemma_respawn_keeps_progress(m: BreakerModel)
    ensures
        respawn_step(m).consecutive_failures == m.consecutive_failures,
        respawn_step(m).consecutive_healthy == m.consecutive_healthy,
        respawn_step(m).backoff_ms == m.backoff_ms,
        respawn_step(m).healthy_reset == m.healthy_reset,
        respawn_step(m).state == CbState::Running,
{
}

/// Law: after a reset the breaker runs with clear counters, and the next
/// failure waits the first delay of the ladder again.
pub proof fn lemma_reset_restarts_ladder(m: BreakerModel)
    requires
        1 <= m.backoff_ms.len() <= u32::MAX,
    ensures
        reset_step(m).state == CbState::Running,
        reset_step(m).consecutive_failures == 0,
        reset_step(m).consecutive_healthy == 0,
        failure_step(reset_step(m)).1 == NextAction::Wait(duration_from_millis(m.backoff_ms[0])),
{
}

/// What holds of every breaker that supervision can reach: the failure count
/// stays within the ladder, a failed breaker has used the whole ladder, a
/// waiting breaker has seen a failure, and the healthy streak stays below the
/// reset threshold (below one when the threshold is zero).
pub open spec fn breaker_ok(m: BreakerModel) -> bool {
    &&& m.consecutive_failures <= m.backoff_ms.len()
    &&& m.state == CbState::Failed ==> m.consecutive_failures == m.backoff_ms.len()
    &&& m.state == CbState::Waiting ==> m.consecutive_failures >= 1
    &&& m.consecutive_healthy < (if m.healthy_reset == 0 { 1 } else { m.healthy_reset as int })
}

/// One call that supervision makes on a breaker.
pub enum BreakerEvent {
    Failure,
    Respawn,
    Health,
    Reset,
}

/// The breaker after one event.
pub open spec fn event_step(m: BreakerModel, e: BreakerEvent) -> BreakerModel {
    match e {
        BreakerEvent::Failure => failure_step(m).0,
        BreakerEvent::Respawn => respawn_step(m),
        BreakerEvent::Health => health_step(m),
        BreakerEvent::Reset => reset_step(m),
    }
}

/// The breaker after a sequence of events, taken in order.
pub open spec fn run_events(m: BreakerModel, events: Seq<BreakerEvent>) -> BreakerModel
    decreases events.len(),
{
    if events.len() == 0 {
        m
    } else {
        event_step(run_events(m, events.drop_last()), events.last())
    }
}

/// Law: a breaker fresh from `new()`, with any ladder (of at most `u32::MAX`
/// delays) and any healthy threshold set by the builders, satisfies `breaker_ok`.
pub proof fn lemma_fresh_breaker_ok(backoff_ms: Seq<u64>, healthy_reset: u32)
    requires
        backoff_ms.len() <= u32::MAX,
    ensures
        breaker_ok(BreakerModel { backoff_ms, healthy_reset, ..initial_model() }),
{
}

/// Law: each of `on_failure`, `on_respawn`, `on_health` and `reset` keeps
/// `breaker_ok`, for ladders of at most `u32::MAX` delays.
pub proof fn lemma_step_keeps_breaker_ok(m: BreakerModel, e: BreakerEvent)
    requires
        breaker_ok(m),
        m.backoff_ms.len() <= u32::MAX,
    ensures
        breaker_ok(event_step(m, e)),
        event_step(m, e).backoff_ms == m.backoff_ms,
        event_step(m, e).healthy_reset == m.healthy_reset,
{
}

/// Law: `breaker_ok` holds after any sequence of `on_failure`, `on_respawn`,
/// `on_health` and `reset` calls on a breaker that satisfied it.
pub proof fn lemma_events_keep_breaker_ok(m: BreakerModel, events: Seq<BreakerEvent>)
    requires
        breaker_ok(m),
        m.backoff_ms.len() <= u32::MAX,
    ensures
        breaker_ok(run_events(m, events)),
        run_events(m, events).backoff_ms == m.backoff_ms,
        run_events(m, events).healthy_reset == m.healthy_reset,
    decreases events.len(),
{
    if events.len() > 0 {
        lemma_events_keep_breaker_ok(m, events.drop_last());
        lemma_step_keeps_breaker_ok(run_events(m, events.drop_last()), events.last());
    }
}

/// Restart policy for the sensor worker: a ladder of respawn delays that ends
/// in a failed state, and a healthy streak that clears the failure count.
#[derive(Debug)]
pub struct CircuitBreaker {
    backoff_ms: Vec<u64>,
    healthy_reset: u32,
    state: CbState,
    consecutive_failures: u32,
    consecutive_healthy: u32,
}

impl View for CircuitBreaker {
    type V = BreakerModel;

    closed spec fn view(&self) -> BreakerModel {
        BreakerModel {
            backoff_ms: self.backoff_ms@,
            healthy_reset: self.healthy_reset,
            state: self.state,
            consecutive_failures: self.consecutive_failures,
            consecutive_healthy: self.consecutive_healthy,
        }
    }
}

impl CircuitBreaker {
    /// The healthy counter never sits at `u32::MAX`, so one more sample always fits.
    #[verifier::type_invariant]
    spec fn counters_fit(self) -> bool {
        self.consecutive_healthy < u32::MAX
    }

    pub fn new() -> (cb: Self)
        ensures
            cb@ == initial_model(),
    {
        CircuitBreaker {
            backoff_ms: vstd::slice::slice_to_vec(DEFAULT_BACKOFF_MS.as_slice()),
            healthy_reset: DEFAULT_HEALTHY_RESET,
            state: CbState::Running,
            consecutive_failures: 0,
            consecutive_healthy: 0,
        }
    }

    pub fn with_backoff(self, backoff_ms: Vec<u64>) -> (cb: Self)
        ensures
            cb@ == (BreakerModel { backoff_ms: backoff_ms@, ..self@ }),
    {
        proof {
            use_type_invariant(&self);
        }
        let mut cb = self;
        cb.backoff_ms = backoff_ms;
        cb
    }

    pub fn with_healthy_reset(self, healthy_reset: u32) -> (cb: Self)
        ensures
            cb@ == (BreakerModel { healthy_reset, ..self@ }),
    {
        proof {
            use_type_invariant(&self);
        }
        let mut cb = self;
        cb.healthy_reset = healthy_reset;
        cb
    }

    pub fn state(&self) -> (s: CbState)
        ensures
            s == self@.state,
    {
        self.state
    }

    pub fn consecutive_failures(&self) -> (n: u32)
        ensures
            n == self@.consecutive_failures,
    {
        self.consecutive_failures
    }

    pub fn consecutive_healthy(&self) -> (n: u32)
        ensures
            n == self@.consecutive_healthy,
    {
        self.consecutive_healthy
    }

    /// Reports a child failure. Returns the delay before the next respawn, or
    /// `Failed` once the backoff ladder is exhausted. A failure ends any
    /// healthy streak, so only an unbroken streak clears the failure counter.
    pub fn on_failure(&mut self) -> (action: NextAction)
        ensures
            (final(self)@, action) == failure_step(old(self)@),
            final(self)@.consecutive_healthy == 0,
    {
        proof {
            use_type_invariant(&*self);
        }
        self.consecutive_healthy = 0;
        if self.consecutive_failures >= self.backoff_ms.len() as u32 {
            self.state = CbState::Failed;
            return NextAction::Failed;
        }
        let delay = millis_to_duration(self.backoff_ms[self.consecutive_failures as usize]);
        self.consecutive_failures = self.consecutive_failures + 1;
        self.state = CbState::Waiting;
        NextAction::Wait(delay)
    }

    /// Marks a respawn attempt, transitioning back to running.
    pub fn on_respawn(&mut self)
        ensures
            final(self)@ == respawn_step(old(self)@),
    {
        proof {
            use_type_invariant(&*self);
        }
        self.state = CbState::Running;
    }

    /// Reports one healthy sample. A sustained healthy streak resets the
    /// failure counter.
    pub fn on_health(&mut self)
        ensures
            final(self)@ == health_step(old(self)@),
    {
        proof {
            use_type_invariant(&*self);
        }
        if self.state != CbState::Running {
            return;
        }
        let streak = self.consecutive_healthy + 1;
        if streak >= self.healthy_reset {
            self.consecutive_failures = 0;
            self.consecutive_healthy = 0;
        } else {
            self.consecutive_healthy = streak;
        }
    }

    /// Full reset, e.g. after sleep/wake backend re-init.
    pub fn reset(&mut self)
        ensures
            final(self)@ == reset_step(old(self)@),
    {
        proof {
            use_type_invariant(&*self);
        }
        self.state = CbState::Running;
        self.consecutive_failures = 0;
        self.consecutive_healthy = 0;
    }
}

impl Clone for CircuitBreaker {
    fn clone(&self) -> (cb: Self)
        ensures
            cb@ == self@,
    {
        proof {
            use_type_invariant(self);
        }
        CircuitBreaker {
            backoff_ms: self.backoff_ms.clone(),
            healthy_reset: self.healthy_reset,
            state: self.state,
            consecutive_failures: self.consecutive_failures,
            consecutive_healthy: self.consecutive_healthy,
        }
    }
}

impl Default for CircuitBreaker {
    fn default() -> (cb: Self)
        ensures
            cb@ == initial_model(),
    {
        Self::new()
    }
}

} // verus!
