use crate::protocol::WorkerMessage;
use crate::sensor::{ascii_lower, is_healthy_sample, worker_sample_is_healthy};
use crate::supervisor::{
    duration_from_millis, fail_and_respawn, failure_step, health_step, lemma_backoff_ladder,
    respawn_step, BreakerModel, CircuitBreaker, NextAction,
};
use std::time::Duration;
use vstd::prelude::*;

verus! {

/// What the supervision loop learns between two decisions.
pub enum ControllerEvent {
    /// The worker process ended, or could not be started.
    ChildExited,
    /// The backoff wait has elapsed.
    WaitFinished,
}

/// What the supervision loop does next.
#[derive(Debug, PartialEq, Eq)]
pub enum ControllerAction {
    /// Start the worker process.
    SpawnChild,
    /// Wait this long, then report `WaitFinished`.
    Wait(Duration),
    /// The app is shutting down: stop supervising.
    Stop,
    /// Give up on the worker and record this error.
    GiveUp(String),
}

/// The error recorded when the worker is given up on.
pub open spec fn give_up_message() -> Seq<char> {
    "worker stopped after repeated failures"@
}

/// The decision after an event: nothing more while the app shuts down;
/// after an exit the breaker decides between a backoff wait and giving up;
/// after a wait the child is respawned.
pub open spec fn controller_decides(
    before: BreakerModel,
    event: ControllerEvent,
    running: bool,
    after: BreakerModel,
    action: ControllerAction,
) -> bool {
    if !running {
        after == before && action == ControllerAction::Stop
    } else {
        match event {
            ControllerEvent::ChildExited => {
                &&& after == failure_step(before).0
                &&& match failure_step(before).1 {
                    NextAction::Wait(d) => action == ControllerAction::Wait(d),
                    NextAction::Failed => action matches ControllerAction::GiveUp(msg) && msg@
                        == give_up_message(),
                }
            },
            ControllerEvent::WaitFinished => after == respawn_step(before) && action
                == ControllerAction::SpawnChild,
        }
    }
}

/// One decision of the worker supervision loop; `running` is whether the app
/// still wants the worker.
pub fn controller_step(breaker: &mut CircuitBreaker, event: ControllerEvent, running: bool) -> (action:
    ControllerAction)
    ensures
        controller_decides(old(breaker)@, event, running, final(breaker)@, action),
{
    if !running {
        return ControllerAction::Stop;
    }
    match event {
        ControllerEvent::ChildExited => match breaker.on_failure() {
            NextAction::Wait(delay) => ControllerAction::Wait(delay),
            NextAction::Failed => ControllerAction::GiveUp(
                String::from_str("worker stopped after repeated failures"),
            ),
        },
        ControllerEvent::WaitFinished => {
            breaker.on_respawn();
            ControllerAction::SpawnChild
        },
    }
}

/// Law: while the app runs and the worker keeps failing, the supervisor
/// waits out the backoff ladder delay by delay, respawning after each wait,
/// and gives up with its error on the first exit after the ladder is used up.
pub proof fn lemma_supervisor_gives_up_after_ladder(
    m: BreakerModel,
    n: nat,
    after: BreakerModel,
    action: ControllerAction,
)
    requires
        m.consecutive_failures == 0,
        m.backoff_ms.len() <= u32::MAX,
        controller_decides(
            fail_and_respawn(m, n),
            ControllerEvent::ChildExited,
            true,
            after,
            action,
        ),
    ensures
        n < m.backoff_ms.len() ==> action == ControllerAction::Wait(
            duration_from_millis(m.backoff_ms[n as int]),
        ),
        n >= m.backoff_ms.len() ==> (action matches ControllerAction::GiveUp(msg) && msg@
            == give_up_message()),
{
    lemma_backoff_ladder(m, n);
}

/// How long, in milliseconds, a running worker may stay silent before it is
/// taken for hung.
pub const HANG_TIMEOUT_MS: u64 = 3_000;

/// What the reader of the worker's output reports.
pub enum ReaderEvent {
    /// A line that parsed as a protocol message.
    Message(WorkerMessage),
    /// The output ended or broke.
    Ended,
    /// No message came within `HANG_TIMEOUT_MS`.
    Silent,
}

/// Handles one reader event while a child runs: a message becomes the latest
/// one, and a healthy sample counts toward the breaker's healthy streak; an
/// ended or hung worker ends the run (the child is then stopped and counted
/// as an exit). Returns whether to keep reading.
pub fn on_reader_event(
    breaker: &mut CircuitBreaker,
    latest: &mut Option<WorkerMessage>,
    event: ReaderEvent,
) -> (keep_reading: bool)
    ensures
        match event {
            ReaderEvent::Message(m) => {
                &&& keep_reading
                &&& *final(latest) == Some(m)
                &&& final(breaker)@ == (if is_healthy_sample(Some(m)) {
                    health_step(old(breaker)@)
                } else {
                    old(breaker)@
                })
            },
            ReaderEvent::Ended | ReaderEvent::Silent => {
                &&& !keep_reading
                &&& *final(latest) == *old(latest)
                &&& final(breaker)@ == old(breaker)@
            },
        },
{
    match event {
        ReaderEvent::Message(msg) => {
            let wrapped = Some(msg);
            if worker_sample_is_healthy(&wrapped) {
                breaker.on_health();
            }
            *latest = wrapped;
            true
        },
        ReaderEvent::Ended | ReaderEvent::Silent => false,
    }
}

/// Equality of two strings that ignores ASCII case.
pub open spec fn eq_ignoring_ascii_case(a: Seq<char>, b: Seq<char>) -> bool {
    a.len() == b.len() && forall|i: int| 0 <= i < a.len() ==> #[trigger] ascii_lower(a[i])
        == ascii_lower(b[i])
}

fn char_matches_lower(c: char, lower: char, upper: char) -> (b: bool)
    requires
        'a' <= lower <= 'z',
        upper as u32 == lower as u32 - 32,
    ensures
        b == (ascii_lower(c) == lower),
{
    c == lower || c == upper
}

/// Whether a value of the mock switch turns the mock on: `1`, or `true` in
/// any ASCII case.
pub fn mock_flag_enabled(value: &str) -> (on: bool)
    ensures
        on == (value@ == "1"@ || eq_ignoring_ascii_case(value@, "true"@)),
{
    proof {
        reveal_strlit("1");
        reveal_strlit("true");
    }
    let n = value.unicode_len();
    if n == 1 {
        let c = value.get_char(0);
        if c == '1' {
            assert(value@ =~= "1"@);
            return true;
        }
        assert(value@ != "1"@) by {
            if value@ == "1"@ {
                assert(value@[0] == '1');
            }
        }
        return false;
    }
    if n != 4 {
        assert(value@ != "1"@);
        return false;
    }
    let c0 = value.get_char(0);
    let c1 = value.get_char(1);
    let c2 = value.get_char(2);
    let c3 = value.get_char(3);
    let on = char_matches_lower(c0, 't', 'T') && char_matches_lower(c1, 'r', 'R')
        && char_matches_lower(c2, 'u', 'U') && char_matches_lower(c3, 'e', 'E');
    proof {
        let t = "true"@;
        assert(ascii_lower(t[0]) == 't' && ascii_lower(t[1]) == 'r' && ascii_lower(t[2]) == 'u'
            && ascii_lower(t[3]) == 'e');
        if on {
            assert forall|i: int| 0 <= i < 4 implies #[trigger] ascii_lower(value@[i]) == ascii_lower(
                t[i],
            ) by {}
        } else {
            if eq_ignoring_ascii_case(value@, t) {
                assert(ascii_lower(value@[0]) == ascii_lower(t[0]));
                assert(ascii_lower(value@[1]) == ascii_lower(t[1]));
                assert(ascii_lower(value@[2]) == ascii_lower(t[2]));
                assert(ascii_lower(value@[3]) == ascii_lower(t[3]));
            }
        }
    }
    on
}

/// Where the sensor worker executable is taken from.
#[derive(Debug, Clone, Copy, PartialEq, Eq, Structural)]
pub enum WorkerExe {
    /// The path a debug build was pointed at, when it names a file.
    Override,
    /// The release build of the worker in the development build tree.
    Release,
    /// The debug build of the worker in the development build tree.
    Debug,
    /// The worker shipped next to the app, by its bare executable name.
    Bare,
}

/// The worker executable to start. A release build always takes the worker
/// shipped next to the app: no override and no build-tree candidate is
/// looked at. A debug build prefers an override that names a file, then the
/// release build in the build tree, then the debug build, then the shipped
/// worker.
pub open spec fn worker_exe_preferred(
    release_build: bool,
    override_is_file: bool,
    release_is_file: bool,
    debug_is_file: bool,
) -> WorkerExe {
    if release_build {
        WorkerExe::Bare
    } else if override_is_file {
        WorkerExe::Override
    } else if release_is_file {
        WorkerExe::Release
    } else if debug_is_file {
        WorkerExe::Debug
    } else {
        WorkerExe::Bare
    }
}

/// Chooses the worker executable from the build mode and from which
/// candidates name existing files (a candidate that could not be formed
/// counts as no file).
pub fn choose_worker_exe(
    release_build: bool,
    override_is_file: bool,
    release_is_file: bool,
    debug_is_file: bool,
) -> (exe: WorkerExe)
    ensures
        exe == worker_exe_preferred(
            release_build,
            override_is_file,
            release_is_file,
            debug_is_file,
        ),
{
    if release_build {
        WorkerExe::Bare
    } else if override_is_file {
        WorkerExe::Override
    } else if release_is_file {
        WorkerExe::Release
    } else if debug_is_file {
        WorkerExe::Debug
    } else {
        WorkerExe::Bare
    }
}

/// Law: a release build always takes the shipped worker; a debug build takes
/// the first of override, build-tree release, build-tree debug that names a
/// file: the chosen candidate exists, and every candidate before it does
/// not. In particular an existing release build is taken whenever there is
/// no override, whether a debug build exists or not.
pub proof fn lemma_worker_exe_first_existing(
    release_build: bool,
    override_is_file: bool,
    release_is_file: bool,
    debug_is_file: bool,
)
    ensures
        ({
            let exe = worker_exe_preferred(
                release_build,
                override_is_file,
                release_is_file,
                debug_is_file,
            );
            &&& release_build ==> exe == WorkerExe::Bare
            &&& exe == WorkerExe::Override ==> !release_build && override_is_file
            &&& exe == WorkerExe::Release ==> !release_build && !override_is_file && release_is_file
            &&& exe == WorkerExe::Debug ==> !release_build && !override_is_file && !release_is_file
                && debug_is_file
            &&& exe == WorkerExe::Bare ==> release_build || (!override_is_file && !release_is_file
                && !debug_is_file)
            &&& !release_build && !override_is_file && release_is_file ==> exe == WorkerExe::Release
        }),
{
}

} // verus!
