//! The binary worker: the state machine that owns the child process.
//!
//! The machine decides; the embedding program performs.  Each call to
//! [`worker_step`] consumes one event (a command, a hook result, a
//! spawn result, a child exit, or the end of a bounded reap) and
//! returns the next state together with the ordered effects to carry
//! out: publish a status, run a hook, spawn the child, send a signal,
//! or wait out the graceful-exit window.

use vstd::prelude::*;

verus! {

/// Commands the supervisor sends to the worker.
#[allow(non_camel_case_types)]
#[derive(PartialEq, Eq, Structural, Clone, Copy, Debug)]
pub enum ChildThreadAction {
    START,
    KILL(i32),
    EXIT,
    RESTART,
}

/// Observable child state, published through the status cell.
#[allow(non_camel_case_types)]
#[derive(PartialEq, Eq, Structural, Clone, Copy, Debug)]
pub enum CallbackAction {
    CREATED,
    STARTED,
    EXITED(i32),
    DESTROYED,
}

/// The hook scripts run around the child's lifecycle, with the
/// interpreter that runs them.
pub struct HookScripts {
    pub script_worker: String,
    pub before_script: Option<String>,
    pub after_script: Option<String>,
}

/// Where the machine goes once the old child has been reaped.
#[derive(PartialEq, Eq, Structural, Clone, Copy, Debug)]
pub enum AfterReap {
    ToIdle,
    ToRelaunch,
    ToDestroy,
}

/// The worker's control state.
#[derive(PartialEq, Eq, Structural, Clone, Copy, Debug)]
pub enum WorkerPhase {
    /// No child; awaiting a command.
    Idle,
    /// A launch was ordered; the pre-hook is running.
    Prehook,
    /// The pre-hook passed; the spawn is in flight.
    Spawning,
    /// The child is alive.
    Running,
    /// The old child was signalled; the bounded reap is in flight.
    Reaping(AfterReap),
    /// Terminal: no further commands are accepted.
    Destroyed,
}

/// The worker machine: its phase and whether a child is live.
#[derive(PartialEq, Eq, Structural, Clone, Copy, Debug)]
pub struct WorkerMachine {
    pub phase: WorkerPhase,
    pub child_live: bool,
}

/// One observation handed to the machine.
#[derive(PartialEq, Eq, Structural, Clone, Copy, Debug)]
pub enum WorkerEvent {
    /// A command received while idle.
    Command(ChildThreadAction),
    /// The pre-hook finished; true when it passed (or was absent).
    PrehookDone(bool),
    /// The spawn finished; true when the child started.
    SpawnDone(bool),
    /// The running child exited with this code.
    ChildExited(i32),
    /// A command received while the child runs.
    RunCommand(ChildThreadAction),
    /// The bounded reap of the old child finished.
    ReapDone,
}

/// One action the embedding program must perform, in order.
#[derive(PartialEq, Eq, Structural, Clone, Copy, Debug)]
pub enum WorkerEffect {
    PublishStatus(CallbackAction),
    RunPreHook,
    SpawnChild,
    RunPostHook,
    SendSignal(i32),
    WaitThenKill(u32),
}

impl WorkerMachine {
    /// The machine before any event: idle, no child.
    pub open spec fn init_spec() -> WorkerMachine {
        WorkerMachine { phase: WorkerPhase::Idle, child_live: false }
    }

    /// A child is live exactly in the running and reaping phases.
    pub open spec fn inv(self) -> bool {
        self.child_live <==> (self.phase is Running || self.phase is Reaping)
    }

    /// The machine before any event: idle, no child.
    pub fn init() -> (r: WorkerMachine)
        ensures
            r == WorkerMachine::init_spec(),
            r.inv(),
    {
        WorkerMachine { phase: WorkerPhase::Idle, child_live: false }
    }
}

/// The event is the one the machine can consume in its current phase.
pub open spec fn event_fits(m: WorkerMachine, e: WorkerEvent) -> bool {
    match e {
        WorkerEvent::Command(_) => m.phase is Idle,
        WorkerEvent::PrehookDone(_) => m.phase is Prehook,
        WorkerEvent::SpawnDone(_) => m.phase is Spawning,
        WorkerEvent::ChildExited(_) => m.phase is Running,
        WorkerEvent::RunCommand(_) => m.phase is Running,
        WorkerEvent::ReapDone => m.phase is Reaping,
    }
}

/// The transition relation of the worker, as one total function: the
/// next state and the ordered effects.  An event that does not fit the
/// phase leaves the machine unchanged with no effects; in particular a
/// destroyed worker absorbs everything.
pub open spec fn spec_step(m: WorkerMachine, e: WorkerEvent, exit_signal: i32) -> (
    WorkerMachine,
    Seq<WorkerEffect>,
) {
    if !event_fits(m, e) {
        (m, Seq::empty())
    } else {
        match e {
            WorkerEvent::Command(cmd) => match cmd {
                ChildThreadAction::START | ChildThreadAction::RESTART => (
                    WorkerMachine { phase: WorkerPhase::Prehook, ..m },
                    seq![
                        WorkerEffect::PublishStatus(CallbackAction::CREATED),
                        WorkerEffect::RunPreHook,
                    ],
                ),
                ChildThreadAction::EXIT => (
                    WorkerMachine { phase: WorkerPhase::Destroyed, ..m },
                    seq![WorkerEffect::PublishStatus(CallbackAction::DESTROYED)],
                ),
                ChildThreadAction::KILL(_) => (m, Seq::empty()),
            },
            WorkerEvent::PrehookDone(ok) => if ok {
                (WorkerMachine { phase: WorkerPhase::Spawning, ..m }, seq![
                    WorkerEffect::SpawnChild,
                ])
            } else {
                (WorkerMachine { phase: WorkerPhase::Idle, ..m }, seq![
                    WorkerEffect::PublishStatus(CallbackAction::EXITED(1)),
                ])
            },
            WorkerEvent::SpawnDone(ok) => if ok {
                (WorkerMachine { phase: WorkerPhase::Running, child_live: true }, seq![
                    WorkerEffect::PublishStatus(CallbackAction::STARTED),
                ])
            } else {
                (WorkerMachine { phase: WorkerPhase::Idle, ..m }, seq![
                    WorkerEffect::PublishStatus(CallbackAction::EXITED(1)),
                ])
            },
            WorkerEvent::ChildExited(code) => (
                WorkerMachine { phase: WorkerPhase::Idle, child_live: false },
                seq![
                    WorkerEffect::PublishStatus(CallbackAction::EXITED(code)),
                    WorkerEffect::RunPostHook,
                ],
            ),
            WorkerEvent::RunCommand(cmd) => match cmd {
                ChildThreadAction::KILL(sig) => (
                    WorkerMachine { phase: WorkerPhase::Reaping(AfterReap::ToIdle), ..m },
                    seq![
                        WorkerEffect::SendSignal(sig),
                        WorkerEffect::RunPostHook,
                        WorkerEffect::WaitThenKill(90),
                    ],
                ),
                ChildThreadAction::RESTART => (
                    WorkerMachine { phase: WorkerPhase::Reaping(AfterReap::ToRelaunch), ..m },
                    seq![
                        WorkerEffect::SendSignal(exit_signal),
                        WorkerEffect::RunPostHook,
                        WorkerEffect::WaitThenKill(90),
                    ],
                ),
                ChildThreadAction::EXIT => (
                    WorkerMachine { phase: WorkerPhase::Reaping(AfterReap::ToDestroy), ..m },
                    seq![
                        WorkerEffect::SendSignal(exit_signal),
                        WorkerEffect::RunPostHook,
                        WorkerEffect::WaitThenKill(90),
                    ],
                ),
                ChildThreadAction::START => (m, Seq::empty()),
            },
            WorkerEvent::ReapDone => {
                let gone = WorkerMachine { phase: m.phase, child_live: false };
                match m.phase {
                    WorkerPhase::Reaping(AfterReap::ToIdle) => (
                        WorkerMachine { phase: WorkerPhase::Idle, ..gone },
                        Seq::empty(),
                    ),
                    WorkerPhase::Reaping(AfterReap::ToRelaunch) => (
                        WorkerMachine { phase: WorkerPhase::Prehook, ..gone },
                        seq![
                            WorkerEffect::PublishStatus(CallbackAction::CREATED),
                            WorkerEffect::RunPreHook,
                        ],
                    ),
                    _ => (
                        WorkerMachine { phase: WorkerPhase::Destroyed, ..gone },
                        seq![WorkerEffect::PublishStatus(CallbackAction::DESTROYED)],
                    ),
                }
            },
        }
    }
}

/// One step of the worker machine.
pub fn worker_step(m: &WorkerMachine, e: &WorkerEvent, exit_signal: i32) -> (r: (
    WorkerMachine,
    Vec<WorkerEffect>,
))
    ensures
        r.0 == spec_step(*m, *e, exit_signal).0,
        r.1@ == spec_step(*m, *e, exit_signal).1,
{
    let fits = match e {
        WorkerEvent::Command(_) => matches!(m.phase, WorkerPhase::Idle),
        WorkerEvent::PrehookDone(_) => matches!(m.phase, WorkerPhase::Prehook),
        WorkerEvent::SpawnDone(_) => matches!(m.phase, WorkerPhase::Spawning),
        WorkerEvent::ChildExited(_) => matches!(m.phase, WorkerPhase::Running),
        WorkerEvent::RunCommand(_) => matches!(m.phase, WorkerPhase::Running),
        WorkerEvent::ReapDone => matches!(m.phase, WorkerPhase::Reaping(_)),
    };
    if !fits {
        let r = (*m, Vec::new());
        proof {
            assert(r.1@ =~= spec_step(*m, *e, exit_signal).1);
        }
        return r;
    }
    let mut effects: Vec<WorkerEffect> = Vec::new();
    let next = match e {
        WorkerEvent::Command(cmd) => match cmd {
            ChildThreadAction::START | ChildThreadAction::RESTART => {
                effects.push(WorkerEffect::PublishStatus(CallbackAction::CREATED));
                effects.push(WorkerEffect::RunPreHook);
                WorkerMachine { phase: WorkerPhase::Prehook, ..*m }
            },
            ChildThreadAction::EXIT => {
                effects.push(WorkerEffect::PublishStatus(CallbackAction::DESTROYED));
                WorkerMachine { phase: WorkerPhase::Destroyed, ..*m }
            },
            ChildThreadAction::KILL(_) => *m,
        },
        WorkerEvent::PrehookDone(ok) => if *ok {
            effects.push(WorkerEffect::SpawnChild);
            WorkerMachine { phase: WorkerPhase::Spawning, ..*m }
        } else {
            effects.push(WorkerEffect::PublishStatus(CallbackAction::EXITED(1)));
            WorkerMachine { phase: WorkerPhase::Idle, ..*m }
        },
        WorkerEvent::SpawnDone(ok) => if *ok {
            effects.push(WorkerEffect::PublishStatus(CallbackAction::STARTED));
            WorkerMachine { phase: WorkerPhase::Running, child_live: true }
        } else {
            effects.push(WorkerEffect::PublishStatus(CallbackAction::EXITED(1)));
            WorkerMachine { phase: WorkerPhase::Idle, ..*m }
        },
        WorkerEvent::ChildExited(code) => {
            effects.push(WorkerEffect::PublishStatus(CallbackAction::EXITED(*code)));
            effects.push(WorkerEffect::RunPostHook);
            WorkerMachine { phase: WorkerPhase::Idle, child_live: false }
        },
        WorkerEvent::RunCommand(cmd) => match cmd {
            ChildThreadAction::KILL(sig) => {
                effects.push(WorkerEffect::SendSignal(*sig));
                effects.push(WorkerEffect::RunPostHook);
                effects.push(WorkerEffect::WaitThenKill(90));
                WorkerMachine { phase: WorkerPhase::Reaping(AfterReap::ToIdle), ..*m }
            },
            ChildThreadAction::RESTART => {
                effects.push(WorkerEffect::SendSignal(exit_signal));
                effects.push(WorkerEffect::RunPostHook);
                effects.push(WorkerEffect::WaitThenKill(90));
                WorkerMachine { phase: WorkerPhase::Reaping(AfterReap::ToRelaunch), ..*m }
            },
            ChildThreadAction::EXIT => {
                effects.push(WorkerEffect::SendSignal(exit_signal));
                effects.push(WorkerEffect::RunPostHook);
                effects.push(WorkerEffect::WaitThenKill(90));
                WorkerMachine { phase: WorkerPhase::Reaping(AfterReap::ToDestroy), ..*m }
            },
            ChildThreadAction::START => *m,
        },
        WorkerEvent::ReapDone => match m.phase {
            WorkerPhase::Reaping(AfterReap::ToIdle) => WorkerMachine {
                phase: WorkerPhase::Idle,
                child_live: false,
            },
            WorkerPhase::Reaping(AfterReap::ToRelaunch) => {
                effects.push(WorkerEffect::PublishStatus(CallbackAction::CREATED));
                effects.push(WorkerEffect::RunPreHook);
                WorkerMachine { phase: WorkerPhase::Prehook, child_live: false }
            },
            _ => {
                effects.push(WorkerEffect::PublishStatus(CallbackAction::DESTROYED));
                WorkerMachine { phase: WorkerPhase::Destroyed, child_live: false }
            },
        },
    };
    let r = (next, effects);
    proof {
        assert(r.1@ =~= spec_step(*m, *e, exit_signal).1);
    }
    r
}

/// The event a reaped child produces: its exit code, or 1 when the
/// operating system reports none (the child ended on a signal).
pub open spec fn spec_child_exit_event(code: Option<i32>) -> WorkerEvent {
    WorkerEvent::ChildExited(
        match code {
            Some(c) => c,
            None => 1,
        },
    )
}

/// Turn a reaped child's reported exit code into the machine's event.
pub fn child_exit_event(code: Option<i32>) -> (r: WorkerEvent)
    ensures
        r == spec_child_exit_event(code),
        code is None ==> r == WorkerEvent::ChildExited(1),
{
    match code {
        Some(c) => WorkerEvent::ChildExited(c),
        None => WorkerEvent::ChildExited(1),
    }
}

/// The machine after a whole event sequence.
pub open spec fn run_steps(m: WorkerMachine, events: Seq<WorkerEvent>, exit_signal: i32)
    -> WorkerMachine
    decreases events.len(),
{
    if events.len() == 0 {
        m
    } else {
        run_steps(spec_step(m, events[0], exit_signal).0, events.skip(1), exit_signal)
    }
}

/// How many spawn requests a trace of effects holds.
pub open spec fn count_spawns(effs: Seq<WorkerEffect>) -> int
    decreases effs.len(),
{
    if effs.len() == 0 {
        0
    } else {
        (if effs[0] is SpawnChild {
            1int
        } else {
            0int
        }) + count_spawns(effs.skip(1))
    }
}

/// How many pre-hook runs a trace of effects holds.
pub open spec fn count_prehooks(effs: Seq<WorkerEffect>) -> int
    decreases effs.len(),
{
    if effs.len() == 0 {
        0
    } else {
        (if effs[0] is RunPreHook {
            1int
        } else {
            0int
        }) + count_prehooks(effs.skip(1))
    }
}

/// How many post-hook runs a trace of effects holds.
pub open spec fn count_posthooks(effs: Seq<WorkerEffect>) -> int
    decreases effs.len(),
{
    if effs.len() == 0 {
        0
    } else {
        (if effs[0] is RunPostHook {
            1int
        } else {
            0int
        }) + count_posthooks(effs.skip(1))
    }
}

/// The number of live children the machine accounts for.
pub open spec fn live_count(m: WorkerMachine) -> int {
    if m.child_live {
        1
    } else {
        0
    }
}

/// Each step keeps the machine's invariant, asks for a spawn only when
/// no child is live, and asks for at most one spawn.
pub proof fn lemma_step_preserves_inv(m: WorkerMachine, e: WorkerEvent, exit_signal: i32)
    requires
        m.inv(),
    ensures
        spec_step(m, e, exit_signal).0.inv(),
        count_spawns(spec_step(m, e, exit_signal).1) <= 1,
        count_spawns(spec_step(m, e, exit_signal).1) == 1 ==> !m.child_live && !spec_step(
            m,
            e,
            exit_signal,
        ).0.child_live,
{
    reveal_with_fuel(count_spawns, 5);
}

/// At every instant the worker accounts for zero or one live child,
/// whatever events it has consumed.
pub proof fn lemma_at_most_one_child(m: WorkerMachine, events: Seq<WorkerEvent>, exit_signal: i32)
    requires
        m.inv(),
    ensures
        run_steps(m, events, exit_signal).inv(),
        0 <= live_count(run_steps(m, events, exit_signal)) <= 1,
    decreases events.len(),
{
    if events.len() > 0 {
        lemma_step_preserves_inv(m, events[0], exit_signal);
        lemma_at_most_one_child(spec_step(m, events[0], exit_signal).0, events.skip(1), exit_signal);
    }
}

/// An `EXIT` command drives the worker to `Destroyed`: at once from
/// idle, and right after the bounded reap when a child is running.
pub proof fn lemma_exit_reaches_destroyed(m: WorkerMachine, exit_signal: i32)
    requires
        m.inv(),
    ensures
        m.phase is Idle ==> spec_step(
            m,
            WorkerEvent::Command(ChildThreadAction::EXIT),
            exit_signal,
        ).0.phase is Destroyed,
        m.phase is Running ==> spec_step(
            spec_step(m, WorkerEvent::RunCommand(ChildThreadAction::EXIT), exit_signal).0,
            WorkerEvent::ReapDone,
            exit_signal,
        ).0.phase is Destroyed,
{
}

/// A destroyed worker consumes every further event without changing
/// state or producing an effect.
pub proof fn lemma_destroyed_is_final(m: WorkerMachine, e: WorkerEvent, exit_signal: i32)
    requires
        m.phase is Destroyed,
    ensures
        spec_step(m, e, exit_signal).0 == m,
        spec_step(m, e, exit_signal).1 == Seq::<WorkerEffect>::empty(),
{
}

/// Across a restart of a running child, the combined effect trace runs
/// the post-hook exactly once, then the pre-hook exactly once, then
/// asks for exactly one spawn, in that order.
pub proof fn lemma_restart_hook_order(m: WorkerMachine, exit_signal: i32)
    requires
        m.inv(),
        m.phase is Running,
    ensures
        ({
            let s1 = spec_step(m, WorkerEvent::RunCommand(ChildThreadAction::RESTART), exit_signal);
            let s2 = spec_step(s1.0, WorkerEvent::ReapDone, exit_signal);
            let s3 = spec_step(s2.0, WorkerEvent::PrehookDone(true), exit_signal);
            let trace = s1.1 + s2.1 + s3.1;
            &&& count_posthooks(trace) == 1
            &&& count_prehooks(trace) == 1
            &&& count_spawns(trace) == 1
            &&& exists|i: int, j: int, k: int|
                0 <= i < j < k < trace.len() && trace[i] is RunPostHook && trace[j] is RunPreHook
                    && trace[k] is SpawnChild
            &&& s3.0.phase is Spawning
        }),
{
    let s1 = spec_step(m, WorkerEvent::RunCommand(ChildThreadAction::RESTART), exit_signal);
    let s2 = spec_step(s1.0, WorkerEvent::ReapDone, exit_signal);
    let s3 = spec_step(s2.0, WorkerEvent::PrehookDone(true), exit_signal);
    let trace = s1.1 + s2.1 + s3.1;
    assert(trace =~= seq![
        WorkerEffect::SendSignal(exit_signal),
        WorkerEffect::RunPostHook,
        WorkerEffect::WaitThenKill(90),
        WorkerEffect::PublishStatus(CallbackAction::CREATED),
        WorkerEffect::RunPreHook,
        WorkerEffect::SpawnChild,
    ]);
    reveal_with_fuel(count_posthooks, 8);
    reveal_with_fuel(count_prehooks, 8);
    reveal_with_fuel(count_spawns, 8);
    assert(count_posthooks(trace.skip(6)) == 0);
    assert(count_prehooks(trace.skip(6)) == 0);
    assert(count_spawns(trace.skip(6)) == 0);
    assert(trace[1] is RunPostHook && trace[4] is RunPreHook && trace[5] is SpawnChild);
}

// ---------------------------------------------------------------------
// The bounded graceful-exit window.
// ---------------------------------------------------------------------

/// The decision taken at one half-second tick of the graceful-exit
/// window.
#[derive(PartialEq, Eq, Structural, Clone, Copy, Debug)]
pub enum WaitDecision {
    /// The child exited on its own with this code.
    Exited(i32),
    /// Keep waiting: sleep half a second and poll again.
    Sleep,
    /// The window is over: send SIGKILL now.
    Kill,
}

/// What the graceful-exit window decides after `ticks_done` half-second
/// ticks, given the current poll of the child.
pub open spec fn spec_wait_decision(ticks_done: u32, timeout_secs: u32, poll: Option<i32>)
    -> WaitDecision {
    if ticks_done >= 2 * timeout_secs {
        WaitDecision::Kill
    } else {
        match poll {
            Some(code) => WaitDecision::Exited(code),
            None => WaitDecision::Sleep,
        }
    }
}

/// One tick of `wait_then_kill`: polls run every half second, and once
/// `2 * timeout_secs` ticks have passed without an exit the child is
/// killed unconditionally.
pub fn wait_tick(ticks_done: u32, timeout_secs: u32, poll: Option<i32>) -> (r: WaitDecision)
    ensures
        r == spec_wait_decision(ticks_done, timeout_secs, poll),
{
    if (ticks_done as u64) >= 2 * (timeout_secs as u64) {
        WaitDecision::Kill
    } else {
        match poll {
            Some(code) => WaitDecision::Exited(code),
            None => WaitDecision::Sleep,
        }
    }
}

/// For a child that never exits, the window sleeps at every tick before
/// `2 * timeout_secs` and sends SIGKILL exactly at that tick: after
/// `timeout_secs` seconds of half-second sleeps.
pub proof fn lemma_sigkill_exactly_at_timeout(timeout_secs: u32)
    requires
        timeout_secs <= 0x7fffffff,
    ensures
        forall|t: u32|
            t < 2 * timeout_secs ==> spec_wait_decision(t, timeout_secs, None)
                == WaitDecision::Sleep,
        spec_wait_decision((2 * timeout_secs) as u32, timeout_secs, None) == WaitDecision::Kill,
        forall|t: u32, c: i32|
            t < 2 * timeout_secs ==> spec_wait_decision(t, timeout_secs, Some(c))
                == WaitDecision::Exited(c),
{
}

// ---------------------------------------------------------------------
// The worker handle.
// ---------------------------------------------------------------------

/// Declares `std::sync::mpsc::SyncSender` so the command channel can
/// stand in a field; values of it are opaque here.
#[verifier::external_type_specification]
#[verifier::external_body]
#[verifier::reject_recursive_types(T)]
pub struct ExSyncSender<T>(std::sync::mpsc::SyncSender<T>);

/// Declares `std::sync::mpsc::Receiver` so the status channel can
/// stand in a field; values of it are opaque here.
#[verifier::external_type_specification]
#[verifier::external_body]
#[verifier::reject_recursive_types(T)]
pub struct ExReceiver<T>(std::sync::mpsc::Receiver<T>);

/// Declares `std::sync::Mutex` so the shared status cell can stand in
/// a field; values of it are opaque here.
#[verifier::external_type_specification]
#[verifier::external_body]
#[verifier::reject_recursive_types(T)]
pub struct ExMutex<T: ?Sized>(std::sync::Mutex<T>);

/// The supervisor's handle on the binary worker: the command channel
/// and the shared status cell.  The embedding program spawns the
/// worker thread and fills both.
pub struct StableWorker {
    pub master_rx: std::sync::mpsc::SyncSender<ChildThreadAction>,
    pub status: std::sync::Arc<std::sync::Mutex<CallbackAction>>,
}

/// Relies on `std::sync::mpsc::SyncSender::send`: queues one command
/// for the worker thread; a send to a worker that is gone is dropped.
#[verifier::external_body]
fn send_child_action(tx: &std::sync::mpsc::SyncSender<ChildThreadAction>, action: ChildThreadAction) {
    let _ = tx.send(action);
}

/// Relies on `std::sync::Mutex::try_lock`: a snapshot of the worker's
/// observable state, or nothing when the cell is contended.  Any state
/// may come back, so nothing is promised of it.
#[verifier::external_body]
pub fn try_read_status(cell: &std::sync::Arc<std::sync::Mutex<CallbackAction>>) -> (r: Option<
    CallbackAction,
>) {
    match cell.try_lock() {
        Ok(guard) => Some(*guard),
        Err(_) => None,
    }
}

impl StableWorker {
    /// Ask the worker to kill the child with SIGTERM.
    pub fn stop(&self) {
        send_child_action(&self.master_rx, ChildThreadAction::KILL(15));
    }

    /// Ask the worker to restart the child.
    pub fn restart(&self) {
        send_child_action(&self.master_rx, ChildThreadAction::RESTART);
    }

    /// Ask the worker to end the child and destroy itself.
    pub fn exit(&self) {
        send_child_action(&self.master_rx, ChildThreadAction::EXIT);
    }

    /// Ask the worker to spawn the child.
    pub fn start(&self) {
        send_child_action(&self.master_rx, ChildThreadAction::START);
    }
}

/// From every state the worker can still be wound down: some event
/// sequence — the pending completion, then the `EXIT` command, then
/// the final reap — ends in `Destroyed`.
pub proof fn lemma_destroyed_always_reachable(m: WorkerMachine, exit_signal: i32)
    requires
        m.inv(),
    ensures
        exists|events: Seq<WorkerEvent>|
            run_steps(m, events, exit_signal).phase is Destroyed,
{
    let exit_cmd = WorkerEvent::Command(ChildThreadAction::EXIT);
    let run_exit = WorkerEvent::RunCommand(ChildThreadAction::EXIT);
    let fail_hook = WorkerEvent::PrehookDone(false);
    let fail_spawn = WorkerEvent::SpawnDone(false);
    let reap = WorkerEvent::ReapDone;
    match m.phase {
        WorkerPhase::Idle => {
            lemma_run_to_destroyed(m, seq![exit_cmd], exit_signal);
        },
        WorkerPhase::Prehook => {
            lemma_run_to_destroyed(m, seq![fail_hook, exit_cmd], exit_signal);
        },
        WorkerPhase::Spawning => {
            lemma_run_to_destroyed(m, seq![fail_spawn, exit_cmd], exit_signal);
        },
        WorkerPhase::Running => {
            lemma_run_to_destroyed(m, seq![run_exit, reap], exit_signal);
        },
        WorkerPhase::Reaping(next) => match next {
            AfterReap::ToIdle => {
                lemma_run_to_destroyed(m, seq![reap, exit_cmd], exit_signal);
            },
            AfterReap::ToRelaunch => {
                lemma_run_to_destroyed(m, seq![reap, fail_hook, exit_cmd], exit_signal);
            },
            AfterReap::ToDestroy => {
                lemma_run_to_destroyed(m, seq![reap], exit_signal);
            },
        },
        WorkerPhase::Destroyed => {
            lemma_run_to_destroyed(m, Seq::<WorkerEvent>::empty(), exit_signal);
        },
    }
}

/// Running a short winding-down sequence step by step.
proof fn lemma_run_to_destroyed(m: WorkerMachine, events: Seq<WorkerEvent>, exit_signal: i32)
    requires
        events.len() <= 3,
        run_by_hand(m, events, exit_signal).phase is Destroyed,
    ensures
        exists|trace: Seq<WorkerEvent>| run_steps(m, trace, exit_signal).phase is Destroyed,
    decreases events.len(),
{
    lemma_run_by_hand_agrees(m, events, exit_signal);
    assert(run_steps(m, events, exit_signal).phase is Destroyed);
}

/// The same run, unrolled for up to three events.
spec fn run_by_hand(m: WorkerMachine, events: Seq<WorkerEvent>, exit_signal: i32)
    -> WorkerMachine {
    if events.len() == 0 {
        m
    } else if events.len() == 1 {
        spec_step(m, events[0], exit_signal).0
    } else if events.len() == 2 {
        spec_step(spec_step(m, events[0], exit_signal).0, events[1], exit_signal).0
    } else {
        spec_step(
            spec_step(spec_step(m, events[0], exit_signal).0, events[1], exit_signal).0,
            events[2],
            exit_signal,
        ).0
    }
}

proof fn lemma_run_by_hand_agrees(m: WorkerMachine, events: Seq<WorkerEvent>, exit_signal: i32)
    requires
        events.len() <= 3,
    ensures
        run_steps(m, events, exit_signal) == run_by_hand(m, events, exit_signal),
    decreases events.len(),
{
    if events.len() > 0 {
        let m1 = spec_step(m, events[0], exit_signal).0;
        lemma_run_by_hand_agrees(m1, events.skip(1), exit_signal);
        if events.len() == 2 {
            assert(events.skip(1) =~= seq![events[1]]);
        }
        if events.len() == 3 {
            assert(events.skip(1) =~= seq![events[1], events[2]]);
        }
        if events.len() == 1 {
            assert(events.skip(1) =~= Seq::<WorkerEvent>::empty());
        }
    }
}

} // verus!
