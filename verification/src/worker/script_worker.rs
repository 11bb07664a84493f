//! The script worker: the control machine of a periodic probe.
//!
//! The worker runs one script on a timer and publishes each run's
//! disposition.  The machine here takes the control decisions; the
//! embedding program owns the thread, the timer and the process spawn.

use vstd::prelude::*;

verus! {

/// Commands the supervisor sends to a script worker.
#[allow(non_camel_case_types)]
#[derive(PartialEq, Eq, Structural, Clone, Copy, Debug)]
pub enum WorkerAction {
    START,
    STOP,
    EXIT,
}

/// The worker thread's control state.
#[derive(PartialEq, Eq, Structural, Clone, Copy, Debug)]
pub enum ScriptPhase {
    /// Waiting for `START`; the script does not run.
    Idle,
    /// Ticking: the script runs each interval.
    Running,
    /// Terminal: the thread winds down.
    Exited,
}

/// How one command moves the control state:
/// `IDLE -start-> RUNNING -stop-> IDLE`, and `exit` ends any state.
pub open spec fn spec_script_step(p: ScriptPhase, a: WorkerAction) -> ScriptPhase {
    match a {
        WorkerAction::START => if p is Exited {
            ScriptPhase::Exited
        } else {
            ScriptPhase::Running
        },
        WorkerAction::STOP => if p is Exited {
            ScriptPhase::Exited
        } else {
            ScriptPhase::Idle
        },
        WorkerAction::EXIT => ScriptPhase::Exited,
    }
}

/// One control step of the script worker.
pub fn script_step(p: ScriptPhase, a: WorkerAction) -> (r: ScriptPhase)
    ensures
        r == spec_script_step(p, a),
{
    match a {
        WorkerAction::START => if matches!(p, ScriptPhase::Exited) {
            ScriptPhase::Exited
        } else {
            ScriptPhase::Running
        },
        WorkerAction::STOP => if matches!(p, ScriptPhase::Exited) {
            ScriptPhase::Exited
        } else {
            ScriptPhase::Idle
        },
        WorkerAction::EXIT => ScriptPhase::Exited,
    }
}

/// The status a finished run publishes: `Some(0)` for success,
/// `Some(1)` for any failure, `None` when the interpreter could not be
/// spawned (that tick publishes nothing).
pub open spec fn spec_run_status(spawned: Option<Option<i32>>) -> Option<usize> {
    match spawned {
        None => None,
        Some(code) => match code {
            Some(c) => if c == 0 {
                Some(0usize)
            } else {
                Some(1usize)
            },
            None => Some(1usize),
        },
    }
}

/// Turn one script run's outcome into the published status.  The outer
/// option is the spawn (`None`: the interpreter did not start), the
/// inner the exit code the operating system reported.
pub fn run_status(spawned: Option<Option<i32>>) -> (r: Option<usize>)
    ensures
        r == spec_run_status(spawned),
        r is Some ==> (r->Some_0 == 0usize <==> spawned == Some(Some(0i32))),
{
    match spawned {
        None => None,
        Some(code) => match code {
            Some(c) => if c == 0 {
                Some(0)
            } else {
                Some(1)
            },
            None => Some(1),
        },
    }
}

/// `EXIT` ends the worker from every state, and `Exited` is terminal:
/// no command leaves it.
pub proof fn lemma_exit_always_reachable(p: ScriptPhase, a: WorkerAction)
    ensures
        spec_script_step(p, WorkerAction::EXIT) is Exited,
        p is Exited ==> spec_script_step(p, a) is Exited,
{
}

// ---------------------------------------------------------------------
// The worker handle.
// ---------------------------------------------------------------------

/// The supervisor's handle on a script worker: the status channel, the
/// command channel and the exit flag.  The embedding program spawns
/// the worker thread and fills all three.
pub struct ScriptWorker {
    pub receiver: std::sync::mpsc::Receiver<usize>,
    pub sender: std::sync::mpsc::SyncSender<WorkerAction>,
    pub exited: std::sync::Arc<std::sync::atomic::AtomicBool>,
}

/// Relies on `std::sync::mpsc::SyncSender::send`: queues one command
/// for the worker thread; a send to a worker that is gone is dropped.
#[verifier::external_body]
fn send_worker_action(tx: &std::sync::mpsc::SyncSender<WorkerAction>, action: WorkerAction) {
    let _ = tx.send(action);
}

/// Relies on `std::sync::mpsc::Receiver::try_recv`: one queued status,
/// or nothing.  What arrives depends on the worker thread, so nothing
/// is promised of it.
#[verifier::external_body]
fn try_recv_status(rx: &std::sync::mpsc::Receiver<usize>) -> (r: Option<usize>) {
    rx.try_recv().ok()
}

impl ScriptWorker {
    /// Ask the worker to fall idle.
    pub fn stop(&self) {
        send_worker_action(&self.sender, WorkerAction::STOP);
    }

    /// Ask the worker to tick.
    pub fn start(&self) {
        send_worker_action(&self.sender, WorkerAction::START);
    }

    /// Ask the worker thread to end.
    pub fn close(&self) {
        send_worker_action(&self.sender, WorkerAction::EXIT);
    }

    /// Drain the queued statuses, in production order.  The channel
    /// is bounded, so one drain reads at most its capacity.
    pub fn get_status(&self) -> (r: Vec<usize>)
        ensures
            r@.len() <= 255,
    {
        let mut out: Vec<usize> = Vec::new();
        let mut budget: usize = 255;
        while budget > 0
            invariant
                budget <= 255,
                out@.len() + budget == 255,
            decreases budget,
        {
            match try_recv_status(&self.receiver) {
                Some(status) => {
                    out.push(status);
                },
                None => {
                    return out;
                },
            }
            budget = budget - 1;
        }
        out
    }
}

} // verus!
