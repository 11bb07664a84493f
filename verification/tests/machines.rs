use soft_supervisor::supervisor::{
    health_drain, policy_decision, signal_decision, started_drain, supervisor_tick,
    PolicyDecision, SignalDecision, SupervisorAction, SupervisorState, TickConfig, TickInput,
};
use soft_supervisor::config::prop::RestartPolicy;
use soft_supervisor::worker::binary_worker::{
    child_exit_event, wait_tick, worker_step, CallbackAction, ChildThreadAction, WaitDecision,
    WorkerEffect, WorkerEvent, WorkerMachine, WorkerPhase,
};
use soft_supervisor::worker::script_worker::{run_status, script_step, ScriptPhase, WorkerAction};

fn no_probes(policy: RestartPolicy) -> TickConfig {
    TickConfig {
        has_health: false,
        has_started: false,
        health_failures: 0,
        started_needed: 0,
        policy,
    }
}

fn quiet_input(child: Option<CallbackAction>) -> TickInput {
    TickInput {
        health_statuses: Vec::new(),
        started_statuses: Vec::new(),
        signals: Vec::new(),
        child_state: child,
    }
}

fn launch(m: WorkerMachine) -> (WorkerMachine, Vec<WorkerEffect>) {
    let (m1, mut effs) = worker_step(&m, &WorkerEvent::Command(ChildThreadAction::START), 15);
    let (m2, e2) = worker_step(&m1, &WorkerEvent::PrehookDone(true), 15);
    let (m3, e3) = worker_step(&m2, &WorkerEvent::SpawnDone(true), 15);
    effs.extend(e2);
    effs.extend(e3);
    (m3, effs)
}

#[test]
fn happy_path_policy_none_ends_the_supervisor() {
    // the child runs, exits cleanly, the policy ends the loop, and the
    // worker is destroyed before the supervisor returns
    let m0 = WorkerMachine::init();
    let (running, effs) = launch(m0);
    assert_eq!(running.phase, WorkerPhase::Running);
    assert!(effs.contains(&WorkerEffect::SpawnChild));
    let (idle, effs) = worker_step(&running, &WorkerEvent::ChildExited(0), 15);
    assert_eq!(idle.phase, WorkerPhase::Idle);
    assert!(effs.contains(&WorkerEffect::PublishStatus(CallbackAction::EXITED(0))));

    let st = SupervisorState { started_success: 0, health_fail: 0 };
    let (_, actions) = supervisor_tick(
        st,
        no_probes(RestartPolicy::NONE),
        &quiet_input(Some(CallbackAction::EXITED(0))),
    );
    assert_eq!(actions, vec![SupervisorAction::ExitWorker, SupervisorAction::BreakLoop]);

    let (done, _) = worker_step(&idle, &WorkerEvent::Command(ChildThreadAction::EXIT), 15);
    assert_eq!(done.phase, WorkerPhase::Destroyed);
}

#[test]
fn crash_loop_under_always_restarts_until_interrupted() {
    // a child that keeps exiting 2 under ALWAYS is spawned again and
    // again; SIGINT breaks the loop and the worker ends destroyed
    let cfg = no_probes(RestartPolicy::ALWAYS);
    let mut m = WorkerMachine::init();
    let mut spawns = 0;
    for _ in 0..3 {
        let (running, effs) = launch(m);
        spawns += effs.iter().filter(|e| matches!(e, WorkerEffect::SpawnChild)).count();
        assert_eq!(running.phase, WorkerPhase::Running);
        let (idle, _) = worker_step(&running, &WorkerEvent::ChildExited(2), 15);
        let st = SupervisorState { started_success: 0, health_fail: 0 };
        let (_, actions) =
            supervisor_tick(st, cfg, &quiet_input(Some(CallbackAction::EXITED(2))));
        assert!(actions.contains(&SupervisorAction::RestartWorker));
        m = idle;
    }
    assert!(spawns >= 3);
    // SIGINT wins over everything else in the same tick
    let mut input = quiet_input(Some(CallbackAction::EXITED(2)));
    input.signals = vec![2];
    let st = SupervisorState { started_success: 0, health_fail: 0 };
    let (_, actions) = supervisor_tick(st, cfg, &input);
    assert_eq!(*actions.last().unwrap(), SupervisorAction::BreakLoop);
    assert!(!actions.contains(&SupervisorAction::RestartWorker));
    let (done, _) = worker_step(&m, &WorkerEvent::Command(ChildThreadAction::EXIT), 15);
    assert_eq!(done.phase, WorkerPhase::Destroyed);
}

#[test]
fn fail_policy_ignores_clean_exit() {
    assert_eq!(policy_decision(RestartPolicy::FAIL, 0), PolicyDecision::ExitSupervisor);
    assert_eq!(policy_decision(RestartPolicy::FAIL, 3), PolicyDecision::RestartChild);
    assert_eq!(policy_decision(RestartPolicy::NONE, 3), PolicyDecision::ExitSupervisor);
    assert_eq!(policy_decision(RestartPolicy::ALWAYS, 0), PolicyDecision::RestartChild);
    assert_eq!(policy_decision(RestartPolicy::ALWAYS, 2), PolicyDecision::RestartChild);
}

#[test]
fn health_failures_trigger_a_restart_and_a_reset() {
    let cfg = TickConfig {
        has_health: true,
        has_started: false,
        health_failures: 3,
        started_needed: 0,
        policy: RestartPolicy::ALWAYS,
    };
    let st = SupervisorState { started_success: 0, health_fail: 0 };
    let mut input = quiet_input(None);
    input.health_statuses = vec![1, 1, 1];
    let (st2, actions) = supervisor_tick(st, cfg, &input);
    assert_eq!(
        actions,
        vec![
            SupervisorAction::StopHealthProbe,
            SupervisorAction::RestartWorker,
            SupervisorAction::StartProbes,
        ]
    );
    assert_eq!(st2.health_fail, 0);
    assert_eq!(st2.started_success, 0);
}

#[test]
fn health_counter_resets_on_any_success() {
    assert_eq!(health_drain(2, &vec![1, 1, 0]), 0);
    assert_eq!(health_drain(2, &vec![1, 0, 1]), 1);
    assert_eq!(health_drain(0, &vec![1, 1]), 2);
    assert_eq!(health_drain(5, &vec![]), 5);
}

#[test]
fn started_callback_runs_once_and_latches() {
    let cfg = TickConfig {
        has_health: false,
        has_started: true,
        health_failures: 0,
        started_needed: 2,
        policy: RestartPolicy::ALWAYS,
    };
    let st = SupervisorState { started_success: 0, health_fail: 0 };
    let mut input = quiet_input(None);
    input.started_statuses = vec![0, 0];
    let (st2, actions) = supervisor_tick(st, cfg, &input);
    assert!(actions.contains(&SupervisorAction::RunStartedCallback));
    assert!(actions.contains(&SupervisorAction::StopStartedProbe));
    assert_eq!(st2.started_success, -1);
    // further successes never run the callback again
    let mut input = quiet_input(None);
    input.started_statuses = vec![0, 0, 0];
    let (st3, actions) = supervisor_tick(st2, cfg, &input);
    assert!(!actions.contains(&SupervisorAction::RunStartedCallback));
    assert_eq!(st3.started_success, -1);
}

#[test]
fn started_counter_resets_on_failure() {
    assert_eq!(started_drain(1, &vec![0, 1, 0]), 1);
    assert_eq!(started_drain(0, &vec![0, 0]), 2);
    assert_eq!(started_drain(-1, &vec![0, 0]), -1);
}

#[test]
fn sighup_restarts_and_reenables_checks() {
    let cfg = no_probes(RestartPolicy::ALWAYS);
    let st = SupervisorState { started_success: -1, health_fail: 4 };
    let mut input = quiet_input(None);
    input.signals = vec![1];
    let (st2, actions) = supervisor_tick(st, cfg, &input);
    assert!(actions.contains(&SupervisorAction::RestartWorker));
    assert!(actions.contains(&SupervisorAction::StartProbes));
    assert_eq!(st2.started_success, 0);
    assert_eq!(st2.health_fail, 0);
}

#[test]
fn signal_decisions() {
    assert_eq!(signal_decision(&vec![2]), SignalDecision::Shutdown);
    assert_eq!(signal_decision(&vec![15]), SignalDecision::Shutdown);
    assert_eq!(signal_decision(&vec![1]), SignalDecision::RestartChild);
    assert_eq!(signal_decision(&vec![1, 15]), SignalDecision::Shutdown);
    assert_eq!(signal_decision(&vec![]), SignalDecision::NoSignal);
}

#[test]
fn restart_runs_posthook_then_prehook_then_spawn() {
    let (running, _) = launch(WorkerMachine::init());
    let (reaping, e1) =
        worker_step(&running, &WorkerEvent::RunCommand(ChildThreadAction::RESTART), 15);
    assert_eq!(e1[0], WorkerEffect::SendSignal(15));
    assert_eq!(e1[1], WorkerEffect::RunPostHook);
    assert_eq!(e1[2], WorkerEffect::WaitThenKill(90));
    let (prehook, e2) = worker_step(&reaping, &WorkerEvent::ReapDone, 15);
    assert_eq!(prehook.phase, WorkerPhase::Prehook);
    assert_eq!(e2.last().unwrap(), &WorkerEffect::RunPreHook);
    let (spawning, e3) = worker_step(&prehook, &WorkerEvent::PrehookDone(true), 15);
    assert_eq!(spawning.phase, WorkerPhase::Spawning);
    assert_eq!(e3, vec![WorkerEffect::SpawnChild]);
    let trace: Vec<WorkerEffect> =
        e1.into_iter().chain(e2.into_iter()).chain(e3.into_iter()).collect();
    let posts = trace.iter().filter(|e| matches!(e, WorkerEffect::RunPostHook)).count();
    let pres = trace.iter().filter(|e| matches!(e, WorkerEffect::RunPreHook)).count();
    let spawns = trace.iter().filter(|e| matches!(e, WorkerEffect::SpawnChild)).count();
    assert_eq!((posts, pres, spawns), (1, 1, 1));
}

#[test]
fn failed_prehook_aborts_the_spawn() {
    let m0 = WorkerMachine::init();
    let (m1, _) = worker_step(&m0, &WorkerEvent::Command(ChildThreadAction::START), 15);
    let (m2, effs) = worker_step(&m1, &WorkerEvent::PrehookDone(false), 15);
    assert_eq!(m2.phase, WorkerPhase::Idle);
    assert_eq!(effs, vec![WorkerEffect::PublishStatus(CallbackAction::EXITED(1))]);
}

#[test]
fn destroyed_worker_absorbs_commands() {
    let m0 = WorkerMachine::init();
    let (done, _) = worker_step(&m0, &WorkerEvent::Command(ChildThreadAction::EXIT), 15);
    assert_eq!(done.phase, WorkerPhase::Destroyed);
    let (still, effs) = worker_step(&done, &WorkerEvent::Command(ChildThreadAction::START), 15);
    assert_eq!(still, done);
    assert!(effs.is_empty());
}

#[test]
fn graceful_kill_fires_exactly_at_the_timeout() {
    // a child that ignores SIGTERM: every poll comes back empty, the
    // window sleeps through 180 half-second ticks and kills at tick 180
    for t in 0..180 {
        assert_eq!(wait_tick(t, 90, None), WaitDecision::Sleep);
    }
    assert_eq!(wait_tick(180, 90, None), WaitDecision::Kill);
    // a child that exits inside the window is reaped instead
    assert_eq!(wait_tick(17, 90, Some(3)), WaitDecision::Exited(3));
}

#[test]
fn script_worker_control_machine() {
    assert_eq!(script_step(ScriptPhase::Idle, WorkerAction::START), ScriptPhase::Running);
    assert_eq!(script_step(ScriptPhase::Running, WorkerAction::STOP), ScriptPhase::Idle);
    assert_eq!(script_step(ScriptPhase::Idle, WorkerAction::EXIT), ScriptPhase::Exited);
    assert_eq!(script_step(ScriptPhase::Running, WorkerAction::EXIT), ScriptPhase::Exited);
    assert_eq!(script_step(ScriptPhase::Exited, WorkerAction::START), ScriptPhase::Exited);
}

#[test]
fn missing_exit_code_counts_as_failure() {
    assert_eq!(child_exit_event(Some(0)), WorkerEvent::ChildExited(0));
    assert_eq!(child_exit_event(Some(7)), WorkerEvent::ChildExited(7));
    assert_eq!(child_exit_event(None), WorkerEvent::ChildExited(1));
}

#[test]
fn script_run_statuses() {
    assert_eq!(run_status(Some(Some(0))), Some(0));
    assert_eq!(run_status(Some(Some(7))), Some(1));
    assert_eq!(run_status(Some(None)), Some(1));
    assert_eq!(run_status(None), None);
}
