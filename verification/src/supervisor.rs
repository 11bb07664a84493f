//! The supervisor loop's decisions.
//!
//! Every half second the embedding program gathers what happened —
//! probe statuses, signals, the child's observable state — and hands
//! it to [`supervisor_tick`], which returns the new counters and the
//! ordered actions to perform: stop or start probes, restart or end
//! the worker, run the started callback, or leave the loop.

use vstd::prelude::*;

use crate::config::prop::RestartPolicy;
use crate::worker::binary_worker::CallbackAction;

verus! {

/// Signal numbers the supervisor reacts to.
pub const SIG_HUP: i32 = 1;

pub const SIG_INT: i32 = 2;

pub const SIG_TERM: i32 = 15;

/// The supervisor's counters: consecutive startup successes (`-1` once
/// the started callback has run) and consecutive health failures.
#[derive(PartialEq, Eq, Structural, Clone, Copy, Debug)]
pub struct SupervisorState {
    pub started_success: i32,
    pub health_fail: u32,
}

/// What the polled signals ask for.
#[derive(PartialEq, Eq, Structural, Clone, Copy, Debug)]
pub enum SignalDecision {
    /// SIGINT or SIGTERM: leave the loop and shut down.
    Shutdown,
    /// SIGHUP: restart the child.
    RestartChild,
    /// Nothing to do.
    NoSignal,
}

/// What the restart policy asks for after a child exit.
#[derive(PartialEq, Eq, Structural, Clone, Copy, Debug)]
pub enum PolicyDecision {
    /// End the worker and leave the loop.
    ExitSupervisor,
    /// Spawn the child again.
    RestartChild,
}

/// One action the embedding program must perform, in order.
#[derive(PartialEq, Eq, Structural, Clone, Copy, Debug)]
pub enum SupervisorAction {
    StopHealthProbe,
    StopStartedProbe,
    StartProbes,
    RestartWorker,
    ExitWorker,
    RunStartedCallback,
    BreakLoop,
}

/// The static facts the tick needs about the configuration.
#[derive(PartialEq, Eq, Structural, Clone, Copy, Debug)]
pub struct TickConfig {
    pub has_health: bool,
    pub has_started: bool,
    pub health_failures: u16,
    pub started_needed: u16,
    pub policy: RestartPolicy,
}

/// What one loop iteration observed.
pub struct TickInput {
    pub health_statuses: Vec<usize>,
    pub started_statuses: Vec<usize>,
    pub signals: Vec<i32>,
    pub child_state: Option<CallbackAction>,
}

// ---------------------------------------------------------------------
// The health counter.
// ---------------------------------------------------------------------

/// One health status folded into the failure counter: a success resets
/// it, a failure raises it by one.
pub open spec fn spec_health_step(h: int, status: usize) -> int {
    if status == 0 {
        0
    } else {
        h + 1
    }
}

/// A batch of health statuses folded in production order.
pub open spec fn spec_health_fold(h: int, statuses: Seq<usize>) -> int
    decreases statuses.len(),
{
    if statuses.len() == 0 {
        h
    } else {
        spec_health_fold(spec_health_step(h, statuses[0]), statuses.skip(1))
    }
}

/// The folded counter never exceeds the start plus the batch length.
pub proof fn lemma_health_fold_bounds(h: int, statuses: Seq<usize>)
    requires
        h >= 0,
    ensures
        0 <= spec_health_fold(h, statuses) <= h + statuses.len(),
    decreases statuses.len(),
{
    if statuses.len() > 0 {
        lemma_health_fold_bounds(spec_health_step(h, statuses[0]), statuses.skip(1));
    }
}

/// Drain a batch of health statuses into the failure counter.
pub fn health_drain(health_fail: u32, statuses: &Vec<usize>) -> (r: u32)
    requires
        health_fail + statuses@.len() <= u32::MAX,
    ensures
        r == spec_health_fold(health_fail as int, statuses@),
{
    proof {
        lemma_health_fold_bounds(health_fail as int, statuses@);
    }
    let n = statuses.len();
    let mut h = health_fail;
    let mut i: usize = 0;
    proof {
        assert(statuses@.skip(0) =~= statuses@);
    }
    while i < n
        invariant
            n == statuses@.len(),
            i <= n,
            health_fail + n <= u32::MAX,
            h <= health_fail + i,
            spec_health_fold(health_fail as int, statuses@) == spec_health_fold(
                h as int,
                statuses@.skip(i as int),
            ),
        decreases n - i,
    {
        proof {
            assert(statuses@.skip(i as int)[0] == statuses@[i as int]);
            assert(statuses@.skip(i as int).skip(1) =~= statuses@.skip(i + 1 as int));
        }
        if statuses[i] == 0 {
            h = 0;
        } else {
            h = h + 1;
        }
        i = i + 1;
    }
    proof {
        assert(statuses@.skip(i as int) =~= Seq::<usize>::empty());
    }
    h
}

/// The failure counter is reset to zero by a success, and only by a
/// success: after folding one status the counter is zero exactly when
/// that status was zero.
pub proof fn lemma_health_reset_only_by_success(h: int, status: usize)
    requires
        h >= 0,
    ensures
        spec_health_step(h, status) == 0 <==> status == 0,
{
}

// ---------------------------------------------------------------------
// The startup counter.
// ---------------------------------------------------------------------

/// One startup status folded into the success counter: a success
/// raises it by one, a failure resets it.
pub open spec fn spec_started_step(v: int, status: usize) -> int {
    if status == 0 {
        v + 1
    } else {
        0
    }
}

/// A batch of startup statuses folded in production order.
pub open spec fn spec_started_fold(v: int, statuses: Seq<usize>) -> int
    decreases statuses.len(),
{
    if statuses.len() == 0 {
        v
    } else {
        spec_started_fold(spec_started_step(v, statuses[0]), statuses.skip(1))
    }
}

pub proof fn lemma_started_fold_bounds(v: int, statuses: Seq<usize>)
    requires
        v >= 0,
    ensures
        0 <= spec_started_fold(v, statuses) <= v + statuses.len(),
    decreases statuses.len(),
{
    if statuses.len() > 0 {
        lemma_started_fold_bounds(spec_started_step(v, statuses[0]), statuses.skip(1));
    }
}

/// Drain a batch of startup statuses into the success counter.  The
/// sentinel `-1` is left alone: once the callback has run, further
/// statuses change nothing.
pub fn started_drain(started_success: i32, statuses: &Vec<usize>) -> (r: i32)
    requires
        started_success >= -1,
        started_success + statuses@.len() <= i32::MAX,
    ensures
        started_success == -1 ==> r == -1,
        started_success >= 0 ==> r == spec_started_fold(started_success as int, statuses@),
{
    if started_success == -1 {
        return -1;
    }
    proof {
        lemma_started_fold_bounds(started_success as int, statuses@);
    }
    let n = statuses.len();
    let mut v = started_success;
    let mut i: usize = 0;
    proof {
        assert(statuses@.skip(0) =~= statuses@);
    }
    while i < n
        invariant
            n == statuses@.len(),
            i <= n,
            started_success >= 0,
            started_success + n <= i32::MAX,
            0 <= v <= started_success + i,
            spec_started_fold(started_success as int, statuses@) == spec_started_fold(
                v as int,
                statuses@.skip(i as int),
            ),
        decreases n - i,
    {
        proof {
            assert(statuses@.skip(i as int)[0] == statuses@[i as int]);
            assert(statuses@.skip(i as int).skip(1) =~= statuses@.skip(i + 1 as int));
        }
        if statuses[i] == 0 {
            v = v + 1;
        } else {
            v = 0;
        }
        i = i + 1;
    }
    proof {
        assert(statuses@.skip(i as int) =~= Seq::<usize>::empty());
    }
    v
}

// ---------------------------------------------------------------------
// Signals and policy.
// ---------------------------------------------------------------------

/// What a batch of polled signals asks for: shutdown wins over a
/// restart.
pub open spec fn spec_signal_decision(signals: Seq<i32>) -> SignalDecision {
    if signals.contains(SIG_INT) || signals.contains(SIG_TERM) {
        SignalDecision::Shutdown
    } else if signals.contains(SIG_HUP) {
        SignalDecision::RestartChild
    } else {
        SignalDecision::NoSignal
    }
}

/// Decide on the signals polled this tick.
pub fn signal_decision(signals: &Vec<i32>) -> (r: SignalDecision)
    ensures
        r == spec_signal_decision(signals@),
{
    let n = signals.len();
    let mut saw_hup = false;
    let mut i: usize = 0;
    while i < n
        invariant
            n == signals@.len(),
            i <= n,
            forall|k: int| 0 <= k < i ==> signals@[k] != SIG_INT && signals@[k] != SIG_TERM,
            saw_hup <==> exists|k: int| 0 <= k < i && signals@[k] == SIG_HUP,
        decreases n - i,
    {
        let s = signals[i];
        if s == SIG_INT || s == SIG_TERM {
            proof {
                assert(signals@.contains(signals@[i as int]));
            }
            return SignalDecision::Shutdown;
        }
        if s == SIG_HUP {
            saw_hup = true;
        }
        i = i + 1;
    }
    proof {
        if signals@.contains(SIG_INT) {
            let k = choose|k: int| 0 <= k < signals@.len() && signals@[k] == SIG_INT;
            assert(false);
        }
        if signals@.contains(SIG_TERM) {
            let k = choose|k: int| 0 <= k < signals@.len() && signals@[k] == SIG_TERM;
            assert(false);
        }
        if saw_hup {
            let k = choose|k: int| 0 <= k < signals@.len() && signals@[k] == SIG_HUP;
            assert(signals@.contains(SIG_HUP));
        }
        if signals@.contains(SIG_HUP) {
            let k = choose|k: int| 0 <= k < signals@.len() && signals@[k] == SIG_HUP;
        }
    }
    if saw_hup {
        SignalDecision::RestartChild
    } else {
        SignalDecision::NoSignal
    }
}

/// What the restart policy asks for after an exit with `code`: stop
/// when the policy never restarts, or when a clean exit meets the
/// fail-only policy; spawn again otherwise.
pub open spec fn spec_policy_decision(policy: RestartPolicy, code: i32) -> PolicyDecision {
    if policy is NONE || (code == 0 && policy is FAIL) {
        PolicyDecision::ExitSupervisor
    } else {
        PolicyDecision::RestartChild
    }
}

/// Decide what to do about a child exit.
pub fn policy_decision(policy: RestartPolicy, code: i32) -> (r: PolicyDecision)
    ensures
        r == spec_policy_decision(policy, code),
{
    if matches!(policy, RestartPolicy::NONE) {
        PolicyDecision::ExitSupervisor
    } else if code == 0 && matches!(policy, RestartPolicy::FAIL) {
        PolicyDecision::ExitSupervisor
    } else {
        PolicyDecision::RestartChild
    }
}

/// A clean exit under the fail-only policy never restarts the child.
pub proof fn lemma_fail_policy_ignores_clean_exit()
    ensures
        spec_policy_decision(RestartPolicy::FAIL, 0) == PolicyDecision::ExitSupervisor,
        forall|code: i32|
            spec_policy_decision(RestartPolicy::FAIL, code) == PolicyDecision::RestartChild
                <==> code != 0,
{
}

/// Under the always policy every exit restarts the child; in
/// particular every non-zero exit does.
pub proof fn lemma_always_policy_restarts()
    ensures
        forall|code: i32|
            spec_policy_decision(RestartPolicy::ALWAYS, code) == PolicyDecision::RestartChild,
{
}

// ---------------------------------------------------------------------
// The composed tick.
// ---------------------------------------------------------------------

/// The counters after a restart: both reset, probes started afresh.
pub open spec fn spec_reset_state() -> SupervisorState {
    SupervisorState { started_success: 0, health_fail: 0 }
}

/// The health step of one tick: drain the statuses; on reaching the
/// failure threshold stop the probe, restart the worker and re-enable
/// the checks.
pub open spec fn spec_tick_health(st: SupervisorState, cfg: TickConfig, health: Seq<usize>) -> (
    SupervisorState,
    Seq<SupervisorAction>,
) {
    if !cfg.has_health {
        (st, Seq::empty())
    } else {
        let h = spec_health_fold(st.health_fail as int, health);
        if h >= cfg.health_failures {
            (
                spec_reset_state(),
                seq![
                    SupervisorAction::StopHealthProbe,
                    SupervisorAction::RestartWorker,
                    SupervisorAction::StartProbes,
                ],
            )
        } else {
            (SupervisorState { health_fail: h as u32, ..st }, Seq::empty())
        }
    }
}

/// The startup step of one tick: while the sentinel is not set, drain
/// the statuses; on reaching the success threshold stop the probe, run
/// the started callback once and set the sentinel.
pub open spec fn spec_tick_started(st: SupervisorState, cfg: TickConfig, started: Seq<usize>) -> (
    SupervisorState,
    Seq<SupervisorAction>,
) {
    if !cfg.has_started || st.started_success == -1 {
        (st, Seq::empty())
    } else {
        let v = spec_started_fold(st.started_success as int, started);
        if v >= cfg.started_needed {
            (
                SupervisorState { started_success: -1i32, ..st },
                seq![SupervisorAction::StopStartedProbe, SupervisorAction::RunStartedCallback],
            )
        } else {
            (SupervisorState { started_success: v as i32, ..st }, Seq::empty())
        }
    }
}

/// The child step of one tick: react to an observed `EXITED` according
/// to the restart policy.
pub open spec fn spec_tick_child(
    st: SupervisorState,
    cfg: TickConfig,
    child: Option<CallbackAction>,
) -> (SupervisorState, Seq<SupervisorAction>) {
    match child {
        Some(CallbackAction::EXITED(code)) => match spec_policy_decision(cfg.policy, code) {
            PolicyDecision::ExitSupervisor => (
                st,
                seq![SupervisorAction::ExitWorker, SupervisorAction::BreakLoop],
            ),
            PolicyDecision::RestartChild => (
                spec_reset_state(),
                seq![SupervisorAction::RestartWorker, SupervisorAction::StartProbes],
            ),
        },
        _ => (st, Seq::empty()),
    }
}

/// One full supervisor iteration: health, startup, signals, then the
/// child's state.  A shutdown signal leaves the loop at once, before
/// the child step.
pub open spec fn spec_tick(
    st: SupervisorState,
    cfg: TickConfig,
    health: Seq<usize>,
    started: Seq<usize>,
    signals: Seq<i32>,
    child: Option<CallbackAction>,
) -> (SupervisorState, Seq<SupervisorAction>) {
    let (st1, a1) = spec_tick_health(st, cfg, health);
    let (st2, a2) = spec_tick_started(st1, cfg, started);
    match spec_signal_decision(signals) {
        SignalDecision::Shutdown => (st2, a1 + a2 + seq![SupervisorAction::BreakLoop]),
        SignalDecision::RestartChild => {
            let a3 = seq![SupervisorAction::RestartWorker, SupervisorAction::StartProbes];
            let (st4, a4) = spec_tick_child(spec_reset_state(), cfg, child);
            (st4, a1 + a2 + a3 + a4)
        },
        SignalDecision::NoSignal => {
            let (st4, a4) = spec_tick_child(st2, cfg, child);
            (st4, a1 + a2 + a4)
        },
    }
}

/// One full supervisor iteration.
pub fn supervisor_tick(st: SupervisorState, cfg: TickConfig, inp: &TickInput) -> (r: (
    SupervisorState,
    Vec<SupervisorAction>,
))
    requires
        st.health_fail + inp.health_statuses@.len() <= u32::MAX,
        st.started_success >= -1,
        st.started_success + inp.started_statuses@.len() <= i32::MAX,
        inp.started_statuses@.len() <= i32::MAX,
    ensures
        r.0 == spec_tick(
            st,
            cfg,
            inp.health_statuses@,
            inp.started_statuses@,
            inp.signals@,
            inp.child_state,
        ).0,
        r.1@ == spec_tick(
            st,
            cfg,
            inp.health_statuses@,
            inp.started_statuses@,
            inp.signals@,
            inp.child_state,
        ).1,
{
    let ghost g_spec = spec_tick(
        st,
        cfg,
        inp.health_statuses@,
        inp.started_statuses@,
        inp.signals@,
        inp.child_state,
    );
    let mut actions: Vec<SupervisorAction> = Vec::new();

    // health
    let st1 = if cfg.has_health {
        let h = health_drain(st.health_fail, &inp.health_statuses);
        if h >= cfg.health_failures as u32 {
            actions.push(SupervisorAction::StopHealthProbe);
            actions.push(SupervisorAction::RestartWorker);
            actions.push(SupervisorAction::StartProbes);
            SupervisorState { started_success: 0, health_fail: 0 }
        } else {
            SupervisorState { health_fail: h, ..st }
        }
    } else {
        st
    };
    let ghost spec1 = spec_tick_health(st, cfg, inp.health_statuses@);
    proof {
        assert(st1 == spec1.0);
        assert(actions@ =~= spec1.1);
        lemma_health_fold_bounds(st.health_fail as int, inp.health_statuses@);
    }

    // startup
    let st2 = if cfg.has_started && st1.started_success != -1 {
        proof {
            lemma_started_fold_bounds(st1.started_success as int, inp.started_statuses@);
        }
        let v = started_drain(st1.started_success, &inp.started_statuses);
        if v >= cfg.started_needed as i32 {
            actions.push(SupervisorAction::StopStartedProbe);
            actions.push(SupervisorAction::RunStartedCallback);
            SupervisorState { started_success: -1, ..st1 }
        } else {
            SupervisorState { started_success: v, ..st1 }
        }
    } else {
        st1
    };
    let ghost spec2 = spec_tick_started(st1, cfg, inp.started_statuses@);
    proof {
        assert(st2 == spec2.0);
        assert(actions@ =~= spec1.1 + spec2.1);
    }

    // signals
    match signal_decision(&inp.signals) {
        SignalDecision::Shutdown => {
            actions.push(SupervisorAction::BreakLoop);
            proof {
                assert(actions@ =~= g_spec.1);
            }
            return (st2, actions);
        },
        SignalDecision::RestartChild => {
            actions.push(SupervisorAction::RestartWorker);
            actions.push(SupervisorAction::StartProbes);
            let st3 = SupervisorState { started_success: 0, health_fail: 0 };
            let r = child_step(st3, cfg, &inp.child_state, actions);
            proof {
                assert(r.1@ =~= g_spec.1);
            }
            return r;
        },
        SignalDecision::NoSignal => {
            let r = child_step(st2, cfg, &inp.child_state, actions);
            proof {
                assert(r.1@ =~= g_spec.1);
            }
            return r;
        },
    }
}

/// The child step of one tick, appending its actions.
fn child_step(
    st: SupervisorState,
    cfg: TickConfig,
    child: &Option<CallbackAction>,
    actions: Vec<SupervisorAction>,
) -> (r: (SupervisorState, Vec<SupervisorAction>))
    ensures
        r.0 == spec_tick_child(st, cfg, *child).0,
        r.1@ == actions@ + spec_tick_child(st, cfg, *child).1,
{
    let ghost pre = actions@;
    let mut actions = actions;
    match child {
        Some(CallbackAction::EXITED(code)) => {
            match policy_decision(cfg.policy, *code) {
                PolicyDecision::ExitSupervisor => {
                    actions.push(SupervisorAction::ExitWorker);
                    actions.push(SupervisorAction::BreakLoop);
                    proof {
                        assert(actions@ =~= pre + spec_tick_child(st, cfg, *child).1);
                    }
                    (st, actions)
                },
                PolicyDecision::RestartChild => {
                    actions.push(SupervisorAction::RestartWorker);
                    actions.push(SupervisorAction::StartProbes);
                    proof {
                        assert(actions@ =~= pre + spec_tick_child(st, cfg, *child).1);
                    }
                    (SupervisorState { started_success: 0, health_fail: 0 }, actions)
                },
            }
        },
        _ => {
            proof {
                assert(actions@ =~= pre + spec_tick_child(st, cfg, *child).1);
            }
            (st, actions)
        },
    }
}

/// While the sentinel is set, the startup step changes nothing and
/// never runs the callback again.
pub proof fn lemma_sentinel_latched_in_started_step(
    st: SupervisorState,
    cfg: TickConfig,
    started: Seq<usize>,
)
    requires
        st.started_success == -1,
    ensures
        spec_tick_started(st, cfg, started).0 == st,
        spec_tick_started(st, cfg, started).1 == Seq::<SupervisorAction>::empty(),
{
}

/// The startup step runs the callback exactly when the threshold is
/// freshly reached, and then sets the sentinel.
pub proof fn lemma_callback_sets_sentinel(
    st: SupervisorState,
    cfg: TickConfig,
    started: Seq<usize>,
)
    ensures
        spec_tick_started(st, cfg, started).1.contains(SupervisorAction::RunStartedCallback)
            <==> (cfg.has_started && st.started_success != -1 && spec_started_fold(
            st.started_success as int,
            started,
        ) >= cfg.started_needed),
        spec_tick_started(st, cfg, started).1.contains(SupervisorAction::RunStartedCallback)
            ==> spec_tick_started(st, cfg, started).0.started_success == -1,
{
    let r = spec_tick_started(st, cfg, started);
    if cfg.has_started && st.started_success != -1 && spec_started_fold(
        st.started_success as int,
        started,
    ) >= cfg.started_needed {
        assert(r.1[1] == SupervisorAction::RunStartedCallback);
    } else {
        assert(!r.1.contains(SupervisorAction::RunStartedCallback));
    }
}

/// Once the sentinel is set, a whole tick leaves it set unless the
/// checks are re-enabled by a restart, and never runs the callback.
pub proof fn lemma_sentinel_leaves_only_by_enable(
    st: SupervisorState,
    cfg: TickConfig,
    health: Seq<usize>,
    started: Seq<usize>,
    signals: Seq<i32>,
    child: Option<CallbackAction>,
)
    requires
        st.started_success == -1,
    ensures
        ({
            let r = spec_tick(st, cfg, health, started, signals, child);
            &&& (r.0.started_success != -1 ==> r.1.contains(SupervisorAction::StartProbes))
            &&& (!r.1.contains(SupervisorAction::StartProbes) ==> r.0.started_success == -1
                && !r.1.contains(SupervisorAction::RunStartedCallback))
        }),
{
    let r = spec_tick(st, cfg, health, started, signals, child);
    let s1 = spec_tick_health(st, cfg, health);
    let s2 = spec_tick_started(s1.0, cfg, started);
    if cfg.has_health && spec_health_fold(st.health_fail as int, health) >= cfg.health_failures {
        assert(s1.1[2] == SupervisorAction::StartProbes);
        assert(r.1.contains(SupervisorAction::StartProbes)) by {
            lemma_action_in_concat_tick(st, cfg, health, started, signals, child);
        }
    } else {
        assert(s1.0.started_success == -1);
        assert(s2.0.started_success == -1);
        assert(s2.1 == Seq::<SupervisorAction>::empty());
        match spec_signal_decision(signals) {
            SignalDecision::Shutdown => {
                assert(r.0.started_success == -1);
                if r.1.contains(SupervisorAction::RunStartedCallback) {
                    lemma_concat_member(s1.1, s2.1 + seq![SupervisorAction::BreakLoop],
                    SupervisorAction::RunStartedCallback);
                }
            },
            SignalDecision::RestartChild => {
                let a3 = seq![SupervisorAction::RestartWorker, SupervisorAction::StartProbes];
                assert(r.1 =~= s1.1 + s2.1 + a3 + spec_tick_child(
                    spec_reset_state(),
                    cfg,
                    child,
                ).1);
                assert((s1.1 + s2.1 + a3 + spec_tick_child(spec_reset_state(), cfg, child).1)[
                    (s1.1.len() + s2.1.len() + 1) as int] == SupervisorAction::StartProbes);
            },
            SignalDecision::NoSignal => {
                let s4 = spec_tick_child(s2.0, cfg, child);
                assert(r.1 =~= s1.1 + s2.1 + s4.1);
                match child {
                    Some(CallbackAction::EXITED(code)) => {
                        match spec_policy_decision(cfg.policy, code) {
                            PolicyDecision::ExitSupervisor => {
                                assert(r.0.started_success == -1);
                                if r.1.contains(SupervisorAction::RunStartedCallback) {
                                    lemma_concat_member(s1.1, s2.1 + s4.1,
                                    SupervisorAction::RunStartedCallback);
                                }
                            },
                            PolicyDecision::RestartChild => {
                                assert((s1.1 + s2.1 + s4.1)[(s1.1.len() + s2.1.len() + 1) as int]
                                    == SupervisorAction::StartProbes);
                            },
                        }
                    },
                    _ => {
                        assert(r.0.started_success == -1);
                        if r.1.contains(SupervisorAction::RunStartedCallback) {
                            lemma_concat_member(s1.1, s2.1 + s4.1,
                            SupervisorAction::RunStartedCallback);
                        }
                    },
                }
            },
        }
    }
}

/// A member of a concatenation is a member of one of its halves.
proof fn lemma_concat_member(a: Seq<SupervisorAction>, b: Seq<SupervisorAction>, x: SupervisorAction)
    requires
        (a + b).contains(x),
    ensures
        a.contains(x) || b.contains(x),
{
    let i = choose|i: int| 0 <= i < (a + b).len() && (a + b)[i] == x;
    if i < a.len() {
        assert(a[i] == x);
    } else {
        assert(b[i - a.len()] == x);
    }
}

/// When the health step re-enables the checks, the full tick's action
/// list holds that `StartProbes`.
proof fn lemma_action_in_concat_tick(
    st: SupervisorState,
    cfg: TickConfig,
    health: Seq<usize>,
    started: Seq<usize>,
    signals: Seq<i32>,
    child: Option<CallbackAction>,
)
    requires
        spec_tick_health(st, cfg, health).1.contains(SupervisorAction::StartProbes),
    ensures
        spec_tick(st, cfg, health, started, signals, child).1.contains(
            SupervisorAction::StartProbes,
        ),
{
    let s1 = spec_tick_health(st, cfg, health);
    let i = choose|i: int| 0 <= i < s1.1.len() && s1.1[i] == SupervisorAction::StartProbes;
    let r = spec_tick(st, cfg, health, started, signals, child);
    let s2 = spec_tick_started(s1.0, cfg, started);
    match spec_signal_decision(signals) {
        SignalDecision::Shutdown => {
            assert(r.1 =~= s1.1 + s2.1 + seq![SupervisorAction::BreakLoop]);
            assert(r.1[i] == SupervisorAction::StartProbes);
        },
        SignalDecision::RestartChild => {
            let a3 = seq![SupervisorAction::RestartWorker, SupervisorAction::StartProbes];
            assert(r.1 =~= s1.1 + s2.1 + a3 + spec_tick_child(spec_reset_state(), cfg, child).1);
            assert(r.1[i] == SupervisorAction::StartProbes);
        },
        SignalDecision::NoSignal => {
            assert(r.1 =~= s1.1 + s2.1 + spec_tick_child(s2.0, cfg, child).1);
            assert(r.1[i] == SupervisorAction::StartProbes);
        },
    }
}

} // verus!
