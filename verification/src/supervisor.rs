//! The supervisor: one runtime record per service, moved through its lifecycle
//! by what happens to the process, and the control surface on top of it.
//!
//! The supervisor performs no I/O. Each call takes in one event or request and
//! says what is to be done; the caller spawns, terminates and probes.

use crate::config::HealthKind;
use crate::graph::{
    cycle_report, cyclic, depends, first_repeat, first_unknown, ints, lemma_fault_means_unresolvable,
    naming_fault, node_names, resolvable, resolve, start_order, texts, wanted, GraphError, Node,
    ServiceGraph,
};
use crate::health::{probe_ok, step, HealthMonitor, HealthState, ProbeOutcome};
use crate::logs::{HubModel, LogHub};
use vstd::prelude::*;

pub mod ipc;

verus! {

/// Where a service stands in its lifecycle.
#[derive(Clone, Copy, Debug, PartialEq, Eq, Structural)]
pub enum ServiceStatus {
    /// Waiting for its dependencies.
    Pending,
    /// A dependency failed for good: the service will not be started.
    Blocked,
    /// The process is being spawned.
    Starting,
    /// The process runs; no health verdict.
    Running,
    /// The process runs and its probes succeed.
    Healthy,
    /// The process runs and its probes have failed too often.
    Unhealthy,
    /// On its way back to `Starting`.
    Restarting,
    /// Termination was requested.
    Stopping,
    Stopped,
    /// The process could not be spawned, or it exited unexpectedly and the
    /// restarts are used up.
    Failed,
}

/// How a process ended.
#[derive(Clone, Copy, Debug, PartialEq, Eq, Structural)]
pub enum ExitOutcome {
    Code(i32),
    Signal(i32),
}

/// What the supervisor is told of a service before it starts anything.
pub struct ServicePlan {
    pub name: String,
    pub depends_on: Vec<String>,
    /// The declared port; 0 where the port is assigned at start.
    pub port: u16,
    /// The kind of health probe, where the service has one.
    pub probe: Option<HealthKind>,
    /// Failed probes in a row that make the service unhealthy.
    pub retries: u32,
    /// Whether a change of a watched file restarts the service.
    pub restart_on_change: bool,
}

/// The part of a plan that stays as it is while the service runs.
#[derive(Clone, Copy, Debug)]
pub struct ServiceSettings {
    pub probe: Option<HealthKind>,
    pub restart_on_change: bool,
}

/// The runtime record of one service.
#[derive(Clone, Copy, Debug)]
pub struct ServiceRuntimeState {
    pub status: ServiceStatus,
    /// The process, while there is one.
    pub pid: Option<u32>,
    /// Whether the process is being spawned.
    pub spawning: bool,
    pub port: u16,
    pub restarts: u32,
    pub last_exit: Option<ExitOutcome>,
    pub monitor: HealthMonitor,
}

/// One line of the status snapshot.
pub struct StatusRow {
    pub name: String,
    pub status: ServiceStatus,
    pub pid: Option<u32>,
    pub port: u16,
    pub restarts: u32,
    /// How the last process of the service ended, where one has ended.
    pub last_exit: Option<ExitOutcome>,
}

/// What a status row holds.
pub struct StatusLine {
    pub name: Seq<char>,
    pub status: ServiceStatus,
    pub pid: Option<u32>,
    pub port: u16,
    pub restarts: u32,
    pub last_exit: Option<ExitOutcome>,
}

impl View for StatusRow {
    type V = StatusLine;

    open spec fn view(&self) -> StatusLine {
        StatusLine {
            name: self.name@,
            status: self.status,
            pid: self.pid,
            port: self.port,
            restarts: self.restarts,
            last_exit: self.last_exit,
        }
    }
}

/// The service that a request names does not exist or is disabled.
pub struct NotFoundError {
    pub service: String,
}

/// What is to be done after an exit was taken in.
#[derive(Clone, Copy, Debug, PartialEq, Eq, Structural)]
pub enum ExitDecision {
    /// The exit was asked for; the service is stopped.
    Stopped,
    /// The service is to be started again.
    Respawn,
    /// The restarts are used up; the service stays failed.
    GaveUp,
    /// No process of this service was known.
    Ignored,
}

/// What is to be done with a process that was spawned.
#[derive(Clone, Copy, Debug, PartialEq, Eq, Structural)]
pub enum SpawnDecision {
    /// The service runs; the process is kept.
    Run,
    /// The service is no longer to run, or did not ask for a process: the
    /// process is to be terminated.
    Terminate,
}

/// What is to be done after a stop was asked for.
#[derive(Clone, Copy, Debug, PartialEq, Eq, Structural)]
pub enum StopOutcome {
    /// No such service.
    NotFound,
    /// The service has no process; nothing is to be done.
    Nothing,
    /// The process is to be terminated.
    Terminate,
}

/// What is to be done after a restart was asked for.
#[derive(Clone, Copy, Debug, PartialEq, Eq, Structural)]
pub enum RestartPlan {
    /// Terminate the process; the service starts again once it has exited.
    StopFirst,
    /// The process is being spawned; it is terminated once it is there, and
    /// the service starts again after that.
    Wait,
    /// There is no process; the service starts with the next round.
    StartNow,
}

/// The process of the service runs.
pub open spec fn is_alive(status: ServiceStatus) -> bool {
    status == ServiceStatus::Running || status == ServiceStatus::Healthy || status
        == ServiceStatus::Unhealthy
}

/// The service holds a process, or one is being spawned for it.
pub open spec fn owns_process(state: ServiceRuntimeState) -> bool {
    state.pid is Some || state.spawning
}

/// The service will not run again unless asked to.
pub open spec fn is_dead(status: ServiceStatus) -> bool {
    status == ServiceStatus::Failed || status == ServiceStatus::Blocked
}

/// The record agrees with itself. A service never has a process and a spawn
/// in flight at once. One that starts has a spawn in flight, one that runs
/// has a process, one that is stopping has one of the two, and one that is
/// pending, blocked, stopped or failed has neither.
pub open spec fn coherent(state: ServiceRuntimeState) -> bool {
    &&& !(state.spawning && state.pid is Some)
    &&& state.status == ServiceStatus::Starting ==> state.spawning
    &&& is_alive(state.status) ==> state.pid is Some
    &&& state.status == ServiceStatus::Stopping ==> owns_process(state)
    &&& (state.status == ServiceStatus::Pending || state.status == ServiceStatus::Blocked
        || state.status == ServiceStatus::Stopped || state.status == ServiceStatus::Failed)
        ==> !owns_process(state)
}

/// Whether those that depend on the service may start: it runs, and where it
/// has a health probe, it is healthy.
pub open spec fn is_ready(settings: ServiceSettings, state: ServiceRuntimeState) -> bool {
    if settings.probe is Some {
        state.status == ServiceStatus::Healthy
    } else {
        is_alive(state.status)
    }
}

/// The service waits to be started: it is pending or on its way back, and
/// it neither has a process nor waits for one.
pub open spec fn awaits_start(state: ServiceRuntimeState) -> bool {
    (state.status == ServiceStatus::Pending || state.status == ServiceStatus::Restarting)
        && !owns_process(state)
}

/// Every dependency of service `i` is ready.
pub open spec fn dependencies_ready(
    g: Seq<Seq<int>>,
    settings: Seq<ServiceSettings>,
    states: Seq<ServiceRuntimeState>,
    i: int,
) -> bool {
    forall|k: int| 0 <= k < g[i].len() ==> is_ready(settings[g[i][k]], #[trigger] states[g[i][k]])
}

/// Some dependency of service `i` will not run again.
pub open spec fn dependency_dead(g: Seq<Seq<int>>, states: Seq<ServiceRuntimeState>, i: int) -> bool {
    exists|k: int| 0 <= k < g[i].len() && is_dead((#[trigger] states[g[i][k]]).status)
}

/// The record of a service that has not been started.
pub open spec fn initial_state(port: u16, retries: u32) -> ServiceRuntimeState {
    ServiceRuntimeState {
        status: ServiceStatus::Pending,
        pid: None,
        spawning: false,
        port,
        restarts: 0,
        last_exit: None,
        monitor: HealthMonitor { state: HealthState::Unknown, failures: 0, retries },
    }
}

/// The record with another status.
pub open spec fn with_status(state: ServiceRuntimeState, status: ServiceStatus) -> ServiceRuntimeState {
    ServiceRuntimeState { status, ..state }
}

/// The monitor once it has stopped watching.
pub open spec fn monitor_off(m: HealthMonitor) -> HealthMonitor {
    HealthMonitor { state: HealthState::Unknown, failures: 0, retries: m.retries }
}

/// The monitor once it has begun to watch.
pub open spec fn monitor_on(m: HealthMonitor) -> HealthMonitor {
    HealthMonitor { state: HealthState::Probing, failures: 0, retries: m.retries }
}

/// The record after a start round: a waiting service with all dependencies
/// ready enters `Starting`, and a process is spawned for it; a pending one
/// with a dead dependency is blocked.
pub open spec fn after_round(
    g: Seq<Seq<int>>,
    settings: Seq<ServiceSettings>,
    states: Seq<ServiceRuntimeState>,
    i: int,
) -> ServiceRuntimeState {
    if awaits_start(states[i]) && dependencies_ready(g, settings, states, i) {
        ServiceRuntimeState { status: ServiceStatus::Starting, spawning: true, ..states[i] }
    } else if states[i].status == ServiceStatus::Pending && dependency_dead(g, states, i) {
        with_status(states[i], ServiceStatus::Blocked)
    } else {
        states[i]
    }
}

/// What is to be done with a process that was spawned for a service in this
/// state: it is kept where the service is starting, and terminated where the
/// service was meanwhile asked to stop or to restart, or asked for none.
pub open spec fn spawn_decision(state: ServiceRuntimeState) -> SpawnDecision {
    if state.spawning && state.status == ServiceStatus::Starting {
        SpawnDecision::Run
    } else {
        SpawnDecision::Terminate
    }
}

/// The record after a process was spawned. A process that the service did
/// not wait for is not taken in. A starting service runs, under the port it
/// was given where it had declared none, and monitoring begins where it has
/// a probe. Any other service takes the process in as it is.
pub open spec fn after_spawn(
    settings: ServiceSettings,
    state: ServiceRuntimeState,
    pid: u32,
    port: u16,
) -> ServiceRuntimeState {
    if !state.spawning {
        state
    } else if state.status == ServiceStatus::Starting {
        ServiceRuntimeState {
            status: ServiceStatus::Running,
            pid: Some(pid),
            spawning: false,
            port: if state.port == 0 {
                port
            } else {
                state.port
            },
            restarts: state.restarts,
            last_exit: state.last_exit,
            monitor: if settings.probe is Some {
                monitor_on(state.monitor)
            } else {
                state.monitor
            },
        }
    } else {
        ServiceRuntimeState { pid: Some(pid), spawning: false, ..state }
    }
}

/// The record after the spawn failed. A service that was asked to stop
/// meanwhile is stopped; any other has failed.
pub open spec fn after_spawn_failure(state: ServiceRuntimeState) -> ServiceRuntimeState {
    if !state.spawning {
        state
    } else {
        ServiceRuntimeState {
            status: if state.status == ServiceStatus::Stopping {
                ServiceStatus::Stopped
            } else {
                ServiceStatus::Failed
            },
            pid: None,
            spawning: false,
            port: state.port,
            restarts: state.restarts,
            last_exit: state.last_exit,
            monitor: monitor_off(state.monitor),
        }
    }
}

/// The count of restarts after one more.
pub open spec fn one_more_restart(restarts: u32) -> u32 {
    if restarts < u32::MAX {
        (restarts + 1) as u32
    } else {
        restarts
    }
}

/// What an exit leads to, by the state in which it finds the service.
pub open spec fn exit_decision(state: ServiceRuntimeState, max_restarts: u32) -> ExitDecision {
    if state.pid is None {
        ExitDecision::Ignored
    } else if state.status == ServiceStatus::Stopping {
        ExitDecision::Stopped
    } else if state.status == ServiceStatus::Restarting {
        ExitDecision::Respawn
    } else if state.restarts < max_restarts {
        ExitDecision::Respawn
    } else {
        ExitDecision::GaveUp
    }
}

/// The record after the process exited. An exit that was asked for stops the
/// service. One in the course of a restart leaves it waiting for its start. An
/// unexpected one is counted against the restarts that are left: the service
/// starts again, or has failed for good. The exit is recorded and monitoring
/// stops. An exit of a service without a process changes nothing.
pub open spec fn after_exit(
    state: ServiceRuntimeState,
    outcome: ExitOutcome,
    max_restarts: u32,
) -> ServiceRuntimeState {
    match exit_decision(state, max_restarts) {
        ExitDecision::Ignored => state,
        decision => ServiceRuntimeState {
            status: match decision {
                ExitDecision::Stopped => ServiceStatus::Stopped,
                ExitDecision::GaveUp => ServiceStatus::Failed,
                _ => ServiceStatus::Restarting,
            },
            pid: None,
            spawning: false,
            port: state.port,
            restarts: if state.status != ServiceStatus::Restarting && decision
                == ExitDecision::Respawn {
                one_more_restart(state.restarts)
            } else {
                state.restarts
            },
            last_exit: Some(outcome),
            monitor: monitor_off(state.monitor),
        },
    }
}

/// The status that goes with a verdict of the monitor.
pub open spec fn status_of_health(m: HealthMonitor, status: ServiceStatus) -> ServiceStatus {
    match m.state {
        HealthState::Healthy => ServiceStatus::Healthy,
        HealthState::Unhealthy => ServiceStatus::Unhealthy,
        _ => status,
    }
}

/// The record after a probe. Only a running service with a probe is
/// monitored: for any other the outcome is dropped.
pub open spec fn after_probe(
    settings: ServiceSettings,
    state: ServiceRuntimeState,
    outcome: ProbeOutcome,
) -> ServiceRuntimeState {
    match settings.probe {
        Some(kind) if is_alive(state.status) => {
            let monitor = step(state.monitor, probe_ok(kind, outcome));
            ServiceRuntimeState {
                status: status_of_health(monitor, state.status),
                monitor,
                ..state
            }
        },
        _ => state,
    }
}

/// The record after a stop was asked for: a service with a process, or with
/// one on its way, is stopping and no longer monitored; one that only waited
/// is stopped; one that is stopped or failed stays as it is.
pub open spec fn after_stop(state: ServiceRuntimeState) -> ServiceRuntimeState {
    if owns_process(state) {
        ServiceRuntimeState {
            status: ServiceStatus::Stopping,
            monitor: monitor_off(state.monitor),
            ..state
        }
    } else if state.status == ServiceStatus::Pending || state.status == ServiceStatus::Blocked
        || state.status == ServiceStatus::Restarting {
        with_status(state, ServiceStatus::Stopped)
    } else {
        state
    }
}

/// The service holds a process that was asked to end.
pub open spec fn ends_soon(state: ServiceRuntimeState) -> bool {
    state.status == ServiceStatus::Stopping && state.pid is Some
}

/// The records after the exits were taken in, first to last; each exit
/// names its service.
pub open spec fn after_exits(
    states: Seq<ServiceRuntimeState>,
    exits: Seq<(int, ExitOutcome)>,
    max_restarts: u32,
) -> Seq<ServiceRuntimeState>
    decreases exits.len(),
{
    if exits.len() == 0 {
        states
    } else {
        let before = after_exits(states, exits.drop_last(), max_restarts);
        let i = exits.last().0;
        before.update(i, after_exit(before[i], exits.last().1, max_restarts))
    }
}

/// The exits as they are reasoned about: the service by its index.
pub open spec fn exit_models(exits: Seq<(usize, ExitOutcome)>) -> Seq<(int, ExitOutcome)> {
    Seq::new(exits.len(), |a: int| (exits[a].0 as int, exits[a].1))
}

/// Once the exits of services that were asked to stop are taken in, each of
/// these services is stopped, and no other record has changed.
pub proof fn law_exits_stop_the_listed(
    states: Seq<ServiceRuntimeState>,
    exits: Seq<(int, ExitOutcome)>,
    max_restarts: u32,
)
    requires
        forall|a: int|
            0 <= a < exits.len() ==> 0 <= (#[trigger] exits[a]).0 < states.len() && ends_soon(
                states[exits[a].0],
            ),
    ensures
        after_exits(states, exits, max_restarts).len() == states.len(),
        forall|a: int|
            0 <= a < exits.len() ==> after_exits(states, exits, max_restarts)[(
            #[trigger] exits[a]).0].status == ServiceStatus::Stopped && after_exits(
                states,
                exits,
                max_restarts,
            )[exits[a].0].pid is None,
        forall|i: int|
            0 <= i < states.len() && (forall|a: int|
                0 <= a < exits.len() ==> (#[trigger] exits[a]).0 != i) ==> after_exits(
                states,
                exits,
                max_restarts,
            )[i] == states[i],
    decreases exits.len(),
{
    if exits.len() > 0 {
        let front = exits.drop_last();
        assert forall|a: int| 0 <= a < front.len() implies 0 <= (#[trigger] front[a]).0
            < states.len() && ends_soon(states[front[a].0]) by {
            assert(front[a] == exits[a]);
        }
        law_exits_stop_the_listed(states, front, max_restarts);
        let before = after_exits(states, front, max_restarts);
        let out = after_exits(states, exits, max_restarts);
        let last = exits.last().0;
        assert(exits[exits.len() - 1].0 == last);
        if forall|a: int| 0 <= a < front.len() ==> (#[trigger] front[a]).0 != last {
            assert(before[last] == states[last]);
        } else {
            let a = choose|a: int| 0 <= a < front.len() && (#[trigger] front[a]).0 == last;
            assert(before[front[a].0].status == ServiceStatus::Stopped);
        }
        assert(out[last].status == ServiceStatus::Stopped && out[last].pid is None);
        assert forall|a: int| 0 <= a < exits.len() implies out[(#[trigger] exits[a]).0].status
            == ServiceStatus::Stopped && out[exits[a].0].pid is None by {
            if a < front.len() && exits[a].0 != last {
                assert(front[a] == exits[a]);
                assert(before[front[a].0].status == ServiceStatus::Stopped);
            }
        }
        assert forall|i: int|
            0 <= i < states.len() && (forall|a: int|
                0 <= a < exits.len() ==> (#[trigger] exits[a]).0 != i) implies out[i]
            == states[i] by {
            assert(exits[exits.len() - 1].0 != i);
            assert forall|a: int| 0 <= a < front.len() implies (#[trigger] front[a]).0 != i by {
                assert(front[a] == exits[a]);
            }
        }
    }
}

/// What is to be done for a stop that finds the service in this state: its
/// process is terminated, unless that was asked for before. A process that
/// is still being spawned is terminated once it is there.
pub open spec fn stop_outcome(state: ServiceRuntimeState) -> StopOutcome {
    if state.pid is Some && state.status != ServiceStatus::Stopping {
        StopOutcome::Terminate
    } else {
        StopOutcome::Nothing
    }
}

/// The record after a restart was asked for. The restart is counted. A
/// service with a process waits for its exit; any other waits for the next
/// start round.
pub open spec fn after_restart(state: ServiceRuntimeState) -> ServiceRuntimeState {
    ServiceRuntimeState {
        status: ServiceStatus::Restarting,
        restarts: one_more_restart(state.restarts),
        monitor: monitor_off(state.monitor),
        ..state
    }
}

/// What is to be done for a restart that finds the service in this state.
pub open spec fn restart_plan(state: ServiceRuntimeState) -> RestartPlan {
    if state.pid is Some {
        RestartPlan::StopFirst
    } else if state.spawning {
        RestartPlan::Wait
    } else {
        RestartPlan::StartNow
    }
}

/// A process is spawned only for a service that has none and waits for
/// none, and a process is taken in only by a service that waited for it: no
/// service ever owns two.
pub proof fn law_one_process_per_service(
    g: Seq<Seq<int>>,
    settings: Seq<ServiceSettings>,
    states: Seq<ServiceRuntimeState>,
    i: int,
    pid: u32,
    port: u16,
)
    requires
        0 <= i < states.len(),
        i < settings.len(),
        coherent(states[i]),
    ensures
        after_round(g, settings, states, i).spawning && !states[i].spawning ==> states[i].pid
            is None,
        after_spawn(settings[i], states[i], pid, port).pid != states[i].pid ==> states[i].spawning
            && states[i].pid is None,
        coherent(after_round(g, settings, states, i)),
        coherent(after_spawn(settings[i], states[i], pid, port)),
{
}

/// A service enters `Starting` in a round only if it waited for its start
/// and all its dependencies were ready before the round; it is blocked only
/// if it was pending and one of its dependencies will not run again.
pub proof fn law_start_needs_ready_dependencies(
    g: Seq<Seq<int>>,
    settings: Seq<ServiceSettings>,
    states: Seq<ServiceRuntimeState>,
    i: int,
)
    requires
        0 <= i < states.len(),
        coherent(states[i]),
    ensures
        after_round(g, settings, states, i).status == ServiceStatus::Starting && states[i].status
            != ServiceStatus::Starting ==> awaits_start(states[i]) && dependencies_ready(
            g,
            settings,
            states,
            i,
        ),
        after_round(g, settings, states, i).status == ServiceStatus::Blocked && states[i].status
            != ServiceStatus::Blocked ==> states[i].status == ServiceStatus::Pending
            && dependency_dead(g, states, i),
        after_round(g, settings, states, i).status != states[i].status ==> after_round(
            g,
            settings,
            states,
            i,
        ).status == ServiceStatus::Starting || after_round(g, settings, states, i).status
            == ServiceStatus::Blocked,
{
}

/// Asking a service to stop a second time changes nothing and ends no
/// process.
pub proof fn law_stop_is_idempotent(state: ServiceRuntimeState)
    requires
        coherent(state),
    ensures
        after_stop(after_stop(state)) == after_stop(state),
        stop_outcome(after_stop(state)) == StopOutcome::Nothing,
{
}

/// A service that has failed for good or was stopped stays so whatever
/// exits or probes are still reported of it.
pub proof fn law_ended_service_stays(
    settings: ServiceSettings,
    state: ServiceRuntimeState,
    outcome: ExitOutcome,
    probe: ProbeOutcome,
    max_restarts: u32,
)
    requires
        coherent(state),
        state.status == ServiceStatus::Failed || state.status == ServiceStatus::Stopped,
    ensures
        after_exit(state, outcome, max_restarts) == state,
        after_probe(settings, state, probe) == state,
        after_spawn_failure(state) == state,
        after_stop(state) == state,
{
}

/// Every transition keeps the record in agreement with itself.
pub proof fn law_transitions_keep_coherence(
    settings: ServiceSettings,
    state: ServiceRuntimeState,
    outcome: ExitOutcome,
    probe: ProbeOutcome,
    max_restarts: u32,
)
    requires
        coherent(state),
    ensures
        coherent(after_spawn_failure(state)),
        coherent(after_exit(state, outcome, max_restarts)),
        coherent(after_probe(settings, state, probe)),
        coherent(after_stop(state)),
        coherent(after_restart(state)),
{
}

/// `stops` lists services of `order` from its end towards its beginning.
pub open spec fn backwards_through(order: Seq<int>, stops: Seq<int>, at: Seq<int>) -> bool {
    &&& at.len() == stops.len()
    &&& forall|k: int|
        0 <= k < stops.len() ==> 0 <= #[trigger] at[k] < order.len() && order[at[k]] == stops[k]
    &&& forall|a: int, b: int| 0 <= a < b < stops.len() ==> at[a] > at[b]
}

/// `stops` is in reverse start order.
pub open spec fn reverse_ordered(order: Seq<int>, stops: Seq<int>) -> bool {
    exists|at: Seq<int>| backwards_through(order, stops, at)
}

/// Stopping in reverse start order stops dependents first: where one listed
/// service depends on another, it stands before it.
pub proof fn law_dependents_stop_first(g: Seq<Seq<int>>, order: Seq<int>, stops: Seq<int>)
    requires
        start_order(g, order),
        reverse_ordered(order, stops),
    ensures
        forall|a: int, b: int|
            0 <= a < stops.len() && 0 <= b < stops.len() && depends(g, stops[a], stops[b]) ==> a
                < b,
{
    let at = choose|at: Seq<int>| backwards_through(order, stops, at);
    assert forall|a: int, b: int|
        0 <= a < stops.len() && 0 <= b < stops.len() && depends(g, stops[a], stops[b]) implies a
        < b by {
        assert(order[at[a]] == stops[a] && order[at[b]] == stops[b]);
        assert(depends(g, order[at[a]], order[at[b]]));
        assert(at[b] < at[a]);
        if a > b {
            assert(at[b] > at[a]);
        }
    }
}

/// The supervisor of a set of services.
pub struct Supervisor {
    pub graph: ServiceGraph,
    /// The services by index in start order.
    pub order: Vec<usize>,
    pub settings: Vec<ServiceSettings>,
    pub states: Vec<ServiceRuntimeState>,
    pub hub: LogHub,
    /// How often a service is restarted after unexpected exits.
    pub max_restarts: u32,
}

/// The nodes that the plans describe.
pub open spec fn plan_nodes(plans: Seq<ServicePlan>) -> Seq<Node> {
    Seq::new(plans.len(), |i: int| Node { name: plans[i].name, depends_on: plans[i].depends_on })
}

impl Supervisor {
    /// The graph is sound, the order is a start order of it, and there is one
    /// record per service.
    pub open spec fn wf(&self) -> bool {
        &&& self.graph.wf()
        &&& start_order(self.graph@.deps, ints(self.order@))
        &&& self.settings@.len() == self.graph@.deps.len()
        &&& self.states@.len() == self.graph@.deps.len()
        &&& forall|i: int| 0 <= i < self.states@.len() ==> coherent(#[trigger] self.states@[i])
        &&& self.hub.wf()
    }

    /// Everything but the records and the logs is the same in both.
    pub open spec fn same_setup(&self, other: &Supervisor) -> bool {
        &&& self.graph == other.graph
        &&& self.order == other.order
        &&& self.settings == other.settings
        &&& self.max_restarts == other.max_restarts
    }

    /// Only record `i` differs, and it is `state`.
    pub open spec fn changed_one(&self, before: &Supervisor, i: int, state: ServiceRuntimeState) -> bool {
        &&& self.same_setup(before)
        &&& self.hub == before.hub
        &&& self.states@ == before.states@.update(i, state)
    }

    /// A supervisor of the planned services, none of them started. Fails as
    /// the graph does: on a name used twice, a dependency on an unknown name,
    /// or a cycle.
    pub fn new(
        plans: &Vec<ServicePlan>,
        max_restarts: u32,
        log_capacity: usize,
        log_buffer: usize,
    ) -> (r: Result<Supervisor, GraphError>)
        ensures
            r is Ok <==> resolvable(plan_nodes(plans@)) && !cyclic(resolve(plan_nodes(plans@))),
            match r {
                Ok(s) => {
                    &&& s.wf()
                    &&& s.max_restarts == max_restarts
                    &&& s.graph@.names == node_names(plan_nodes(plans@))
                    &&& s.graph@.deps == resolve(plan_nodes(plans@))
                    &&& s.hub@ == (HubModel {
                        history: Seq::empty(),
                        capacity: log_capacity as nat,
                        buffer: log_buffer as nat,
                        subscribers: Seq::empty(),
                    })
                    &&& forall|i: int|
                        0 <= i < plans@.len() ==> {
                            &&& #[trigger] s.states@[i] == initial_state(
                                plans@[i].port,
                                plans@[i].retries,
                            )
                            &&& s.settings@[i].probe == plans@[i].probe
                            &&& s.settings@[i].restart_on_change == plans@[i].restart_on_change
                        }
                },
                Err(GraphError::Cycle(e)) => resolvable(plan_nodes(plans@)) && cycle_report(
                    resolve(plan_nodes(plans@)),
                    node_names(plan_nodes(plans@)),
                    texts(e.services@),
                ),
                Err(e) => naming_fault(plan_nodes(plans@), e),
            },
    {
        let n = plans.len();
        let ghost target = plan_nodes(plans@);
        let mut nodes: Vec<Node> = Vec::new();
        let mut settings: Vec<ServiceSettings> = Vec::new();
        let mut states: Vec<ServiceRuntimeState> = Vec::new();
        let mut i: usize = 0;
        while i < n
            invariant
                n == plans@.len(),
                target == plan_nodes(plans@),
                i <= n,
                nodes@.len() == i,
                settings@.len() == i,
                states@.len() == i,
                forall|a: int|
                    0 <= a < i ==> (#[trigger] nodes@[a]).name@ == target[a].name@ && texts(
                        nodes@[a].depends_on@,
                    ) == texts(target[a].depends_on@),
                forall|a: int|
                    0 <= a < i ==> {
                        &&& #[trigger] states@[a] == initial_state(plans@[a].port, plans@[a].retries)
                        &&& settings@[a].probe == plans@[a].probe
                        &&& settings@[a].restart_on_change == plans@[a].restart_on_change
                    },
            decreases n - i,
        {
            let plan = &plans[i];
            let wanted = copy_names(&plan.depends_on);
            nodes.push(Node { name: plan.name.clone(), depends_on: wanted });
            settings.push(
                ServiceSettings { probe: plan.probe, restart_on_change: plan.restart_on_change },
            );
            states.push(
                ServiceRuntimeState {
                    status: ServiceStatus::Pending,
                    pid: None,
                    spawning: false,
                    port: plan.port,
                    restarts: 0,
                    last_exit: None,
                    monitor: HealthMonitor::new(plan.retries),
                },
            );
            i += 1;
        }
        proof {
            lemma_same_texts_same_graph(nodes@, target);
        }
        match ServiceGraph::new(&nodes) {
            Err(e) => {
                proof {
                    lemma_fault_means_unresolvable(nodes@, e);
                    lemma_same_fault(nodes@, target, e);
                }
                Err(e)
            },
            Ok(graph) => match graph.order() {
                Err(c) => Err(GraphError::Cycle(c)),
                Ok(order) => {
                    let hub = LogHub::new(log_capacity, log_buffer);
                    Ok(Supervisor { graph, order, settings, states, hub, max_restarts })
                },
            },
        }
    }

    /// The number of services.
    pub fn len(&self) -> (n: usize)
        requires
            self.wf(),
        ensures
            n == self.states@.len(),
    {
        self.states.len()
    }

    /// The index of the service called `name`.
    pub fn service_id(&self, name: &str) -> (r: Option<usize>)
        requires
            self.wf(),
        ensures
            match r {
                Some(i) => 0 <= i < self.states@.len() && self.graph@.names[i as int] == name@,
                None => !self.graph@.names.contains(name@),
            },
    {
        let wanted = name.to_owned();
        self.graph.index_of(&wanted)
    }

    /// The snapshot of all services, in the order of the plans.
    pub fn status_rows(&self) -> (rows: Vec<StatusRow>)
        requires
            self.wf(),
        ensures
            rows@.len() == self.states@.len(),
            forall|i: int|
                0 <= i < rows@.len() ==> (#[trigger] rows@[i])@ == (StatusLine {
                    name: self.graph@.names[i],
                    status: self.states@[i].status,
                    pid: self.states@[i].pid,
                    port: self.states@[i].port,
                    restarts: self.states@[i].restarts,
                    last_exit: self.states@[i].last_exit,
                }),
    {
        let mut rows: Vec<StatusRow> = Vec::new();
        let n = self.states.len();
        let mut i: usize = 0;
        while i < n
            invariant
                self.wf(),
                n == self.states@.len(),
                i <= n,
                rows@.len() == i,
                forall|a: int|
                    0 <= a < i ==> (#[trigger] rows@[a])@ == (StatusLine {
                        name: self.graph@.names[a],
                        status: self.states@[a].status,
                        pid: self.states@[a].pid,
                        port: self.states@[a].port,
                        restarts: self.states@[a].restarts,
                        last_exit: self.states@[a].last_exit,
                    }),
            decreases n - i,
        {
            let state = &self.states[i];
            rows.push(
                StatusRow {
                    name: self.graph.names[i].clone(),
                    status: state.status,
                    pid: state.pid,
                    port: state.port,
                    restarts: state.restarts,
                    last_exit: state.last_exit,
                },
            );
            i += 1;
        }
        rows
    }
}

/// How a process ended, from what the system reports of it: its exit code
/// where it has one, else the signal that ended it, else the code -1.
pub fn exit_outcome(code: Option<i32>, signal: Option<i32>) -> (outcome: ExitOutcome)
    ensures
        outcome == match (code, signal) {
            (Some(c), _) => ExitOutcome::Code(c),
            (None, Some(s)) => ExitOutcome::Signal(s),
            (None, None) => ExitOutcome::Code(-1i32),
        },
{
    match code {
        Some(c) => ExitOutcome::Code(c),
        None => match signal {
            Some(s) => ExitOutcome::Signal(s),
            None => ExitOutcome::Code(-1),
        },
    }
}

/// Whether the process of a service in this status runs.
pub fn alive(status: ServiceStatus) -> (r: bool)
    ensures
        r == is_alive(status),
{
    status == ServiceStatus::Running || status == ServiceStatus::Healthy || status
        == ServiceStatus::Unhealthy
}

/// Whether a stop that finds the service in this state must end a process.
pub fn must_terminate(state: &ServiceRuntimeState) -> (r: bool)
    ensures
        r == (stop_outcome(*state) == StopOutcome::Terminate),
{
    state.pid.is_some() && state.status != ServiceStatus::Stopping
}

/// The record after a stop was asked for.
pub fn stopped_state(state: &ServiceRuntimeState) -> (r: ServiceRuntimeState)
    ensures
        r == after_stop(*state),
{
    let mut next = *state;
    if state.pid.is_some() || state.spawning {
        next.status = ServiceStatus::Stopping;
        next.monitor.stop();
    } else if state.status == ServiceStatus::Pending || state.status == ServiceStatus::Blocked
        || state.status == ServiceStatus::Restarting {
        next.status = ServiceStatus::Stopped;
    }
    next
}

impl Supervisor {
    /// Puts `state` in place of record `i`.
    fn set_state(&mut self, i: usize, state: ServiceRuntimeState)
        requires
            old(self).wf(),
            i < old(self).states@.len(),
            coherent(state),
        ensures
            final(self).wf(),
            final(self).changed_one(old(self), i as int, state),
    {
        self.states.set(i, state);
    }

    /// Whether every dependency of service `i` is ready.
    fn dependencies_are_ready(&self, i: usize) -> (r: bool)
        requires
            self.wf(),
            i < self.states@.len(),
        ensures
            r == dependencies_ready(self.graph@.deps, self.settings@, self.states@, i as int),
    {
        let row = &self.graph.deps[i];
        let ghost g = self.graph@.deps;
        let mut k: usize = 0;
        while k < row.len()
            invariant
                self.wf(),
                g == self.graph@.deps,
                i < self.states@.len(),
                row == &self.graph.deps@[i as int],
                k <= row@.len(),
                forall|b: int|
                    0 <= b < k ==> is_ready(
                        self.settings@[g[i as int][b]],
                        #[trigger] self.states@[g[i as int][b]],
                    ),
            decreases row@.len() - k,
        {
            assert(g[i as int][k as int] == row@[k as int]);
            assert(0 <= g[i as int][k as int] < g.len());
            let d = row[k];
            let ready = if self.settings[d].probe.is_some() {
                self.states[d].status == ServiceStatus::Healthy
            } else {
                alive(self.states[d].status)
            };
            if !ready {
                return false;
            }
            k += 1;
        }
        true
    }

    /// Whether some dependency of service `i` will not run again.
    fn dependency_is_dead(&self, i: usize) -> (r: bool)
        requires
            self.wf(),
            i < self.states@.len(),
        ensures
            r == dependency_dead(self.graph@.deps, self.states@, i as int),
    {
        let row = &self.graph.deps[i];
        let ghost g = self.graph@.deps;
        let mut k: usize = 0;
        while k < row.len()
            invariant
                self.wf(),
                g == self.graph@.deps,
                i < self.states@.len(),
                row == &self.graph.deps@[i as int],
                k <= row@.len(),
                forall|b: int|
                    0 <= b < k ==> !is_dead((#[trigger] self.states@[g[i as int][b]]).status),
            decreases row@.len() - k,
        {
            assert(g[i as int][k as int] == row@[k as int]);
            assert(0 <= g[i as int][k as int] < g.len());
            let status = self.states[row[k]].status;
            if status == ServiceStatus::Failed || status == ServiceStatus::Blocked {
                return true;
            }
            k += 1;
        }
        false
    }

    /// One start round. Every waiting service whose dependencies are all
    /// ready enters `Starting`; its index is returned, and the caller spawns
    /// it. Every pending service with a dependency that will not run again is
    /// blocked. All decisions are taken on the records as they were before
    /// the round, so services that do not depend on one another start
    /// together, and a service never starts in the round in which a
    /// dependency of it does.
    pub fn start_next(&mut self) -> (started: Vec<usize>)
        requires
            old(self).wf(),
        ensures
            final(self).wf(),
            final(self).same_setup(old(self)),
            final(self).hub == old(self).hub,
            final(self).states@.len() == old(self).states@.len(),
            forall|i: int|
                0 <= i < old(self).states@.len() ==> #[trigger] final(self).states@[i]
                    == after_round(
                    old(self).graph@.deps,
                    old(self).settings@,
                    old(self).states@,
                    i,
                ),
            forall|a: int, b: int| 0 <= a < b < started@.len() ==> started@[a] < started@[b],
            forall|i: int|
                0 <= i < old(self).states@.len() ==> (ints(started@).contains(i) <==> awaits_start(
                    old(self).states@[i],
                ) && dependencies_ready(
                    old(self).graph@.deps,
                    old(self).settings@,
                    old(self).states@,
                    i,
                )),
            forall|a: int| 0 <= a < started@.len() ==> #[trigger] started@[a] < old(self).states@.len(),
            forall|a: int|
                0 <= a < started@.len() ==> !owns_process(
                    old(self).states@[#[trigger] started@[a] as int],
                ),
    {
        let n = self.states.len();
        let ghost g = self.graph@.deps;
        let mut next: Vec<ServiceRuntimeState> = Vec::new();
        let mut started: Vec<usize> = Vec::new();
        let mut i: usize = 0;
        while i < n
            invariant
                self.wf(),
                *self == *old(self),
                g == self.graph@.deps,
                n == self.states@.len(),
                i <= n,
                next@.len() == i,
                forall|a: int|
                    0 <= a < i ==> #[trigger] next@[a] == after_round(
                        g,
                        self.settings@,
                        self.states@,
                        a,
                    ),
                forall|a: int| 0 <= a < i ==> coherent(#[trigger] next@[a]),
                forall|a: int| 0 <= a < started@.len() ==> #[trigger] started@[a] < i,
                forall|a: int|
                    0 <= a < started@.len() ==> !owns_process(
                        self.states@[#[trigger] started@[a] as int],
                    ),
                forall|a: int, b: int| 0 <= a < b < started@.len() ==> started@[a] < started@[b],
                forall|a: int|
                    0 <= a < i ==> (ints(started@).contains(a) <==> awaits_start(self.states@[a])
                        && dependencies_ready(g, self.settings@, self.states@, a)),
            decreases n - i,
        {
            let state = self.states[i];
            let waits = (state.status == ServiceStatus::Pending || state.status
                == ServiceStatus::Restarting) && state.pid.is_none() && !state.spawning;
            let mut after = state;
            let ghost before = ints(started@);
            if waits && self.dependencies_are_ready(i) {
                after.status = ServiceStatus::Starting;
                after.spawning = true;
                started.push(i);
                proof {
                    let now = ints(started@);
                    assert(now =~= before.push(i as int));
                    assert(now[before.len() as int] == i);
                    assert forall|a: int| 0 <= a < i implies (now.contains(a) <==> before.contains(
                        a,
                    )) by {
                        if before.contains(a) {
                            let at = choose|at: int| 0 <= at < before.len() && before[at] == a;
                            assert(now[at] == a);
                        }
                        if now.contains(a) {
                            let at = choose|at: int| 0 <= at < now.len() && now[at] == a;
                            assert(before[at] == a);
                        }
                    }
                }
            } else {
                if state.status == ServiceStatus::Pending && self.dependency_is_dead(i) {
                    after.status = ServiceStatus::Blocked;
                }
                proof {
                    if before.contains(i as int) {
                        let at = choose|at: int| 0 <= at < before.len() && before[at] == i;
                        assert(started@[at] < i);
                    }
                }
            }
            next.push(after);
            i += 1;
        }
        self.states = next;
        started
    }

    /// A process was spawned for service `i` with this process id; `port` is
    /// the port it was given where it had declared none. Says whether the
    /// process is kept or is to be terminated.
    pub fn on_spawned(&mut self, i: usize, pid: u32, port: u16) -> (decision: SpawnDecision)
        requires
            old(self).wf(),
            i < old(self).states@.len(),
        ensures
            final(self).wf(),
            decision == spawn_decision(old(self).states@[i as int]),
            final(self).changed_one(
                old(self),
                i as int,
                after_spawn(old(self).settings@[i as int], old(self).states@[i as int], pid, port),
            ),
    {
        let mut state = self.states[i];
        let decision = if state.spawning && state.status == ServiceStatus::Starting {
            SpawnDecision::Run
        } else {
            SpawnDecision::Terminate
        };
        if state.spawning {
            state.spawning = false;
            state.pid = Some(pid);
            if state.status == ServiceStatus::Starting {
                state.status = ServiceStatus::Running;
                if state.port == 0 {
                    state.port = port;
                }
                if self.settings[i].probe.is_some() {
                    state.monitor.start();
                }
            }
        }
        self.set_state(i, state);
        decision
    }

    /// The process of service `i` could not be spawned.
    pub fn on_spawn_failed(&mut self, i: usize)
        requires
            old(self).wf(),
            i < old(self).states@.len(),
        ensures
            final(self).wf(),
            final(self).changed_one(
                old(self),
                i as int,
                after_spawn_failure(old(self).states@[i as int]),
            ),
    {
        let mut state = self.states[i];
        if state.spawning {
            state.status = if state.status == ServiceStatus::Stopping {
                ServiceStatus::Stopped
            } else {
                ServiceStatus::Failed
            };
            state.spawning = false;
            state.pid = None;
            state.monitor.stop();
        }
        self.set_state(i, state);
    }

    /// The process of service `i` exited. Says whether the service is to be
    /// spawned again.
    pub fn on_exit(&mut self, i: usize, outcome: ExitOutcome) -> (decision: ExitDecision)
        requires
            old(self).wf(),
            i < old(self).states@.len(),
        ensures
            final(self).wf(),
            decision == exit_decision(old(self).states@[i as int], old(self).max_restarts),
            final(self).changed_one(
                old(self),
                i as int,
                after_exit(old(self).states@[i as int], outcome, old(self).max_restarts),
            ),
    {
        let mut state = self.states[i];
        let decision = if state.pid.is_none() {
            ExitDecision::Ignored
        } else if state.status == ServiceStatus::Stopping {
            ExitDecision::Stopped
        } else if state.status == ServiceStatus::Restarting {
            ExitDecision::Respawn
        } else if state.restarts < self.max_restarts {
            ExitDecision::Respawn
        } else {
            ExitDecision::GaveUp
        };
        match decision {
            ExitDecision::Ignored => {},
            ExitDecision::Stopped => {
                state.status = ServiceStatus::Stopped;
            },
            ExitDecision::GaveUp => {
                state.status = ServiceStatus::Failed;
            },
            ExitDecision::Respawn => {
                if state.status != ServiceStatus::Restarting && state.restarts < u32::MAX {
                    state.restarts = state.restarts + 1;
                }
                state.status = ServiceStatus::Restarting;
            },
        }
        if decision != ExitDecision::Ignored {
            state.pid = None;
            state.spawning = false;
            state.last_exit = Some(outcome);
            state.monitor.stop();
        }
        self.set_state(i, state);
        decision
    }

    /// A probe of service `i` came back. Returns the status of the service
    /// after it.
    pub fn on_probe(&mut self, i: usize, outcome: ProbeOutcome) -> (status: ServiceStatus)
        requires
            old(self).wf(),
            i < old(self).states@.len(),
        ensures
            final(self).wf(),
            status == final(self).states@[i as int].status,
            final(self).changed_one(
                old(self),
                i as int,
                after_probe(old(self).settings@[i as int], old(self).states@[i as int], outcome),
            ),
    {
        let mut state = self.states[i];
        match self.settings[i].probe {
            Some(kind) => {
                if alive(state.status) {
                    let _ = state.monitor.observe(kind, outcome);
                    if state.monitor.state == HealthState::Healthy {
                        state.status = ServiceStatus::Healthy;
                    } else if state.monitor.state == HealthState::Unhealthy {
                        state.status = ServiceStatus::Unhealthy;
                    }
                }
            },
            None => {},
        }
        self.set_state(i, state);
        state.status
    }

    /// A watched file of service `i` changed. Where the service restarts on
    /// changes and runs, it is restarted as on request, and the caller is to
    /// terminate its process.
    pub fn on_file_change(&mut self, i: usize) -> (restart: bool)
        requires
            old(self).wf(),
            i < old(self).states@.len(),
        ensures
            final(self).wf(),
            restart == (old(self).settings@[i as int].restart_on_change && is_alive(
                old(self).states@[i as int].status,
            )),
            final(self).changed_one(
                old(self),
                i as int,
                if restart {
                    after_restart(old(self).states@[i as int])
                } else {
                    old(self).states@[i as int]
                },
            ),
    {
        let state = self.states[i];
        if self.settings[i].restart_on_change && alive(state.status) {
            let _ = self.restart_at(i);
            true
        } else {
            assert(self.states@ =~= self.states@.update(i as int, state));
            false
        }
    }

    /// Restarts service `i`.
    pub fn restart_at(&mut self, i: usize) -> (plan: RestartPlan)
        requires
            old(self).wf(),
            i < old(self).states@.len(),
        ensures
            final(self).wf(),
            plan == restart_plan(old(self).states@[i as int]),
            final(self).changed_one(old(self), i as int, after_restart(old(self).states@[i as int])),
    {
        let mut state = self.states[i];
        let plan = if state.pid.is_some() {
            RestartPlan::StopFirst
        } else if state.spawning {
            RestartPlan::Wait
        } else {
            RestartPlan::StartNow
        };
        state.status = ServiceStatus::Restarting;
        if state.restarts < u32::MAX {
            state.restarts = state.restarts + 1;
        }
        state.monitor.stop();
        self.set_state(i, state);
        plan
    }

    /// Stops then starts again the service called `name`; services that
    /// depend on it are left alone. Fails where no service has this name,
    /// which is also the case of a disabled one; nothing changes then.
    pub fn restart_service(&mut self, name: &str) -> (r: Result<RestartPlan, NotFoundError>)
        requires
            old(self).wf(),
        ensures
            final(self).wf(),
            r is Ok <==> old(self).graph@.names.contains(name@),
            match r {
                Ok(plan) => exists|i: int|
                    0 <= i < old(self).states@.len() && old(self).graph@.names[i] == name@ && plan
                        == restart_plan(old(self).states@[i]) && #[trigger] final(self).changed_one(
                        old(self),
                        i,
                        after_restart(old(self).states@[i]),
                    ),
                Err(e) => e.service@ == name@ && *final(self) == *old(self),
            },
    {
        match self.service_id(name) {
            Some(i) => {
                let plan = self.restart_at(i);
                proof {
                    assert(self.graph@.names[i as int] == name@);
                }
                Ok(plan)
            },
            None => Err(NotFoundError { service: name.to_owned() }),
        }
    }

    /// Asks service `i` to stop.
    pub fn stop_at(&mut self, i: usize) -> (outcome: StopOutcome)
        requires
            old(self).wf(),
            i < old(self).states@.len(),
        ensures
            final(self).wf(),
            outcome == stop_outcome(old(self).states@[i as int]),
            final(self).changed_one(old(self), i as int, after_stop(old(self).states@[i as int])),
    {
        let state = self.states[i];
        let outcome = if must_terminate(&state) {
            StopOutcome::Terminate
        } else {
            StopOutcome::Nothing
        };
        let next = stopped_state(&state);
        self.set_state(i, next);
        outcome
    }

    /// Asks the service called `name` to stop. A service that is stopping or
    /// stopped stays as it is; an unknown name changes nothing.
    pub fn stop_service(&mut self, name: &str) -> (outcome: StopOutcome)
        requires
            old(self).wf(),
        ensures
            final(self).wf(),
            outcome == StopOutcome::NotFound <==> !old(self).graph@.names.contains(name@),
            match outcome {
                StopOutcome::NotFound => *final(self) == *old(self),
                _ => exists|i: int|
                    0 <= i < old(self).states@.len() && old(self).graph@.names[i] == name@
                        && outcome == stop_outcome(old(self).states@[i])
                        && #[trigger] final(self).changed_one(
                        old(self),
                        i,
                        after_stop(old(self).states@[i]),
                    ),
            },
    {
        match self.service_id(name) {
            Some(i) => {
                let outcome = self.stop_at(i);
                proof {
                    assert(self.graph@.names[i as int] == name@);
                }
                outcome
            },
            None => StopOutcome::NotFound,
        }
    }

    /// Asks every service to stop. Returns the services whose processes are
    /// to be terminated, in reverse start order: each one before everything
    /// it depends on.
    pub fn stop_all(&mut self) -> (stops: Vec<usize>)
        requires
            old(self).wf(),
        ensures
            final(self).wf(),
            final(self).same_setup(old(self)),
            final(self).hub == old(self).hub,
            final(self).states@.len() == old(self).states@.len(),
            forall|i: int|
                0 <= i < old(self).states@.len() ==> #[trigger] final(self).states@[i] == after_stop(
                    old(self).states@[i],
                ),
            reverse_ordered(ints(old(self).order@), ints(stops@)),
            forall|i: int|
                0 <= i < old(self).states@.len() ==> (ints(stops@).contains(i) <==> stop_outcome(
                    old(self).states@[i],
                ) == StopOutcome::Terminate),
            forall|a: int| 0 <= a < stops@.len() ==> #[trigger] stops@[a] < old(self).states@.len(),
            forall|a: int, b: int|
                0 <= a < stops@.len() && 0 <= b < stops@.len() && depends(
                    old(self).graph@.deps,
                    ints(stops@)[a],
                    ints(stops@)[b],
                ) ==> a < b,
    {
        let n = self.order.len();
        let ghost order = ints(self.order@);
        let ghost g = self.graph@.deps;
        let mut stops: Vec<usize> = Vec::new();
        let ghost mut at: Seq<int> = Seq::empty();
        let mut p: usize = n;
        while p > 0
            invariant
                self.wf(),
                *self == *old(self),
                order == ints(self.order@),
                n == order.len(),
                p <= n,
                backwards_through(order, ints(stops@), at),
                forall|k: int| 0 <= k < at.len() ==> #[trigger] at[k] >= p,
                forall|a: int| 0 <= a < stops@.len() ==> #[trigger] stops@[a] < self.states@.len(),
                forall|q: int|
                    p <= q < n ==> (stop_outcome(self.states@[#[trigger] order[q]])
                        == StopOutcome::Terminate ==> ints(stops@).contains(order[q])),
                forall|a: int|
                    0 <= a < stops@.len() ==> stop_outcome(self.states@[#[trigger] stops@[a] as int])
                        == StopOutcome::Terminate,
            decreases p,
        {
            p -= 1;
            assert(0 <= order[p as int] < n);
            let i = self.order[p];
            if must_terminate(&self.states[i]) {
                let ghost before = ints(stops@);
                let ghost at_before = at;
                stops.push(i);
                proof {
                    at = at.push(p as int);
                    let now = ints(stops@);
                    assert(now =~= before.push(i as int));
                    assert(now[before.len() as int] == order[p as int]);
                    assert forall|q: int|
                        p <= q < n && stop_outcome(self.states@[#[trigger] order[q]])
                            == StopOutcome::Terminate implies now.contains(order[q]) by {
                        if q > p {
                            let k = choose|k: int| 0 <= k < before.len() && before[k] == order[q];
                            assert(now[k] == order[q]);
                        }
                    }
                    assert forall|a: int, b: int| 0 <= a < b < now.len() implies at[a] > at[b] by {
                        if b < before.len() {
                            assert(at_before[a] > at_before[b]);
                        } else {
                            assert(at_before[a] >= p + 1);
                        }
                    }
                }
            }
        }
        proof {
            let listed = ints(stops@);
            assert forall|i: int| 0 <= i < self.states@.len() implies (listed.contains(i)
                <==> stop_outcome(self.states@[i]) == StopOutcome::Terminate) by {
                if listed.contains(i) {
                    let k = choose|k: int| 0 <= k < listed.len() && listed[k] == i;
                    assert(stops@[k] as int == i);
                }
                if stop_outcome(self.states@[i]) == StopOutcome::Terminate {
                    assert(order.contains(i));
                    let q = choose|q: int| 0 <= q < order.len() && order[q] == i;
                    assert(listed.contains(order[q]));
                }
            }
            law_dependents_stop_first(g, order, listed);
        }
        let count = self.states.len();
        let mut next: Vec<ServiceRuntimeState> = Vec::new();
        let mut i: usize = 0;
        while i < count
            invariant
                self.wf(),
                *self == *old(self),
                count == self.states@.len(),
                i <= count,
                next@.len() == i,
                forall|a: int| 0 <= a < i ==> #[trigger] next@[a] == after_stop(self.states@[a]),
                forall|a: int| 0 <= a < i ==> coherent(#[trigger] next@[a]),
            decreases count - i,
        {
            next.push(stopped_state(&self.states[i]));
            i += 1;
        }
        self.states = next;
        stops
    }

    /// Takes in the exits of several processes, first to last.
    pub fn on_exits(&mut self, exits: &Vec<(usize, ExitOutcome)>)
        requires
            old(self).wf(),
            forall|a: int| 0 <= a < exits@.len() ==> (#[trigger] exits@[a]).0 < old(self).states@.len(),
        ensures
            final(self).wf(),
            final(self).same_setup(old(self)),
            final(self).hub == old(self).hub,
            final(self).states@ == after_exits(
                old(self).states@,
                exit_models(exits@),
                old(self).max_restarts,
            ),
    {
        let ghost all = exit_models(exits@);
        let mut a: usize = 0;
        while a < exits.len()
            invariant
                self.wf(),
                self.same_setup(old(self)),
                self.hub == old(self).hub,
                all == exit_models(exits@),
                a <= exits@.len(),
                self.states@.len() == old(self).states@.len(),
                forall|b: int|
                    0 <= b < exits@.len() ==> (#[trigger] exits@[b]).0 < old(self).states@.len(),
                self.states@ == after_exits(
                    old(self).states@,
                    all.take(a as int),
                    old(self).max_restarts,
                ),
            decreases exits@.len() - a,
        {
            proof {
                assert(all.take(a + 1).drop_last() =~= all.take(a as int));
                assert(all.take(a + 1).last() == (exits@[a as int].0 as int, exits@[a as int].1));
            }
            let _ = self.on_exit(exits[a].0, exits[a].1);
            a += 1;
        }
        assert(all.take(exits@.len() as int) =~= all);
    }

    /// Whether none of the listed services is stopping any more: the exit
    /// of each was taken in, or it was meanwhile asked to run again.
    pub fn none_stopping(&self, list: &Vec<usize>) -> (r: bool)
        requires
            self.wf(),
        ensures
            r == forall|a: int|
                0 <= a < list@.len() && (#[trigger] list@[a]) < self.states@.len()
                    ==> self.states@[list@[a] as int].status != ServiceStatus::Stopping,
    {
        let mut a: usize = 0;
        while a < list.len()
            invariant
                a <= list@.len(),
                forall|b: int|
                    0 <= b < a && (#[trigger] list@[b]) < self.states@.len()
                        ==> self.states@[list@[b] as int].status != ServiceStatus::Stopping,
            decreases list@.len() - a,
        {
            let i = list[a];
            if i < self.states.len() && self.states[i].status == ServiceStatus::Stopping {
                return false;
            }
            a += 1;
        }
        true
    }

    /// Whether process `pid` is the running process of service `i`.
    pub fn runs_as(&self, i: usize, pid: u32) -> (r: bool)
        requires
            self.wf(),
        ensures
            r == (i < self.states@.len() && self.states@[i as int].pid == Some(pid) && is_alive(
                self.states@[i as int].status,
            )),
    {
        if i >= self.states.len() {
            return false;
        }
        let state = &self.states[i];
        match state.pid {
            Some(p) => p == pid && alive(state.status),
            None => false,
        }
    }

    /// Publishes a line of output of a service.
    pub fn publish_log(&mut self, service: &str, line: &str)
        requires
            old(self).wf(),
        ensures
            final(self).wf(),
            final(self).same_setup(old(self)),
            final(self).states == old(self).states,
            final(self).hub@ == crate::logs::published(
                old(self).hub@,
                crate::logs::LogLine { service: service@, line: line@ },
            ),
    {
        self.hub.publish(crate::logs::LogEntry::new(service, line));
    }

    /// Takes out a log subscription and returns its number.
    pub fn subscribe_logs(&mut self) -> (id: usize)
        requires
            old(self).wf(),
        ensures
            final(self).wf(),
            final(self).same_setup(old(self)),
            final(self).states == old(self).states,
            id == crate::logs::free_slot(old(self).hub@.subscribers),
            final(self).hub@ == crate::logs::subscribed(old(self).hub@),
    {
        self.hub.subscribe()
    }

    /// Up to `limit` of the most recent retained lines, of one service where
    /// one is named, oldest first.
    pub fn log_history(&self, service: Option<&str>, limit: usize) -> (out: Vec<
        crate::logs::LogEntry,
    >)
        requires
            self.wf(),
        ensures
            crate::logs::lines(out@) == crate::logs::last_n(
                crate::logs::matching(self.hub@.history, crate::logs::name_of(service)),
                limit as nat,
            ),
            out@.len() <= limit,
    {
        let out = self.hub.log_history(service, limit);
        assert(crate::logs::lines(out@).len() == out@.len());
        out
    }
}

/// Strings with the same text as those of `names`.
pub fn copy_names(names: &Vec<String>) -> (out: Vec<String>)
    ensures
        texts(out@) == texts(names@),
{
    let mut out: Vec<String> = Vec::new();
    let mut i: usize = 0;
    while i < names.len()
        invariant
            i <= names@.len(),
            out@.len() == i,
            forall|a: int| 0 <= a < i ==> (#[trigger] out@[a])@ == names@[a]@,
        decreases names@.len() - i,
    {
        out.push(names[i].clone());
        i += 1;
    }
    assert(texts(out@) =~= texts(names@));
    out
}

/// Nodes with the same names and the same wanted names make the same graph.
pub proof fn lemma_same_texts_same_graph(a: Seq<Node>, b: Seq<Node>)
    requires
        a.len() == b.len(),
        forall|i: int|
            0 <= i < a.len() ==> (#[trigger] a[i]).name@ == b[i].name@ && texts(a[i].depends_on@)
                == texts(b[i].depends_on@),
    ensures
        node_names(a) == node_names(b),
        forall|i: int| 0 <= i < a.len() ==> wanted(a, i) == wanted(b, i),
        resolve(a) == resolve(b),
        resolvable(a) == resolvable(b),
{
    assert(node_names(a) =~= node_names(b));
    assert forall|i: int| 0 <= i < a.len() implies wanted(a, i) == wanted(b, i) by {
        assert(a[i].name@ == b[i].name@);
    }
    assert forall|i: int| 0 <= i < a.len() implies #[trigger] resolve(a)[i] == resolve(b)[i] by {
        assert(wanted(a, i) == wanted(b, i));
        assert(resolve(a)[i] =~= resolve(b)[i]);
    }
    assert(resolve(a) =~= resolve(b));
    if resolvable(a) {
        assert forall|i: int, k: int|
            0 <= i < b.len() && 0 <= k < wanted(b, i).len() implies node_names(b).contains(
            #[trigger] wanted(b, i)[k],
        ) by {
            assert(wanted(a, i) == wanted(b, i));
            assert(node_names(a).contains(wanted(a, i)[k]));
        }
    }
    if resolvable(b) {
        assert forall|i: int, k: int|
            0 <= i < a.len() && 0 <= k < wanted(a, i).len() implies node_names(a).contains(
            #[trigger] wanted(a, i)[k],
        ) by {
            assert(wanted(a, i) == wanted(b, i));
            assert(node_names(b).contains(wanted(b, i)[k]));
        }
    }
}

/// A naming fault of nodes is one of any nodes with the same texts.
pub proof fn lemma_same_fault(a: Seq<Node>, b: Seq<Node>, e: GraphError)
    requires
        a.len() == b.len(),
        forall|i: int|
            0 <= i < a.len() ==> (#[trigger] a[i]).name@ == b[i].name@ && texts(a[i].depends_on@)
                == texts(b[i].depends_on@),
        naming_fault(a, e),
    ensures
        naming_fault(b, e),
{
    lemma_same_texts_same_graph(a, b);
    match e {
        GraphError::DuplicateName { name } => {
            let j = choose|j: int| first_repeat(node_names(a), j) && name@ == node_names(a)[j];
            assert(first_repeat(node_names(b), j) && name@ == node_names(b)[j]);
        },
        GraphError::UnknownDependency { service, dependency } => {
            let (i, k) = choose|i: int, k: int|
                first_unknown(a, i, k) && service@ == node_names(a)[i] && dependency@ == wanted(
                    a,
                    i,
                )[k];
            assert(wanted(a, i) == wanted(b, i));
            assert forall|x: int, y: int|
                0 <= x < i && 0 <= y < wanted(b, x).len() implies node_names(b).contains(
                #[trigger] wanted(b, x)[y],
            ) by {
                assert(wanted(a, x) == wanted(b, x));
                assert(node_names(a).contains(wanted(a, x)[y]));
            }
            assert(first_unknown(b, i, k));
            assert(service@ == node_names(b)[i] && dependency@ == wanted(b, i)[k]);
        },
        GraphError::Cycle(_) => {},
    }
}

} // verus!
