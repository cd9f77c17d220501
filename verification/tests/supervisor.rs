use a3s_dev::config::HealthKind;
use a3s_dev::graph::GraphError;
use a3s_dev::health::ProbeOutcome;
use a3s_dev::supervisor::{
    exit_outcome, ExitDecision, ExitOutcome, RestartPlan, ServicePlan, ServiceStatus,
    SpawnDecision, StopOutcome, Supervisor,
};

fn plan(name: &str, deps: &[&str]) -> ServicePlan {
    ServicePlan {
        name: name.to_string(),
        depends_on: deps.iter().map(|d| d.to_string()).collect(),
        port: 3000,
        probe: None,
        retries: 3,
        restart_on_change: false,
    }
}

fn supervisor(plans: Vec<ServicePlan>) -> Supervisor {
    Supervisor::new(&plans, 2, 100, 16).ok().unwrap()
}

fn statuses(sup: &Supervisor) -> Vec<ServiceStatus> {
    sup.status_rows().iter().map(|r| r.status).collect()
}

fn run_all(sup: &mut Supervisor) {
    loop {
        let started = sup.start_next();
        if started.is_empty() {
            break;
        }
        for i in started {
            sup.on_spawned(i, 100 + i as u32, 0);
        }
    }
}

#[test]
fn dependent_starts_only_after_its_dependency_runs() {
    let mut sup = supervisor(vec![plan("a", &[]), plan("b", &["a"])]);
    assert_eq!(statuses(&sup), vec![ServiceStatus::Pending, ServiceStatus::Pending]);
    assert_eq!(sup.start_next(), vec![0]);
    assert_eq!(statuses(&sup), vec![ServiceStatus::Starting, ServiceStatus::Pending]);
    assert_eq!(sup.start_next(), Vec::<usize>::new());
    assert_eq!(statuses(&sup), vec![ServiceStatus::Starting, ServiceStatus::Pending]);
    sup.on_spawned(0, 41, 0);
    assert_eq!(statuses(&sup), vec![ServiceStatus::Running, ServiceStatus::Pending]);
    assert_eq!(sup.start_next(), vec![1]);
    assert_eq!(statuses(&sup), vec![ServiceStatus::Running, ServiceStatus::Starting]);
}

#[test]
fn independent_services_start_together() {
    let mut sup = supervisor(vec![plan("a", &[]), plan("b", &[]), plan("c", &["a", "b"])]);
    assert_eq!(sup.start_next(), vec![0, 1]);
}

#[test]
fn dependency_with_a_probe_must_be_healthy() {
    let mut a = plan("a", &[]);
    a.probe = Some(HealthKind::Http);
    let mut sup = supervisor(vec![a, plan("b", &["a"])]);
    assert_eq!(sup.start_next(), vec![0]);
    sup.on_spawned(0, 41, 0);
    assert_eq!(sup.start_next(), Vec::<usize>::new());
    assert_eq!(sup.on_probe(0, ProbeOutcome::Status(200)), ServiceStatus::Healthy);
    assert_eq!(sup.start_next(), vec![1]);
}

#[test]
fn service_with_retries_three_turns_unhealthy_at_the_third_failure() {
    let mut a = plan("a", &[]);
    a.probe = Some(HealthKind::Http);
    a.retries = 3;
    let mut sup = supervisor(vec![a]);
    run_all(&mut sup);
    assert_eq!(sup.on_probe(0, ProbeOutcome::Status(200)), ServiceStatus::Healthy);
    assert_eq!(sup.on_probe(0, ProbeOutcome::TimedOut), ServiceStatus::Healthy);
    assert_eq!(sup.on_probe(0, ProbeOutcome::Status(500)), ServiceStatus::Healthy);
    assert_eq!(sup.on_probe(0, ProbeOutcome::Refused), ServiceStatus::Unhealthy);
    assert_eq!(sup.on_probe(0, ProbeOutcome::Status(204)), ServiceStatus::Healthy);
}

#[test]
fn probes_of_a_stopped_service_are_dropped() {
    let mut a = plan("a", &[]);
    a.probe = Some(HealthKind::Tcp);
    a.retries = 1;
    let mut sup = supervisor(vec![a]);
    run_all(&mut sup);
    assert_eq!(sup.stop_service("a"), StopOutcome::Terminate);
    assert_eq!(sup.on_probe(0, ProbeOutcome::Refused), ServiceStatus::Stopping);
    assert_eq!(sup.states[0].monitor.failures, 0);
}

#[test]
fn port_is_assigned_at_start_where_none_is_declared() {
    let mut a = plan("a", &[]);
    a.port = 0;
    let mut sup = supervisor(vec![a, plan("b", &[])]);
    assert_eq!(sup.start_next(), vec![0, 1]);
    sup.on_spawned(0, 7, 45123);
    sup.on_spawned(1, 8, 45124);
    let rows = sup.status_rows();
    assert_eq!((rows[0].name.as_str(), rows[0].port, rows[0].pid), ("a", 45123, Some(7)));
    assert_eq!((rows[1].name.as_str(), rows[1].port, rows[1].pid), ("b", 3000, Some(8)));
}

#[test]
fn stop_all_stops_dependents_first() {
    let mut sup = supervisor(vec![plan("a", &[]), plan("b", &["a"]), plan("c", &["b"])]);
    run_all(&mut sup);
    assert_eq!(sup.stop_all(), vec![2, 1, 0]);
    assert_eq!(statuses(&sup), vec![ServiceStatus::Stopping; 3]);
}

#[test]
fn stop_all_lists_only_services_with_a_process() {
    let mut sup = supervisor(vec![plan("a", &[]), plan("b", &["a"]), plan("c", &["b"])]);
    assert_eq!(sup.start_next(), vec![0]);
    sup.on_spawned(0, 1, 0);
    assert_eq!(sup.start_next(), vec![1]);
    assert_eq!(sup.stop_all(), vec![0]);
    assert_eq!(
        statuses(&sup),
        vec![ServiceStatus::Stopping, ServiceStatus::Stopping, ServiceStatus::Stopped]
    );
    assert_eq!(sup.on_spawned(1, 2, 0), SpawnDecision::Terminate);
    assert_eq!(sup.states[1].pid, Some(2));
    assert_eq!(sup.on_exit(1, ExitOutcome::Signal(15)), ExitDecision::Stopped);
    assert_eq!(sup.on_exit(0, ExitOutcome::Signal(15)), ExitDecision::Stopped);
    assert_eq!(statuses(&sup), vec![ServiceStatus::Stopped; 3]);
}

#[test]
fn spawned_process_is_kept_only_by_a_starting_service() {
    let mut sup = supervisor(vec![plan("a", &[]), plan("b", &[])]);
    assert_eq!(sup.on_spawned(0, 5, 0), SpawnDecision::Terminate);
    assert_eq!(sup.states[0].pid, None);
    assert_eq!(statuses(&sup), vec![ServiceStatus::Pending, ServiceStatus::Pending]);
    assert_eq!(sup.start_next(), vec![0, 1]);
    assert_eq!(sup.on_spawned(0, 6, 0), SpawnDecision::Run);
    assert_eq!(sup.on_spawned(0, 7, 0), SpawnDecision::Terminate);
    assert_eq!(sup.states[0].pid, Some(6));
    assert_eq!(sup.start_next(), Vec::<usize>::new());
}

#[test]
fn no_second_process_is_spawned_while_one_is_on_its_way() {
    let mut sup = supervisor(vec![plan("a", &[])]);
    assert_eq!(sup.start_next(), vec![0]);
    assert_eq!(sup.restart_service("a").ok(), Some(RestartPlan::Wait));
    assert_eq!(sup.start_next(), Vec::<usize>::new());
    assert_eq!(sup.on_spawned(0, 9, 0), SpawnDecision::Terminate);
    assert_eq!(sup.start_next(), Vec::<usize>::new());
    assert_eq!(sup.on_exit(0, ExitOutcome::Signal(15)), ExitDecision::Respawn);
    assert_eq!(sup.start_next(), vec![0]);
    assert_eq!(sup.on_spawned(0, 10, 0), SpawnDecision::Run);
    assert_eq!(statuses(&sup), vec![ServiceStatus::Running]);
}

#[test]
fn spawn_failure_of_a_stopping_service_stops_it() {
    let mut sup = supervisor(vec![plan("a", &[]), plan("b", &[])]);
    assert_eq!(sup.start_next(), vec![0, 1]);
    assert_eq!(sup.stop_service("a"), StopOutcome::Nothing);
    assert_eq!(statuses(&sup), vec![ServiceStatus::Stopping, ServiceStatus::Starting]);
    sup.on_spawn_failed(0);
    sup.on_spawn_failed(1);
    assert_eq!(statuses(&sup), vec![ServiceStatus::Stopped, ServiceStatus::Failed]);
    sup.on_spawn_failed(1);
    assert_eq!(statuses(&sup), vec![ServiceStatus::Stopped, ServiceStatus::Failed]);
}

#[test]
fn stop_is_idempotent() {
    let mut sup = supervisor(vec![plan("a", &[])]);
    run_all(&mut sup);
    assert_eq!(sup.stop_service("a"), StopOutcome::Terminate);
    assert_eq!(sup.stop_service("a"), StopOutcome::Nothing);
    assert_eq!(sup.on_exit(0, ExitOutcome::Signal(15)), ExitDecision::Stopped);
    assert_eq!(statuses(&sup), vec![ServiceStatus::Stopped]);
    assert_eq!(sup.stop_service("a"), StopOutcome::Nothing);
    assert_eq!(statuses(&sup), vec![ServiceStatus::Stopped]);
    assert_eq!(sup.stop_service("nobody"), StopOutcome::NotFound);
}

#[test]
fn unexpected_exit_restarts_until_the_ceiling() {
    let mut sup = supervisor(vec![plan("a", &[])]);
    run_all(&mut sup);
    assert_eq!(sup.on_exit(0, ExitOutcome::Code(1)), ExitDecision::Respawn);
    assert_eq!(statuses(&sup), vec![ServiceStatus::Restarting]);
    assert_eq!(sup.status_rows()[0].restarts, 1);
    run_all(&mut sup);
    assert_eq!(statuses(&sup), vec![ServiceStatus::Running]);
    assert_eq!(sup.on_exit(0, ExitOutcome::Code(2)), ExitDecision::Respawn);
    run_all(&mut sup);
    assert_eq!(sup.on_exit(0, ExitOutcome::Code(3)), ExitDecision::GaveUp);
    assert_eq!(statuses(&sup), vec![ServiceStatus::Failed]);
    let rows = sup.status_rows();
    assert_eq!(rows[0].restarts, 2);
    assert_eq!(rows[0].pid, None);
    assert_eq!(rows[0].last_exit, Some(ExitOutcome::Code(3)));
    assert_eq!(sup.states[0].last_exit, Some(ExitOutcome::Code(3)));
    assert_eq!(sup.on_exit(0, ExitOutcome::Code(4)), ExitDecision::Ignored);
    assert_eq!(sup.states[0].last_exit, Some(ExitOutcome::Code(3)));
}

#[test]
fn failed_dependency_blocks_its_dependents() {
    let mut sup = supervisor(vec![plan("a", &[]), plan("b", &["a"]), plan("c", &["b"])]);
    assert_eq!(sup.start_next(), vec![0]);
    sup.on_spawn_failed(0);
    assert_eq!(sup.start_next(), Vec::<usize>::new());
    assert_eq!(
        statuses(&sup),
        vec![ServiceStatus::Failed, ServiceStatus::Blocked, ServiceStatus::Pending]
    );
    assert_eq!(sup.start_next(), Vec::<usize>::new());
    assert_eq!(
        statuses(&sup),
        vec![ServiceStatus::Failed, ServiceStatus::Blocked, ServiceStatus::Blocked]
    );
}

#[test]
fn restart_stops_first_where_there_is_a_process() {
    let mut sup = supervisor(vec![plan("a", &[]), plan("b", &["a"])]);
    run_all(&mut sup);
    assert_eq!(sup.restart_service("a").ok(), Some(RestartPlan::StopFirst));
    assert_eq!(statuses(&sup), vec![ServiceStatus::Restarting, ServiceStatus::Running]);
    assert_eq!(sup.start_next(), Vec::<usize>::new());
    assert_eq!(sup.on_exit(0, ExitOutcome::Signal(15)), ExitDecision::Respawn);
    assert_eq!(sup.start_next(), vec![0]);
    sup.on_spawned(0, 9, 0);
    assert_eq!(statuses(&sup), vec![ServiceStatus::Running, ServiceStatus::Running]);
    assert_eq!(sup.status_rows()[0].restarts, 1);
    assert_eq!(sup.status_rows()[1].restarts, 0);
}

#[test]
fn restart_of_a_stopped_service_starts_it() {
    let mut sup = supervisor(vec![plan("a", &[])]);
    run_all(&mut sup);
    sup.stop_service("a");
    sup.on_exit(0, ExitOutcome::Code(0));
    assert_eq!(sup.restart_service("a").ok(), Some(RestartPlan::StartNow));
    assert_eq!(sup.start_next(), vec![0]);
}

#[test]
fn restart_of_an_unknown_service_changes_nothing() {
    let mut sup = supervisor(vec![plan("a", &[]), plan("b", &[])]);
    run_all(&mut sup);
    let before = statuses(&sup);
    match sup.restart_service("unknown") {
        Err(e) => assert_eq!(e.service, "unknown"),
        Ok(_) => panic!("an error was expected"),
    }
    assert_eq!(statuses(&sup), before);
    assert_eq!(sup.status_rows()[0].restarts, 0);
}

#[test]
fn file_change_restarts_only_where_asked_to() {
    let mut a = plan("a", &[]);
    a.restart_on_change = true;
    let mut sup = supervisor(vec![a, plan("b", &[])]);
    assert!(!sup.on_file_change(0));
    run_all(&mut sup);
    assert!(sup.on_file_change(0));
    assert!(!sup.on_file_change(1));
    assert_eq!(statuses(&sup), vec![ServiceStatus::Restarting, ServiceStatus::Running]);
    assert!(!sup.on_file_change(0));
}

#[test]
fn supervisor_fails_on_a_cycle() {
    let plans = vec![plan("a", &["b"]), plan("b", &["a"])];
    assert!(matches!(Supervisor::new(&plans, 1, 10, 10), Err(GraphError::Cycle(_))));
}

#[test]
fn supervisor_fails_on_an_unknown_dependency() {
    let plans = vec![plan("a", &["zz"])];
    assert!(matches!(
        Supervisor::new(&plans, 1, 10, 10),
        Err(GraphError::UnknownDependency { .. })
    ));
}

#[test]
fn service_id_finds_by_name() {
    let sup = supervisor(vec![plan("a", &[]), plan("b", &[])]);
    assert_eq!(sup.len(), 2);
    assert_eq!(sup.service_id("b"), Some(1));
    assert_eq!(sup.service_id("c"), None);
}

#[test]
fn logs_pass_through_the_supervisor() {
    let mut sup = supervisor(vec![plan("a", &[])]);
    let id = sup.subscribe_logs();
    sup.publish_log("a", "hello");
    let got = sup.log_history(None, 10);
    assert_eq!(got.len(), 1);
    assert_eq!((got[0].service.as_str(), got[0].line.as_str()), ("a", "hello"));
    assert!(matches!(sup.hub.receive(id), a3s_dev::logs::Delivery::Entry(_)));
}

#[test]
fn exits_of_stopping_services_stop_them() {
    let mut sup = supervisor(vec![plan("a", &[]), plan("b", &["a"]), plan("c", &[])]);
    run_all(&mut sup);
    let stops = sup.stop_all();
    assert_eq!(stops, vec![2, 1, 0]);
    assert!(!sup.none_stopping(&stops));
    sup.on_exits(&vec![(2, ExitOutcome::Code(0)), (1, ExitOutcome::Signal(15))]);
    assert!(!sup.none_stopping(&stops));
    assert!(sup.none_stopping(&vec![2, 1]));
    sup.on_exits(&vec![(0, ExitOutcome::Signal(9)), (0, ExitOutcome::Code(1))]);
    assert!(sup.none_stopping(&stops));
    assert_eq!(statuses(&sup), vec![ServiceStatus::Stopped; 3]);
    assert_eq!(sup.states[0].last_exit, Some(ExitOutcome::Signal(9)));
    assert!(sup.none_stopping(&vec![]));
    assert!(sup.none_stopping(&vec![17]));
}

#[test]
fn process_runs_as_long_as_it_is_the_one_of_a_running_service() {
    let mut sup = supervisor(vec![plan("a", &[])]);
    assert!(!sup.runs_as(0, 100));
    run_all(&mut sup);
    assert!(sup.runs_as(0, 100));
    assert!(!sup.runs_as(0, 101));
    assert!(!sup.runs_as(1, 100));
    sup.stop_service("a");
    assert!(!sup.runs_as(0, 100));
}

#[test]
fn exit_is_a_code_or_a_signal() {
    assert_eq!(exit_outcome(Some(3), None), ExitOutcome::Code(3));
    assert_eq!(exit_outcome(Some(0), Some(9)), ExitOutcome::Code(0));
    assert_eq!(exit_outcome(None, Some(15)), ExitOutcome::Signal(15));
    assert_eq!(exit_outcome(None, None), ExitOutcome::Code(-1));
}
