use a3s_dev::config::{
    default_interval, default_log_level, default_proxy_port, default_retries, default_timeout,
    default_true, duration_of, env_sets, merge_env_text, parse_duration, parse_env_line,
    BrewConfig, DevConfig, GlobalSettings, HealthConfig, HealthKind, ServiceDef, TimeUnit,
    WatchConfig,
};
use a3s_dev::error::DevError;
use indexmap::IndexMap;
use std::time::Duration;

fn make_svc(port: u16, depends_on: Vec<&str>) -> ServiceDef {
    ServiceDef {
        cmd: "echo ok".into(),
        dir: None,
        port,
        subdomain: None,
        env: Default::default(),
        env_file: None,
        depends_on: depends_on.into_iter().map(|s| s.to_string()).collect(),
        watch: None,
        health: None,
        disabled: false,
    }
}

fn make_config(services: Vec<(&str, ServiceDef)>) -> DevConfig {
    let mut map = IndexMap::new();
    for (name, svc) in services {
        map.insert(name.to_string(), svc);
    }
    DevConfig { dev: GlobalSettings::default(), brew: BrewConfig::default(), service: map }
}

fn var(k: &str, v: &str) -> (String, String) {
    (k.to_string(), v.to_string())
}

#[test]
fn test_validate_ok() {
    let cfg = make_config(vec![("a", make_svc(3000, vec![])), ("b", make_svc(3001, vec!["a"]))]);
    assert!(cfg.validate().is_ok());
}

#[test]
fn test_validate_port_conflict() {
    let cfg = make_config(vec![("a", make_svc(3000, vec![])), ("b", make_svc(3000, vec![]))]);
    assert!(matches!(cfg.validate(), Err(DevError::PortConflict { .. })));
}

#[test]
fn test_validate_port_zero_no_conflict() {
    let cfg = make_config(vec![("a", make_svc(0, vec![])), ("b", make_svc(0, vec![]))]);
    assert!(cfg.validate().is_ok());
}

#[test]
fn test_validate_unknown_depends_on() {
    let cfg = make_config(vec![("a", make_svc(3000, vec!["nonexistent"]))]);
    assert!(matches!(cfg.validate(), Err(DevError::Config(_))));
}

#[test]
fn test_disabled_skips_port_conflict() {
    let mut svc_b = make_svc(3000, vec![]);
    svc_b.disabled = true;
    let cfg = make_config(vec![("a", make_svc(3000, vec![])), ("b", svc_b)]);
    assert!(cfg.validate().is_ok());
}

#[test]
fn test_depends_on_disabled_service_is_error() {
    let mut svc_b = make_svc(3001, vec![]);
    svc_b.disabled = true;
    let cfg = make_config(vec![("a", make_svc(3000, vec!["b"])), ("b", svc_b)]);
    assert!(matches!(cfg.validate(), Err(DevError::Config(_))));
}

#[test]
fn test_default_proxy_port() {
    let cfg = make_config(vec![]);
    assert_eq!(cfg.dev.proxy_port, 7080);
}

#[test]
fn dependency_cycle_is_an_error() {
    let cfg = make_config(vec![
        ("a", make_svc(3000, vec!["b"])),
        ("b", make_svc(3001, vec!["a"])),
    ]);
    assert!(cfg.validate().is_err());
    match cfg.validate() {
        Err(DevError::Cycle { services }) => {
            assert_eq!(services, vec!["a".to_string(), "b".to_string()])
        }
        _ => panic!("a cycle was expected"),
    }
}

#[test]
fn dependency_on_itself_is_a_cycle() {
    let cfg = make_config(vec![("free", make_svc(0, vec![])), ("a", make_svc(0, vec!["a"]))]);
    match cfg.validate() {
        Err(DevError::Cycle { services }) => assert_eq!(services, vec!["a".to_string()]),
        _ => panic!("a cycle was expected"),
    }
}

#[test]
fn cycle_among_disabled_services_is_not_checked() {
    let mut a = make_svc(3000, vec!["b"]);
    a.disabled = true;
    let mut b = make_svc(3001, vec!["a"]);
    b.disabled = true;
    let cfg = make_config(vec![("a", a), ("b", b), ("c", make_svc(3002, vec![]))]);
    assert!(cfg.validate().is_ok());
}

#[test]
fn unknown_dependency_comes_before_a_cycle() {
    let cfg = make_config(vec![
        ("a", make_svc(3000, vec!["b"])),
        ("b", make_svc(3001, vec!["a", "ghost"])),
    ]);
    assert!(matches!(cfg.validate(), Err(DevError::Config(_))));
}

#[test]
fn chain_of_dependencies_is_valid() {
    let cfg = make_config(vec![
        ("c", make_svc(3002, vec!["b", "a"])),
        ("a", make_svc(3000, vec![])),
        ("b", make_svc(3001, vec!["a"])),
    ]);
    assert!(cfg.validate().is_ok());
}

#[test]
fn port_conflict_names_both_services_and_the_port() {
    let cfg = make_config(vec![
        ("first", make_svc(3000, vec![])),
        ("second", make_svc(4000, vec![])),
        ("third", make_svc(4000, vec![])),
        ("fourth", make_svc(3000, vec![])),
    ]);
    match cfg.validate() {
        Err(DevError::PortConflict { a, b, port }) => {
            assert_eq!((a.as_str(), b.as_str(), port), ("second", "third", 4000))
        }
        _ => panic!("a port conflict was expected"),
    }
}

#[test]
fn port_conflict_comes_before_unknown_dependency() {
    let cfg = make_config(vec![
        ("a", make_svc(3000, vec!["ghost"])),
        ("b", make_svc(3000, vec![])),
    ]);
    assert!(matches!(cfg.validate(), Err(DevError::PortConflict { .. })));
}

#[test]
fn unknown_dependency_message_names_service_and_dependency() {
    let cfg = make_config(vec![
        ("a", make_svc(3000, vec![])),
        ("b", make_svc(3001, vec!["a", "nonexistent", "other"])),
    ]);
    match cfg.validate() {
        Err(DevError::Config(msg)) => assert_eq!(
            msg,
            "service 'b' depends_on unknown or disabled service 'nonexistent'"
        ),
        _ => panic!("a configuration error was expected"),
    }
}

#[test]
fn disabled_service_is_not_checked_for_dependencies() {
    let mut svc = make_svc(3000, vec!["nonexistent"]);
    svc.disabled = true;
    let cfg = make_config(vec![("a", svc)]);
    assert!(cfg.validate().is_ok());
}

#[test]
fn empty_configuration_is_valid() {
    assert!(make_config(vec![]).validate().is_ok());
}

#[test]
fn defaults_are_as_documented() {
    assert_eq!(default_proxy_port(), 7080);
    assert_eq!(default_log_level(), "info");
    assert!(default_true());
    assert_eq!(default_retries(), 3);
    assert_eq!(default_interval(), Duration::from_secs(2));
    assert_eq!(default_timeout(), Duration::from_secs(1));
    let settings = GlobalSettings::default();
    assert_eq!(settings.proxy_port, 7080);
    assert_eq!(settings.log_level, "info");
    assert!(BrewConfig::default().packages.is_empty());
}

#[test]
fn duration_in_seconds() {
    assert_eq!(parse_duration("2s"), Ok(Duration::from_secs(2)));
    assert_eq!(parse_duration("0s"), Ok(Duration::from_secs(0)));
    assert_eq!(parse_duration(" 15 s"), Ok(Duration::from_secs(15)));
    assert_eq!(parse_duration("+3s"), Ok(Duration::from_secs(3)));
    assert_eq!(parse_duration("007s"), Ok(Duration::from_secs(7)));
}

#[test]
fn duration_in_milliseconds() {
    assert_eq!(parse_duration("500ms"), Ok(Duration::from_millis(500)));
    assert_eq!(parse_duration("1500ms"), Ok(Duration::from_millis(1500)));
    assert_eq!(parse_duration("\t20\tms"), Ok(Duration::from_millis(20)));
    assert_eq!(
        parse_duration("18446744073709551615ms"),
        Ok(Duration::from_millis(18446744073709551615))
    );
}

#[test]
fn duration_without_a_unit_is_an_unknown_format() {
    assert_eq!(
        parse_duration("10"),
        Err("unknown duration format: '10' (use '2s' or '500ms')".to_string())
    );
    assert_eq!(
        parse_duration(""),
        Err("unknown duration format: '' (use '2s' or '500ms')".to_string())
    );
    assert_eq!(
        parse_duration("2s "),
        Err("unknown duration format: '2s ' (use '2s' or '500ms')".to_string())
    );
    assert_eq!(
        parse_duration("5m"),
        Err("unknown duration format: '5m' (use '2s' or '500ms')".to_string())
    );
}

#[test]
fn duration_with_a_bad_number_reports_the_number() {
    assert_eq!(parse_duration("ms"), Err("cannot parse integer from empty string".to_string()));
    assert_eq!(parse_duration("s"), Err("cannot parse integer from empty string".to_string()));
    assert_eq!(parse_duration("1.5s"), Err("invalid digit found in string".to_string()));
    assert_eq!(parse_duration("-2s"), Err("invalid digit found in string".to_string()));
    assert_eq!(parse_duration("2 0ms"), Err("invalid digit found in string".to_string()));
    assert_eq!(parse_duration("+s"), Err("invalid digit found in string".to_string()));
    assert_eq!(
        parse_duration("18446744073709551616s"),
        Err("number too large to fit in target type".to_string())
    );
}

#[test]
fn duration_ending_in_ms_is_never_read_as_seconds() {
    assert_eq!(parse_duration("5ms"), Ok(Duration::from_millis(5)));
    assert_eq!(parse_duration("5mms"), Err("invalid digit found in string".to_string()));
}

#[test]
fn duration_of_a_number_goes_by_the_unit() {
    assert_eq!(duration_of(Ok(3), TimeUnit::Secs), Ok(Duration::from_secs(3)));
    assert_eq!(duration_of(Ok(3), TimeUnit::Millis), Ok(Duration::from_millis(3)));
    assert_eq!(duration_of(Err("bad".to_string()), TimeUnit::Secs), Err("bad".to_string()));
}

#[test]
fn env_file_sets_variables() {
    let mut env: Vec<(String, String)> = Vec::new();
    merge_env_text(&mut env, "FOO=bar\n# comment\nBAZ=qux\n");
    assert_eq!(env, vec![var("FOO", "bar"), var("BAZ", "qux")]);
}

#[test]
fn env_takes_precedence_over_env_file() {
    let mut env = vec![var("FOO", "from_env")];
    merge_env_text(&mut env, "FOO=from_file\nNEW=1");
    assert_eq!(env, vec![var("FOO", "from_env"), var("NEW", "1")]);
}

#[test]
fn env_file_first_line_counts_for_a_variable() {
    let mut env: Vec<(String, String)> = Vec::new();
    merge_env_text(&mut env, "A=1\nA=2\n");
    assert_eq!(env, vec![var("A", "1")]);
}

#[test]
fn env_line_is_trimmed_and_unquoted() {
    assert_eq!(parse_env_line(&"  KEY = value  ".chars().collect()), Some(var("KEY", "value")));
    assert_eq!(parse_env_line(&"KEY=\"quoted value\"".chars().collect()), Some(var("KEY", "quoted value")));
    assert_eq!(parse_env_line(&"KEY='single'".chars().collect()), Some(var("KEY", "single")));
    assert_eq!(parse_env_line(&"KEY=\"'both'\"".chars().collect()), Some(var("KEY", "both")));
    assert_eq!(parse_env_line(&"KEY='\"kept\"'".chars().collect()), Some(var("KEY", "\"kept\"")));
    assert_eq!(parse_env_line(&"KEY=a=b".chars().collect()), Some(var("KEY", "a=b")));
    assert_eq!(parse_env_line(&"KEY=".chars().collect()), Some(var("KEY", "")));
    assert_eq!(parse_env_line(&"=v".chars().collect()), Some(var("", "v")));
    assert_eq!(parse_env_line(&"KEY=\" padded \"".chars().collect()), Some(var("KEY", " padded ")));
}

#[test]
fn env_line_without_assignment_sets_nothing() {
    assert_eq!(parse_env_line(&"".chars().collect()), None);
    assert_eq!(parse_env_line(&"   ".chars().collect()), None);
    assert_eq!(parse_env_line(&"# FOO=bar".chars().collect()), None);
    assert_eq!(parse_env_line(&"   #FOO=bar".chars().collect()), None);
    assert_eq!(parse_env_line(&"JUSTAWORD".chars().collect()), None);
}

#[test]
fn env_sets_looks_for_the_name() {
    let env = vec![var("A", "1"), var("B", "2")];
    assert!(env_sets(&env, &"B".to_string()));
    assert!(!env_sets(&env, &"b".to_string()));
}

#[test]
fn plans_leave_out_disabled_services() {
    let mut off = make_svc(3001, vec![]);
    off.disabled = true;
    let mut web = make_svc(3000, vec!["db"]);
    web.health = Some(HealthConfig {
        kind: HealthKind::Http,
        path: Some("/health".to_string()),
        interval: Duration::from_secs(2),
        timeout: Duration::from_secs(1),
        retries: 5,
    });
    web.watch = Some(WatchConfig { paths: vec![], ignore: vec![], restart: true });
    let cfg = make_config(vec![("db", make_svc(5432, vec![])), ("off", off), ("web", web)]);
    let plans = cfg.plans();
    assert_eq!(plans.len(), 2);
    assert_eq!(plans[0].name, "db");
    assert_eq!(plans[0].port, 5432);
    assert_eq!(plans[0].probe, None);
    assert_eq!(plans[0].retries, 3);
    assert!(!plans[0].restart_on_change);
    assert!(plans[0].depends_on.is_empty());
    assert_eq!(plans[1].name, "web");
    assert_eq!(plans[1].depends_on, vec!["db".to_string()]);
    assert_eq!(plans[1].probe, Some(HealthKind::Http));
    assert_eq!(plans[1].retries, 5);
    assert!(plans[1].restart_on_change);
}
