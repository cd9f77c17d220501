use a3s_dev::kube::{
    config_path_or_default, delete_failure, delete_pod_args, exit_message, join, listed_namespaces,
    listed_nodes, listed_pods, namespace_args,
    owner_arg, parse_namespaces, pod_logs_args, pods_args,
    parse_pod, parse_pods, patch_kubeconfig, same_chars, start_steps, status_of_service,
    status_of_vm, vm_exists, vm_start_args, vm_state, KubeStatus, StartStep, VmState,
};

fn parts(s: &KubeStatus) -> (bool, bool, &str) {
    (s.installed, s.running, s.state.as_str())
}

#[test]
fn vm_state_is_that_of_the_first_line_of_the_machine() {
    assert_eq!(vm_state("default Running\nk3s Running\n"), VmState::Running);
    assert_eq!(vm_state("k3s Stopped\nk3s Running\n"), VmState::Stopped);
    assert_eq!(vm_state("k3s Broken\n"), VmState::Exists);
    assert_eq!(vm_state("k3s-old Running\ndefault Stopped\n"), VmState::Missing);
    assert_eq!(vm_state(" k3s Running\n"), VmState::Missing);
    assert_eq!(vm_state("k3s"), VmState::Missing);
    assert_eq!(vm_state(""), VmState::Missing);
    assert_eq!(vm_state("k3s Stopped after Running"), VmState::Running);
}

#[test]
fn vm_status_follows_the_listing() {
    assert_eq!(parts(&status_of_vm(true, Some("k3s Running"))), (true, true, "running"));
    assert_eq!(parts(&status_of_vm(true, Some("k3s Stopped"))), (true, false, "stopped"));
    assert_eq!(parts(&status_of_vm(true, Some("k3s Paused"))), (true, false, "stopped"));
    assert_eq!(parts(&status_of_vm(true, Some("other Running"))), (false, false, "not_installed"));
    assert_eq!(parts(&status_of_vm(true, None)), (false, false, "not_installed"));
    assert_eq!(parts(&status_of_vm(false, Some("k3s Running"))), (false, false, "not_installed"));
}

#[test]
fn service_status_follows_the_service() {
    assert_eq!(parts(&status_of_service(false, Some(true))), (false, false, "not_installed"));
    assert_eq!(parts(&status_of_service(true, Some(true))), (true, true, "running"));
    assert_eq!(parts(&status_of_service(true, Some(false))), (true, false, "stopped"));
    assert_eq!(parts(&status_of_service(true, None)), (true, false, "stopped"));
}

#[test]
fn vm_exists_where_a_line_is_its_name() {
    assert!(vm_exists("default\n  k3s  \n"));
    assert!(vm_exists("k3s"));
    assert!(!vm_exists("default\nk3s-old\n"));
    assert!(!vm_exists(""));
}

#[test]
fn vm_is_started_by_name_or_from_the_template() {
    assert_eq!(vm_start_args(true), vec!["start".to_string(), "k3s".to_string()]);
    assert_eq!(
        vm_start_args(false),
        vec!["start".to_string(), "--name=k3s".to_string(), "template://k3s".to_string()]
    );
}

#[test]
fn start_steps_skip_what_is_done() {
    assert_eq!(start_steps(true, true), Vec::<StartStep>::new());
    assert_eq!(start_steps(false, true), vec![StartStep::Install]);
    assert_eq!(
        start_steps(true, false),
        vec![
            StartStep::StartService,
            StartStep::EnableService,
            StartStep::MakeConfigDir,
            StartStep::CopyConfig,
            StartStep::OwnConfig
        ]
    );
    assert_eq!(start_steps(false, false).len(), 6);
    assert_eq!(start_steps(false, false)[0], StartStep::Install);
}

#[test]
fn owner_is_user_and_group() {
    assert_eq!(owner_arg("me"), "me:me");
    assert_eq!(owner_arg(""), ":");
}

#[test]
fn config_path_falls_back() {
    assert_eq!(config_path_or_default(Some("/home/me/.kube/config")), "/home/me/.kube/config");
    assert_eq!(config_path_or_default(None), "/tmp/k3s.yaml");
}

#[test]
fn kubeconfig_names_the_cluster() {
    assert_eq!(
        patch_kubeconfig("cluster: default\nuser: default\nname: defaultdefault\n"),
        "cluster: k3s\nuser: k3s\nname: k3sk3s\n"
    );
    assert_eq!(patch_kubeconfig("nothing here"), "nothing here");
    assert_eq!(patch_kubeconfig(""), "");
    assert_eq!(patch_kubeconfig("defaul"), "defaul");
}

#[test]
fn exit_message_shows_the_command_and_the_code() {
    let args = vec!["systemctl".to_string(), "start".to_string(), "k3s".to_string()];
    assert_eq!(
        exit_message("sudo", &args, Some("1")),
        "`sudo systemctl start k3s` exited with 1"
    );
    assert_eq!(exit_message("limactl", &vec![], None), "`limactl ` exited with ?");
}

#[test]
fn join_puts_the_separator_between() {
    assert_eq!(join(&vec!["a".to_string(), "b".to_string(), "c".to_string()], ","), "a,b,c");
    assert_eq!(join(&vec!["a".to_string()], ","), "a");
    assert_eq!(join(&vec![], ","), "");
    assert_eq!(join(&vec!["".to_string(), "".to_string()], "-"), "-");
}

#[test]
fn namespaces_are_the_words() {
    assert_eq!(
        parse_namespaces("default kube-system  kube-public\n"),
        vec!["default".to_string(), "kube-system".to_string(), "kube-public".to_string()]
    );
    assert!(parse_namespaces("  \n").is_empty());
}

#[test]
fn pods_are_read_line_by_line() {
    let out = "web-1   default      Running   true    2   node-a\n\n  db-0  data  Pending  <none>  <none>  <none>\nshort  ns\n";
    let pods = parse_pods(out);
    assert_eq!(pods.len(), 3);
    assert_eq!(pods[0].name, "web-1");
    assert_eq!(pods[0].namespace, "default");
    assert_eq!(pods[0].status, "Running");
    assert_eq!(pods[0].ready, "true");
    assert_eq!(pods[0].restarts, 2);
    assert_eq!(pods[0].age, "");
    assert_eq!(pods[0].node, "node-a");
    assert_eq!(pods[1].name, "db-0");
    assert_eq!(pods[1].ready, "<none>");
    assert_eq!(pods[1].restarts, 0);
    assert_eq!(pods[1].node, "<none>");
    assert_eq!(pods[2].name, "short");
    assert_eq!(pods[2].namespace, "ns");
    assert_eq!(pods[2].status, "");
    assert_eq!(pods[2].ready, "false");
    assert_eq!(pods[2].restarts, 0);
    assert_eq!(pods[2].node, "");
}

#[test]
fn pod_of_an_empty_line_has_the_defaults() {
    let pod = parse_pod(&Vec::new());
    assert_eq!(pod.name, "");
    assert_eq!(pod.ready, "false");
    assert_eq!(pod.restarts, 0);
}

#[test]
fn namespace_is_picked_or_all() {
    assert_eq!(namespace_args(Some("data")), vec!["-n".to_string(), "data".to_string()]);
    assert_eq!(namespace_args(None), vec!["--all-namespaces".to_string()]);
}

#[test]
fn same_chars_compares() {
    let a: Vec<char> = "k3s".chars().collect();
    let b: Vec<char> = "k3s".chars().collect();
    let c: Vec<char> = "k3".chars().collect();
    assert!(same_chars(&a, &b));
    assert!(!same_chars(&a, &c));
}

fn list(args: &[&str]) -> Vec<String> {
    args.iter().map(|a| a.to_string()).collect()
}

#[test]
fn pod_arguments_are_built() {
    let columns = "custom-columns=NAME:.metadata.name,NAMESPACE:.metadata.namespace,STATUS:.status.phase,READY:.status.containerStatuses[0].ready,RESTARTS:.status.containerStatuses[0].restartCount,NODE:.spec.nodeName";
    assert_eq!(
        pods_args(Some("data")),
        list(&["get", "pods", "-n", "data", "-o", columns, "--no-headers"])
    );
    assert_eq!(
        pods_args(None),
        list(&["get", "pods", "--all-namespaces", "-o", columns, "--no-headers"])
    );
    assert_eq!(
        pod_logs_args("data", "db-0", 200),
        list(&["logs", "db-0", "-n", "data", "--tail=200", "--timestamps=true"])
    );
    assert_eq!(
        delete_pod_args("data", "db-0"),
        list(&["delete", "pod", "db-0", "-n", "data", "--grace-period=0"])
    );
    assert_eq!(delete_failure("db-0"), "kubectl delete pod db-0 failed");
}

#[test]
fn failed_listing_lists_nothing() {
    assert_eq!(listed_namespaces(true, "a b"), vec!["a".to_string(), "b".to_string()]);
    assert!(listed_namespaces(false, "a b").is_empty());
    assert_eq!(listed_pods(true, "web ns Running true 0 n1").len(), 1);
    assert!(listed_pods(false, "web ns Running true 0 n1").is_empty());
    let doc = b"{\"items\": [{\"metadata\": {\"name\": \"n1\"}}]}";
    let nodes = listed_nodes(true, doc);
    assert_eq!(nodes.len(), 1);
    assert_eq!(nodes[0].name, "n1");
    assert!(listed_nodes(false, doc).is_empty());
}
