use a3s_dev::graph::{start_names, GraphError, Node, ServiceGraph};

fn node(name: &str, deps: &[&str]) -> Node {
    Node { name: name.to_string(), depends_on: deps.iter().map(|d| d.to_string()).collect() }
}

fn position(order: &[String], name: &str) -> usize {
    order.iter().position(|n| n == name).unwrap()
}

#[test]
fn dependency_comes_first() {
    let nodes = vec![node("a", &[]), node("b", &["a"])];
    let order = start_names(&nodes).ok().unwrap();
    assert_eq!(order, vec!["a".to_string(), "b".to_string()]);
}

#[test]
fn dependency_comes_first_whatever_the_listing() {
    let nodes = vec![node("b", &["a"]), node("a", &[])];
    let order = start_names(&nodes).ok().unwrap();
    assert_eq!(order, vec!["a".to_string(), "b".to_string()]);
}

#[test]
fn every_service_stands_behind_its_dependencies() {
    let nodes = vec![
        node("web", &["api", "cache"]),
        node("api", &["db", "cache"]),
        node("cache", &[]),
        node("db", &[]),
        node("worker", &["api"]),
        node("mail", &[]),
    ];
    let order = start_names(&nodes).ok().unwrap();
    assert_eq!(order.len(), 6);
    for n in &nodes {
        for d in &n.depends_on {
            assert!(position(&order, d) < position(&order, &n.name));
        }
    }
}

#[test]
fn no_service_is_dropped() {
    let nodes = vec![node("x", &[]), node("y", &[]), node("z", &["x"])];
    let mut order = start_names(&nodes).ok().unwrap();
    order.sort();
    assert_eq!(order, vec!["x".to_string(), "y".to_string(), "z".to_string()]);
}

#[test]
fn empty_graph_has_empty_order() {
    let nodes: Vec<Node> = Vec::new();
    let order = start_names(&nodes).ok().unwrap();
    assert!(order.is_empty());
}

#[test]
fn cycle_is_reported_with_its_services() {
    let nodes = vec![node("a", &["b"]), node("b", &["a"])];
    match start_names(&nodes) {
        Err(GraphError::Cycle(e)) => {
            assert_eq!(e.services, vec!["a".to_string(), "b".to_string()])
        }
        _ => panic!("a cycle was expected"),
    }
}

#[test]
fn self_dependency_is_a_cycle() {
    let nodes = vec![node("solo", &["solo"])];
    match start_names(&nodes) {
        Err(GraphError::Cycle(e)) => assert_eq!(e.services, vec!["solo".to_string()]),
        _ => panic!("a cycle was expected"),
    }
}

#[test]
fn cycle_report_leaves_out_what_can_start() {
    let nodes = vec![
        node("free", &[]),
        node("a", &["b"]),
        node("b", &["c"]),
        node("c", &["a"]),
        node("behind", &["a"]),
        node("ahead", &["free"]),
    ];
    match start_names(&nodes) {
        Err(GraphError::Cycle(e)) => assert_eq!(
            e.services,
            vec!["a".to_string(), "b".to_string(), "c".to_string(), "behind".to_string()]
        ),
        _ => panic!("a cycle was expected"),
    }
}

#[test]
fn unknown_dependency_is_reported() {
    let nodes = vec![node("a", &[]), node("b", &["a", "ghost", "phantom"])];
    match start_names(&nodes) {
        Err(GraphError::UnknownDependency { service, dependency }) => {
            assert_eq!(service, "b");
            assert_eq!(dependency, "ghost");
        }
        _ => panic!("an unknown dependency was expected"),
    }
}

#[test]
fn duplicate_name_is_reported() {
    let nodes = vec![node("a", &[]), node("b", &[]), node("a", &["b"])];
    match start_names(&nodes) {
        Err(GraphError::DuplicateName { name }) => assert_eq!(name, "a"),
        _ => panic!("a duplicate name was expected"),
    }
}

#[test]
fn duplicate_name_is_reported_before_unknown_dependency() {
    let nodes = vec![node("a", &["ghost"]), node("a", &[])];
    assert!(matches!(start_names(&nodes), Err(GraphError::DuplicateName { .. })));
}

#[test]
fn graph_resolves_names_to_indices() {
    let nodes = vec![node("b", &["a"]), node("a", &[])];
    let g = ServiceGraph::new(&nodes).ok().unwrap();
    assert_eq!(g.len(), 2);
    assert_eq!(g.deps, vec![vec![1usize], vec![]]);
    assert_eq!(g.index_of(&"a".to_string()), Some(1));
    assert_eq!(g.index_of(&"zz".to_string()), None);
    let order = g.order().ok().unwrap();
    assert_eq!(order, vec![1usize, 0usize]);
    assert_eq!(g.names_in(&order), vec!["a".to_string(), "b".to_string()]);
}
