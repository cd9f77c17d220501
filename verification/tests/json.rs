use a3s_dev::json::{get, items, names, parse, text, Json};
use a3s_dev::kube::{nodes_of, parse_node, parse_nodes, readiness_of, roles_of};
use a3s_dev::sorting::{sort, text_le};

fn cs(s: &str) -> Vec<char> {
    s.chars().collect()
}

fn obj(members: Vec<(&str, Json)>) -> Json {
    Json::Object(members.into_iter().map(|(k, v)| (k.to_string(), v)).collect())
}

fn txt(s: &str) -> Json {
    Json::Text(s.to_string())
}

#[test]
fn document_is_read_by_the_parser() {
    let doc = parse(b"{\"b\": [1, \"two\", null, true], \"a\": {\"x\": -2.5}}");
    match &doc {
        Json::Object(members) => {
            assert_eq!(members.len(), 2);
            assert_eq!(members[0].0, "a");
            assert_eq!(members[1].0, "b");
        }
        _ => panic!("an object was expected"),
    }
    let list = items(get(Some(&doc), "b")).unwrap();
    assert_eq!(list.len(), 4);
    assert!(matches!(&list[0], Json::Number(n) if n == "1"));
    assert!(matches!(&list[1], Json::Text(s) if s == "two"));
    assert!(matches!(&list[2], Json::Null));
    assert!(matches!(&list[3], Json::Bool(true)));
    assert!(matches!(get(get(Some(&doc), "a"), "x"), Some(Json::Number(n)) if n == "-2.5"));
}

#[test]
fn bytes_that_are_no_document_give_null() {
    assert!(matches!(parse(b"{not json"), Json::Null));
    assert!(matches!(parse(b""), Json::Null));
    assert!(matches!(parse(b"null"), Json::Null));
}

#[test]
fn members_are_found_by_name() {
    let doc = obj(vec![("a", txt("1")), ("b", txt("2")), ("a", txt("3"))]);
    assert!(matches!(text(get(Some(&doc), "a")), Some(s) if s == "1"));
    assert!(matches!(text(get(Some(&doc), "b")), Some(s) if s == "2"));
    assert!(get(Some(&doc), "c").is_none());
    assert!(get(Some(&txt("x")), "a").is_none());
    assert!(get(None, "a").is_none());
    assert!(text(Some(&doc)).is_none());
    assert!(items(Some(&doc)).is_none());
    assert_eq!(names(Some(&doc)), Some(vec![cs("a"), cs("b"), cs("a")]));
    assert_eq!(names(Some(&txt("x"))), None);
}

#[test]
fn nodes_are_read_from_the_listing() {
    let out = br#"{
      "items": [
        {
          "metadata": {
            "name": "node-a",
            "labels": {
              "kubernetes.io/os": "linux",
              "node-role.kubernetes.io/master": "true",
              "node-role.kubernetes.io/control-plane": "true"
            }
          },
          "status": {
            "nodeInfo": {"kubeletVersion": "v1.29.1+k3s2"},
            "conditions": [
              {"type": "MemoryPressure", "status": "False"},
              {"type": "Ready", "status": "True"}
            ]
          }
        },
        {
          "metadata": {"name": "node-b", "labels": {"kubernetes.io/os": "linux"}},
          "status": {"conditions": [{"type": "Ready", "status": "Unknown"}]}
        },
        {"metadata": {}},
        7
      ]
    }"#;
    let nodes = parse_nodes(out);
    assert_eq!(nodes.len(), 4);
    assert_eq!(nodes[0].name, "node-a");
    assert_eq!(nodes[0].status, "Ready");
    assert_eq!(nodes[0].roles, "control-plane,master");
    assert_eq!(nodes[0].version, "v1.29.1+k3s2");
    assert_eq!(nodes[1].name, "node-b");
    assert_eq!(nodes[1].status, "NotReady");
    assert_eq!(nodes[1].roles, "<none>");
    assert_eq!(nodes[1].version, "");
    assert_eq!(nodes[2].name, "");
    assert_eq!(nodes[2].status, "Unknown");
    assert_eq!(nodes[2].roles, "<none>");
    assert_eq!(nodes[3].name, "");
    assert_eq!(nodes[3].status, "Unknown");
}

#[test]
fn listing_that_is_no_json_has_no_nodes() {
    assert!(parse_nodes(b"error: connection refused").is_empty());
    assert!(parse_nodes(b"{\"items\": 3}").is_empty());
    assert!(parse_nodes(b"{}").is_empty());
    assert!(parse_nodes(b"[]").is_empty());
}

#[test]
fn roles_are_sorted_whatever_the_order_of_the_labels() {
    let labels = obj(vec![
        ("node-role.kubernetes.io/worker", txt("")),
        ("zone", txt("a")),
        ("node-role.kubernetes.io/etcd", txt("")),
        ("node-role.kubernetes.io/", txt("")),
    ]);
    assert_eq!(roles_of(Some(&labels)), ",etcd,worker");
    assert_eq!(roles_of(Some(&obj(vec![]))), "<none>");
    assert_eq!(roles_of(Some(&txt("x"))), "<none>");
    assert_eq!(roles_of(None), "<none>");
}

#[test]
fn readiness_goes_by_the_first_ready_condition() {
    let conds = Json::List(vec![
        obj(vec![("type", txt("DiskPressure")), ("status", txt("True"))]),
        obj(vec![("type", txt("Ready")), ("status", txt("False"))]),
        obj(vec![("type", txt("Ready")), ("status", txt("True"))]),
    ]);
    assert_eq!(readiness_of(Some(&conds)), "NotReady");
    let conds = Json::List(vec![obj(vec![("type", txt("Ready")), ("status", Json::Bool(true))])]);
    assert_eq!(readiness_of(Some(&conds)), "Unknown");
    let conds = Json::List(vec![obj(vec![("type", txt("Ready"))])]);
    assert_eq!(readiness_of(Some(&conds)), "Unknown");
    assert_eq!(readiness_of(Some(&Json::List(vec![]))), "Unknown");
    assert_eq!(readiness_of(Some(&Json::Null)), "Unknown");
    assert_eq!(readiness_of(None), "Unknown");
}

#[test]
fn node_is_read_from_an_item() {
    let item = obj(vec![
        ("metadata", obj(vec![("name", txt("n1"))])),
        ("status", obj(vec![("nodeInfo", obj(vec![("kubeletVersion", txt("v1"))]))])),
    ]);
    let node = parse_node(&item);
    assert_eq!((node.name.as_str(), node.version.as_str()), ("n1", "v1"));
    assert_eq!((node.status.as_str(), node.roles.as_str()), ("Unknown", "<none>"));
    let doc = obj(vec![("items", Json::List(vec![item]))]);
    assert_eq!(nodes_of(&doc).len(), 1);
}

#[test]
fn texts_are_put_in_dictionary_order() {
    let sorted = sort(vec![cs("pear"), cs("apple"), cs(""), cs("app"), cs("Pear"), cs("apple")]);
    let strs: Vec<String> = sorted.iter().map(|c| c.iter().collect()).collect();
    assert_eq!(strs, vec!["", "Pear", "app", "apple", "apple", "pear"]);
    assert!(sort(vec![]).is_empty());
}

#[test]
fn sorting_agrees_with_the_standard_library() {
    let words = ["b", "a", "ab", "", "\u{e9}", "z", "aa", "B", "\u{4e2d}", "a"];
    let mut expected: Vec<String> = words.iter().map(|w| w.to_string()).collect();
    expected.sort();
    let sorted = sort(words.iter().map(|w| cs(w)).collect());
    let got: Vec<String> = sorted.iter().map(|c| c.iter().collect()).collect();
    assert_eq!(got, expected);
}

#[test]
fn dictionary_order_compares_character_by_character() {
    assert!(text_le(&cs(""), &cs("")));
    assert!(text_le(&cs(""), &cs("a")));
    assert!(!text_le(&cs("a"), &cs("")));
    assert!(text_le(&cs("a"), &cs("a")));
    assert!(text_le(&cs("a"), &cs("b")));
    assert!(!text_le(&cs("b"), &cs("a")));
    assert!(text_le(&cs("ab"), &cs("b")));
    assert!(text_le(&cs("a"), &cs("ab")));
    assert!(!text_le(&cs("ab"), &cs("a")));
}
