use k7s_lib::nodes::{first_ready, Condition, Node, NodeStatus};

fn node(name: &str, conditions: &[(&str, &str)]) -> Node {
    let conditions = conditions
        .iter()
        .map(|(kind, status)| Condition { kind: kind.to_string(), status: status.to_string() })
        .collect();
    Node {
        name: name.to_string(),
        status: Some(NodeStatus { conditions: Some(conditions) }),
    }
}

#[test]
fn a_node_is_ready_by_its_ready_condition() {
    assert!(node("a", &[("Ready", "True")]).is_ready());
    assert!(node("a", &[("MemoryPressure", "False"), ("Ready", "True")]).is_ready());
    assert!(!node("a", &[("Ready", "False")]).is_ready());
    assert!(!node("a", &[("Ready", "Unknown")]).is_ready());
    assert!(!node("a", &[("DiskPressure", "True")]).is_ready());
    assert!(!node("a", &[("ready", "true")]).is_ready());
    assert!(!node("a", &[]).is_ready());
}

#[test]
fn a_node_that_reports_nothing_is_not_ready() {
    assert!(!Node { name: "a".to_string(), status: None }.is_ready());
    let silent = Some(NodeStatus { conditions: None });
    assert!(!Node { name: "a".to_string(), status: silent }.is_ready());
}

#[test]
fn the_first_ready_node_is_found() {
    let nodes = vec![
        node("down", &[("Ready", "False")]),
        node("up", &[("Ready", "True")]),
        node("also up", &[("Ready", "True")]),
    ];
    let found = first_ready(&nodes).unwrap();
    assert_eq!(nodes[found].name, "up");
    assert_eq!(first_ready(&vec![node("down", &[("Ready", "False")])]), None);
    assert_eq!(first_ready(&vec![]), None);
}
