use observatory::api::{get_states, state_for_name, GraphState, StateParams, StateResponse};
use observatory::config::{Connection, FileConfig, Node as Record};
use observatory::model::{from_config_node, graph_name, Metrics, Node, ObsGraph, World};
use observatory::vizceral::{
    VizceralMetric, VizceralNode, VizceralNotice, VizceralRenderer, VizceralSeverity,
};

fn leaf_record(name: &str) -> Record {
    Record {
        name: name.to_string(),
        display_name: None,
        entry_point: None,
        nodes: None,
        connections: None,
    }
}

fn us_east_config() -> FileConfig {
    FileConfig {
        regions: vec![Record {
            name: "us-east".to_string(),
            display_name: None,
            entry_point: Some("INTERNET".to_string()),
            nodes: Some(vec![leaf_record("A"), leaf_record("B")]),
            connections: Some(vec![Connection {
                source: "A".to_string(),
                targets: vec!["B".to_string()],
            }]),
        }],
    }
}

fn us_east_state() -> GraphState {
    let mut world = World::new();
    world.extend_from_config(&us_east_config());
    GraphState::new(world)
}

#[test]
fn us_east_listing() {
    let state = us_east_state();
    let listing = get_states(&state);
    assert_eq!(listing.graphs, vec!["us-east".to_string()]);
}

#[test]
fn us_east_wire_document() {
    let state = us_east_state();
    let doc = state.to_vizceral("us-east").expect("region must be registered");
    assert_eq!(doc.renderer, VizceralRenderer::Global);
    assert_eq!(doc.name, "us-east");
    assert_eq!(doc.entry_node, Some("INTERNET".to_string()));
    let nodes = doc.nodes.as_ref().expect("a subgraph carries a node list");
    assert_eq!(nodes.len(), 2);
    assert_eq!(nodes[0].renderer, VizceralRenderer::FocusedChild);
    assert_eq!(nodes[0].name, "A");
    assert_eq!(nodes[1].renderer, VizceralRenderer::FocusedChild);
    assert_eq!(nodes[1].name, "B");
    let conns = doc.connections.as_ref().expect("a subgraph carries connections");
    assert_eq!(conns.len(), 1);
    assert_eq!(conns[0].source, "A");
    assert_eq!(conns[0].target, "B");
    assert_eq!(
        conns[0].metrics,
        Some(VizceralMetric { normal: Some(100), danger: Some(1), warning: Some(10) })
    );
}

#[test]
fn unknown_region_message() {
    let state = us_east_state();
    match state_for_name(&state, "does-not-exist") {
        StateResponse::Missing(msg) => assert_eq!(msg, "Couldn't find does-not-exist"),
        StateResponse::Found(_) => panic!("an unregistered name must not resolve"),
    }
}

#[test]
fn known_region_response() {
    let state = us_east_state();
    match state_for_name(&state, "us-east") {
        StateResponse::Found(doc) => assert_eq!(doc.renderer, VizceralRenderer::Global),
        StateResponse::Missing(_) => panic!("a registered name must resolve"),
    }
}

#[test]
fn unresolved_target_adds_no_edge() {
    let record = Record {
        name: "r".to_string(),
        display_name: None,
        entry_point: None,
        nodes: Some(vec![leaf_record("X")]),
        connections: Some(vec![Connection {
            source: "X".to_string(),
            targets: vec!["Y".to_string()],
        }]),
    };
    let node = from_config_node(&record, true);
    let doc = VizceralNode::from(&node);
    assert_eq!(doc.connections.as_ref().map(|c| c.len()), Some(0));
    assert_eq!(doc.nodes.as_ref().map(|n| n.len()), Some(1));
}

#[test]
fn unresolved_source_keeps_other_connections() {
    let record = Record {
        name: "r".to_string(),
        display_name: None,
        entry_point: None,
        nodes: Some(vec![leaf_record("X"), leaf_record("Z")]),
        connections: Some(vec![
            Connection { source: "missing".to_string(), targets: vec!["X".to_string()] },
            Connection { source: "X".to_string(), targets: vec!["Z".to_string()] },
        ]),
    };
    let node = from_config_node(&record, true);
    let doc = VizceralNode::from(&node);
    let conns = doc.connections.expect("a subgraph carries connections");
    assert_eq!(conns.len(), 1);
    assert_eq!(conns[0].source, "X");
    assert_eq!(conns[0].target, "Z");
}

#[test]
fn duplicate_region_first_write_wins() {
    let mut world = World::new();
    world.extend_from_config(&FileConfig {
        regions: vec![
            Record {
                name: "r".to_string(),
                display_name: Some("first".to_string()),
                entry_point: None,
                nodes: None,
                connections: None,
            },
            Record {
                name: "r".to_string(),
                display_name: Some("second".to_string()),
                entry_point: None,
                nodes: None,
                connections: None,
            },
        ],
    });
    assert_eq!(world.graph_names(), vec!["r".to_string()]);
    let node = world.graph("r").expect("the first registration must stand");
    assert_eq!(node.display_name(), "first");
}

#[test]
fn names_sorted_and_all_found() {
    let mut world = World::new();
    world.extend_from_config(&FileConfig {
        regions: vec![leaf_record("gamma"), leaf_record("alpha"), leaf_record("beta")],
    });
    let names = world.graph_names();
    assert_eq!(
        names,
        vec!["alpha".to_string(), "beta".to_string(), "gamma".to_string()]
    );
    for name in &names {
        assert!(world.graph(name).is_some());
    }
}

#[test]
fn lookup_absent_name() {
    let world = World::new();
    assert!(world.graph("anything").is_none());
}

#[test]
fn qualified_graph_name() {
    assert_eq!(graph_name("child", Some("parent")), "parent/child");
    assert_eq!(graph_name("alone", None), "alone");
}

#[test]
fn default_metrics_values() {
    let m = Metrics::empty();
    assert_eq!((m.normal, m.warning, m.danger), (100, 10, 1));
    let n = Metrics::new(7, 5, 3);
    assert_eq!((n.normal, n.warning, n.danger), (7, 5, 3));
}

#[test]
fn graph_edges_by_name() {
    let mut g = ObsGraph::new("g".to_string(), "INTERNET".to_string());
    g.add_node(Node::Leaf { name: "a".to_string(), display_name: None });
    g.add_node(Node::Leaf { name: "b".to_string(), display_name: None });
    assert!(g.find_node_by_name("a").is_some());
    assert!(g.find_node_by_name("c").is_none());
    assert_eq!(g.add_edge_by_name("a", "b", Metrics::empty()), Some(0));
    assert_eq!(g.add_edge_by_name("a", "c", Metrics::empty()), None);
    assert_eq!(g.edges().len(), 1);
    assert_eq!(g.graph().edge_count(), 1);
}

#[test]
fn leaf_display_name_fallback() {
    let plain = Node::Leaf { name: "svc".to_string(), display_name: None };
    assert_eq!(plain.display_name(), "svc");
    let titled = Node::Leaf {
        name: "svc".to_string(),
        display_name: Some("Service".to_string()),
    };
    assert_eq!(titled.display_name(), "Service");
    let doc = VizceralNode::from(&titled);
    assert_eq!(doc.renderer, VizceralRenderer::FocusedChild);
    assert_eq!(doc.display_name, Some("Service".to_string()));
    assert_eq!(doc.nodes, None);
    assert_eq!(doc.connections, None);
}

#[test]
fn empty_child_list_is_a_leaf() {
    let record = Record {
        name: "empty".to_string(),
        display_name: None,
        entry_point: None,
        nodes: Some(vec![]),
        connections: None,
    };
    let node = from_config_node(&record, true);
    let doc = VizceralNode::from(&node);
    assert_eq!(doc.renderer, VizceralRenderer::FocusedChild);
    assert_eq!(doc.nodes, None);
    assert_eq!(doc.entry_node, None);
}

#[test]
fn nested_subgraph_renders_as_region() {
    let record = Record {
        name: "outer".to_string(),
        display_name: None,
        entry_point: None,
        nodes: Some(vec![Record {
            name: "inner".to_string(),
            display_name: None,
            entry_point: Some("gateway".to_string()),
            nodes: Some(vec![leaf_record("deep")]),
            connections: None,
        }]),
        connections: None,
    };
    let node = from_config_node(&record, true);
    let doc = VizceralNode::from(&node);
    assert_eq!(doc.renderer, VizceralRenderer::Global);
    let inner = &doc.nodes.as_ref().expect("outer carries children")[0];
    assert_eq!(inner.renderer, VizceralRenderer::Region);
    assert_eq!(inner.entry_node, Some("gateway".to_string()));
}

#[test]
fn translation_is_repeatable() {
    let mut cfg = us_east_config();
    let record = cfg.regions.remove(0);
    let node = from_config_node(&record, true);
    let first = VizceralNode::from(&node);
    let second = VizceralNode::from(&node);
    assert_eq!(first, second);
}

#[test]
fn severity_codes() {
    assert_eq!(VizceralSeverity::Info.code(), 0);
    assert_eq!(VizceralSeverity::Warning.code(), 1);
    assert_eq!(VizceralSeverity::Error.code(), 2);
}

#[test]
fn notice_carries_severity() {
    let notice = VizceralNotice {
        title: "elevated error rate".to_string(),
        link: None,
        severity: Some(VizceralSeverity::Warning),
    };
    assert_eq!(notice.severity.map(|s| s.code()), Some(1));
}

#[test]
fn state_params_carry_a_name() {
    let params = StateParams { name: "us-east".to_string() };
    let state = us_east_state();
    match state_for_name(&state, &params.name) {
        StateResponse::Found(doc) => assert_eq!(doc.name, "us-east"),
        StateResponse::Missing(_) => panic!("a registered name must resolve"),
    }
}
