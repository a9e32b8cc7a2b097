use netdisco::discover::DiscoveryEngine;
use netdisco::discover::discover_on_graph;
use netdisco::messages::Topology;

fn four_node_graph() -> Topology {
    let mut g = Topology::new();
    g.insert("A".to_string(), vec!["B".to_string(), "C".to_string()]);
    g.insert("B".to_string(), vec!["A".to_string()]);
    g.insert("C".to_string(), vec!["A".to_string(), "D".to_string()]);
    g.insert("D".to_string(), vec!["C".to_string()]);
    g
}

// the stub responder answers each query with the graph's own neighbor list;
// the topology must match all four adjacency lists exactly, discovered in
// breadth-first order: A, then B and C, then D
#[test]
fn test_discovery_four_node_graph() {
    let g = four_node_graph();
    let topo = discover_on_graph(&g, &"A".to_string());
    assert_eq!(topo.len(), 4);
    assert_eq!(topo.entries[0].node, "A");
    assert_eq!(topo.entries[0].neighbors, vec!["B", "C"]);
    assert_eq!(topo.entries[1].node, "B");
    assert_eq!(topo.entries[1].neighbors, vec!["A"]);
    assert_eq!(topo.entries[2].node, "C");
    assert_eq!(topo.entries[2].neighbors, vec!["A", "D"]);
    assert_eq!(topo.entries[3].node, "D");
    assert_eq!(topo.entries[3].neighbors, vec!["C"]);
}

// termination and coverage: every node reachable from the initial one is a
// key of the returned table, and nothing else is
#[test]
fn test_discovery_covers_reachable_component_only() {
    let mut g = four_node_graph();
    // an island no path reaches from A
    g.insert("X".to_string(), vec!["Y".to_string()]);
    g.insert("Y".to_string(), vec!["X".to_string()]);
    let topo = discover_on_graph(&g, &"A".to_string());
    assert_eq!(topo.len(), 4);
    assert!(topo.contains_node(&"A".to_string()));
    assert!(topo.contains_node(&"D".to_string()));
    assert!(!topo.contains_node(&"X".to_string()));
    assert!(!topo.contains_node(&"Y".to_string()));
}

// no node is queried twice even when it appears in several neighbor lists:
// every node of this dense graph gets exactly one entry
#[test]
fn test_discovery_idempotent_visitation() {
    let mut g = Topology::new();
    g.insert(
        "A".to_string(),
        vec!["B".to_string(), "B".to_string(), "C".to_string()],
    );
    g.insert("B".to_string(), vec!["C".to_string(), "A".to_string()]);
    g.insert("C".to_string(), vec!["A".to_string(), "B".to_string()]);
    let topo = discover_on_graph(&g, &"A".to_string());
    assert_eq!(topo.len(), 3);
    let keys: Vec<&str> = topo.entries.iter().map(|e| e.node.as_str()).collect();
    assert_eq!(keys, vec!["A", "B", "C"]);
}

#[test]
fn test_discovery_single_node() {
    let mut g = Topology::new();
    g.insert("solo".to_string(), vec![]);
    let topo = discover_on_graph(&g, &"solo".to_string());
    assert_eq!(topo.len(), 1);
    assert_eq!(topo.entries[0].node, "solo");
    assert!(topo.entries[0].neighbors.is_empty());
}

// driving the engine by hand, as a transport loop would
#[test]
fn test_engine_bootstrap_and_queries() {
    let (mut engine, bootstrap) = DiscoveryEngine::new("me".to_string());
    assert_eq!(bootstrap.msg_type, "query");
    assert_eq!(bootstrap.sender_id, "me");
    assert_eq!(bootstrap.receiver_id, "me");
    assert!(!engine.done());

    // the response to the bootstrap query names two neighbors
    let queries = engine.record_response(&vec!["n1".to_string(), "n2".to_string()]);
    assert_eq!(queries.len(), 2);
    assert_eq!(queries[0].receiver_id, "n1");
    assert_eq!(queries[0].sender_id, "me");
    assert_eq!(queries[0].msg_type, "query");
    assert_eq!(queries[1].receiver_id, "n2");

    // both answer with already known nodes: nothing new to ask
    assert!(engine.record_response(&vec!["me".to_string()]).is_empty());
    assert!(engine.record_response(&vec!["me".to_string(), "n1".to_string()]).is_empty());
    assert!(engine.done());

    let msg = engine.into_topology_message().unwrap();
    assert_eq!(msg.msg_type, "topology");
    assert_eq!(msg.sender_id, "me");
    assert_eq!(msg.receiver_id, "");
    assert!(msg.n.is_none());
    let topo = msg.topology.unwrap();
    assert_eq!(topo.len(), 3);
    assert_eq!(topo.entries[0].node, "me");
    assert_eq!(topo.entries[1].node, "n1");
    assert_eq!(topo.entries[2].node, "n2");
}

// a receive failure mid-loop is fatal: no topology message afterwards
#[test]
fn test_receive_failure_sends_no_topology() {
    let (mut engine, _bootstrap) = DiscoveryEngine::new("me".to_string());
    let _queries = engine.record_response(&vec!["n1".to_string()]);
    assert!(!engine.done());
    // the transport breaks while n1's answer is awaited
    engine.fail();
    assert!(engine.into_topology_message().is_none());
}

// an unfinished crawl reports nothing either
#[test]
fn test_unfinished_crawl_sends_no_topology() {
    let (mut engine, _bootstrap) = DiscoveryEngine::new("me".to_string());
    let _queries = engine.record_response(&vec!["n1".to_string(), "n2".to_string()]);
    assert!(!engine.done());
    assert!(engine.into_topology_message().is_none());
}
