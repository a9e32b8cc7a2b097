use netdisco::messages::InitMessage;
use netdisco::messages::QueryMessage;
use netdisco::messages::NeighborsResponse;
use netdisco::messages::TopologyMessage;
use netdisco::messages::Topology;
use netdisco::messages::make_message;
use netdisco::messages::random_id;
use netdisco::codec::encode_message;
use netdisco::codec::decode_message;

#[test]
fn test_serialize_init_message() {
    let init_message = InitMessage {
        sender_id: "server".to_string(),
        receiver_id: "client".to_string(),
        msg_id: "1234".to_string(),
        msg_type: "init".to_string(),
    };
    let serialized = init_message.encode();
    assert!(serialized.contains("\"sender_id\":\"server\""));
}

#[test]
fn test_deserialize_init_message() {
    let json_data = r#"
    {
        "sender_id": "server",
        "receiver_id": "client",
        "msg_id": "1234",
        "type": "init"
    }"#;
    let init_message: InitMessage = InitMessage::decode(json_data).unwrap();
    assert_eq!(init_message.sender_id, "server");
    assert_eq!(init_message.receiver_id, "client");
}

#[test]
fn test_serialize_query_message() {
    let query_message = QueryMessage {
        sender_id: "client".to_string(),
        receiver_id: "server".to_string(),
        msg_id: "1234".to_string(),
        msg_type: "query".to_string(),
    };
    let serialized = query_message.encode();
    assert!(serialized.contains("\"sender_id\":\"client\""));
}

#[test]
fn test_deserialize_query_message() {
    let json_data = r#"
    {
        "sender_id": "client",
        "receiver_id": "server",
        "msg_id": "1234",
        "type": "query"
    }"#;
    let query_message: QueryMessage = QueryMessage::decode(json_data).unwrap();
    assert_eq!(query_message.sender_id, "client");
    assert_eq!(query_message.receiver_id, "server");
}

#[test]
fn test_serialize_neighbors_response() {
    let neighbors_response = NeighborsResponse {
        sender_id: "server".to_string(),
        receiver_id: "client".to_string(),
        msg_id: "1234".to_string(),
        msg_type: "neighbors".to_string(),
        n: vec!["node1".to_string(), "node2".to_string()],
    };
    let serialized = neighbors_response.encode();
    assert!(serialized.contains("\"n\":[\"node1\",\"node2\"]"));
}

#[test]
fn test_deserialize_neighbors_response() {
    let json_data = r#"
    {
        "sender_id": "server",
        "receiver_id": "client",
        "msg_id": "1234",
        "type": "neighbors",
        "n": ["node1", "node2"]
    }"#;
    let neighbors_response: NeighborsResponse = NeighborsResponse::decode(json_data).unwrap();
    assert_eq!(neighbors_response.n, vec!["node1", "node2"]);
}

#[test]
fn test_serialize_topology_message() {
    let mut topology = Topology::new();
    topology.insert(
        "node1".to_string(),
        vec!["node2".to_string(), "node3".to_string()],
    );
    topology.insert(
        "node2".to_string(),
        vec!["node1".to_string(), "node3".to_string()],
    );

    let topology_message = TopologyMessage {
        sender_id: "client".to_string(),
        receiver_id: "server".to_string(),
        msg_id: "1234".to_string(),
        msg_type: "topology".to_string(),
        topology,
    };

    let expected_json: serde_json::Value = serde_json::from_str(
        r#"{
            "sender_id": "client",
            "receiver_id": "server",
            "msg_id": "1234",
            "type": "topology",
            "topology": {
                "node1": ["node2", "node3"],
                "node2": ["node1", "node3"]
            }
        }"#,
    )
    .unwrap();

    let serialized_message = topology_message.encode();
    let serialized_message_value: serde_json::Value =
        serde_json::from_str(&serialized_message).unwrap();

    assert_eq!(serialized_message_value, expected_json);
}

#[test]
fn test_deserialize_topology_message() {
    let json_data = r#"
    {
        "sender_id": "client",
        "receiver_id": "server",
        "msg_id": "1234",
        "type": "topology",
        "topology": {}
    }"#;
    let topology_message: TopologyMessage = TopologyMessage::decode(json_data).unwrap();
    assert_eq!(topology_message.msg_type, "topology");
}

#[test]
fn test_make_message_fields_and_id() {
    let m = make_message("query", "a1", "b2");
    assert_eq!(m.msg_type, "query");
    assert_eq!(m.sender_id, "a1");
    assert_eq!(m.receiver_id, "b2");
    assert!(m.n.is_none());
    assert!(m.topology.is_none());
    assert_eq!(m.msg_id.chars().count(), 10);
    assert!(m.msg_id.chars().all(|c| c.is_ascii_alphanumeric()));
}

#[test]
fn test_random_ids_are_alphanumeric_and_fresh() {
    let a = random_id();
    let b = random_id();
    assert_eq!(a.chars().count(), 10);
    assert!(a.chars().all(|c| c.is_ascii_alphanumeric()));
    // two draws agreeing on all ten characters is vanishingly unlikely, but
    // not impossible; only the shape is asserted
    assert_eq!(b.chars().count(), 10);
}

#[test]
fn test_round_trip_all_kinds() {
    // init and query: no payload
    let init = make_message("init", "server", "client");
    let back = decode_message(&encode_message(&init)).unwrap();
    assert_eq!(back.sender_id, init.sender_id);
    assert_eq!(back.receiver_id, init.receiver_id);
    assert_eq!(back.msg_id, init.msg_id);
    assert_eq!(back.msg_type, init.msg_type);
    assert!(back.n.is_none());
    assert!(back.topology.is_none());

    let query = make_message("query", "client", "n7");
    let back = decode_message(&encode_message(&query)).unwrap();
    assert_eq!(back.msg_type, "query");
    assert_eq!(back.receiver_id, "n7");

    // neighbors: a list payload
    let nr = NeighborsResponse {
        sender_id: "n7".to_string(),
        receiver_id: "client".to_string(),
        msg_id: "zzzz".to_string(),
        msg_type: "neighbors".to_string(),
        n: vec!["a".to_string(), "b".to_string(), "c".to_string()],
    };
    let back = NeighborsResponse::decode(&nr.encode()).unwrap();
    assert_eq!(back.sender_id, nr.sender_id);
    assert_eq!(back.receiver_id, nr.receiver_id);
    assert_eq!(back.msg_id, nr.msg_id);
    assert_eq!(back.msg_type, nr.msg_type);
    assert_eq!(back.n, nr.n);

    // topology: a table payload
    let mut topology = Topology::new();
    topology.insert("a".to_string(), vec!["b".to_string()]);
    topology.insert("b".to_string(), vec![]);
    let tm = TopologyMessage {
        sender_id: "client".to_string(),
        receiver_id: "".to_string(),
        msg_id: "id0".to_string(),
        msg_type: "topology".to_string(),
        topology,
    };
    let back = TopologyMessage::decode(&tm.encode()).unwrap();
    assert_eq!(back.sender_id, "client");
    assert_eq!(back.receiver_id, "");
    assert_eq!(back.topology.entries.len(), 2);
    assert_eq!(back.topology.entries[0].node, "a");
    assert_eq!(back.topology.entries[0].neighbors, vec!["b"]);
    assert_eq!(back.topology.entries[1].node, "b");
    assert!(back.topology.entries[1].neighbors.is_empty());
}

#[test]
fn test_encode_exact_wire_text() {
    let init = InitMessage {
        sender_id: "s".to_string(),
        receiver_id: "r".to_string(),
        msg_id: "m".to_string(),
        msg_type: "init".to_string(),
    };
    assert_eq!(
        init.encode(),
        "{\"sender_id\":\"s\",\"receiver_id\":\"r\",\"msg_id\":\"m\",\"type\":\"init\"}"
    );
}

#[test]
fn test_decode_rejects_missing_required_field() {
    // no msg_id
    let s = r#"{"sender_id": "a", "receiver_id": "b", "type": "init"}"#;
    assert!(decode_message(s).is_none());
    // empty object
    assert!(decode_message("{}").is_none());
    // not an object at all
    assert!(decode_message("nonsense").is_none());
    // truncated: the closing brace is missing
    assert!(decode_message(r#"{"sender_id": "a""#).is_none());
}

#[test]
fn test_decode_null_payload_means_absent() {
    let s = r#"{"sender_id":"a","receiver_id":"b","msg_id":"c","type":"query","n":null,"topology":null}"#;
    let m = decode_message(s).unwrap();
    assert_eq!(m.msg_type, "query");
    assert!(m.n.is_none());
    assert!(m.topology.is_none());
}

#[test]
fn test_decode_rejects_unknown_key() {
    let s = r#"{"sender_id":"a","receiver_id":"b","msg_id":"c","type":"init","extra":"x"}"#;
    assert!(decode_message(s).is_none());
}

#[test]
fn test_decode_duplicate_key_last_wins() {
    let s = r#"{"sender_id":"a","sender_id":"z","receiver_id":"b","msg_id":"c","type":"init"}"#;
    let m = decode_message(s).unwrap();
    assert_eq!(m.sender_id, "z");
}

#[test]
fn test_topology_lookup() {
    let mut t = Topology::new();
    t.insert("a".to_string(), vec!["b".to_string(), "c".to_string()]);
    t.insert("b".to_string(), vec![]);
    assert_eq!(t.len(), 2);
    assert!(t.contains_node(&"a".to_string()));
    assert!(!t.contains_node(&"z".to_string()));
    assert_eq!(t.get(&"a".to_string()).unwrap(), &vec!["b".to_string(), "c".to_string()]);
    assert!(t.get(&"z".to_string()).is_none());
}
