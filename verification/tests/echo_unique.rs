//! The echo and unique-id nodes, the decimal rendering, and concrete
//! instances of the cluster-wide properties.

use dist_systems_challenge::BroadcastNode;
use dist_systems_challenge::BroadcastPayload;
use dist_systems_challenge::EchoNode;
use dist_systems_challenge::EchoPayload;
use dist_systems_challenge::InitPayload;
use dist_systems_challenge::Message;
use dist_systems_challenge::MsgBody;
use dist_systems_challenge::Node;
use dist_systems_challenge::UniqueNode;
use dist_systems_challenge::UniquePayload;
use dist_systems_challenge::unique::u_to_string;

fn msg<P>(src: &str, dest: &str, msg_id: Option<usize>, payload: P) -> Message<P> {
    Message {
        src: src.to_string(),
        dest: dest.to_string(),
        body: MsgBody { msg_id, in_reply_to: None, payload },
    }
}

fn init<P>(node_id: &str) -> Message<InitPayload> {
    msg(
        "c0",
        node_id,
        Some(1),
        InitPayload::Init { node_id: node_id.to_string(), node_ids: vec![node_id.to_string()] },
    )
}

#[test]
fn echo_round_trip() {
    let (mut e, init_ok) = EchoNode::new(init::<EchoPayload>("n1")).unwrap();
    assert_eq!(init_ok.body.msg_id, Some(0));
    assert!(matches!(init_ok.body.payload, InitPayload::InitOk));

    let out = e
        .reply(msg("c1", "n1", Some(9), EchoPayload::Echo { echo: "hello there".to_string() }))
        .unwrap();
    assert_eq!(out.len(), 1);
    assert_eq!(out[0].src, "n1");
    assert_eq!(out[0].dest, "c1");
    assert_eq!(out[0].body.msg_id, Some(1));
    assert_eq!(out[0].body.in_reply_to, Some(9));
    match &out[0].body.payload {
        EchoPayload::EchoOk { echo } => assert_eq!(echo, "hello there"),
        _ => panic!("expected echo_ok"),
    }

    let out = e
        .reply(msg("c1", "n1", Some(10), EchoPayload::Echo { echo: "again".to_string() }))
        .unwrap();
    assert_eq!(out[0].body.msg_id, Some(2));
}

#[test]
fn echo_ignores_other_payloads() {
    let (mut e, _) = EchoNode::new(init::<EchoPayload>("n1")).unwrap();
    let out = e
        .reply(msg("c1", "n1", Some(2), EchoPayload::EchoOk { echo: "stray".to_string() }))
        .unwrap();
    assert_eq!(out.len(), 0);
}

#[test]
fn decimal_rendering_exact() {
    assert_eq!(u_to_string(0), "0");
    assert_eq!(u_to_string(7), "7");
    assert_eq!(u_to_string(10), "10");
    assert_eq!(u_to_string(305), "305");
    assert_eq!(u_to_string(1234567890), "1234567890");
}

#[test]
fn unique_non_init_first_message_is_refused() {
    let first = msg("c0", "n1", Some(1), InitPayload::Empty);
    assert!(UniqueNode::new(first).is_err());
}

#[test]
fn unique_ids_concatenate_node_and_counter() {
    let (mut u, init_ok) = UniqueNode::new(init::<UniquePayload>("n1")).unwrap();
    assert_eq!(init_ok.body.msg_id, Some(0));

    let out = u.reply(msg("c1", "n1", Some(4), UniquePayload::Generate)).unwrap();
    assert_eq!(out.len(), 1);
    assert_eq!(out[0].body.msg_id, Some(1));
    assert_eq!(out[0].body.in_reply_to, Some(4));
    match &out[0].body.payload {
        UniquePayload::GenerateOk { id } => assert_eq!(id, "n11"),
        _ => panic!("expected generate_ok"),
    }

    let out = u.reply(msg("c1", "n1", Some(5), UniquePayload::Generate)).unwrap();
    match &out[0].body.payload {
        UniquePayload::GenerateOk { id } => assert_eq!(id, "n12"),
        _ => panic!("expected generate_ok"),
    }
}

#[test]
fn unique_ids_distinct_within_and_across_nodes() {
    let mut ids: Vec<String> = Vec::new();
    for node_name in ["n1", "n2", "n3"] {
        let (mut u, _) = UniqueNode::new(init::<UniquePayload>(node_name)).unwrap();
        for k in 0..10 {
            let out = u.reply(msg("c1", node_name, Some(k), UniquePayload::Generate)).unwrap();
            match &out[0].body.payload {
                UniquePayload::GenerateOk { id } => ids.push(id.clone()),
                _ => panic!("expected generate_ok"),
            }
        }
    }
    for i in 0..ids.len() {
        for j in 0..i {
            assert_ne!(ids[i], ids[j]);
        }
    }
}

fn broadcast_init(node_id: &str) -> BroadcastNode {
    let (mut n, _) = BroadcastNode::new(init::<BroadcastPayload>(node_id)).unwrap();
    let t = vec![
        ("n1".to_string(), vec!["n2".to_string()]),
        ("n2".to_string(), vec!["n1".to_string()]),
    ];
    let dest = node_id.to_string();
    n.reply(msg("c0", &dest, Some(2), BroadcastPayload::Topology { topology: t }))
        .unwrap();
    n
}

fn read_sorted(n: &mut BroadcastNode) -> Vec<usize> {
    let dest = n.id.clone();
    let out = n.reply(msg("c9", &dest, Some(99), BroadcastPayload::Read)).unwrap();
    match &out[0].body.payload {
        BroadcastPayload::ReadOk { messages } => {
            let mut v = messages.clone();
            v.sort();
            v
        }
        _ => panic!("expected read_ok"),
    }
}

#[test]
fn values_only_grow() {
    let mut n1 = broadcast_init("n1");
    let mut seen: Vec<usize> = Vec::new();
    let steps: Vec<BroadcastPayload> = vec![
        BroadcastPayload::Broadcast { message: 3 },
        BroadcastPayload::Gossip { messages: vec![1, 3] },
        BroadcastPayload::TriggerGossip,
        BroadcastPayload::Broadcast { message: 2 },
        BroadcastPayload::Share { known: vec![("n2".to_string(), vec![1])] },
    ];
    for (k, payload) in steps.into_iter().enumerate() {
        n1.reply(msg("n2", "n1", Some(10 + k), payload)).unwrap();
        let now = read_sorted(&mut n1);
        for v in &seen {
            assert!(now.contains(v), "a value disappeared from the set");
        }
        seen = now;
    }
}

#[test]
fn two_nodes_converge_to_the_union() {
    let mut n1 = broadcast_init("n1");
    let mut n2 = broadcast_init("n2");

    n1.reply(msg("c1", "n1", Some(3), BroadcastPayload::Broadcast { message: 10 }))
        .unwrap();
    n2.reply(msg("c2", "n2", Some(3), BroadcastPayload::Broadcast { message: 20 }))
        .unwrap();

    // A few rounds of ticks with every inter-node envelope delivered.
    for _ in 0..3 {
        let mut wire: Vec<Message<BroadcastPayload>> = Vec::new();
        wire.extend(n1.reply(msg("n1", "n1", None, BroadcastPayload::TriggerGossip)).unwrap());
        wire.extend(n2.reply(msg("n2", "n2", None, BroadcastPayload::TriggerGossip)).unwrap());
        while let Some(envelope) = wire.pop() {
            let more = if envelope.dest == "n1" {
                n1.reply(envelope).unwrap()
            } else if envelope.dest == "n2" {
                n2.reply(envelope).unwrap()
            } else {
                Vec::new()
            };
            wire.extend(more);
        }
    }

    assert_eq!(read_sorted(&mut n1), vec![10, 20]);
    assert_eq!(read_sorted(&mut n2), vec![10, 20]);
}
