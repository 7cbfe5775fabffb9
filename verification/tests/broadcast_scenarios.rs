//! End-to-end scenarios for the broadcast node, driven message by message.

use dist_systems_challenge::BroadcastNode;
use dist_systems_challenge::BroadcastPayload;
use dist_systems_challenge::InitPayload;
use dist_systems_challenge::Message;
use dist_systems_challenge::MsgBody;
use dist_systems_challenge::Node;

fn msg<P>(src: &str, dest: &str, msg_id: Option<usize>, payload: P) -> Message<P> {
    Message {
        src: src.to_string(),
        dest: dest.to_string(),
        body: MsgBody { msg_id, in_reply_to: None, payload },
    }
}

fn init_node(node_id: &str) -> BroadcastNode {
    let init = msg(
        "c0",
        node_id,
        Some(1),
        InitPayload::Init { node_id: node_id.to_string(), node_ids: vec![node_id.to_string()] },
    );
    let (node, init_ok) = BroadcastNode::new(init).unwrap();
    assert_eq!(init_ok.body.msg_id, Some(0));
    node
}

fn topology(node: &mut BroadcastNode, entries: Vec<(&str, Vec<&str>)>) {
    let t: Vec<(String, Vec<String>)> = entries
        .into_iter()
        .map(|(k, v)| (k.to_string(), v.into_iter().map(|s| s.to_string()).collect()))
        .collect();
    let dest = node.id.clone();
    let out = node
        .reply(msg("c0", &dest, Some(2), BroadcastPayload::Topology { topology: t }))
        .unwrap();
    assert_eq!(out.len(), 1);
    assert_eq!(out[0].body.msg_id, None);
    assert_eq!(out[0].body.in_reply_to, Some(2));
    assert!(matches!(out[0].body.payload, BroadcastPayload::TopologyOk));
}

#[test]
fn init_handshake() {
    let init = msg(
        "c0",
        "n1",
        Some(1),
        InitPayload::Init { node_id: "n1".to_string(), node_ids: vec!["n1".to_string()] },
    );
    let (node, init_ok) = BroadcastNode::new(init).unwrap();
    assert_eq!(node.id, "n1");
    assert_eq!(init_ok.src, "n1");
    assert_eq!(init_ok.dest, "c0");
    assert_eq!(init_ok.body.msg_id, Some(0));
    assert_eq!(init_ok.body.in_reply_to, Some(1));
    assert!(matches!(init_ok.body.payload, InitPayload::InitOk));
}

#[test]
fn single_node_broadcast_round_trip() {
    let mut n1 = init_node("n1");
    topology(&mut n1, vec![("n1", vec![])]);

    let out = n1
        .reply(msg("c1", "n1", Some(7), BroadcastPayload::Broadcast { message: 42 }))
        .unwrap();
    assert_eq!(out.len(), 1);
    assert_eq!(out[0].src, "n1");
    assert_eq!(out[0].dest, "c1");
    assert_eq!(out[0].body.msg_id, Some(1));
    assert_eq!(out[0].body.in_reply_to, Some(7));
    assert!(matches!(out[0].body.payload, BroadcastPayload::BroadcastOk));

    let out = n1.reply(msg("c1", "n1", Some(8), BroadcastPayload::Read)).unwrap();
    assert_eq!(out.len(), 1);
    assert_eq!(out[0].body.in_reply_to, Some(8));
    match &out[0].body.payload {
        BroadcastPayload::ReadOk { messages } => assert_eq!(messages, &vec![42]),
        _ => panic!("expected read_ok"),
    }
}

#[test]
fn two_node_gossip_fanout() {
    let mut n1 = init_node("n1");
    topology(&mut n1, vec![("n1", vec!["n2"]), ("n2", vec!["n1"])]);

    let out = n1
        .reply(msg("c1", "n1", Some(3), BroadcastPayload::Broadcast { message: 5 }))
        .unwrap();
    // The acknowledgement comes first, then the fan-out, before any tick.
    assert_eq!(out.len(), 2);
    assert_eq!(out[0].dest, "c1");
    assert!(matches!(out[0].body.payload, BroadcastPayload::BroadcastOk));
    assert_eq!(out[1].src, "n1");
    assert_eq!(out[1].dest, "n2");
    match &out[1].body.payload {
        BroadcastPayload::Gossip { messages } => assert_eq!(messages, &vec![5]),
        _ => panic!("expected a gossip to n2"),
    }
    // Nothing in the batch is a read answer: the ack is observable first.
    for envelope in &out {
        assert!(!matches!(envelope.body.payload, BroadcastPayload::ReadOk { .. }));
    }
}

#[test]
fn no_retransmit_after_confirmation() {
    let mut n1 = init_node("n1");
    topology(&mut n1, vec![("n1", vec!["n2"]), ("n2", vec!["n1"])]);
    n1.reply(msg("c1", "n1", Some(3), BroadcastPayload::Broadcast { message: 5 }))
        .unwrap();

    // Evidence that n2 holds 5: a gossip from n2 carrying 5 credits n2.
    n1.reply(msg("n2", "n1", Some(1), BroadcastPayload::Gossip { messages: vec![5] }))
        .unwrap();

    for _ in 0..3 {
        let out = n1.reply(msg("n1", "n1", None, BroadcastPayload::TriggerGossip)).unwrap();
        for envelope in &out {
            assert!(
                !matches!(envelope.body.payload, BroadcastPayload::Gossip { .. }),
                "value 5 was re-sent after confirmation"
            );
        }
    }
}

#[test]
fn retransmit_under_loss() {
    let mut n1 = init_node("n1");
    topology(&mut n1, vec![("n1", vec!["n2"]), ("n2", vec!["n1"])]);
    n1.reply(msg("c1", "n1", Some(3), BroadcastPayload::Broadcast { message: 5 }))
        .unwrap();

    // No acknowledgement ever arrives: every tick re-emits 5 towards n2.
    for _ in 0..3 {
        let out = n1.reply(msg("n1", "n1", None, BroadcastPayload::TriggerGossip)).unwrap();
        let gossips: Vec<_> = out
            .iter()
            .filter(|e| matches!(e.body.payload, BroadcastPayload::Gossip { .. }))
            .collect();
        assert_eq!(gossips.len(), 1);
        assert_eq!(gossips[0].dest, "n2");
        match &gossips[0].body.payload {
            BroadcastPayload::Gossip { messages } => assert!(messages.contains(&5)),
            _ => unreachable!(),
        }
    }
}

#[test]
fn topology_overwrite() {
    let mut n1 = init_node("n1");
    topology(&mut n1, vec![("n1", vec!["n2"]), ("n2", vec!["n1"])]);
    n1.reply(msg("c1", "n1", Some(3), BroadcastPayload::Broadcast { message: 5 }))
        .unwrap();

    // A second topology replaces the peer list; views for n2 are forgotten.
    topology(&mut n1, vec![("n1", vec!["n3"]), ("n3", vec!["n1"])]);

    let out = n1.reply(msg("n1", "n1", None, BroadcastPayload::TriggerGossip)).unwrap();
    assert!(!out.is_empty());
    for envelope in &out {
        assert_eq!(envelope.dest, "n3");
    }
    let gossips: Vec<_> = out
        .iter()
        .filter(|e| matches!(e.body.payload, BroadcastPayload::Gossip { .. }))
        .collect();
    assert_eq!(gossips.len(), 1);
    match &gossips[0].body.payload {
        BroadcastPayload::Gossip { messages } => assert_eq!(messages, &vec![5]),
        _ => unreachable!(),
    }
}
