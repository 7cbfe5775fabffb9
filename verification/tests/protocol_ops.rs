//! The envelope builder, the init handshake's refusals, and the broadcast
//! node's behaviour on edge-case inputs.

use dist_systems_challenge::BroadcastNode;
use dist_systems_challenge::BroadcastPayload;
use dist_systems_challenge::InitPayload;
use dist_systems_challenge::Message;
use dist_systems_challenge::MessageBuilder;
use dist_systems_challenge::MsgBody;
use dist_systems_challenge::Node;
use dist_systems_challenge::NodeError;

fn msg<P>(src: &str, dest: &str, msg_id: Option<usize>, payload: P) -> Message<P> {
    Message {
        src: src.to_string(),
        dest: dest.to_string(),
        body: MsgBody { msg_id, in_reply_to: None, payload },
    }
}

#[test]
fn builder_assembles_all_parts() {
    let m: Message<InitPayload> = MessageBuilder::empty()
        .src("n1".to_string())
        .send_to("c9".to_string())
        .with_body(Some(4), Some(2), InitPayload::InitOk)
        .build();
    assert_eq!(m.src, "n1");
    assert_eq!(m.dest, "c9");
    assert_eq!(m.body.msg_id, Some(4));
    assert_eq!(m.body.in_reply_to, Some(2));
    assert!(matches!(m.body.payload, InitPayload::InitOk));
}

#[test]
fn into_reply_swaps_addresses_and_correlates() {
    let inbound = msg("c3", "n7", Some(11), InitPayload::Empty);
    let reply = inbound.into_reply(Some(5), InitPayload::InitOk).build();
    assert_eq!(reply.src, "n7");
    assert_eq!(reply.dest, "c3");
    assert_eq!(reply.body.msg_id, Some(5));
    assert_eq!(reply.body.in_reply_to, Some(11));
}

#[test]
fn redirect_keeps_source_and_body() {
    let inbound = msg("c3", "n7", Some(11), BroadcastPayload::Read);
    let redirected = inbound
        .into_reply(Some(6), BroadcastPayload::BroadcastOk)
        .send_to("n9".to_string())
        .build();
    assert_eq!(redirected.src, "n7");
    assert_eq!(redirected.dest, "n9");
    assert_eq!(redirected.body.in_reply_to, Some(11));
}

#[test]
fn non_init_first_message_is_refused() {
    let first = msg("c0", "n1", Some(1), InitPayload::InitOk);
    match BroadcastNode::new(first) {
        Err(NodeError::NotInit) => {}
        _ => panic!("a first message other than init must be refused"),
    }
}

#[test]
fn topology_without_self_is_refused() {
    let init = msg(
        "c0",
        "n1",
        Some(1),
        InitPayload::Init { node_id: "n1".to_string(), node_ids: vec!["n1".to_string()] },
    );
    let (mut n1, _) = BroadcastNode::new(init).unwrap();
    let t = vec![("n2".to_string(), vec!["n1".to_string()])];
    match n1.reply(msg("c0", "n1", Some(2), BroadcastPayload::Topology { topology: t })) {
        Err(NodeError::SelfNotInTopology) => {}
        _ => panic!("a topology that omits the node must be refused"),
    }
}

#[test]
fn broadcast_before_topology_stores_without_fanout() {
    let init = msg(
        "c0",
        "n1",
        Some(1),
        InitPayload::Init { node_id: "n1".to_string(), node_ids: vec!["n1".to_string()] },
    );
    let (mut n1, _) = BroadcastNode::new(init).unwrap();
    let out = n1
        .reply(msg("c1", "n1", Some(2), BroadcastPayload::Broadcast { message: 9 }))
        .unwrap();
    assert_eq!(out.len(), 1);
    assert!(matches!(out[0].body.payload, BroadcastPayload::BroadcastOk));

    let out = n1.reply(msg("c1", "n1", Some(3), BroadcastPayload::Read)).unwrap();
    match &out[0].body.payload {
        BroadcastPayload::ReadOk { messages } => assert_eq!(messages, &vec![9]),
        _ => panic!("expected read_ok"),
    }
}

#[test]
fn gossip_before_topology_stores_without_fanout() {
    let init = msg(
        "c0",
        "n1",
        Some(1),
        InitPayload::Init { node_id: "n1".to_string(), node_ids: vec!["n1".to_string()] },
    );
    let (mut n1, _) = BroadcastNode::new(init).unwrap();
    let out = n1
        .reply(msg("n2", "n1", Some(1), BroadcastPayload::Gossip { messages: vec![3, 4] }))
        .unwrap();
    assert_eq!(out.len(), 0);

    let out = n1.reply(msg("c1", "n1", Some(2), BroadcastPayload::Read)).unwrap();
    match &out[0].body.payload {
        BroadcastPayload::ReadOk { messages } => assert_eq!(messages, &vec![3, 4]),
        _ => panic!("expected read_ok"),
    }
}

#[test]
fn inbound_acknowledgements_are_ignored() {
    let init = msg(
        "c0",
        "n1",
        Some(1),
        InitPayload::Init { node_id: "n1".to_string(), node_ids: vec!["n1".to_string()] },
    );
    let (mut n1, _) = BroadcastNode::new(init).unwrap();
    assert_eq!(n1.reply(msg("c1", "n1", None, BroadcastPayload::BroadcastOk)).unwrap().len(), 0);
    assert_eq!(n1.reply(msg("c1", "n1", None, BroadcastPayload::TopologyOk)).unwrap().len(), 0);
    assert_eq!(
        n1.reply(msg("c1", "n1", None, BroadcastPayload::ReadOk { messages: vec![8] }))
            .unwrap()
            .len(),
        0
    );
    // The stray read_ok changed nothing: the value set is still empty.
    let out = n1.reply(msg("c1", "n1", Some(2), BroadcastPayload::Read)).unwrap();
    match &out[0].body.payload {
        BroadcastPayload::ReadOk { messages } => assert!(messages.is_empty()),
        _ => panic!("expected read_ok"),
    }
}

#[test]
fn duplicate_values_in_gossip_are_stored_once() {
    let init = msg(
        "c0",
        "n1",
        Some(1),
        InitPayload::Init { node_id: "n1".to_string(), node_ids: vec!["n1".to_string()] },
    );
    let (mut n1, _) = BroadcastNode::new(init).unwrap();
    n1.reply(msg("n2", "n1", Some(1), BroadcastPayload::Gossip { messages: vec![5, 5, 5] }))
        .unwrap();
    let out = n1.reply(msg("c1", "n1", Some(2), BroadcastPayload::Read)).unwrap();
    match &out[0].body.payload {
        BroadcastPayload::ReadOk { messages } => assert_eq!(messages, &vec![5]),
        _ => panic!("expected read_ok"),
    }
}

#[test]
fn share_snapshot_suppresses_later_gossip() {
    let init = msg(
        "c0",
        "n1",
        Some(1),
        InitPayload::Init { node_id: "n1".to_string(), node_ids: vec!["n1".to_string()] },
    );
    let (mut n1, _) = BroadcastNode::new(init).unwrap();
    let t = vec![
        ("n1".to_string(), vec!["n2".to_string()]),
        ("n2".to_string(), vec!["n1".to_string()]),
    ];
    n1.reply(msg("c0", "n1", Some(2), BroadcastPayload::Topology { topology: t }))
        .unwrap();
    n1.reply(msg("c1", "n1", Some(3), BroadcastPayload::Broadcast { message: 5 }))
        .unwrap();

    // A third party's snapshot says n2 already holds 5.
    let known = vec![("n2".to_string(), vec![5])];
    let out = n1
        .reply(msg("n3", "n1", Some(4), BroadcastPayload::Share { known }))
        .unwrap();
    assert_eq!(out.len(), 0);

    let out = n1.reply(msg("n1", "n1", None, BroadcastPayload::TriggerGossip)).unwrap();
    for envelope in &out {
        assert!(!matches!(envelope.body.payload, BroadcastPayload::Gossip { .. }));
    }
}

#[test]
fn share_of_unheld_values_is_not_credited() {
    let init = msg(
        "c0",
        "n1",
        Some(1),
        InitPayload::Init { node_id: "n1".to_string(), node_ids: vec!["n1".to_string()] },
    );
    let (mut n1, _) = BroadcastNode::new(init).unwrap();
    let t = vec![
        ("n1".to_string(), vec!["n2".to_string()]),
        ("n2".to_string(), vec!["n1".to_string()]),
    ];
    n1.reply(msg("c0", "n1", Some(2), BroadcastPayload::Topology { topology: t }))
        .unwrap();

    // A snapshot claims n2 holds 9, but this node has never seen 9: the
    // claim is not recorded, so the view stays inside the value set.
    let known = vec![("n2".to_string(), vec![9])];
    n1.reply(msg("n3", "n1", Some(3), BroadcastPayload::Share { known }))
        .unwrap();

    // When the node later learns 9 itself, n2 is still owed it: the
    // broadcast fans out to n2, and so does the next tick.
    let out = n1
        .reply(msg("c1", "n1", Some(4), BroadcastPayload::Broadcast { message: 9 }))
        .unwrap();
    assert_eq!(out.len(), 2);
    assert_eq!(out[1].dest, "n2");
    match &out[1].body.payload {
        BroadcastPayload::Gossip { messages } => assert_eq!(messages, &vec![9]),
        _ => panic!("expected a gossip to n2"),
    }

    let out = n1.reply(msg("n1", "n1", None, BroadcastPayload::TriggerGossip)).unwrap();
    let gossips: Vec<_> = out
        .iter()
        .filter(|e| matches!(e.body.payload, BroadcastPayload::Gossip { .. }))
        .collect();
    assert_eq!(gossips.len(), 1);
    assert_eq!(gossips[0].dest, "n2");
    match &gossips[0].body.payload {
        BroadcastPayload::Gossip { messages } => assert_eq!(messages, &vec![9]),
        _ => unreachable!(),
    }
}
