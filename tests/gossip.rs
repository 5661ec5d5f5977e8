use maelstrom_client::gossip::{others, BatchedBroadcastNode, BroadcastNode};
use maelstrom_client::message::{Message, MessageBody, MessageType};

fn s(x: &str) -> String {
    x.to_string()
}

fn line_topology() -> Vec<(String, Vec<String>)> {
    vec![
        (s("a"), vec![s("b")]),
        (s("b"), vec![s("a"), s("c")]),
        (s("c"), vec![s("b")]),
    ]
}

#[test]
fn others_drops_the_sender() {
    let n = vec![s("a"), s("b"), s("c")];
    assert_eq!(others(&n, "b"), vec![s("a"), s("c")]);
    assert_eq!(others(&n, "z"), n);
}

#[test]
fn topology_unknown_node_is_refused() {
    let mut n = BroadcastNode::new();
    assert!(!n.set_topology("zz", &line_topology()));
    assert!(n.set_topology("b", &line_topology()));
}

#[test]
fn duplicate_broadcast_is_not_forwarded() {
    let mut n = BroadcastNode::new();
    n.set_topology("b", &line_topology());
    assert_eq!(n.receive(5, "a"), vec![s("c")]);
    assert_eq!(n.receive(5, "a"), Vec::<String>::new());
    assert_eq!(n.receive(5, "c"), Vec::<String>::new());
    assert_eq!(n.read(), vec![5]);
}

#[test]
fn line_topology_reaches_the_far_end() {
    let topo = line_topology();
    let mut a = BroadcastNode::new();
    let mut b = BroadcastNode::new();
    let mut c = BroadcastNode::new();
    a.set_topology("a", &topo);
    b.set_topology("b", &topo);
    c.set_topology("c", &topo);
    let from_a = a.receive(5, "client");
    assert_eq!(from_a, vec![s("b")]);
    let from_b = b.receive(5, "a");
    assert_eq!(from_b, vec![s("c")]);
    let from_c = c.receive(5, "b");
    assert!(from_c.is_empty());
    assert_eq!(c.read(), vec![5]);
}

#[test]
fn reordered_values_converge() {
    let topo = vec![(s("a"), vec![s("b")]), (s("b"), vec![s("a")])];
    let mut a = BroadcastNode::new();
    let mut b = BroadcastNode::new();
    a.set_topology("a", &topo);
    b.set_topology("b", &topo);
    a.receive(1, "c1");
    b.receive(2, "c2");
    b.receive(1, "a");
    a.receive(2, "b");
    let mut ra = a.read();
    let mut rb = b.read();
    ra.sort();
    rb.sort();
    assert_eq!(ra, vec![1, 2]);
    assert_eq!(ra, rb);
}

#[test]
fn batched_buffers_skip_sender() {
    let mut n = BatchedBroadcastNode::new();
    assert!(n.set_topology("b", &line_topology()));
    assert!(n.receive(7, "a"));
    assert!(!n.receive(7, "c"));
    let batches = n.flush();
    assert_eq!(batches, vec![(s("c"), vec![7])]);
    assert!(n.flush().is_empty());
}

#[test]
fn batched_many_adds_only_new_values() {
    let mut n = BatchedBroadcastNode::new();
    n.set_topology("b", &line_topology());
    n.receive(1, "client");
    let first = n.flush();
    assert_eq!(first, vec![(s("a"), vec![1]), (s("c"), vec![1])]);
    n.receive_many(&vec![1, 2, 3, 2], "a");
    let mut batches = n.flush();
    assert_eq!(batches.len(), 1);
    assert_eq!(batches[0].0, "c");
    batches[0].1.sort();
    assert_eq!(batches[0].1, vec![2, 3]);
    let mut seen = n.read();
    seen.sort();
    assert_eq!(seen, vec![1, 2, 3]);
}

#[test]
fn batched_line_scenario() {
    let topo = line_topology();
    let mut a = BatchedBroadcastNode::new();
    let mut b = BatchedBroadcastNode::new();
    let mut c = BatchedBroadcastNode::new();
    a.set_topology("a", &topo);
    b.set_topology("b", &topo);
    c.set_topology("c", &topo);
    a.receive(5, "client");
    for (dest, vals) in a.flush() {
        assert_eq!(dest, "b");
        b.receive_many(&vals, "a");
    }
    for (dest, vals) in b.flush() {
        assert_eq!(dest, "c");
        c.receive_many(&vals, "b");
    }
    assert!(c.flush().is_empty());
    assert_eq!(c.read(), vec![5]);
}

fn msg(src: &str, msg_type: MessageType) -> Message {
    Message { src: s(src), dest: s("b"), body: MessageBody::with_type(msg_type) }
}

#[test]
fn handle_broadcast_replies_and_forwards() {
    let mut n = BroadcastNode::new();
    let r = n.handle("b", &msg("x", MessageType::Topology { topology: line_topology() }));
    assert_eq!(r.reply, Some(MessageType::TopologyOk));
    assert!(r.outgoing.is_empty());
    let r = n.handle("b", &msg("a", MessageType::Broadcast { message: 4 }));
    assert_eq!(r.reply, Some(MessageType::BroadcastOk));
    assert_eq!(r.outgoing, vec![(s("c"), MessageType::Broadcast { message: 4 })]);
    let r = n.handle("b", &msg("a", MessageType::Broadcast { message: 4 }));
    assert_eq!(r.reply, Some(MessageType::BroadcastOk));
    assert!(r.outgoing.is_empty());
    let r = n.handle("b", &msg("c1", MessageType::Read { key: None }));
    assert_eq!(r.reply, Some(MessageType::ReadOk { messages: Some(vec![4]), value: None }));
    let r = n.handle("b", &msg("c1", MessageType::Generate));
    assert_eq!(r.reply, None);
}

#[test]
fn handle_topology_without_node_gets_no_reply() {
    let mut n = BroadcastNode::new();
    let r = n.handle("q", &msg("x", MessageType::Topology { topology: line_topology() }));
    assert_eq!(r.reply, None);
    let mut m = BatchedBroadcastNode::new();
    assert_eq!(m.handle("q", &msg("x", MessageType::Topology { topology: line_topology() })), None);
}

#[test]
fn handle_batched_buffers_until_flush() {
    let mut n = BatchedBroadcastNode::new();
    n.handle("b", &msg("x", MessageType::Topology { topology: line_topology() }));
    assert_eq!(n.handle("b", &msg("a", MessageType::Broadcast { message: 1 })), Some(MessageType::BroadcastOk));
    assert_eq!(
        n.handle("b", &msg("c", MessageType::BroadcastMany { messages: vec![1, 2] })),
        Some(MessageType::BroadcastManyOk)
    );
    let batches = n.flush();
    assert_eq!(batches, vec![(s("a"), vec![2]), (s("c"), vec![1])]);
}
