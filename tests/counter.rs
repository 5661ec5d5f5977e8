use maelstrom_client::counter::{add_to_register, register_value, sum_ints, CounterNode};
use maelstrom_client::message::{Message, MessageBody, MessageType, Value};

fn ids() -> Vec<String> {
    vec!["a".to_string(), "b".to_string(), "a".to_string()]
}

#[test]
fn new_counter_reads_zero() {
    let c = CounterNode::new(&ids());
    assert_eq!(c.read(), Some(0));
}

#[test]
fn add_returns_absolute_value() {
    let mut c = CounterNode::new(&ids());
    assert_eq!(c.add("a", 5), Some(5));
    assert_eq!(c.add("a", 3), Some(8));
    assert_eq!(c.add("zz", 3), None);
    assert_eq!(c.read(), Some(8));
}

#[test]
fn add_overflow_changes_nothing() {
    let mut c = CounterNode::new(&ids());
    assert_eq!(c.add("a", i64::MAX), Some(i64::MAX));
    assert_eq!(c.add("a", 1), None);
    assert_eq!(c.read(), Some(i64::MAX));
}

#[test]
fn reordered_merge_keeps_maximum() {
    let mut b = CounterNode::new(&ids());
    b.merge("a", 8);
    b.merge("a", 5);
    b.merge("a", 8);
    assert_eq!(b.read(), Some(8));
    b.add("b", 2);
    assert_eq!(b.read(), Some(10));
}

#[test]
fn merge_order_does_not_matter() {
    let mut x = CounterNode::new(&ids());
    let mut y = CounterNode::new(&ids());
    for v in [5, 8, 8, 3] {
        x.merge("a", v);
    }
    for v in [3, 8, 5] {
        y.merge("a", v);
    }
    assert_eq!(x.read(), y.read());
    assert_eq!(x.read(), Some(8));
}

#[test]
fn sum_ints_detects_overflow() {
    assert_eq!(sum_ints(&vec![]), Some(0));
    assert_eq!(sum_ints(&vec![1, 2, 3]), Some(6));
    assert_eq!(sum_ints(&vec![i64::MAX, 1]), None);
    assert_eq!(sum_ints(&vec![i64::MAX, 1, -1]), Some(i64::MAX));
}

#[test]
fn register_arithmetic() {
    assert_eq!(register_value(Value::Int(4)), 4);
    assert_eq!(register_value(Value::Null), 0);
    assert_eq!(add_to_register(Value::Int(4), 3), Some(Value::Int(7)));
    assert_eq!(add_to_register(Value::Null, 3), Some(Value::Int(3)));
    assert_eq!(add_to_register(Value::Int(i64::MAX), 1), None);
}

fn msg(src: &str, dest: &str, msg_type: MessageType) -> Message {
    Message { src: src.to_string(), dest: dest.to_string(), body: MessageBody::with_type(msg_type) }
}

#[test]
fn handle_add_sends_absolute_value_to_others() {
    let ids = vec!["a".to_string(), "b".to_string(), "c".to_string()];
    let mut c = CounterNode::new(&ids);
    let r = c.handle("a", &ids, &msg("client", "a", MessageType::Add { delta: 5 }));
    assert_eq!(r.reply, Some(MessageType::AddOk));
    assert_eq!(
        r.outgoing,
        vec![
            ("b".to_string(), MessageType::Broadcast { message: 5 }),
            ("c".to_string(), MessageType::Broadcast { message: 5 }),
        ]
    );
    let r = c.handle("a", &ids, &msg("client", "a", MessageType::Add { delta: 3 }));
    assert_eq!(r.outgoing[0].1, MessageType::Broadcast { message: 8 });
}

#[test]
fn handle_merge_and_read() {
    let ids = vec!["a".to_string(), "b".to_string()];
    let mut b = CounterNode::new(&ids);
    let r = b.handle("b", &ids, &msg("a", "b", MessageType::Broadcast { message: 8 }));
    assert_eq!(r.reply, None);
    assert!(r.outgoing.is_empty());
    b.handle("b", &ids, &msg("a", "b", MessageType::Broadcast { message: 5 }));
    let r = b.handle("b", &ids, &msg("client", "b", MessageType::Read { key: None }));
    assert_eq!(r.reply, Some(MessageType::ReadOk { messages: None, value: Some(Value::Int(8)) }));
}
