use maelstrom_client::log::{
    append_entry, commit_update, committed_key, poll_entries, poll_value, CommitSession, SendSession,
};
use maelstrom_client::message::{MessageType, Value};

#[test]
fn sends_get_successive_offsets() {
    let (o0, v) = append_entry(Value::Null, 10);
    let (o1, v) = append_entry(v, 11);
    let (o2, v) = append_entry(v, 12);
    assert_eq!((o0, o1, o2), (0, 1, 2));
    assert_eq!(v, Value::Vec(vec![10, 11, 12]));
}

#[test]
fn poll_from_offset_two() {
    let data = vec![10, 11, 12, 13];
    assert_eq!(poll_entries(&data, 2), vec![(2, 12), (3, 13)]);
    assert_eq!(poll_entries(&data, 0).len(), 4);
    assert_eq!(poll_entries(&data, -3).len(), 4);
    assert!(poll_entries(&data, 9).is_empty());
}

#[test]
fn poll_of_missing_log_is_nothing() {
    assert_eq!(poll_value(Value::Null, 0), None);
    assert_eq!(poll_value(Value::Vec(vec![4, 5]), 1), Some(vec![(1, 5)]));
}

#[test]
fn commits_never_regress() {
    let mut stored = Value::Null;
    if let Some(o) = commit_update(stored.clone(), 3) {
        stored = Value::Int(o);
    }
    assert_eq!(stored, Value::Int(3));
    assert_eq!(commit_update(stored.clone(), 1), None);
    assert_eq!(commit_update(stored.clone(), 3), None);
    assert_eq!(commit_update(stored, 4), Some(4));
}

#[test]
fn committed_key_is_derived() {
    assert_eq!(committed_key("k1"), "k1-committed");
}

fn lock_cas(from: Value, to: Value) -> MessageType {
    MessageType::Cas { key: "lock".to_string(), from, to, create_if_not_exists: Some(true) }
}

fn me() -> Value {
    Value::String("n1".to_string())
}

#[test]
fn send_session_runs_under_the_lock() {
    let (mut s, step) = SendSession::start("n1", "k".to_string(), 9);
    assert_eq!(step.reply, None);
    assert_eq!(step.request.unwrap().msg_type, lock_cas(Value::Null, me()));
    let refused = MessageType::Error { code: 22, text: "held".to_string() };
    let step = s.on_reply(refused);
    assert_eq!(step.request.unwrap().msg_type, lock_cas(Value::Null, me()));
    let step = s.on_reply(MessageType::CasOk);
    assert_eq!(step.request.unwrap().msg_type, MessageType::Read { key: Some("k".to_string()) });
    let step = s.on_reply(MessageType::ReadOk { messages: None, value: Some(Value::Vec(vec![4, 5])) });
    assert_eq!(step.reply, None);
    assert_eq!(
        step.request.unwrap().msg_type,
        MessageType::Write { key: "k".to_string(), value: Value::Vec(vec![4, 5, 9]) }
    );
    let step = s.on_reply(MessageType::WriteOk);
    assert_eq!(step.reply, Some(MessageType::SendOk { offset: 2 }));
    assert_eq!(step.request.unwrap().msg_type, lock_cas(me(), Value::Null));
    let step = s.on_reply(MessageType::CasOk);
    assert!(step.reply.is_none() && step.request.is_none());
}

#[test]
fn send_session_on_missing_log_gets_offset_zero() {
    let (mut s, _) = SendSession::start("n1", "k".to_string(), 9);
    s.on_reply(MessageType::CasOk);
    let step = s.on_reply(MessageType::Error { code: 20, text: "not found".to_string() });
    assert_eq!(step.request.unwrap().msg_type, MessageType::Write { key: "k".to_string(), value: Value::Vec(vec![9]) });
    let step = s.on_reply(MessageType::WriteOk);
    assert_eq!(step.reply, Some(MessageType::SendOk { offset: 0 }));
}

#[test]
fn commit_session_writes_only_larger_offsets() {
    let offsets = vec![("a".to_string(), 3), ("b".to_string(), 1)];
    let (mut s, step) = CommitSession::start("n1", offsets);
    assert_eq!(step.request.unwrap().msg_type, lock_cas(Value::Null, me()));
    let step = s.on_reply(MessageType::CasOk);
    assert_eq!(step.request.unwrap().msg_type, MessageType::Read { key: Some("a-committed".to_string()) });
    let step = s.on_reply(MessageType::ReadOk { messages: None, value: Some(Value::Int(1)) });
    assert_eq!(
        step.request.unwrap().msg_type,
        MessageType::Write { key: "a-committed".to_string(), value: Value::Int(3) }
    );
    let step = s.on_reply(MessageType::WriteOk);
    assert_eq!(step.request.unwrap().msg_type, MessageType::Read { key: Some("b-committed".to_string()) });
    let step = s.on_reply(MessageType::ReadOk { messages: None, value: Some(Value::Int(3)) });
    assert_eq!(step.reply, Some(MessageType::CommitOffsetsOk));
    assert_eq!(step.request.unwrap().msg_type, lock_cas(me(), Value::Null));
    let step = s.on_reply(MessageType::CasOk);
    assert!(step.reply.is_none() && step.request.is_none());
}

#[test]
fn commit_session_with_no_keys_replies_at_once() {
    let (mut s, _) = CommitSession::start("n1", vec![]);
    let step = s.on_reply(MessageType::CasOk);
    assert_eq!(step.reply, Some(MessageType::CommitOffsetsOk));
    assert_eq!(step.request.unwrap().msg_type, lock_cas(me(), Value::Null));
}
