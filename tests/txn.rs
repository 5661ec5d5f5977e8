use maelstrom_client::kv::{cas_request, is_cas_ok, lock_request, read_request, read_value, write_request};
use maelstrom_client::message::{MessageType, Transaction, Value};
use maelstrom_client::txn::{
    apply_txn, fill_read, register_request, txn_committed, txn_reply, RegisterSession, TxnError, TxnSession,
    TXN_CONFLICT,
};

#[test]
fn read_then_append_in_one_root() {
    let root = Value::Dict(vec![("4".to_string(), vec![1, 2])]);
    let txn = vec![
        Transaction::Read { key: 4, val: Value::Null },
        Transaction::Append { key: 4, value: 9 },
    ];
    let (out, new_root) = apply_txn(&root, txn).unwrap();
    assert_eq!(out[0], Transaction::Read { key: 4, val: Value::Vec(vec![1, 2]) });
    assert_eq!(out[1], Transaction::Append { key: 4, value: 9 });
    assert_eq!(new_root, Value::Dict(vec![("4".to_string(), vec![1, 2, 9])]));
}

#[test]
fn append_creates_missing_key() {
    let txn = vec![
        Transaction::Append { key: 12, value: 9 },
        Transaction::Read { key: 12, val: Value::Null },
        Transaction::Write { key: 3, value: 1 },
    ];
    let (out, new_root) = apply_txn(&Value::Null, txn).unwrap();
    assert_eq!(out[1], Transaction::Read { key: 12, val: Value::Vec(vec![9]) });
    assert_eq!(out[2], Transaction::Write { key: 3, value: 1 });
    assert_eq!(new_root, Value::Dict(vec![("12".to_string(), vec![9])]));
}

#[test]
fn read_of_missing_key_fails() {
    let txn = vec![
        Transaction::Read { key: 1, val: Value::Null },
        Transaction::Append { key: 1, value: 9 },
    ];
    assert_eq!(apply_txn(&Value::Null, txn), Err(TxnError::MissingKey));
}

#[test]
fn conflict_aborts_with_code() {
    assert!(!txn_committed(&MessageType::Error { code: 22, text: "x".to_string() }));
    assert!(txn_committed(&MessageType::CasOk));
    match txn_reply(false, vec![]) {
        MessageType::Error { code, .. } => assert_eq!(code, TXN_CONFLICT),
        other => panic!("unexpected {:?}", other),
    }
    assert_eq!(txn_reply(true, vec![]), MessageType::TxnOk { txn: vec![] });
    assert_eq!(TXN_CONFLICT, 30);
}

#[test]
fn register_requests_use_decimal_keys() {
    let r = register_request(&Transaction::Read { key: 120, val: Value::Null }).unwrap();
    assert_eq!(r.msg_type, MessageType::Read { key: Some("120".to_string()) });
    let w = register_request(&Transaction::Write { key: 7, value: -2 }).unwrap();
    assert_eq!(w.msg_type, MessageType::Write { key: "7".to_string(), value: Value::Int(-2) });
    assert!(register_request(&Transaction::Append { key: 7, value: 1 }).is_none());
}

#[test]
fn fill_read_takes_reply_value() {
    let ok = MessageType::ReadOk { messages: None, value: Some(Value::Int(3)) };
    assert_eq!(
        fill_read(&Transaction::Read { key: 1, val: Value::Null }, ok.clone()),
        Transaction::Read { key: 1, val: Value::Int(3) }
    );
    let missing = MessageType::Error { code: 20, text: "not found".to_string() };
    assert_eq!(
        fill_read(&Transaction::Read { key: 1, val: Value::Int(5) }, missing),
        Transaction::Read { key: 1, val: Value::Null }
    );
    assert_eq!(fill_read(&Transaction::Write { key: 1, value: 2 }, ok), Transaction::Write { key: 1, value: 2 });
}

#[test]
fn lock_requests_swap_between_absent_and_self() {
    let acq = lock_request("n1", true);
    assert_eq!(
        acq.msg_type,
        MessageType::Cas {
            key: "lock".to_string(),
            from: Value::Null,
            to: Value::String("n1".to_string()),
            create_if_not_exists: Some(true),
        }
    );
    let rel = lock_request("n1", false);
    assert_eq!(
        rel.msg_type,
        MessageType::Cas {
            key: "lock".to_string(),
            from: Value::String("n1".to_string()),
            to: Value::Null,
            create_if_not_exists: Some(true),
        }
    );
    assert!(is_cas_ok(&MessageType::CasOk));
    assert!(!is_cas_ok(&MessageType::Error { code: 22, text: String::new() }));
}

#[test]
fn store_requests_and_replies() {
    assert_eq!(read_request("k".to_string()).msg_type, MessageType::Read { key: Some("k".to_string()) });
    assert_eq!(
        write_request("k".to_string(), Value::Int(1)).msg_type,
        MessageType::Write { key: "k".to_string(), value: Value::Int(1) }
    );
    let c = cas_request("root".to_string(), Value::Null, Value::Int(1));
    assert_eq!(
        c.msg_type,
        MessageType::Cas { key: "root".to_string(), from: Value::Null, to: Value::Int(1), create_if_not_exists: Some(true) }
    );
    assert_eq!(read_value(MessageType::ReadOk { messages: None, value: Some(Value::Vec(vec![1])) }), Value::Vec(vec![1]));
    assert_eq!(read_value(MessageType::ReadOk { messages: None, value: None }), Value::Null);
    assert_eq!(read_value(MessageType::CasOk), Value::Null);
}

fn lock_cas(from: Value, to: Value) -> MessageType {
    MessageType::Cas { key: "lock".to_string(), from, to, create_if_not_exists: Some(true) }
}

#[test]
fn txn_session_commits_on_accepted_swap() {
    let txn = vec![Transaction::Read { key: 4, val: Value::Null }, Transaction::Append { key: 4, value: 9 }];
    let (mut s, step) = TxnSession::start(txn);
    assert_eq!(step.request.unwrap().msg_type, MessageType::Read { key: Some("root".to_string()) });
    let root = Value::Dict(vec![("4".to_string(), vec![1])]);
    let step = s.on_reply(MessageType::ReadOk { messages: None, value: Some(root.clone()) });
    assert_eq!(
        step.request.unwrap().msg_type,
        MessageType::Cas {
            key: "root".to_string(),
            from: root,
            to: Value::Dict(vec![("4".to_string(), vec![1, 9])]),
            create_if_not_exists: Some(true),
        }
    );
    let step = s.on_reply(MessageType::CasOk);
    assert_eq!(
        step.reply,
        Some(MessageType::TxnOk {
            txn: vec![
                Transaction::Read { key: 4, val: Value::Vec(vec![1]) },
                Transaction::Append { key: 4, value: 9 },
            ]
        })
    );
    assert!(step.request.is_none());
}

#[test]
fn txn_session_aborts_on_refused_swap() {
    let (mut s, _) = TxnSession::start(vec![Transaction::Append { key: 1, value: 2 }]);
    s.on_reply(MessageType::ReadOk { messages: None, value: Some(Value::Null) });
    let step = s.on_reply(MessageType::Error { code: 22, text: "cas mismatch".to_string() });
    match step.reply {
        Some(MessageType::Error { code, .. }) => assert_eq!(code, 30),
        other => panic!("unexpected {:?}", other),
    }
}

#[test]
fn txn_session_missing_read_ends_silently() {
    let (mut s, _) = TxnSession::start(vec![Transaction::Read { key: 1, val: Value::Null }]);
    let step = s.on_reply(MessageType::Error { code: 20, text: "not found".to_string() });
    assert!(step.reply.is_none() && step.request.is_none());
}

#[test]
fn register_session_runs_each_operation_under_lock() {
    let txn = vec![
        Transaction::Append { key: 5, value: 1 },
        Transaction::Read { key: 2, val: Value::Null },
        Transaction::Write { key: 3, value: 7 },
    ];
    let (mut s, step) = RegisterSession::start("n1", txn);
    assert_eq!(step.request.unwrap().msg_type, lock_cas(Value::Null, Value::String("n1".to_string())));
    let step = s.on_reply(MessageType::CasOk);
    assert_eq!(step.request.unwrap().msg_type, MessageType::Read { key: Some("2".to_string()) });
    let step = s.on_reply(MessageType::ReadOk { messages: None, value: Some(Value::Int(6)) });
    assert_eq!(step.request.unwrap().msg_type, MessageType::Write { key: "3".to_string(), value: Value::Int(7) });
    let step = s.on_reply(MessageType::WriteOk);
    assert_eq!(
        step.reply,
        Some(MessageType::TxnOk {
            txn: vec![
                Transaction::Append { key: 5, value: 1 },
                Transaction::Read { key: 2, val: Value::Int(6) },
                Transaction::Write { key: 3, value: 7 },
            ]
        })
    );
    assert_eq!(step.request.unwrap().msg_type, lock_cas(Value::String("n1".to_string()), Value::Null));
    let step = s.on_reply(MessageType::CasOk);
    assert!(step.reply.is_none() && step.request.is_none());
}
