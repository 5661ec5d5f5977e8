use maelstrom_client::message::{MessageBody, MessageType, Transaction, TxnDecodeError, Value};

#[test]
fn with_type_has_no_ids() {
    let b = MessageBody::with_type(MessageType::InitOk);
    assert_eq!(b.msg_id, None);
    assert_eq!(b.in_reply_to, None);
    assert_eq!(b.msg_type, MessageType::InitOk);
}

#[test]
fn as_int_reads_integers_only() {
    assert_eq!(Value::Int(7).as_int(), Some(7));
    assert_eq!(Value::Null.as_int(), None);
    assert_eq!(Value::Vec(vec![1]).as_int(), None);
}

#[test]
fn as_vec_reads_vectors_only() {
    assert_eq!(Value::Vec(vec![1, 2]).as_vec(), Some(vec![1, 2]));
    assert_eq!(Value::Int(3).as_vec(), None);
    assert_eq!(Value::String("x".to_string()).as_vec(), None);
}

#[test]
fn transaction_serializes_to_three_fields() {
    let (op, key, val) = Transaction::Read { key: 4, val: Value::Null }.serialize();
    assert_eq!((op.as_str(), key, val), ("r", 4, Value::Null));
    let (op, key, val) = Transaction::Write { key: 2, value: 5 }.serialize();
    assert_eq!((op.as_str(), key, val), ("w", 2, Value::Int(5)));
    let (op, key, val) = Transaction::Append { key: 9, value: -1 }.serialize();
    assert_eq!((op.as_str(), key, val), ("append", 9, Value::Int(-1)));
}

#[test]
fn transaction_round_trips() {
    let ops = vec![
        Transaction::Read { key: 1, val: Value::Vec(vec![3]) },
        Transaction::Write { key: 2, value: 8 },
        Transaction::Append { key: 3, value: 9 },
    ];
    for t in ops {
        let (op, key, val) = t.clone().serialize();
        assert_eq!(Transaction::deserialize(&op, key, val), Ok(t));
    }
}

#[test]
fn transaction_decode_errors() {
    assert_eq!(Transaction::deserialize("x", 1, Value::Int(1)), Err(TxnDecodeError::InvalidOp));
    assert_eq!(Transaction::deserialize("w", 1, Value::Null), Err(TxnDecodeError::NotAnInteger));
    assert_eq!(Transaction::deserialize("append", 1, Value::Vec(vec![])), Err(TxnDecodeError::NotAnInteger));
    assert_eq!(
        Transaction::deserialize("r", 1, Value::Null),
        Ok(Transaction::Read { key: 1, val: Value::Null })
    );
}
