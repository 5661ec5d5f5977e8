use vstd::prelude::*;
use vstd::string::*;

verus! {

/// One message on the wire: who sent it, who it is for, and what it says.
#[derive(Debug, Clone, PartialEq)]
pub struct Message {
    pub src: String,
    pub dest: String,
    pub body: MessageBody,
}

/// The body of a message: the envelope fields and one payload.
#[derive(Debug, Clone, PartialEq)]
pub struct MessageBody {
    /// Present on a message that expects a reply.
    pub msg_id: Option<u64>,
    /// On a reply, the `msg_id` of the request it answers.
    pub in_reply_to: Option<u64>,
    pub msg_type: MessageType,
}

impl MessageBody {
    /// A body with the given payload and no envelope identifiers.
    pub fn with_type(msg_type: MessageType) -> (r: Self)
        ensures
            r.msg_id is None,
            r.in_reply_to is None,
            r.msg_type == msg_type,
    {
        Self { msg_id: None, in_reply_to: None, msg_type }
    }
}

/// The payload variants. Sets of values travel as vectors without repeats,
/// maps as vectors of key/value pairs.
#[derive(Debug, Clone, PartialEq)]
#[allow(inconsistent_fields)]
pub enum MessageType {
    Init { node_id: String, node_ids: Vec<String> },
    InitOk,
    Error { code: u32, text: String },
    Echo { echo: String },
    EchoOk { echo: String },
    Generate,
    GenerateOk { id: String },
    Broadcast { message: i64 },
    BroadcastOk,
    BroadcastMany { messages: Vec<i64> },
    BroadcastManyOk,
    Read { key: Option<String> },
    ReadOk { messages: Option<Vec<i64>>, value: Option<Value> },
    Topology { topology: Vec<(String, Vec<String>)> },
    TopologyOk,
    Add { delta: i64 },
    AddOk,
    Send { key: String, msg: i64 },
    SendOk { offset: i64 },
    Poll { offsets: Vec<(String, i64)> },
    PollOk { msgs: Vec<(String, Vec<(i64, i64)>)> },
    CommitOffsets { offsets: Vec<(String, i64)> },
    CommitOffsetsOk,
    ListCommittedOffsets { keys: Vec<String> },
    ListCommittedOffsetsOk { offsets: Vec<(String, i64)> },
    Txn { txn: Vec<Transaction> },
    TxnOk { txn: Vec<Transaction> },
    Cas { key: String, from: Value, to: Value, create_if_not_exists: Option<bool> },
    CasOk,
    Write { key: String, value: Value },
    WriteOk,
}

/// One operation of a transaction.
#[derive(Debug, Clone, PartialEq)]
pub enum Transaction {
    Read { key: u64, val: Value },
    Write { key: u64, value: i64 },
    Append { key: u64, value: i64 },
}

/// A value as the key-value services and the transaction protocol carry it.
#[derive(Debug, Clone, PartialEq)]
pub enum Value {
    Null,
    Int(i64),
    Vec(Vec<i64>),
    Dict(Vec<(String, Vec<i64>)>),
    String(String),
}

/// Why three positional fields do not form a transaction operation.
#[derive(Debug, Clone, Copy, PartialEq, Eq)]
pub enum TxnDecodeError {
    /// The operation name is none of `r`, `w`, `append`.
    InvalidOp,
    /// A write or an append whose value is not an integer.
    NotAnInteger,
}

pub open spec fn int_of(v: Value) -> Option<i64> {
    match v {
        Value::Int(i) => Some(i),
        _ => None,
    }
}

pub open spec fn vec_of(v: Value) -> Option<Seq<i64>> {
    match v {
        Value::Vec(xs) => Some(xs@),
        _ => None,
    }
}

impl Value {
    /// The integer held, if this is an integer.
    pub fn as_int(self) -> (r: Option<i64>)
        ensures
            r == int_of(self),
    {
        match self {
            Value::Int(v) => Some(v),
            _ => None,
        }
    }

    /// The vector held, if this is a vector of integers.
    pub fn as_vec(self) -> (r: Option<Vec<i64>>)
        ensures
            match r {
                Some(v) => vec_of(self) == Some(v@),
                None => vec_of(self) is None,
            },
    {
        match self {
            Value::Vec(v) => Some(v),
            _ => None,
        }
    }
}

pub open spec fn op_name(t: Transaction) -> Seq<char> {
    match t {
        Transaction::Read { .. } => seq!['r'],
        Transaction::Write { .. } => seq!['w'],
        Transaction::Append { .. } => seq!['a', 'p', 'p', 'e', 'n', 'd'],
    }
}

pub open spec fn txn_key(t: Transaction) -> u64 {
    match t {
        Transaction::Read { key, .. } => key,
        Transaction::Write { key, .. } => key,
        Transaction::Append { key, .. } => key,
    }
}

pub open spec fn txn_value(t: Transaction) -> Value {
    match t {
        Transaction::Read { val, .. } => val,
        Transaction::Write { value, .. } => Value::Int(value),
        Transaction::Append { value, .. } => Value::Int(value),
    }
}

/// What the three positional fields `[op, key, value]` decode to.
pub open spec fn decoded(op: Seq<char>, key: u64, value: Value) -> Result<Transaction, TxnDecodeError> {
    if op == seq!['r'] {
        Ok(Transaction::Read { key, val: value })
    } else if op == seq!['w'] || op == seq!['a', 'p', 'p', 'e', 'n', 'd'] {
        match value {
            Value::Int(v) => if op == seq!['w'] {
                Ok(Transaction::Write { key, value: v })
            } else {
                Ok(Transaction::Append { key, value: v })
            },
            _ => Err(TxnDecodeError::NotAnInteger),
        }
    } else {
        Err(TxnDecodeError::InvalidOp)
    }
}

impl Transaction {
    /// The three positional fields of the wire form: operation name, key, value.
    pub fn serialize(self) -> (r: (String, u64, Value))
        ensures
            r.0@ == op_name(self),
            r.1 == txn_key(self),
            r.2 == txn_value(self),
    {
        match self {
            Transaction::Read { key, val } => {
                proof { reveal_strlit("r"); }
                (String::from_str("r"), key, val)
            },
            Transaction::Write { key, value } => {
                proof { reveal_strlit("w"); }
                (String::from_str("w"), key, Value::Int(value))
            },
            Transaction::Append { key, value } => {
                proof { reveal_strlit("append"); }
                (String::from_str("append"), key, Value::Int(value))
            },
        }
    }

    /// Reads an operation back from its three positional fields.
    pub fn deserialize(op: &str, key: u64, value: Value) -> (r: Result<Transaction, TxnDecodeError>)
        ensures
            r == decoded(op@, key, value),
    {
        proof {
            reveal_strlit("r");
            reveal_strlit("w");
            reveal_strlit("append");
            assert("r"@ =~= seq!['r']);
            assert("w"@ =~= seq!['w']);
            assert("append"@ =~= seq!['a', 'p', 'p', 'e', 'n', 'd']);
        }
        if str_eq(op, "r") {
            Ok(Transaction::Read { key, val: value })
        } else if str_eq(op, "w") {
            match value {
                Value::Int(v) => Ok(Transaction::Write { key, value: v }),
                _ => Err(TxnDecodeError::NotAnInteger),
            }
        } else if str_eq(op, "append") {
            match value {
                Value::Int(v) => Ok(Transaction::Append { key, value: v }),
                _ => Err(TxnDecodeError::NotAnInteger),
            }
        } else {
            Err(TxnDecodeError::InvalidOp)
        }
    }
}

/// Whether two strings hold the same characters.
pub fn str_eq(a: &str, b: &str) -> (r: bool)
    ensures
        r == (a@ == b@),
{
    String::from_str(a) == String::from_str(b)
}

/// A wire form read back gives the operation that was written.
pub proof fn lemma_transaction_round_trip(t: Transaction)
    ensures
        decoded(op_name(t), txn_key(t), txn_value(t)) == Ok::<Transaction, TxnDecodeError>(t),
{
    match t {
        Transaction::Read { .. } => {},
        Transaction::Write { .. } => {
            assert(seq!['w'] != seq!['r']) by { assert(seq!['w'][0] != seq!['r'][0]); }
        },
        Transaction::Append { .. } => {
            let a = seq!['a', 'p', 'p', 'e', 'n', 'd'];
            assert(a != seq!['r']) by { assert(a.len() != seq!['r'].len()); }
            assert(a != seq!['w']) by { assert(a.len() != seq!['w'].len()); }
        },
    }
}

} // verus!
