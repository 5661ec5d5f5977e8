use vstd::prelude::*;
use vstd::string::*;

use crate::message::{MessageBody, MessageType, Value};

verus! {

/// The decimal digit `d`.
pub open spec fn digit(d: nat) -> char {
    seq!['0', '1', '2', '3', '4', '5', '6', '7', '8', '9'][d as int]
}

/// The decimal form of `n`, without leading zeros.
pub open spec fn decimal_digits(n: nat) -> Seq<char>
    decreases n,
{
    if n < 10 {
        seq![digit(n)]
    } else {
        decimal_digits(n / 10).push(digit(n % 10))
    }
}

/// Relies on `u64`'s `Display`, through `to_string`: the decimal digits of
/// the number.
#[verifier::external_body]
pub(crate) fn decimal(n: u64) -> (r: String)
    ensures
        r@ == decimal_digits(n as nat),
{
    n.to_string()
}

/// A request that reads `key` from a key-value service.
pub fn read_request(key: String) -> (r: MessageBody)
    ensures
        r.msg_id is None,
        r.in_reply_to is None,
        r.msg_type == (MessageType::Read { key: Some(key) }),
{
    MessageBody::with_type(MessageType::Read { key: Some(key) })
}

/// A request that writes `value` under `key`.
pub fn write_request(key: String, value: Value) -> (r: MessageBody)
    ensures
        r.msg_id is None,
        r.in_reply_to is None,
        r.msg_type == (MessageType::Write { key, value }),
{
    MessageBody::with_type(MessageType::Write { key, value })
}

/// A request that swaps `from` for `to` under `key`, creating the key if
/// it does not exist.
pub fn cas_request(key: String, from: Value, to: Value) -> (r: MessageBody)
    ensures
        r.msg_id is None,
        r.in_reply_to is None,
        r.msg_type == (MessageType::Cas { key, from, to, create_if_not_exists: Some(true) }),
{
    MessageBody::with_type(MessageType::Cas { key, from, to, create_if_not_exists: Some(true) })
}

/// What a read reply carries: its value, or null for any other reply
/// (an error such as a missing key included).
pub open spec fn value_read(response: MessageType) -> Value {
    match response {
        MessageType::ReadOk { value: Some(v), .. } => v,
        _ => Value::Null,
    }
}

/// The value a read reply carries; null for any other reply.
pub fn read_value(response: MessageType) -> (r: Value)
    ensures
        r == value_read(response),
{
    match response {
        MessageType::ReadOk { value: Some(v), .. } => v,
        _ => Value::Null,
    }
}

/// Whether a reply reports a successful compare-and-swap.
pub fn is_cas_ok(response: &MessageType) -> (r: bool)
    ensures
        r == response is CasOk,
{
    match response {
        MessageType::CasOk => true,
        _ => false,
    }
}

/// What a linearizable store holds under a key after a compare-and-swap
/// with `create_if_not_exists` set, or `None` when it rejects the swap.
/// A missing key is created with `to`; a present one is swapped only if
/// it holds exactly `from`.
pub open spec fn cas_outcome(current: Option<Value>, from: Value, to: Value) -> Option<Value> {
    match current {
        None => Some(to),
        Some(v) => if v == from {
            Some(to)
        } else {
            None
        },
    }
}

/// What the store holds after the swap, taken or rejected.
pub open spec fn stored_after(current: Option<Value>, from: Value, to: Value) -> Option<Value> {
    match cas_outcome(current, from, to) {
        Some(v) => Some(v),
        None => current,
    }
}

/// The key under which the lock lives.
pub open spec fn lock_key() -> Seq<char> {
    seq!['l', 'o', 'c', 'k']
}

/// The swap that takes the lock for `id`: from absent to `id`.
pub open spec fn acquire_swap(id: String) -> (Value, Value) {
    (Value::Null, Value::String(id))
}

/// The swap that gives the lock back: from `id` to absent.
pub open spec fn release_swap(id: String) -> (Value, Value) {
    (Value::String(id), Value::Null)
}

/// A lock value is free (missing or null) or names one holder.
pub open spec fn lock_value_ok(v: Option<Value>) -> bool {
    match v {
        None => true,
        Some(Value::Null) => true,
        Some(Value::String(_)) => true,
        _ => false,
    }
}

/// `b` is the request that takes (`acquire`) or gives back the lock for
/// `node_id`.
pub open spec fn is_lock_request(b: MessageBody, node_id: Seq<char>, acquire: bool) -> bool {
    &&& b.msg_type is Cas
    &&& b.msg_type->Cas_key@ == lock_key()
    &&& b.msg_type->Cas_create_if_not_exists == Some(true)
    &&& acquire ==> b.msg_type->Cas_from is Null && b.msg_type->Cas_to is String
        && b.msg_type->Cas_to->String_0@ == node_id
    &&& !acquire ==> b.msg_type->Cas_to is Null && b.msg_type->Cas_from is String
        && b.msg_type->Cas_from->String_0@ == node_id
}

/// `b` reads the key `key`.
pub open spec fn is_read_of(b: MessageBody, key: Seq<char>) -> bool {
    b.msg_type is Read && b.msg_type->Read_key is Some && b.msg_type->Read_key->0@ == key
}

/// The compare-and-swap request that takes (`acquire`) or gives back the
/// lock for `node_id`. The caller repeats it until the store accepts it.
pub fn lock_request(node_id: &str, acquire: bool) -> (r: MessageBody)
    ensures
        r.msg_id is None,
        r.in_reply_to is None,
        is_lock_request(r, node_id@, acquire),
{
    proof {
        reveal_strlit("lock");
        assert("lock"@ =~= lock_key());
    }
    let me = Value::String(String::from_str(node_id));
    let (from, to) = if acquire { (Value::Null, me) } else { (me, Value::Null) };
    cas_request(String::from_str("lock"), from, to)
}

/// Lock exclusivity. Each accepted swap leaves the lock free or held by
/// exactly one node. Once `a` has taken the lock, neither another node's
/// attempt to take it nor its attempt to give it back is accepted, so two
/// nodes never both see their swap from the same state taken.
pub proof fn lemma_lock_exclusive(current: Option<Value>, a: String, b: String)
    requires
        lock_value_ok(current),
        a@ != b@,
    ensures
        cas_outcome(current, acquire_swap(a).0, acquire_swap(a).1) is Some ==> {
            let held = cas_outcome(current, acquire_swap(a).0, acquire_swap(a).1);
            &&& held == Some(Value::String(a))
            &&& cas_outcome(held, acquire_swap(b).0, acquire_swap(b).1) is None
            &&& cas_outcome(held, release_swap(b).0, release_swap(b).1) is None
            &&& cas_outcome(held, release_swap(a).0, release_swap(a).1) == Some(Value::Null)
        },
        lock_value_ok(stored_after(current, acquire_swap(a).0, acquire_swap(a).1)),
        lock_value_ok(stored_after(current, release_swap(a).0, release_swap(a).1)),
{
    assert(a != b);
}

/// Transaction conflict. Once a transaction has swapped the root from
/// `prior` to a different `first`, another one computed against the same
/// `prior` is rejected and leaves the root as the first left it.
pub proof fn lemma_conflicting_swaps(prior: Value, first: Value, second: Value)
    requires
        first != prior,
    ensures
        cas_outcome(Some(prior), prior, first) == Some(first),
        cas_outcome(Some(first), prior, second) is None,
        stored_after(Some(first), prior, second) == Some(first),
{
}

} // verus!
