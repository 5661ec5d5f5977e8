use vstd::prelude::*;

use crate::kv::{
    cas_request, decimal, decimal_digits, is_cas_ok, is_lock_request, is_read_of, lock_request, read_request,
    read_value, value_read, write_request,
};
use crate::node::Step;
use crate::message::{vec_of, MessageBody, MessageType, Transaction, Value};
use crate::table::{copy_ints, find_key, first_key, has_key};

verus! {

/// The error code of a transaction aborted by a conflict.
pub const TXN_CONFLICT: u32 = 30;

/// Why a transaction could not be applied to the key space.
#[derive(Debug, Clone, Copy, PartialEq, Eq)]
pub enum TxnError {
    /// A read names a key that holds no list.
    MissingKey,
}

/// A key space: key names with their lists, as sequences.
pub open spec fn dict_view(d: Seq<(String, Vec<i64>)>) -> Seq<(Seq<char>, Seq<i64>)> {
    d.map_values(|p: (String, Vec<i64>)| (p.0@, p.1@))
}

/// The key space a root value holds: its map, or an empty one.
pub open spec fn dict_of(v: Value) -> Seq<(Seq<char>, Seq<i64>)> {
    match v {
        Value::Dict(d) => dict_view(d@),
        _ => Seq::empty(),
    }
}

/// `i` is the first position of `d` under the key `k`.
pub open spec fn is_first(d: Seq<(Seq<char>, Seq<i64>)>, k: Seq<char>, i: int) -> bool {
    &&& 0 <= i < d.len()
    &&& d[i].0 == k
    &&& forall|j: int| 0 <= j < i ==> d[j].0 != k
}

/// The list under `k`, if any.
pub open spec fn dict_get(d: Seq<(Seq<char>, Seq<i64>)>, k: Seq<char>) -> Option<Seq<i64>> {
    if exists|i: int| is_first(d, k, i) {
        Some(d[choose|i: int| is_first(d, k, i)].1)
    } else {
        None
    }
}

/// The key space after appending `v` to the list under `k`; a missing key
/// starts a list of its own.
pub open spec fn dict_append(d: Seq<(Seq<char>, Seq<i64>)>, k: Seq<char>, v: i64) -> Seq<(Seq<char>, Seq<i64>)> {
    if exists|i: int| is_first(d, k, i) {
        let i = choose|i: int| is_first(d, k, i);
        d.update(i, (k, d[i].1.push(v)))
    } else {
        d.push((k, seq![v]))
    }
}

/// The name of a transaction key in the key space.
pub open spec fn key_name(key: u64) -> Seq<char> {
    decimal_digits(key as nat)
}

/// Applies `ops` in order to `d`: for each operation, the list a read saw
/// (`None` for the others), and the key space at the end. `None` when a
/// read finds no list. Writes have no effect on a key space of lists.
pub open spec fn run(d: Seq<(Seq<char>, Seq<i64>)>, ops: Seq<Transaction>) -> Option<
    (Seq<Option<Seq<i64>>>, Seq<(Seq<char>, Seq<i64>)>),
>
    decreases ops.len(),
{
    if ops.len() == 0 {
        Some((Seq::empty(), d))
    } else {
        match run(d, ops.drop_last()) {
            None => None,
            Some((reads, cur)) => match ops.last() {
                Transaction::Read { key, .. } => match dict_get(cur, key_name(key)) {
                    Some(l) => Some((reads.push(Some(l)), cur)),
                    None => None,
                },
                Transaction::Append { key, value } => Some(
                    (reads.push(None), dict_append(cur, key_name(key), value)),
                ),
                Transaction::Write { .. } => Some((reads.push(None), cur)),
            },
        }
    }
}

/// `out` is `op` as answered: a read with the list it saw filled in, any
/// other operation as it came.
pub open spec fn filled(op: Transaction, seen: Option<Seq<i64>>, out: Transaction) -> bool {
    match op {
        Transaction::Read { key, .. } => {
            &&& out is Read
            &&& out->Read_key == key
            &&& seen is Some
            &&& vec_of(out->Read_val) == seen
        },
        _ => out == op,
    }
}

/// Each operation of `ops` is answered by the one of `outs` at its place.
pub open spec fn filled_all(ops: Seq<Transaction>, reads: Seq<Option<Seq<i64>>>, outs: Seq<Transaction>) -> bool {
    &&& ops.len() == reads.len()
    &&& ops.len() == outs.len()
    &&& forall|i: int| 0 <= i < ops.len() ==> #[trigger] filled(ops[i], reads[i], outs[i])
}

proof fn lemma_first_unique(d: Seq<(Seq<char>, Seq<i64>)>, k: Seq<char>, i: int)
    requires
        is_first(d, k, i),
    ensures
        (choose|j: int| is_first(d, k, j)) == i,
{
    let j = choose|j: int| is_first(d, k, j);
    assert(is_first(d, k, j));
    if j < i {
        assert(d[j].0 != k);
    }
    if i < j {
        assert(d[i].0 != k);
    }
}

proof fn lemma_run_stays_none(d: Seq<(Seq<char>, Seq<i64>)>, ops: Seq<Transaction>, n: int)
    requires
        0 <= n <= ops.len(),
        run(d, ops.take(n)) is None,
    ensures
        run(d, ops) is None,
    decreases ops.len() - n,
{
    if n < ops.len() {
        assert(ops.take(n + 1).drop_last() == ops.take(n));
        lemma_run_stays_none(d, ops, n + 1);
    } else {
        assert(ops.take(n) == ops);
    }
}

/// A copy of a key space.
fn copy_dict(d: &Vec<(String, Vec<i64>)>) -> (r: Vec<(String, Vec<i64>)>)
    ensures
        dict_view(r@) == dict_view(d@),
{
    let mut out: Vec<(String, Vec<i64>)> = Vec::new();
    let mut i: usize = 0;
    while i < d.len()
        invariant
            i <= d@.len(),
            out@.len() == i,
            dict_view(out@) == dict_view(d@).take(i as int),
        decreases d@.len() - i,
    {
        let k = d[i].0.clone();
        let l = copy_ints(&d[i].1);
        let ghost before = out@;
        out.push((k, l));
        proof {
            assert forall|j: int| 0 <= j < i + 1 implies #[trigger] dict_view(out@)[j] == dict_view(d@).take(i + 1)[j] by {
                if j < i {
                    assert(out@[j] == before[j]);
                    assert(dict_view(before)[j] == dict_view(d@).take(i as int)[j]);
                }
            }
            assert(dict_view(out@) =~= dict_view(d@).take(i + 1));
        }
        i = i + 1;
    }
    proof {
        assert(dict_view(d@).take(i as int) =~= dict_view(d@));
    }
    out
}

/// The key space a root value holds, as a vector.
fn dict_entries(root: &Value) -> (r: Vec<(String, Vec<i64>)>)
    ensures
        dict_view(r@) == dict_of(*root),
{
    match root {
        Value::Dict(d) => copy_dict(d),
        _ => {
            let r: Vec<(String, Vec<i64>)> = Vec::new();
            proof {
                assert(dict_view(r@) =~= Seq::<(Seq<char>, Seq<i64>)>::empty());
            }
            r
        },
    }
}

/// Finds the list under `k`.
fn dict_find(d: &Vec<(String, Vec<i64>)>, k: &str) -> (r: Option<usize>)
    ensures
        r is Some ==> is_first(dict_view(d@), k@, r->0 as int) && dict_get(dict_view(d@), k@) == Some(
            dict_view(d@)[r->0 as int].1,
        ),
        r is None ==> dict_get(dict_view(d@), k@) is None,
{
    let r = find_key(d, k);
    proof {
        let dv = dict_view(d@);
        match r {
            Some(i) => {
                assert(first_key(d@, k@, i as int));
                assert forall|j: int| 0 <= j < i implies dv[j].0 != k@ by {
                    assert(d@[j].0@ != k@);
                }
                assert(is_first(dv, k@, i as int));
                lemma_first_unique(dv, k@, i as int);
            },
            None => {
                assert(!has_key(d@, k@));
                if exists|i: int| is_first(dv, k@, i) {
                    let i = choose|i: int| is_first(dv, k@, i);
                    assert(d@[i].0@ == k@);
                }
            },
        }
    }
    r
}

/// Applies a transaction to the key space held by `root`, in order: a read
/// fills in the list under its key, an append adds to it. Returns the
/// answered operations and the new root, or an error when a read finds no
/// list.
pub fn apply_txn(root: &Value, txn: Vec<Transaction>) -> (r: Result<(Vec<Transaction>, Value), TxnError>)
    ensures
        match run(dict_of(*root), txn@) {
            None => r == Err::<(Vec<Transaction>, Value), TxnError>(TxnError::MissingKey),
            Some((reads, d)) => {
                &&& r is Ok
                &&& dict_of(r->Ok_0.1) == d
                &&& r->Ok_0.1 is Dict
                &&& filled_all(txn@, reads, r->Ok_0.0@)
            },
        },
{
    let ghost d0 = dict_of(*root);
    let mut data = dict_entries(root);
    let mut out: Vec<Transaction> = Vec::new();
    let ghost mut reads: Seq<Option<Seq<i64>>> = Seq::empty();
    let mut i: usize = 0;
    proof {
        assert(txn@.take(0) =~= Seq::<Transaction>::empty());
    }
    while i < txn.len()
        invariant
            i <= txn@.len(),
            d0 == dict_of(*root),
            run(d0, txn@.take(i as int)) == Some((reads, dict_view(data@))),
            filled_all(txn@.take(i as int), reads, out@),
        decreases txn@.len() - i,
    {
        proof {
            assert(txn@.take(i + 1).drop_last() == txn@.take(i as int));
            assert(txn@.take(i + 1).last() == txn@[i as int]);
        }
        let ghost before = out@;
        let ghost data0 = dict_view(data@);
        match &txn[i] {
            Transaction::Read { key, .. } => {
                let name = decimal(*key);
                match dict_find(&data, name.as_str()) {
                    Some(j) => {
                        let l = copy_ints(&data[j].1);
                        out.push(Transaction::Read { key: *key, val: Value::Vec(l) });
                        proof {
                            reads = reads.push(Some(data0[j as int].1));
                        }
                    },
                    None => {
                        proof {
                            assert(key_name(*key) == name@);
                            assert(run(d0, txn@.take(i + 1)) is None);
                            lemma_run_stays_none(d0, txn@, i + 1);
                        }
                        return Err(TxnError::MissingKey);
                    },
                }
            },
            Transaction::Append { key, value } => {
                let name = decimal(*key);
                let ghost nm = name@;
                match dict_find(&data, name.as_str()) {
                    Some(j) => {
                        let mut entry: (String, Vec<i64>) = (String::new(), Vec::new());
                        data.set_and_swap(j, &mut entry);
                        entry.1.push(*value);
                        data.set_and_swap(j, &mut entry);
                        proof {
                            lemma_first_unique(data0, nm, j as int);
                            assert(dict_view(data@) =~= dict_append(data0, nm, *value));
                        }
                    },
                    None => {
                        let mut l: Vec<i64> = Vec::new();
                        l.push(*value);
                        data.push((name, l));
                        proof {
                            assert(dict_view(data@) =~= dict_append(data0, nm, *value));
                        }
                    },
                }
                out.push(Transaction::Append { key: *key, value: *value });
                proof {
                    reads = reads.push(None);
                }
            },
            Transaction::Write { key, value } => {
                out.push(Transaction::Write { key: *key, value: *value });
                proof {
                    reads = reads.push(None);
                }
            },
        }
        proof {
            assert forall|k: int| 0 <= k < i + 1 implies #[trigger] filled(txn@.take(i + 1)[k], reads[k], out@[k]) by {
                if k < i {
                    assert(txn@.take(i + 1)[k] == txn@.take(i as int)[k]);
                    assert(out@[k] == before[k]);
                }
            }
        }
        i = i + 1;
    }
    proof {
        assert(txn@.take(i as int) == txn@);
    }
    Ok((out, Value::Dict(data)))
}

/// The reply to a transaction, given whether its compare-and-swap of the
/// root was accepted: the answered operations, or an abort with the
/// conflict code.
pub fn txn_reply(committed: bool, txn: Vec<Transaction>) -> (r: MessageType)
    ensures
        committed ==> r == (MessageType::TxnOk { txn }),
        !committed ==> r is Error && r->Error_code == TXN_CONFLICT,
{
    if committed {
        MessageType::TxnOk { txn }
    } else {
        MessageType::Error {
            code: TXN_CONFLICT,
            text: String::from_str("The requested transaction has been aborted because of a conflict."),
        }
    }
}

/// Whether the reply to the root's compare-and-swap lets the transaction
/// commit: any reply but an error does.
pub fn txn_committed(response: &MessageType) -> (r: bool)
    ensures
        r == !(response is Error),
{
    match response {
        MessageType::Error { .. } => false,
        _ => true,
    }
}

/// Transaction atomicity: reading a key that holds `l` and then appending
/// `v` to it sees `l`, and leaves `l` with `v` added under that key, both in
/// the one key space that the transaction then swaps in whole.
pub proof fn lemma_read_then_append(d: Seq<(Seq<char>, Seq<i64>)>, key: u64, val: Value, v: i64, l: Seq<i64>)
    requires
        dict_get(d, key_name(key)) == Some(l),
    ensures
        run(d, seq![Transaction::Read { key, val }, Transaction::Append { key, value: v }])
            == Some((seq![Some(l), None::<Seq<i64>>], dict_append(d, key_name(key), v))),
        dict_get(dict_append(d, key_name(key), v), key_name(key)) == Some(l.push(v)),
{
    reveal_with_fuel(run, 3);
    let ops = seq![Transaction::Read { key, val }, Transaction::Append { key, value: v }];
    assert(ops.drop_last() == seq![Transaction::Read { key, val }]);
    assert(ops.drop_last().drop_last() =~= Seq::<Transaction>::empty());
    let k = key_name(key);
    let i = choose|i: int| is_first(d, k, i);
    let d2 = dict_append(d, k, v);
    assert(is_first(d2, k, i));
    lemma_first_unique(d2, k, i);
}

/// `b` is the request of the per-key register variant for `t`: a read or a
/// write of the key's own register.
pub open spec fn register_body(b: MessageBody, t: Transaction) -> bool {
    &&& b.msg_id is None
    &&& b.in_reply_to is None
    &&& match t {
        Transaction::Read { key, .. } => b.msg_type is Read && b.msg_type->Read_key is Some
            && b.msg_type->Read_key->0@ == key_name(key),
        Transaction::Write { key, value } => b.msg_type is Write && b.msg_type->Write_key@ == key_name(key)
            && b.msg_type->Write_value == Value::Int(value),
        Transaction::Append { .. } => false,
    }
}

/// The request of the per-key register variant for one operation; `None`
/// for an append, which this variant does not perform.
pub fn register_request(t: &Transaction) -> (r: Option<MessageBody>)
    ensures
        t is Append ==> r is None,
        !(t is Append) ==> r is Some && register_body(r->0, *t),
{
    match t {
        Transaction::Read { key, .. } => Some(read_request(decimal(*key))),
        Transaction::Write { key, value } => Some(write_request(decimal(*key), Value::Int(*value))),
        Transaction::Append { .. } => None,
    }
}

/// An operation as answered from the reply to its request: a read gets the
/// value read, the rest stay as they are.
pub open spec fn answered_op(t: Transaction, response: MessageType) -> Transaction {
    match t {
        Transaction::Read { key, .. } => Transaction::Read { key, val: value_read(response) },
        _ => t,
    }
}

/// An operation of the per-key register variant with the reply to its
/// request taken in.
pub fn fill_read(t: &Transaction, response: MessageType) -> (r: Transaction)
    ensures
        r == answered_op(*t, response),
{
    match t {
        Transaction::Read { key, .. } => Transaction::Read { key: *key, val: read_value(response) },
        Transaction::Write { key, value } => Transaction::Write { key: *key, value: *value },
        Transaction::Append { key, value } => Transaction::Append { key: *key, value: *value },
    }
}

/// The key under which the whole key space is stored.
pub open spec fn root_key() -> Seq<char> {
    seq!['r', 'o', 'o', 't']
}

/// Where a transaction on the whole-root key space stands.
#[derive(Debug, Clone, Copy, PartialEq, Eq)]
pub enum TxnPhase {
    /// Waiting for the root.
    Reading,
    /// Waiting for the answer to the swap of the root.
    Swapping,
    Done,
}

/// One transaction on the key space stored whole under one root: read the
/// root, apply the operations to it, swap the new root in for the one
/// read, and reply with the answered operations, or abort if the swap is
/// refused.
pub struct TxnSession {
    txn: Vec<Transaction>,
    answered: Vec<Transaction>,
    phase: TxnPhase,
}

impl TxnSession {
    pub closed spec fn phase(&self) -> TxnPhase {
        self.phase
    }

    /// The operations, as they came.
    pub closed spec fn txn(&self) -> Seq<Transaction> {
        self.txn@
    }

    /// The answered operations, once applied.
    pub closed spec fn answered(&self) -> Seq<Transaction> {
        self.answered@
    }

    /// Starts a transaction: the first step reads the root.
    pub fn start(txn: Vec<Transaction>) -> (r: (Self, Step))
        ensures
            r.0.phase() == TxnPhase::Reading,
            r.0.txn() == txn@,
            r.1.reply is None,
            r.1.request is Some && is_read_of(r.1.request->0, root_key()),
    {
        proof {
            reveal_strlit("root");
            assert("root"@ =~= root_key());
        }
        let request = read_request(String::from_str("root"));
        (TxnSession { txn, answered: Vec::new(), phase: TxnPhase::Reading }, Step { reply: None, request: Some(request) })
    }

    /// Takes in the store's reply to the last request and gives the next
    /// step. A read that finds no list ends the transaction with no reply.
    pub fn on_reply(&mut self, response: MessageType) -> (r: Step)
        ensures
            match old(self).phase() {
                TxnPhase::Reading => {
                    let root = value_read(response);
                    match run(dict_of(root), old(self).txn()) {
                        None => final(self).phase() == TxnPhase::Done && r.reply is None && r.request is None,
                        Some((reads, d)) => {
                            &&& final(self).phase() == TxnPhase::Swapping
                            &&& filled_all(old(self).txn(), reads, final(self).answered())
                            &&& r.reply is None
                            &&& r.request is Some
                            &&& r.request->0.msg_type is Cas
                            &&& r.request->0.msg_type->Cas_key@ == root_key()
                            &&& r.request->0.msg_type->Cas_from == root
                            &&& r.request->0.msg_type->Cas_to is Dict
                            &&& dict_of(r.request->0.msg_type->Cas_to) == d
                            &&& r.request->0.msg_type->Cas_create_if_not_exists == Some(true)
                        },
                    }
                },
                TxnPhase::Swapping => {
                    &&& final(self).phase() == TxnPhase::Done
                    &&& r.request is None
                    &&& !(response is Error) ==> r.reply is Some && r.reply->0 is TxnOk
                        && r.reply->0->TxnOk_txn@ == old(self).answered()
                    &&& response is Error ==> r.reply is Some && r.reply->0 is Error && r.reply->0->Error_code == TXN_CONFLICT
                },
                TxnPhase::Done => final(self).phase() == TxnPhase::Done && r.reply is None && r.request is None,
            },
    {
        match self.phase {
            TxnPhase::Reading => {
                let root = read_value(response);
                let mut txn: Vec<Transaction> = Vec::new();
                std::mem::swap(&mut txn, &mut self.txn);
                let applied = apply_txn(&root, txn);
                match applied {
                    Ok((answered, new_root)) => {
                        self.answered = answered;
                        self.phase = TxnPhase::Swapping;
                        proof {
                            reveal_strlit("root");
                            assert("root"@ =~= root_key());
                        }
                        Step { reply: None, request: Some(cas_request(String::from_str("root"), root, new_root)) }
                    },
                    Err(_) => {
                        self.phase = TxnPhase::Done;
                        Step { reply: None, request: None }
                    },
                }
            },
            TxnPhase::Swapping => {
                let mut answered: Vec<Transaction> = Vec::new();
                std::mem::swap(&mut answered, &mut self.answered);
                self.phase = TxnPhase::Done;
                Step { reply: Some(txn_reply(txn_committed(&response), answered)), request: None }
            },
            TxnPhase::Done => Step { reply: None, request: None },
        }
    }
}


/// A copy of an operation that carries no value read.
fn copy_unread(t: &Transaction) -> (r: Transaction)
    requires
        !(t is Read),
    ensures
        r == *t,
{
    match t {
        Transaction::Write { key, value } => Transaction::Write { key: *key, value: *value },
        Transaction::Append { key, value } => Transaction::Append { key: *key, value: *value },
        Transaction::Read { key, .. } => Transaction::Read { key: *key, val: Value::Null },
    }
}

/// Whether an operation is an append.
pub fn is_append(t: &Transaction) -> (r: bool)
    ensures
        r == t is Append,
{
    match t {
        Transaction::Append { .. } => true,
        _ => false,
    }
}

/// Where a transaction of the per-key register variant stands.
#[derive(Debug, Clone, Copy, PartialEq, Eq)]
pub enum RegisterPhase {
    /// Waiting for the lock.
    Locking,
    /// Waiting for the reply to the current operation's request.
    Running,
    /// Replied; waiting for the lock to be given back.
    Unlocking,
    Done,
}

/// From position `from`, the next operation with a request is at `to`
/// (or there is none, and `to` is the end): the ones between are appends.
pub open spec fn skips_to(txn: Seq<Transaction>, from: int, to: int) -> bool {
    &&& from <= to <= txn.len()
    &&& forall|k: int| from <= k < to ==> (#[trigger] txn[k]) is Append
    &&& to < txn.len() ==> !(txn[to] is Append)
}

/// After the appends from `from` on are passed over, the session stands at
/// `index`: at the next request, or replied with all operations answered
/// and giving the lock back. `before` is what was answered before `from`.
pub open spec fn proceeds(
    txn: Seq<Transaction>,
    node_id: Seq<char>,
    from: int,
    before: Seq<Transaction>,
    index: int,
    phase: RegisterPhase,
    answered: Seq<Transaction>,
    r: Step,
) -> bool {
    &&& skips_to(txn, from, index)
    &&& index < txn.len() ==> {
        &&& phase == RegisterPhase::Running
        &&& answered == before + txn.subrange(from, index)
        &&& r.reply is None
        &&& r.request is Some && register_body(r.request->0, txn[index])
    }
    &&& index == txn.len() ==> {
        &&& phase == RegisterPhase::Unlocking
        &&& r.reply is Some && r.reply->0 is TxnOk
        &&& r.reply->0->TxnOk_txn@ == before + txn.subrange(from, index)
        &&& r.request is Some && is_lock_request(r.request->0, node_id, false)
    }
}

/// One transaction of the per-key register variant: under the lock, each
/// operation is its own round trip to the key's register; then the reply,
/// and the lock given back. Only the lock keeps transactions apart.
pub struct RegisterSession {
    node_id: String,
    txn: Vec<Transaction>,
    index: usize,
    answered: Vec<Transaction>,
    phase: RegisterPhase,
}

impl RegisterSession {
    pub closed spec fn wf(&self) -> bool {
        &&& self.index <= self.txn@.len()
        &&& self.phase == RegisterPhase::Running ==> self.index < self.txn@.len() && !(self.txn@[self.index as int] is Append)
    }

    pub closed spec fn phase(&self) -> RegisterPhase {
        self.phase
    }

    pub closed spec fn index(&self) -> int {
        self.index as int
    }

    pub closed spec fn txn(&self) -> Seq<Transaction> {
        self.txn@
    }

    pub closed spec fn answered(&self) -> Seq<Transaction> {
        self.answered@
    }

    pub closed spec fn node_id(&self) -> Seq<char> {
        self.node_id@
    }

    /// Starts a transaction by node `node_id`: the first step asks for the
    /// lock.
    pub fn start(node_id: &str, txn: Vec<Transaction>) -> (r: (Self, Step))
        ensures
            r.0.wf(),
            r.0.phase() == RegisterPhase::Locking,
            r.0.txn() == txn@,
            r.0.index() == 0,
            r.0.answered().len() == 0,
            r.0.node_id() == node_id@,
            r.1.reply is None,
            r.1.request is Some && is_lock_request(r.1.request->0, node_id@, true),
    {
        let session = RegisterSession {
            node_id: String::from_str(node_id),
            txn,
            index: 0,
            answered: Vec::new(),
            phase: RegisterPhase::Locking,
        };
        (session, Step { reply: None, request: Some(lock_request(node_id, true)) })
    }

    /// Takes in the store's reply to the last request and gives the next
    /// step.
    pub fn on_reply(&mut self, response: MessageType) -> (r: Step)
        requires
            old(self).wf(),
        ensures
            final(self).wf(),
            final(self).node_id() == old(self).node_id(),
            final(self).txn() == old(self).txn(),
            match old(self).phase() {
                RegisterPhase::Locking => if response is CasOk {
                    proceeds(old(self).txn(), old(self).node_id(), old(self).index(), old(self).answered(),
                        final(self).index(), final(self).phase(), final(self).answered(), r)
                } else {
                    &&& final(self).phase() == RegisterPhase::Locking
                    &&& final(self).index() == old(self).index()
                    &&& final(self).answered() == old(self).answered()
                    &&& r.reply is None
                    &&& r.request is Some && is_lock_request(r.request->0, old(self).node_id(), true)
                },
                RegisterPhase::Running => proceeds(
                    old(self).txn(),
                    old(self).node_id(),
                    old(self).index() + 1,
                    old(self).answered().push(answered_op(old(self).txn()[old(self).index()], response)),
                    final(self).index(),
                    final(self).phase(),
                    final(self).answered(),
                    r,
                ),
                RegisterPhase::Unlocking => if response is CasOk {
                    &&& final(self).phase() == RegisterPhase::Done
                    &&& r.reply is None
                    &&& r.request is None
                } else {
                    &&& final(self).phase() == RegisterPhase::Unlocking
                    &&& r.reply is None
                    &&& r.request is Some && is_lock_request(r.request->0, old(self).node_id(), false)
                },
                RegisterPhase::Done => final(self).phase() == RegisterPhase::Done && r.reply is None && r.request is None,
            },
    {
        match self.phase {
            RegisterPhase::Locking => {
                if is_cas_ok(&response) {
                    self.advance()
                } else {
                    Step { reply: None, request: Some(lock_request(self.node_id.as_str(), true)) }
                }
            },
            RegisterPhase::Running => {
                let n = self.txn.len();
                assert(self.index < n);
                let op = fill_read(&self.txn[self.index], response);
                self.answered.push(op);
                self.index = self.index + 1;
                self.advance()
            },
            RegisterPhase::Unlocking => {
                if is_cas_ok(&response) {
                    self.phase = RegisterPhase::Done;
                    Step { reply: None, request: None }
                } else {
                    Step { reply: None, request: Some(lock_request(self.node_id.as_str(), false)) }
                }
            },
            RegisterPhase::Done => Step { reply: None, request: None },
        }
    }

    /// Passes over appends from the current position, then asks for the
    /// next operation's request, or replies and gives the lock back.
    fn advance(&mut self) -> (r: Step)
        requires
            old(self).index <= old(self).txn@.len(),
        ensures
            final(self).wf(),
            final(self).node_id == old(self).node_id,
            final(self).txn == old(self).txn,
            skips_to(old(self).txn@, old(self).index as int, final(self).index as int),
            final(self).index < old(self).txn@.len() ==> {
                &&& final(self).answered@ == old(self).answered@ + old(self).txn@.subrange(
                    old(self).index as int,
                    final(self).index as int,
                )
                &&& final(self).phase == RegisterPhase::Running
                &&& r.reply is None
                &&& r.request is Some && register_body(r.request->0, old(self).txn@[final(self).index as int])
            },
            final(self).index == old(self).txn@.len() ==> {
                &&& final(self).phase == RegisterPhase::Unlocking
                &&& r.reply is Some && r.reply->0 is TxnOk
                &&& r.reply->0->TxnOk_txn@ == old(self).answered@ + old(self).txn@.subrange(
                    old(self).index as int,
                    final(self).index as int,
                )
                &&& r.request is Some && is_lock_request(r.request->0, old(self).node_id@, false)
            },
    {
        let ghost start = self.index as int;
        while self.index < self.txn.len() && is_append(&self.txn[self.index])
            invariant
                start <= self.index <= self.txn@.len(),
                self.node_id == old(self).node_id,
                self.txn == old(self).txn,
                start == old(self).index,
                forall|k: int| start <= k < self.index ==> (#[trigger] self.txn@[k]) is Append,
                self.answered@ == old(self).answered@ + self.txn@.subrange(start, self.index as int),
            decreases self.txn@.len() - self.index,
        {
            let op = copy_unread(&self.txn[self.index]);
            self.answered.push(op);
            proof {
                assert(self.txn@.subrange(start, self.index + 1) =~= self.txn@.subrange(start, self.index as int).push(self.txn@[self.index as int]));
            }
            self.index = self.index + 1;
        }
        if self.index < self.txn.len() {
            self.phase = RegisterPhase::Running;
            let request = register_request(&self.txn[self.index]);
            Step { reply: None, request }
        } else {
            self.phase = RegisterPhase::Unlocking;
            let mut answered: Vec<Transaction> = Vec::new();
            std::mem::swap(&mut answered, &mut self.answered);
            Step { reply: Some(MessageType::TxnOk { txn: answered }), request: Some(lock_request(self.node_id.as_str(), false)) }
        }
    }
}

} // verus!
