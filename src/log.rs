use vstd::prelude::*;
use vstd::string::*;

use crate::kv::{is_cas_ok, is_lock_request, is_read_of, lock_request, read_request, read_value, value_read, write_request};
use crate::message::{int_of, vec_of, MessageBody, MessageType, Value};
use crate::node::Step;

verus! {

/// The log a stored value holds: its vector, or empty.
pub open spec fn log_of(v: Value) -> Seq<i64> {
    match vec_of(v) {
        Some(s) => s,
        None => Seq::empty(),
    }
}

/// The entries of `log` from `offset` on, each with its index.
pub open spec fn entries_from(log: Seq<i64>, offset: int) -> Seq<(i64, i64)> {
    let start = if offset < 0 {
        0
    } else if offset > log.len() {
        log.len() as int
    } else {
        offset
    };
    Seq::new((log.len() - start) as nat, |j: int| ((start + j) as i64, log[start + j]))
}

/// The committed offset a stored value holds: its integer, or -1.
pub open spec fn committed_of(v: Value) -> int {
    match int_of(v) {
        Some(i) => i as int,
        None => -1,
    }
}

/// What is stored after committing `offset` over `stored`: the offset only
/// moves forward.
pub open spec fn commit_result(stored: Value, offset: i64) -> Value {
    if committed_of(stored) < offset {
        Value::Int(offset)
    } else {
        stored
    }
}

/// Appends `msg` to the log stored as `current` (an empty log when it holds
/// none). Returns the new entry's offset, which is the log's length before
/// the append, and the value to write back.
pub fn append_entry(current: Value, msg: i64) -> (r: (i64, Value))
    requires
        log_of(current).len() < i64::MAX,
    ensures
        r.0 == log_of(current).len(),
        r.1 is Vec,
        log_of(r.1) == log_of(current).push(msg),
{
    let mut data = current.as_vec().unwrap_or(Vec::new());
    let offset = data.len() as i64;
    data.push(msg);
    (offset, Value::Vec(data))
}

/// The entries of `data` with index at least `offset`, as `[index, value]`.
pub fn poll_entries(data: &Vec<i64>, offset: i64) -> (r: Vec<(i64, i64)>)
    requires
        data@.len() <= i64::MAX,
    ensures
        r@ == entries_from(data@, offset as int),
{
    let n = data.len();
    let start: usize = if offset < 0 {
        0
    } else if offset as u64 > n as u64 {
        n
    } else {
        offset as usize
    };
    let mut out: Vec<(i64, i64)> = Vec::new();
    let mut i: usize = start;
    while i < n
        invariant
            start <= i <= n,
            n == data@.len(),
            n <= i64::MAX,
            start == (if offset < 0 { 0 } else if offset > n { n as int } else { offset as int }),
            out@ == entries_from(data@, offset as int).take(i - start),
        decreases n - i,
    {
        out.push((i as i64, data[i]));
        proof {
            assert(out@ =~= entries_from(data@, offset as int).take(i + 1 - start));
        }
        i = i + 1;
    }
    proof {
        assert(out@ =~= entries_from(data@, offset as int));
    }
    out
}

/// What a poll returns for one key, given the stored value: the entries
/// from `offset` on when the key holds a log, nothing otherwise.
pub fn poll_value(stored: Value, offset: i64) -> (r: Option<Vec<(i64, i64)>>)
    requires
        log_of(stored).len() <= i64::MAX,
    ensures
        stored is Vec ==> r is Some && r->0@ == entries_from(log_of(stored), offset as int),
        !(stored is Vec) ==> r is None,
{
    match stored.as_vec() {
        Some(data) => Some(poll_entries(&data, offset)),
        None => None,
    }
}

/// The offset to write when `offset` is committed over `stored`, or `None`
/// when it would not advance the committed offset.
pub fn commit_update(stored: Value, offset: i64) -> (r: Option<i64>)
    ensures
        committed_of(stored) < offset ==> r == Some(offset),
        committed_of(stored) >= offset ==> r is None,
{
    let last = stored.as_int().unwrap_or(-1);
    if last < offset {
        Some(offset)
    } else {
        None
    }
}

/// The key under which the committed offset of the log `key` is stored.
pub fn committed_key(key: &str) -> (r: String)
    ensures
        r@ == key@ + seq!['-', 'c', 'o', 'm', 'm', 'i', 't', 't', 'e', 'd'],
{
    proof {
        reveal_strlit("-committed");
        assert("-committed"@ =~= seq!['-', 'c', 'o', 'm', 'm', 'i', 't', 't', 'e', 'd']);
    }
    String::from_str(key).concat("-committed")
}

/// Log offset monotonicity: in a run of sends `msgs` to one key whose log
/// was `log`, the send at position `i` sees the log `log + msgs[..i]`, so it
/// is given the offset `log.len() + i` (0, 1, 2, ... from an empty log) and
/// leaves `log + msgs[..i + 1]`. A poll from offset `k` returns exactly the
/// entries with index `k` or more, in order.
pub proof fn lemma_offsets_increase(log: Seq<i64>, msgs: Seq<i64>, k: int)
    ensures
        forall|i: int| 0 <= i <= msgs.len() ==> (#[trigger] (log + msgs.take(i))).len() == log.len() + i,
        forall|i: int| 0 <= i < msgs.len() ==> (#[trigger] (log + msgs.take(i))).push(msgs[i]) == log + msgs.take(i + 1),
        0 <= k <= log.len() ==> entries_from(log, k).len() == log.len() - k,
        0 <= k <= log.len() ==> forall|j: int|
            0 <= j < log.len() - k ==> #[trigger] entries_from(log, k)[j] == ((k + j) as i64, log[k + j]),
{
    assert forall|i: int| 0 <= i < msgs.len() implies (#[trigger] (log + msgs.take(i))).push(msgs[i]) == log + msgs.take(i + 1) by {
        assert((log + msgs.take(i)).push(msgs[i]) =~= log + msgs.take(i + 1));
    }
}

/// Committed offsets never regress: after committing `a` and then `b`, the
/// stored offset is the largest of the one before, `a` and `b`; a smaller
/// later commit leaves it where it was.
pub proof fn lemma_commit_never_regresses(stored: Value, a: i64, b: i64)
    ensures
        committed_of(commit_result(stored, a)) >= committed_of(stored),
        committed_of(commit_result(stored, a)) >= a,
        committed_of(commit_result(commit_result(stored, a), b)) >= committed_of(commit_result(stored, a)),
        b <= a ==> commit_result(commit_result(stored, a), b) == commit_result(stored, a),
{
}


/// Where a send to the log stands.
#[derive(Debug, Clone, Copy, PartialEq, Eq)]
pub enum SendPhase {
    /// Waiting for the lock.
    Locking,
    /// Holding the lock, waiting for the key's log.
    Reading,
    /// Waiting for the longer log to be written.
    Writing,
    /// Replied; waiting for the lock to be given back.
    Unlocking,
    Done,
}

/// One `send` of a value to a key's log, under the lock: take the lock,
/// read the log, write it back with the value appended, reply with the
/// value's offset, give the lock back.
pub struct SendSession {
    node_id: String,
    key: String,
    msg: i64,
    offset: i64,
    phase: SendPhase,
}

impl SendSession {
    pub closed spec fn phase(&self) -> SendPhase {
        self.phase
    }

    /// The offset the value was given, once the log has been read.
    pub closed spec fn offset(&self) -> i64 {
        self.offset
    }

    pub closed spec fn node_id(&self) -> Seq<char> {
        self.node_id@
    }

    pub closed spec fn key(&self) -> Seq<char> {
        self.key@
    }

    pub closed spec fn msg(&self) -> i64 {
        self.msg
    }

    /// Starts a send of `msg` to the log `key` by node `node_id`: the first
    /// step asks for the lock.
    pub fn start(node_id: &str, key: String, msg: i64) -> (r: (Self, Step))
        ensures
            r.0.phase() == SendPhase::Locking,
            r.0.node_id() == node_id@,
            r.0.key() == key@,
            r.0.msg() == msg,
            r.1.reply is None,
            r.1.request is Some && is_lock_request(r.1.request->0, node_id@, true),
    {
        let session = SendSession { node_id: String::from_str(node_id), key, msg, offset: 0, phase: SendPhase::Locking };
        let request = lock_request(node_id, true);
        (session, Step { reply: None, request: Some(request) })
    }

    /// Takes in the store's reply to the last request and gives the next
    /// step.
    pub fn on_reply(&mut self, response: MessageType) -> (r: Step)
        ensures
            final(self).node_id() == old(self).node_id(),
            final(self).key() == old(self).key(),
            final(self).msg() == old(self).msg(),
            match old(self).phase() {
                SendPhase::Locking => if response is CasOk {
                    &&& final(self).phase() == SendPhase::Reading
                    &&& r.reply is None
                    &&& r.request is Some && is_read_of(r.request->0, old(self).key())
                } else {
                    &&& final(self).phase() == SendPhase::Locking
                    &&& r.reply is None
                    &&& r.request is Some && is_lock_request(r.request->0, old(self).node_id(), true)
                },
                SendPhase::Reading => {
                    let log = log_of(value_read(response));
                    if log.len() < i64::MAX {
                        &&& final(self).phase() == SendPhase::Writing
                        &&& final(self).offset() == log.len()
                        &&& r.reply is None
                        &&& r.request is Some
                        &&& r.request->0.msg_type is Write
                        &&& r.request->0.msg_type->Write_key@ == old(self).key()
                        &&& r.request->0.msg_type->Write_value is Vec
                        &&& log_of(r.request->0.msg_type->Write_value) == log.push(old(self).msg())
                    } else {
                        &&& final(self).phase() == SendPhase::Unlocking
                        &&& r.reply is None
                        &&& r.request is Some && is_lock_request(r.request->0, old(self).node_id(), false)
                    }
                },
                SendPhase::Writing => {
                    &&& final(self).phase() == SendPhase::Unlocking
                    &&& r.reply == Some(MessageType::SendOk { offset: old(self).offset() })
                    &&& r.request is Some && is_lock_request(r.request->0, old(self).node_id(), false)
                },
                SendPhase::Unlocking => if response is CasOk {
                    &&& final(self).phase() == SendPhase::Done
                    &&& r.reply is None
                    &&& r.request is None
                } else {
                    &&& final(self).phase() == SendPhase::Unlocking
                    &&& r.reply is None
                    &&& r.request is Some && is_lock_request(r.request->0, old(self).node_id(), false)
                },
                SendPhase::Done => final(self).phase() == SendPhase::Done && r.reply is None && r.request is None,
            },
    {
        match self.phase {
            SendPhase::Locking => {
                if is_cas_ok(&response) {
                    self.phase = SendPhase::Reading;
                    Step { reply: None, request: Some(read_request(self.key.clone())) }
                } else {
                    Step { reply: None, request: Some(lock_request(self.node_id.as_str(), true)) }
                }
            },
            SendPhase::Reading => {
                let current = read_value(response);
                let long = match &current {
                    Value::Vec(data) => data.len() as u64 >= i64::MAX as u64,
                    _ => false,
                };
                if long {
                    self.phase = SendPhase::Unlocking;
                    Step { reply: None, request: Some(lock_request(self.node_id.as_str(), false)) }
                } else {
                    let (offset, data) = append_entry(current, self.msg);
                    self.offset = offset;
                    self.phase = SendPhase::Writing;
                    Step { reply: None, request: Some(write_request(self.key.clone(), data)) }
                }
            },
            SendPhase::Writing => {
                self.phase = SendPhase::Unlocking;
                Step {
                    reply: Some(MessageType::SendOk { offset: self.offset }),
                    request: Some(lock_request(self.node_id.as_str(), false)),
                }
            },
            SendPhase::Unlocking => {
                if is_cas_ok(&response) {
                    self.phase = SendPhase::Done;
                    Step { reply: None, request: None }
                } else {
                    Step { reply: None, request: Some(lock_request(self.node_id.as_str(), false)) }
                }
            },
            SendPhase::Done => Step { reply: None, request: None },
        }
    }
}

/// Where a commit of offsets stands.
#[derive(Debug, Clone, Copy, PartialEq, Eq)]
pub enum CommitPhase {
    /// Waiting for the lock.
    Locking,
    /// Waiting for the committed offset of the current key.
    Reading,
    /// Waiting for the current key's new committed offset to be written.
    Writing,
    /// Replied; waiting for the lock to be given back.
    Unlocking,
    Done,
}

/// One `commit_offsets`, under the lock: for each key in turn, read its
/// committed offset and write the new one where it is larger; then reply
/// and give the lock back.
pub struct CommitSession {
    node_id: String,
    offsets: Vec<(String, i64)>,
    index: usize,
    phase: CommitPhase,
}

/// `b` reads the committed offset of `key`.
pub open spec fn is_committed_read(b: MessageBody, key: Seq<char>) -> bool {
    is_read_of(b, key + seq!['-', 'c', 'o', 'm', 'm', 'i', 't', 't', 'e', 'd'])
}

impl CommitSession {
    pub closed spec fn wf(&self) -> bool {
        &&& self.index <= self.offsets@.len()
        &&& ((self.phase == CommitPhase::Reading || self.phase == CommitPhase::Writing) ==> self.index
            < self.offsets@.len())
    }

    pub closed spec fn phase(&self) -> CommitPhase {
        self.phase
    }

    /// The position of the key being worked on.
    pub closed spec fn index(&self) -> int {
        self.index as int
    }

    pub closed spec fn offsets(&self) -> Seq<(String, i64)> {
        self.offsets@
    }

    pub closed spec fn node_id(&self) -> Seq<char> {
        self.node_id@
    }

    /// Starts a commit of `offsets` by node `node_id`: the first step asks
    /// for the lock.
    pub fn start(node_id: &str, offsets: Vec<(String, i64)>) -> (r: (Self, Step))
        ensures
            r.0.wf(),
            r.0.phase() == CommitPhase::Locking,
            r.0.index() == 0,
            r.0.offsets() == offsets@,
            r.0.node_id() == node_id@,
            r.1.reply is None,
            r.1.request is Some && is_lock_request(r.1.request->0, node_id@, true),
    {
        let session = CommitSession { node_id: String::from_str(node_id), offsets, index: 0, phase: CommitPhase::Locking };
        (session, Step { reply: None, request: Some(lock_request(node_id, true)) })
    }

    /// Moves on to the key at `next`, or to the reply once all are done.
    fn advance(&mut self, next: usize) -> (r: Step)
        requires
            next <= old(self).offsets@.len(),
        ensures
            final(self).wf(),
            final(self).node_id == old(self).node_id,
            final(self).offsets == old(self).offsets,
            final(self).index == next,
            next < old(self).offsets@.len() ==> {
                &&& final(self).phase == CommitPhase::Reading
                &&& r.reply is None
                &&& r.request is Some && is_committed_read(r.request->0, old(self).offsets@[next as int].0@)
            },
            next == old(self).offsets@.len() ==> {
                &&& final(self).phase == CommitPhase::Unlocking
                &&& r.reply == Some(MessageType::CommitOffsetsOk)
                &&& r.request is Some && is_lock_request(r.request->0, old(self).node_id@, false)
            },
    {
        self.index = next;
        if next < self.offsets.len() {
            self.phase = CommitPhase::Reading;
            let key = committed_key(self.offsets[next].0.as_str());
            Step { reply: None, request: Some(read_request(key)) }
        } else {
            self.phase = CommitPhase::Unlocking;
            Step { reply: Some(MessageType::CommitOffsetsOk), request: Some(lock_request(self.node_id.as_str(), false)) }
        }
    }

    /// Takes in the store's reply to the last request and gives the next
    /// step.
    pub fn on_reply(&mut self, response: MessageType) -> (r: Step)
        requires
            old(self).wf(),
        ensures
            final(self).wf(),
            final(self).node_id() == old(self).node_id(),
            final(self).offsets() == old(self).offsets(),
            match old(self).phase() {
                CommitPhase::Locking => if response is CasOk {
                    &&& final(self).index() == 0
                    &&& (old(self).offsets().len() > 0 ==> final(self).phase() == CommitPhase::Reading
                        && r.reply is None && r.request is Some
                        && is_committed_read(r.request->0, old(self).offsets()[0].0@))
                    &&& (old(self).offsets().len() == 0 ==> final(self).phase() == CommitPhase::Unlocking
                        && r.reply == Some(MessageType::CommitOffsetsOk) && r.request is Some
                        && is_lock_request(r.request->0, old(self).node_id(), false))
                } else {
                    &&& final(self).phase() == CommitPhase::Locking
                    &&& final(self).index() == old(self).index()
                    &&& r.reply is None
                    &&& r.request is Some && is_lock_request(r.request->0, old(self).node_id(), true)
                },
                CommitPhase::Reading => {
                    let (key, offset) = old(self).offsets()[old(self).index()];
                    let stored = value_read(response);
                    if committed_of(stored) < offset {
                        &&& final(self).phase() == CommitPhase::Writing
                        &&& final(self).index() == old(self).index()
                        &&& r.reply is None
                        &&& r.request is Some
                        &&& r.request->0.msg_type is Write
                        &&& r.request->0.msg_type->Write_key@ == key@ + seq!['-', 'c', 'o', 'm', 'm', 'i', 't', 't', 'e', 'd']
                        &&& r.request->0.msg_type->Write_value == Value::Int(offset)
                    } else {
                        final(self).index() == old(self).index() + 1
                    }
                },
                CommitPhase::Writing => final(self).index() == old(self).index() + 1,
                CommitPhase::Unlocking => if response is CasOk {
                    &&& final(self).phase() == CommitPhase::Done
                    &&& r.reply is None
                    &&& r.request is None
                } else {
                    &&& final(self).phase() == CommitPhase::Unlocking
                    &&& r.reply is None
                    &&& r.request is Some && is_lock_request(r.request->0, old(self).node_id(), false)
                },
                CommitPhase::Done => final(self).phase() == CommitPhase::Done && r.reply is None && r.request is None,
            },
            (old(self).phase() is Reading || old(self).phase() is Writing) && final(self).index() == old(self).index() + 1
                ==> {
                &&& final(self).index() < old(self).offsets().len() ==> final(self).phase() == CommitPhase::Reading
                    && r.reply is None && r.request is Some
                    && is_committed_read(r.request->0, old(self).offsets()[final(self).index()].0@)
                &&& final(self).index() == old(self).offsets().len() ==> final(self).phase() == CommitPhase::Unlocking
                    && r.reply == Some(MessageType::CommitOffsetsOk) && r.request is Some
                    && is_lock_request(r.request->0, old(self).node_id(), false)
            },
    {
        match self.phase {
            CommitPhase::Locking => {
                if is_cas_ok(&response) {
                    self.advance(0)
                } else {
                    Step { reply: None, request: Some(lock_request(self.node_id.as_str(), true)) }
                }
            },
            CommitPhase::Reading => {
                let n = self.offsets.len();
                let i = self.index;
                assert(i < n);
                let offset = self.offsets[i].1;
                match commit_update(read_value(response), offset) {
                    Some(o) => {
                        self.phase = CommitPhase::Writing;
                        let key = committed_key(self.offsets[i].0.as_str());
                        Step { reply: None, request: Some(write_request(key, Value::Int(o))) }
                    },
                    None => self.advance(i + 1),
                }
            },
            CommitPhase::Writing => {
                let n = self.offsets.len();
                assert(self.index < n);
                let next = self.index + 1;
                self.advance(next)
            },
            CommitPhase::Unlocking => {
                if is_cas_ok(&response) {
                    self.phase = CommitPhase::Done;
                    Step { reply: None, request: None }
                } else {
                    Step { reply: None, request: Some(lock_request(self.node_id.as_str(), false)) }
                }
            },
            CommitPhase::Done => Step { reply: None, request: None },
        }
    }
}

} // verus!
