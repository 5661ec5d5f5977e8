use vstd::prelude::*;

use crate::gossip::{address_all, excluding, others};
use crate::message::{int_of, Message, MessageType, Value};
use crate::node::{addressed, reply_only, Reaction};
use crate::table::index_of;

verus! {

/// The sum of a sequence of integers.
pub open spec fn sum_of(s: Seq<i64>) -> int
    decreases s.len(),
{
    if s.len() == 0 {
        0
    } else {
        sum_of(s.drop_last()) + s.last()
    }
}

/// Whether an integer fits in an `i64`.
pub open spec fn fits(x: int) -> bool {
    i64::MIN <= x <= i64::MAX
}

/// The sum of `xs`, when it fits in an `i64`.
pub fn sum_ints(xs: &Vec<i64>) -> (r: Option<i64>)
    ensures
        fits(sum_of(xs@)) ==> r == Some(sum_of(xs@) as i64),
        !fits(sum_of(xs@)) ==> r is None,
{
    let mut total: i128 = 0;
    let mut i: usize = 0;
    while i < xs.len()
        invariant
            i <= xs@.len(),
            total == sum_of(xs@.take(i as int)),
            -(i as int) * 0x8000_0000_0000_0000 <= total <= (i as int) * 0x7fff_ffff_ffff_ffff,
        decreases xs@.len() - i,
    {
        proof {
            assert(xs@.take(i + 1).drop_last() == xs@.take(i as int));
        }
        total = total + xs[i] as i128;
        i = i + 1;
    }
    proof {
        assert(xs@.take(i as int) == xs@);
    }
    if i64::MIN as i128 <= total && total <= i64::MAX as i128 {
        Some(total as i64)
    } else {
        None
    }
}

/// The merge of a slot with a value received for it: the larger of the two.
pub open spec fn merged(slot: i64, value: i64) -> i64 {
    if value > slot {
        value
    } else {
        slot
    }
}

/// A slot after the values `vs` have been merged into it, in that order.
pub open spec fn merge_all(slot: i64, vs: Seq<i64>) -> i64
    decreases vs.len(),
{
    if vs.len() == 0 {
        slot
    } else {
        merged(merge_all(slot, vs.drop_last()), vs.last())
    }
}

/// A grow-only counter node that keeps one slot for each node id and merges
/// the absolute values that peers send.
pub struct CounterNode {
    ids: Vec<String>,
    values: Vec<i64>,
}

/// The ids in `ids` are pairwise distinct.
pub open spec fn distinct_ids(ids: Seq<String>) -> bool {
    forall|i: int, j: int| 0 <= i < j < ids.len() ==> ids[i]@ != ids[j]@
}

/// Some position of `ids` holds `k`.
pub open spec fn has_id(ids: Seq<String>, k: Seq<char>) -> bool {
    exists|i: int| 0 <= i < ids.len() && ids[i]@ == k
}

impl CounterNode {
    pub closed spec fn wf(&self) -> bool {
        &&& self.ids@.len() == self.values@.len()
        &&& distinct_ids(self.ids@)
    }

    /// Whether the node keeps a slot for `k`.
    pub closed spec fn has_slot(&self, k: Seq<char>) -> bool {
        has_id(self.ids@, k)
    }

    /// The value of the slot of `k`; zero where there is none.
    pub closed spec fn slot(&self, k: Seq<char>) -> i64 {
        if self.has_slot(k) {
            self.values@[choose|i: int| 0 <= i < self.ids@.len() && self.ids@[i]@ == k]
        } else {
            0
        }
    }

    /// The values of all slots.
    pub closed spec fn slots(&self) -> Seq<i64> {
        self.values@
    }

    proof fn lemma_slot_at(&self, i: int)
        requires
            self.wf(),
            0 <= i < self.ids@.len(),
        ensures
            self.has_slot(self.ids@[i]@),
            self.slot(self.ids@[i]@) == self.values@[i],
    {
        let k = self.ids@[i]@;
        let j = choose|j: int| 0 <= j < self.ids@.len() && self.ids@[j]@ == k;
        assert(j == i);
    }

    /// A counter with a zero slot for each distinct id of `node_ids`.
    pub fn new(node_ids: &Vec<String>) -> (r: Self)
        ensures
            r.wf(),
            forall|k: Seq<char>| #[trigger] r.has_slot(k) <==> has_id(node_ids@, k),
            forall|k: Seq<char>| #[trigger] r.has_slot(k) ==> r.slot(k) == 0,
    {
        let mut ids: Vec<String> = Vec::new();
        let mut values: Vec<i64> = Vec::new();
        let mut i: usize = 0;
        while i < node_ids.len()
            invariant
                i <= node_ids@.len(),
                ids@.len() == values@.len(),
                distinct_ids(ids@),
                forall|k: Seq<char>| #[trigger] has_id(ids@, k) <==> has_id(node_ids@.take(i as int), k),
                forall|a: int| 0 <= a < values@.len() ==> values@[a] == 0,
            decreases node_ids@.len() - i,
        {
            let id = &node_ids[i];
            let found = index_of(&ids, id.as_str());
            proof {
                assert forall|k: Seq<char>| #[trigger] has_id(node_ids@.take(i + 1), k)
                    <==> (has_id(node_ids@.take(i as int), k) || k == id@) by {
                    let t1 = node_ids@.take(i + 1);
                    let t0 = node_ids@.take(i as int);
                    if has_id(t1, k) {
                        let a = choose|a: int| 0 <= a < t1.len() && t1[a]@ == k;
                        if a < i {
                            assert(t0[a]@ == k);
                        }
                    }
                    if has_id(t0, k) {
                        let a = choose|a: int| 0 <= a < t0.len() && t0[a]@ == k;
                        assert(t1[a]@ == k);
                    }
                    if k == id@ {
                        assert(t1[i as int]@ == k);
                    }
                }
            }
            let ghost before = ids@;
            if found.is_none() {
                ids.push(id.clone());
                values.push(0);
                proof {
                    assert forall|k: Seq<char>| #[trigger] has_id(ids@, k) <==> (has_id(before, k) || k == id@) by {
                        if k == id@ {
                            assert(ids@[ids@.len() - 1]@ == k);
                        }
                        if has_id(ids@, k) {
                            let a = choose|a: int| 0 <= a < ids@.len() && ids@[a]@ == k;
                            if a < ids@.len() - 1 {
                                assert(before[a]@ == k);
                            }
                        }
                        if has_id(before, k) {
                            let a = choose|a: int| 0 <= a < before.len() && before[a]@ == k;
                            assert(ids@[a]@ == k);
                        }
                    }
                }
            } else {
                proof {
                    let a = found->0 as int;
                    assert(has_id(ids@, id@)) by { assert(ids@[a]@ == id@); }
                }
            }
            i = i + 1;
        }
        proof {
            assert(node_ids@.take(i as int) == node_ids@);
        }
        let r = CounterNode { ids, values };
        proof {
            assert forall|k: Seq<char>| #[trigger] r.has_slot(k) <==> has_id(node_ids@, k) by {
                assert(r.has_slot(k) == has_id(ids@, k));
            }
            assert forall|k: Seq<char>| #[trigger] r.has_slot(k) implies r.slot(k) == 0 by {
                let a = choose|a: int| 0 <= a < r.ids@.len() && r.ids@[a]@ == k;
                r.lemma_slot_at(a);
            }
        }
        r
    }

    /// Finds the position of the slot of `k`.
    fn position(&self, k: &str) -> (r: Option<usize>)
        requires
            self.wf(),
        ensures
            r is Some <==> self.has_slot(k@),
            r is Some ==> r->0 < self.ids@.len() && self.ids@[r->0 as int]@ == k@,
    {
        index_of(&self.ids, k)
    }

    /// Adds `delta` to the slot of `me` and returns its new absolute value,
    /// which is what the node then sends to its peers. Returns `None`, and
    /// changes nothing, when there is no such slot or the sum does not fit.
    pub fn add(&mut self, me: &str, delta: i64) -> (r: Option<i64>)
        requires
            old(self).wf(),
        ensures
            final(self).wf(),
            (old(self).has_slot(me@) && fits(old(self).slot(me@) + delta)) ==> {
                &&& r == Some((old(self).slot(me@) + delta) as i64)
                &&& final(self).slot(me@) == old(self).slot(me@) + delta
            },
            !(old(self).has_slot(me@) && fits(old(self).slot(me@) + delta)) ==> r is None
                && final(self).slot(me@) == old(self).slot(me@),
            forall|k: Seq<char>| #[trigger] final(self).has_slot(k) == old(self).has_slot(k),
            forall|k: Seq<char>| k != me@ ==> #[trigger] final(self).slot(k) == old(self).slot(k),
    {
        match self.position(me) {
            Some(i) => {
                proof { self.lemma_slot_at(i as int); }
                let cur = self.values[i];
                if (delta >= 0 && cur <= i64::MAX - delta) || (delta < 0 && cur >= i64::MIN - delta) {
                    let v = cur + delta;
                    self.values.set(i, v);
                    proof { self.lemma_unchanged_elsewhere(*old(self), i as int); }
                    Some(v)
                } else {
                    None
                }
            },
            None => None,
        }
    }

    proof fn lemma_unchanged_elsewhere(&self, before: Self, i: int)
        requires
            before.wf(),
            0 <= i < before.ids@.len(),
            self.ids == before.ids,
            self.values@.len() == before.values@.len(),
            self.values@ == before.values@.update(i, self.values@[i]),
        ensures
            self.wf(),
            self.slot(self.ids@[i]@) == self.values@[i],
            forall|k: Seq<char>| #[trigger] self.has_slot(k) == before.has_slot(k),
            forall|k: Seq<char>| k != self.ids@[i]@ ==> #[trigger] self.slot(k) == before.slot(k),
    {
        self.lemma_slot_at(i);
        assert forall|k: Seq<char>| k != self.ids@[i]@ implies #[trigger] self.slot(k) == before.slot(k) by {
            if self.has_slot(k) {
                let j = choose|j: int| 0 <= j < self.ids@.len() && self.ids@[j]@ == k;
                self.lemma_slot_at(j);
                before.lemma_slot_at(j);
            }
        }
    }

    /// A peer `src` reports the absolute value `value` of its slot: the
    /// slot becomes the larger of the two. Nothing changes for an unknown id.
    pub fn merge(&mut self, src: &str, value: i64)
        requires
            old(self).wf(),
        ensures
            final(self).wf(),
            old(self).has_slot(src@) ==> final(self).slot(src@) == merged(old(self).slot(src@), value),
            forall|k: Seq<char>| #[trigger] final(self).has_slot(k) == old(self).has_slot(k),
            forall|k: Seq<char>| k != src@ ==> #[trigger] final(self).slot(k) == old(self).slot(k),
            !old(self).has_slot(src@) ==> final(self).slots() == old(self).slots(),
    {
        match self.position(src) {
            Some(i) => {
                proof { self.lemma_slot_at(i as int); }
                let cur = self.values[i];
                let v = if value > cur { value } else { cur };
                self.values.set(i, v);
                proof { self.lemma_unchanged_elsewhere(*old(self), i as int); }
            },
            None => {},
        }
    }

    /// Handles one message of the counter protocol at node `node_id` of
    /// the network `node_ids`. An add to this node's slot is acknowledged
    /// and its new absolute value is sent to every other node; a value
    /// reported by a peer is merged into its slot without a reply; a read is
    /// answered with the total. An add or a read that cannot be done (an
    /// unknown slot, a sum that does not fit) gets no reply. Anything else
    /// is ignored.
    pub fn handle(&mut self, node_id: &str, node_ids: &Vec<String>, request: &Message) -> (r: Reaction)
        requires
            old(self).wf(),
        ensures
            final(self).wf(),
            forall|k: Seq<char>| #[trigger] final(self).has_slot(k) == old(self).has_slot(k),
            match request.body.msg_type {
                MessageType::Add { delta } => {
                    let me = request.dest@;
                    &&& forall|k: Seq<char>| k != me ==> #[trigger] final(self).slot(k) == old(self).slot(k)
                    &&& if old(self).has_slot(me) && fits(old(self).slot(me) + delta) {
                        let v = (old(self).slot(me) + delta) as i64;
                        &&& final(self).slot(me) == v
                        &&& r.reply == Some(MessageType::AddOk)
                        &&& addressed(r.outgoing@, excluding(node_ids@, node_id@), MessageType::Broadcast { message: v })
                    } else {
                        &&& final(self).slot(me) == old(self).slot(me)
                        &&& r.reply is None
                        &&& r.outgoing@.len() == 0
                    }
                },
                MessageType::Broadcast { message } => {
                    &&& (old(self).has_slot(request.src@) ==> final(self).slot(request.src@) == merged(
                        old(self).slot(request.src@),
                        message,
                    ))
                    &&& forall|k: Seq<char>| k != request.src@ ==> #[trigger] final(self).slot(k) == old(self).slot(k)
                    &&& r.reply is None
                    &&& r.outgoing@.len() == 0
                },
                MessageType::Read { .. } => {
                    &&& *final(self) == *old(self)
                    &&& r.outgoing@.len() == 0
                    &&& fits(sum_of(old(self).slots())) ==> r.reply == Some(MessageType::ReadOk {
                        messages: None,
                        value: Some(Value::Int(sum_of(old(self).slots()) as i64)),
                    })
                    &&& !fits(sum_of(old(self).slots())) ==> r.reply is None
                },
                _ => *final(self) == *old(self) && r.reply is None && r.outgoing@.len() == 0,
            },
    {
        match &request.body.msg_type {
            MessageType::Add { delta } => match self.add(request.dest.as_str(), *delta) {
                Some(v) => Reaction {
                    reply: Some(MessageType::AddOk),
                    outgoing: address_all(others(node_ids, node_id), v),
                },
                None => reply_only(None),
            },
            MessageType::Broadcast { message } => {
                self.merge(request.src.as_str(), *message);
                reply_only(None)
            },
            MessageType::Read { .. } => match self.read() {
                Some(v) => reply_only(Some(MessageType::ReadOk { messages: None, value: Some(Value::Int(v)) })),
                None => reply_only(None),
            },
            _ => reply_only(None),
        }
    }

    /// The total of all slots, when it fits in an `i64`.
    pub fn read(&self) -> (r: Option<i64>)
        ensures
            fits(sum_of(self.slots())) ==> r == Some(sum_of(self.slots()) as i64),
            !fits(sum_of(self.slots())) ==> r is None,
    {
        sum_ints(&self.values)
    }
}

proof fn lemma_merge_all_is_max(slot: i64, vs: Seq<i64>)
    ensures
        merge_all(slot, vs) >= slot,
        forall|i: int| 0 <= i < vs.len() ==> merge_all(slot, vs) >= #[trigger] vs[i],
        merge_all(slot, vs) == slot || vs.contains(merge_all(slot, vs)),
    decreases vs.len(),
{
    if vs.len() > 0 {
        let init = vs.drop_last();
        lemma_merge_all_is_max(slot, init);
        assert forall|i: int| 0 <= i < vs.len() implies merge_all(slot, vs) >= #[trigger] vs[i] by {
            if i < vs.len() - 1 {
                assert(vs[i] == init[i]);
            }
        }
        let r0 = merge_all(slot, init);
        if r0 != slot && merge_all(slot, vs) == r0 {
            let j = choose|j: int| 0 <= j < init.len() && init[j] == r0;
            assert(vs[j] == r0);
        }
        if merge_all(slot, vs) == vs.last() {
            assert(vs[vs.len() - 1] == vs.last());
        }
    }
}

/// Monotonic merge: merging the values a peer broadcast, in any order and
/// with any repeats, leaves the slot at the largest of its first value and
/// the values received. Two deliveries of the same values, however ordered
/// or duplicated, end at the same slot.
pub proof fn lemma_merge_order_independent(slot: i64, a: Seq<i64>, b: Seq<i64>)
    requires
        a.to_set() == b.to_set(),
    ensures
        merge_all(slot, a) == merge_all(slot, b),
        merge_all(slot, a) >= slot,
        forall|i: int| 0 <= i < a.len() ==> merge_all(slot, a) >= #[trigger] a[i],
{
    lemma_merge_all_is_max(slot, a);
    lemma_merge_all_is_max(slot, b);
    let ra = merge_all(slot, a);
    let rb = merge_all(slot, b);
    if ra != slot {
        assert(a.to_set().contains(ra));
        assert(b.to_set().contains(ra));
        let j = choose|j: int| 0 <= j < b.len() && b[j] == ra;
        assert(rb >= b[j]);
    }
    if rb != slot {
        assert(b.to_set().contains(rb));
        assert(a.to_set().contains(rb));
        let j = choose|j: int| 0 <= j < a.len() && a[j] == rb;
        assert(ra >= a[j]);
    }
}

/// The value a register holds as a counter: its integer, or zero.
pub open spec fn register_count(v: Value) -> i64 {
    match int_of(v) {
        Some(i) => i,
        None => 0,
    }
}

/// The counter a register holds: its integer, or zero when it holds none.
pub fn register_value(v: Value) -> (r: i64)
    ensures
        r == register_count(v),
{
    v.as_int().unwrap_or(0)
}

/// The value to write back to a node's register after adding `delta` to
/// what was read from it; `None` when the sum does not fit.
pub fn add_to_register(current: Value, delta: i64) -> (r: Option<Value>)
    ensures
        fits(register_count(current) + delta) ==> r == Some(Value::Int((register_count(current) + delta) as i64)),
        !fits(register_count(current) + delta) ==> r is None,
{
    let cur = register_value(current);
    if (delta >= 0 && cur <= i64::MAX - delta) || (delta < 0 && cur >= i64::MIN - delta) {
        Some(Value::Int(cur + delta))
    } else {
        None
    }
}

} // verus!
