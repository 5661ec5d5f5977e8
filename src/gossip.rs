use vstd::prelude::*;

use crate::message::{Message, MessageType};
use crate::node::{addressed, reply_only, Reaction};
use crate::table::{
    copy_ints, copy_strings, find_key, first_key, has_key, insert_all, insert_new, lemma_push_to_set,
};

verus! {

/// The neighbours in `s`, in order, without those named `src`.
pub open spec fn excluding(s: Seq<String>, src: Seq<char>) -> Seq<String>
    decreases s.len(),
{
    if s.len() == 0 {
        Seq::empty()
    } else {
        let r = excluding(s.drop_last(), src);
        if s.last()@ == src {
            r
        } else {
            r.push(s.last())
        }
    }
}

/// The seen-set after a value arrives.
pub open spec fn after_receive(seen: Set<i64>, m: i64) -> Set<i64> {
    seen.insert(m)
}

/// Whether a value that arrives is passed on: only when it is new.
pub open spec fn passes_on(seen: Set<i64>, m: i64) -> bool {
    !seen.contains(m)
}

/// The neighbours of a node, empty while the topology is unknown.
pub open spec fn neighbours_or_empty(n: Option<Vec<String>>) -> Seq<String> {
    match n {
        Some(v) => v@,
        None => Seq::empty(),
    }
}

/// The neighbours to which a value that came from `src` is passed on.
pub fn others(neighbours: &Vec<String>, src: &str) -> (r: Vec<String>)
    ensures
        r@ == excluding(neighbours@, src@),
{
    let from = String::from_str(src);
    let mut out: Vec<String> = Vec::new();
    let mut i: usize = 0;
    while i < neighbours.len()
        invariant
            i <= neighbours@.len(),
            from@ == src@,
            out@ == excluding(neighbours@.take(i as int), src@),
        decreases neighbours@.len() - i,
    {
        proof {
            assert(neighbours@.take(i + 1).drop_last() == neighbours@.take(i as int));
        }
        if neighbours[i] != from {
            out.push(neighbours[i].clone());
        }
        i = i + 1;
    }
    proof {
        assert(neighbours@.take(i as int) == neighbours@);
    }
    out
}

/// Addresses one broadcast of `message` to each of `dests`.
pub fn address_all(dests: Vec<String>, message: i64) -> (r: Vec<(String, MessageType)>)
    ensures
        addressed(r@, dests@, MessageType::Broadcast { message }),
{
    let mut out: Vec<(String, MessageType)> = Vec::new();
    let mut i: usize = 0;
    while i < dests.len()
        invariant
            i <= dests@.len(),
            addressed(out@, dests@.take(i as int), MessageType::Broadcast { message }),
        decreases dests@.len() - i,
    {
        out.push((dests[i].clone(), MessageType::Broadcast { message }));
        i = i + 1;
    }
    proof {
        assert(dests@.take(i as int) == dests@);
    }
    out
}

/// The neighbour list that a topology gives the node `node_id`: that of the
/// first entry under its id.
pub open spec fn topology_entry(
    topology: Seq<(String, Vec<String>)>,
    node_id: Seq<char>,
    nbrs: Seq<String>,
) -> bool {
    exists|i: int| first_key(topology, node_id, i) && topology[i].1@ == nbrs
}

/// Looks up the neighbours of `node_id` in a topology.
pub fn neighbours_in(topology: &Vec<(String, Vec<String>)>, node_id: &str) -> (r: Option<Vec<String>>)
    ensures
        r is Some <==> has_key(topology@, node_id@),
        r is Some ==> topology_entry(topology@, node_id@, r->0@),
{
    match find_key(topology, node_id) {
        Some(i) => {
            let r = copy_strings(&topology[i].1);
            proof {
                assert(first_key(topology@, node_id@, i as int));
            }
            Some(r)
        },
        None => None,
    }
}

/// A node of the direct-gossip broadcast: the values it has seen, and its
/// neighbours once the topology is known.
pub struct BroadcastNode {
    neighbours: Option<Vec<String>>,
    messages: Vec<i64>,
}

impl BroadcastNode {
    pub closed spec fn wf(&self) -> bool {
        self.messages@.no_duplicates()
    }

    /// The values seen so far.
    pub closed spec fn seen(&self) -> Set<i64> {
        self.messages@.to_set()
    }

    /// The neighbours, once set.
    pub closed spec fn neighbours(&self) -> Option<Vec<String>> {
        self.neighbours
    }

    pub fn new() -> (r: Self)
        ensures
            r.wf(),
            r.seen() == Set::<i64>::empty(),
            r.neighbours() is None,
    {
        BroadcastNode { neighbours: None, messages: Vec::new() }
    }

    /// Takes this node's neighbours from a topology. Returns whether the
    /// topology names the node; only the first topology that does sets the
    /// neighbours.
    pub fn set_topology(&mut self, node_id: &str, topology: &Vec<(String, Vec<String>)>) -> (r: bool)
        requires
            old(self).wf(),
        ensures
            final(self).wf(),
            r == has_key(topology@, node_id@),
            final(self).seen() == old(self).seen(),
            (r && old(self).neighbours() is None) ==> final(self).neighbours() is Some
                && topology_entry(topology@, node_id@, final(self).neighbours()->0@),
            !(r && old(self).neighbours() is None) ==> final(self).neighbours() == old(self).neighbours(),
    {
        match neighbours_in(topology, node_id) {
            Some(n) => {
                if self.neighbours.is_none() {
                    self.neighbours = Some(n);
                }
                true
            },
            None => false,
        }
    }

    /// A value arrives from `src`. A new one is recorded and passed on to
    /// every neighbour but `src`; one seen before changes nothing. Returns
    /// the neighbours to pass it on to.
    pub fn receive(&mut self, message: i64, src: &str) -> (targets: Vec<String>)
        requires
            old(self).wf(),
        ensures
            final(self).wf(),
            final(self).seen() == after_receive(old(self).seen(), message),
            final(self).neighbours() == old(self).neighbours(),
            targets@ == (if passes_on(old(self).seen(), message) {
                excluding(neighbours_or_empty(old(self).neighbours()), src@)
            } else {
                Seq::empty()
            }),
    {
        if insert_new(&mut self.messages, message) {
            match &self.neighbours {
                Some(n) => others(n, src),
                None => Vec::new(),
            }
        } else {
            Vec::new()
        }
    }

    /// The values seen so far, each once.
    pub fn read(&self) -> (r: Vec<i64>)
        requires
            self.wf(),
        ensures
            r@.to_set() == self.seen(),
            r@.no_duplicates(),
    {
        copy_ints(&self.messages)
    }

    /// Handles one message of the broadcast protocol for node `node_id`:
    /// a topology sets the neighbours and is acknowledged if it names the
    /// node; a broadcast is recorded, acknowledged and, when new, sent on
    /// (with retries until acknowledged) to every neighbour but its sender;
    /// a read is answered with the values seen. Anything else is ignored.
    pub fn handle(&mut self, node_id: &str, request: &Message) -> (r: Reaction)
        requires
            old(self).wf(),
        ensures
            final(self).wf(),
            match request.body.msg_type {
                MessageType::Topology { topology } => {
                    &&& final(self).seen() == old(self).seen()
                    &&& r.outgoing@.len() == 0
                    &&& (has_key(topology@, node_id@) ==> r.reply == Some(MessageType::TopologyOk))
                    &&& (!has_key(topology@, node_id@) ==> r.reply is None)
                },
                MessageType::Broadcast { message } => {
                    &&& final(self).seen() == after_receive(old(self).seen(), message)
                    &&& final(self).neighbours() == old(self).neighbours()
                    &&& r.reply == Some(MessageType::BroadcastOk)
                    &&& addressed(r.outgoing@, if passes_on(old(self).seen(), message) {
                        excluding(neighbours_or_empty(old(self).neighbours()), request.src@)
                    } else {
                        Seq::empty()
                    }, MessageType::Broadcast { message })
                },
                MessageType::Read { .. } => {
                    &&& *final(self) == *old(self)
                    &&& r.outgoing@.len() == 0
                    &&& r.reply is Some
                    &&& r.reply->0 is ReadOk
                    &&& r.reply->0->ReadOk_value is None
                    &&& r.reply->0->ReadOk_messages is Some
                    &&& r.reply->0->ReadOk_messages->0@.to_set() == old(self).seen()
                    &&& r.reply->0->ReadOk_messages->0@.no_duplicates()
                },
                _ => *final(self) == *old(self) && r.reply is None && r.outgoing@.len() == 0,
            },
    {
        match &request.body.msg_type {
            MessageType::Topology { topology } => {
                let known = self.set_topology(node_id, topology);
                reply_only(if known { Some(MessageType::TopologyOk) } else { None })
            },
            MessageType::Broadcast { message } => {
                let targets = self.receive(*message, request.src.as_str());
                Reaction { reply: Some(MessageType::BroadcastOk), outgoing: address_all(targets, *message) }
            },
            MessageType::Read { .. } => {
                let messages = self.read();
                reply_only(Some(MessageType::ReadOk { messages: Some(messages), value: None }))
            },
            _ => reply_only(None),
        }
    }
}

/// Dedup idempotence: a value that arrives a second time leaves the
/// seen-set as the first arrival left it, and is not passed on again.
pub proof fn lemma_dedup_idempotent(seen: Set<i64>, m: i64)
    ensures
        after_receive(after_receive(seen, m), m) == after_receive(seen, m),
        !passes_on(after_receive(seen, m), m),
{
    assert(after_receive(after_receive(seen, m), m) =~= after_receive(seen, m));
}

/// `p` is a walk along `edges` through nodes `0..n`.
pub open spec fn walk(n: int, edges: Set<(int, int)>, p: Seq<int>) -> bool {
    &&& p.len() >= 1
    &&& forall|i: int| 0 <= i < p.len() ==> 0 <= #[trigger] p[i] < n
    &&& forall|i: int| 0 <= i < p.len() - 1 ==> edges.contains((#[trigger] p[i], p[i + 1]))
}

/// There is a walk from `a` to `b`.
pub open spec fn reaches(n: int, edges: Set<(int, int)>, a: int, b: int) -> bool {
    exists|p: Seq<int>| #[trigger] walk(n, edges, p) && p[0] == a && p.last() == b
}

/// Every node of `0..n` reaches every other along `edges`.
pub open spec fn connected(n: int, edges: Set<(int, int)>) -> bool {
    forall|a: int, b: int| 0 <= a < n && 0 <= b < n ==> #[trigger] reaches(n, edges, a, b)
}

/// No delivery is in flight: each node's values have all reached each of
/// its neighbours. A node passes a new value to every neighbour but the
/// one it came from, and that one has it already.
pub open spec fn quiescent(seen: Seq<Set<i64>>, edges: Set<(int, int)>) -> bool {
    forall|a: int, b: int|
        0 <= a < seen.len() && 0 <= b < seen.len() && #[trigger] edges.contains((a, b))
            ==> seen[a].subset_of(seen[b])
}

/// The union of the values of all nodes.
pub open spec fn all_values(seen: Seq<Set<i64>>) -> Set<i64> {
    Set::new(|v: i64| exists|i: int| 0 <= i < seen.len() && seen[i].contains(v))
}

proof fn lemma_walk_carries(seen: Seq<Set<i64>>, edges: Set<(int, int)>, p: Seq<int>)
    requires
        quiescent(seen, edges),
        walk(seen.len() as int, edges, p),
    ensures
        seen[p[0]].subset_of(seen[p.last()]),
    decreases p.len(),
{
    if p.len() > 1 {
        let q = p.drop_last();
        assert(walk(seen.len() as int, edges, q)) by {
            assert forall|i: int| 0 <= i < q.len() - 1 implies edges.contains((#[trigger] q[i], q[i + 1])) by {
                assert(q[i] == p[i] && q[i + 1] == p[i + 1]);
            }
        }
        lemma_walk_carries(seen, edges, q);
        let k = p.len() - 2;
        assert(edges.contains((p[k], p[k + 1])));
        assert(q.last() == p[k]);
    }
}

/// Eventual convergence: once no delivery is in flight, every node of a
/// connected topology holds exactly the values introduced anywhere, in
/// whatever order they travelled.
pub proof fn lemma_convergence(seen: Seq<Set<i64>>, edges: Set<(int, int)>)
    requires
        quiescent(seen, edges),
        connected(seen.len() as int, edges),
    ensures
        forall|a: int| 0 <= a < seen.len() ==> #[trigger] seen[a] == all_values(seen),
{
    assert forall|a: int| 0 <= a < seen.len() implies #[trigger] seen[a] == all_values(seen) by {
        assert forall|v: i64| all_values(seen).contains(v) implies seen[a].contains(v) by {
            let i = choose|i: int| 0 <= i < seen.len() && seen[i].contains(v);
            assert(reaches(seen.len() as int, edges, i, a));
            let p = choose|p: Seq<int>|
                #[trigger] walk(seen.len() as int, edges, p) && p[0] == i && p.last() == a;
            lemma_walk_carries(seen, edges, p);
        }
        assert(seen[a] =~= all_values(seen));
    }
}


/// The batches that a sweep sends: each neighbour with a non-empty buffer,
/// in order, with that buffer.
pub open spec fn batches(nbrs: Seq<String>, bufs: Seq<Seq<i64>>) -> Seq<(String, Seq<i64>)>
    decreases nbrs.len(),
{
    if nbrs.len() == 0 {
        Seq::empty()
    } else {
        let k = nbrs.len() - 1;
        let r = batches(nbrs.drop_last(), bufs);
        if bufs[k].len() == 0 {
            r
        } else {
            r.push((nbrs[k], bufs[k]))
        }
    }
}

/// What a batch list holds, with each buffer as a sequence.
pub open spec fn batch_view(r: Seq<(String, Vec<i64>)>) -> Seq<(String, Seq<i64>)> {
    r.map_values(|p: (String, Vec<i64>)| (p.0, p.1@))
}

/// A node of the batched-gossip broadcast: the values it has seen, its
/// neighbours once the topology is known, and for each neighbour the
/// values still to be sent to it.
pub struct BatchedBroadcastNode {
    neighbours: Option<Vec<String>>,
    messages: Vec<i64>,
    buffers: Vec<Vec<i64>>,
}

impl BatchedBroadcastNode {
    pub closed spec fn wf(&self) -> bool {
        &&& self.messages@.no_duplicates()
        &&& self.buffers@.len() == neighbours_or_empty(self.neighbours).len()
        &&& forall|i: int| 0 <= i < self.buffers@.len() ==> (#[trigger] self.buffers@[i])@.no_duplicates()
    }

    /// The values seen so far.
    pub closed spec fn seen(&self) -> Set<i64> {
        self.messages@.to_set()
    }

    /// The neighbours, once set.
    pub closed spec fn neighbours(&self) -> Option<Vec<String>> {
        self.neighbours
    }

    /// The buffers, one for each neighbour, in the neighbours' order.
    pub closed spec fn buffers(&self) -> Seq<Seq<i64>> {
        self.buffers@.map_values(|b: Vec<i64>| b@)
    }

    pub fn new() -> (r: Self)
        ensures
            r.wf(),
            r.seen() == Set::<i64>::empty(),
            r.neighbours() is None,
            r.buffers().len() == 0,
    {
        BatchedBroadcastNode { neighbours: None, messages: Vec::new(), buffers: Vec::new() }
    }

    /// Takes this node's neighbours from a topology, each with an empty
    /// buffer. Returns whether the topology names the node; only the first
    /// topology that does sets the neighbours.
    pub fn set_topology(&mut self, node_id: &str, topology: &Vec<(String, Vec<String>)>) -> (r: bool)
        requires
            old(self).wf(),
        ensures
            final(self).wf(),
            r == has_key(topology@, node_id@),
            final(self).seen() == old(self).seen(),
            (r && old(self).neighbours() is None) ==> {
                &&& final(self).neighbours() is Some
                &&& topology_entry(topology@, node_id@, final(self).neighbours()->0@)
                &&& forall|i: int| 0 <= i < final(self).buffers().len() ==> #[trigger] final(self).buffers()[i] == Seq::<i64>::empty()
            },
            !(r && old(self).neighbours() is None) ==> {
                &&& final(self).neighbours() == old(self).neighbours()
                &&& final(self).buffers() == old(self).buffers()
            },
    {
        match neighbours_in(topology, node_id) {
            Some(n) => {
                if self.neighbours.is_none() {
                    let mut buffers: Vec<Vec<i64>> = Vec::new();
                    let mut i: usize = 0;
                    while i < n.len()
                        invariant
                            i <= n@.len(),
                            buffers@.len() == i,
                            forall|j: int| 0 <= j < i ==> (#[trigger] buffers@[j])@ == Seq::<i64>::empty(),
                        decreases n@.len() - i,
                    {
                        buffers.push(Vec::new());
                        i = i + 1;
                    }
                    self.neighbours = Some(n);
                    self.buffers = buffers;
                }
                true
            },
            None => false,
        }
    }

    /// A value arrives from `src`. A new one is recorded and added to the
    /// buffer of every neighbour but `src`; one seen before changes
    /// nothing. Returns whether it was new.
    pub fn receive(&mut self, message: i64, src: &str) -> (r: bool)
        requires
            old(self).wf(),
        ensures
            final(self).wf(),
            r == passes_on(old(self).seen(), message),
            final(self).seen() == after_receive(old(self).seen(), message),
            final(self).neighbours() == old(self).neighbours(),
            final(self).buffers().len() == old(self).buffers().len(),
            forall|i: int| 0 <= i < old(self).buffers().len() ==> (#[trigger] final(self).buffers()[i]).to_set()
                == if r && neighbours_or_empty(old(self).neighbours())[i]@ != src@ {
                    old(self).buffers()[i].to_set().insert(message)
                } else {
                    old(self).buffers()[i].to_set()
                },
    {
        let mut fresh: Vec<i64> = Vec::new();
        let r = insert_new(&mut self.messages, message);
        if r {
            fresh.push(message);
        }
        proof {
            lemma_push_to_set(Seq::<i64>::empty(), message);
            assert(Seq::<i64>::empty().to_set() =~= Set::<i64>::empty());
        }
        self.add_to_buffers(&fresh, src);
        proof {
            assert forall|i: int| 0 <= i < old(self).buffers().len() implies (#[trigger] self.buffers()[i]).to_set()
                == if r && neighbours_or_empty(old(self).neighbours())[i]@ != src@ {
                    old(self).buffers()[i].to_set().insert(message)
                } else {
                    old(self).buffers()[i].to_set()
                } by {
                if r {
                    assert(old(self).buffers()[i].to_set().union(fresh@.to_set()) =~= old(self).buffers()[i].to_set().insert(message));
                } else {
                    assert(old(self).buffers()[i].to_set().union(fresh@.to_set()) =~= old(self).buffers()[i].to_set());
                }
            }
        }
        r
    }

    /// A batch of values arrives from `src`. Those not seen before are
    /// recorded and added to the buffer of every neighbour but `src`.
    pub fn receive_many(&mut self, messages: &Vec<i64>, src: &str)
        requires
            old(self).wf(),
        ensures
            final(self).wf(),
            final(self).seen() == old(self).seen().union(messages@.to_set()),
            final(self).neighbours() == old(self).neighbours(),
            final(self).buffers().len() == old(self).buffers().len(),
            forall|i: int| 0 <= i < old(self).buffers().len() ==> (#[trigger] final(self).buffers()[i]).to_set()
                == if neighbours_or_empty(old(self).neighbours())[i]@ != src@ {
                    old(self).buffers()[i].to_set().union(messages@.to_set().difference(old(self).seen()))
                } else {
                    old(self).buffers()[i].to_set()
                },
    {
        let ghost seen0 = self.seen();
        let mut fresh: Vec<i64> = Vec::new();
        let mut k: usize = 0;
        while k < messages.len()
            invariant
                k <= messages@.len(),
                self.wf(),
                self.neighbours() == old(self).neighbours(),
                self.buffers() == old(self).buffers(),
                seen0 == old(self).seen(),
                self.seen() == seen0.union(messages@.take(k as int).to_set()),
                fresh@.to_set() == messages@.take(k as int).to_set().difference(seen0),
            decreases messages@.len() - k,
        {
            let m = messages[k];
            let ghost before = self.seen();
            let ghost fresh_before = fresh@;
            let is_new = insert_new(&mut self.messages, m);
            if is_new {
                fresh.push(m);
                proof {
                    lemma_push_to_set(fresh_before, m);
                    assert(!before.contains(m));
                    assert(!seen0.contains(m));
                }
            } else {
                assert(before.contains(m));
            }
            proof {
                assert(messages@.take(k + 1) == messages@.take(k as int).push(m));
                lemma_push_to_set(messages@.take(k as int), m);
                assert(self.seen() =~= seen0.union(messages@.take(k + 1).to_set()));
                assert(fresh@.to_set() =~= messages@.take(k + 1).to_set().difference(seen0));
            }
            k = k + 1;
        }
        proof {
            assert(messages@.take(k as int) == messages@);
        }
        self.add_to_buffers(&fresh, src);
    }

    /// Adds `fresh` to the buffer of every neighbour but `src`.
    fn add_to_buffers(&mut self, fresh: &Vec<i64>, src: &str)
        requires
            old(self).wf(),
        ensures
            final(self).wf(),
            final(self).seen() == old(self).seen(),
            final(self).neighbours() == old(self).neighbours(),
            final(self).buffers().len() == old(self).buffers().len(),
            forall|i: int| 0 <= i < old(self).buffers().len() ==> (#[trigger] final(self).buffers()[i]).to_set()
                == if neighbours_or_empty(old(self).neighbours())[i]@ != src@ {
                    old(self).buffers()[i].to_set().union(fresh@.to_set())
                } else {
                    old(self).buffers()[i].to_set()
                },
    {
        let from = String::from_str(src);
        match &self.neighbours {
            Some(n) => {
                let mut i: usize = 0;
                while i < n.len()
                    invariant
                        i <= n@.len(),
                        from@ == src@,
                        self.neighbours == old(self).neighbours,
                        self.messages == old(self).messages,
                        old(self).neighbours == Some(*n),
                        self.wf(),
                        self.buffers().len() == old(self).buffers().len(),
                        self.buffers@.len() == old(self).buffers@.len(),
                        forall|j: int| i <= j < self.buffers@.len() ==> #[trigger] self.buffers@[j] == old(self).buffers@[j],
                        forall|j: int| 0 <= j < i ==> (#[trigger] self.buffers@[j])@.to_set()
                            == if n@[j]@ != src@ {
                                old(self).buffers@[j]@.to_set().union(fresh@.to_set())
                            } else {
                                old(self).buffers@[j]@.to_set()
                            },
                    decreases n@.len() - i,
                {
                    if n[i] != from {
                        let mut b: Vec<i64> = Vec::new();
                        self.buffers.set_and_swap(i, &mut b);
                        assert(b@.no_duplicates());
                        insert_all(&mut b, fresh);
                        self.buffers.set_and_swap(i, &mut b);
                    }
                    i = i + 1;
                }
            },
            None => {},
        }
        proof {
            assert forall|i: int| 0 <= i < old(self).buffers().len() implies (#[trigger] self.buffers()[i]).to_set()
                == if neighbours_or_empty(old(self).neighbours())[i]@ != src@ {
                    old(self).buffers()[i].to_set().union(fresh@.to_set())
                } else {
                    old(self).buffers()[i].to_set()
                } by {
                assert(self.buffers()[i] == self.buffers@[i]@);
                assert(old(self).buffers()[i] == old(self).buffers@[i]@);
            }
        }
    }

    /// One sweep of the periodic flush: every non-empty buffer is emptied,
    /// and its values are returned as one batch for its neighbour.
    pub fn flush(&mut self) -> (r: Vec<(String, Vec<i64>)>)
        requires
            old(self).wf(),
        ensures
            final(self).wf(),
            final(self).seen() == old(self).seen(),
            final(self).neighbours() == old(self).neighbours(),
            final(self).buffers().len() == old(self).buffers().len(),
            forall|i: int| 0 <= i < final(self).buffers().len() ==> #[trigger] final(self).buffers()[i] == Seq::<i64>::empty(),
            batch_view(r@) == batches(neighbours_or_empty(old(self).neighbours()), old(self).buffers()),
    {
        let mut out: Vec<(String, Vec<i64>)> = Vec::new();
        match &self.neighbours {
            Some(n) => {
                let mut i: usize = 0;
                while i < n.len()
                    invariant
                        i <= n@.len(),
                        self.neighbours == old(self).neighbours,
                        self.messages == old(self).messages,
                        old(self).neighbours == Some(*n),
                        self.wf(),
                        self.buffers().len() == old(self).buffers().len(),
                        self.buffers@.len() == old(self).buffers@.len(),
                        forall|j: int| i <= j < self.buffers@.len() ==> #[trigger] self.buffers@[j] == old(self).buffers@[j],
                        forall|j: int| 0 <= j < i ==> (#[trigger] self.buffers@[j])@ == Seq::<i64>::empty(),
                        batch_view(out@) == batches(n@.take(i as int), old(self).buffers()),
                    decreases n@.len() - i,
                {
                    let mut b: Vec<i64> = Vec::new();
                    self.buffers.set_and_swap(i, &mut b);
                    proof {
                        assert(n@.take(i + 1).drop_last() == n@.take(i as int));
                        assert(old(self).buffers()[i as int] == old(self).buffers@[i as int]@);
                    }
                    if b.len() > 0 {
                        let ghost before = out@;
                        out.push((n[i].clone(), b));
                        proof {
                            assert(batch_view(out@) =~= batch_view(before).push((n@[i as int], old(self).buffers()[i as int])));
                        }
                    }
                    i = i + 1;
                }
                proof {
                    assert(n@.take(i as int) == n@);
                }
            },
            None => {},
        }
        proof {
            assert forall|i: int| 0 <= i < self.buffers().len() implies #[trigger] self.buffers()[i] == Seq::<i64>::empty() by {
                assert(self.buffers()[i] == self.buffers@[i]@);
            }
        }
        out
    }

    /// The values seen so far, each once.
    pub fn read(&self) -> (r: Vec<i64>)
        requires
            self.wf(),
        ensures
            r@.to_set() == self.seen(),
            r@.no_duplicates(),
    {
        copy_ints(&self.messages)
    }

    /// Handles one message of the batched broadcast protocol for node
    /// `node_id`: a topology sets the neighbours and is acknowledged if it
    /// names the node; a single or batched broadcast is recorded, buffered
    /// for every neighbour but its sender, and acknowledged; a read is
    /// answered with the values seen. Nothing is sent on here: the periodic
    /// `flush` does that. Anything else is ignored.
    pub fn handle(&mut self, node_id: &str, request: &Message) -> (r: Option<MessageType>)
        requires
            old(self).wf(),
        ensures
            final(self).wf(),
            match request.body.msg_type {
                MessageType::Topology { topology } => {
                    &&& final(self).seen() == old(self).seen()
                    &&& (has_key(topology@, node_id@) ==> r == Some(MessageType::TopologyOk))
                    &&& (!has_key(topology@, node_id@) ==> r is None)
                },
                MessageType::Broadcast { message } => {
                    &&& final(self).seen() == after_receive(old(self).seen(), message)
                    &&& final(self).neighbours() == old(self).neighbours()
                    &&& final(self).buffers().len() == old(self).buffers().len()
                    &&& forall|i: int| 0 <= i < old(self).buffers().len() ==> (#[trigger] final(self).buffers()[i]).to_set()
                        == if passes_on(old(self).seen(), message)
                            && neighbours_or_empty(old(self).neighbours())[i]@ != request.src@ {
                            old(self).buffers()[i].to_set().insert(message)
                        } else {
                            old(self).buffers()[i].to_set()
                        }
                    &&& r == Some(MessageType::BroadcastOk)
                },
                MessageType::BroadcastMany { messages } => {
                    &&& final(self).seen() == old(self).seen().union(messages@.to_set())
                    &&& final(self).neighbours() == old(self).neighbours()
                    &&& final(self).buffers().len() == old(self).buffers().len()
                    &&& forall|i: int| 0 <= i < old(self).buffers().len() ==> (#[trigger] final(self).buffers()[i]).to_set()
                        == if neighbours_or_empty(old(self).neighbours())[i]@ != request.src@ {
                            old(self).buffers()[i].to_set().union(messages@.to_set().difference(old(self).seen()))
                        } else {
                            old(self).buffers()[i].to_set()
                        }
                    &&& r == Some(MessageType::BroadcastManyOk)
                },
                MessageType::Read { .. } => {
                    &&& *final(self) == *old(self)
                    &&& r is Some
                    &&& r->0 is ReadOk
                    &&& r->0->ReadOk_value is None
                    &&& r->0->ReadOk_messages is Some
                    &&& r->0->ReadOk_messages->0@.to_set() == old(self).seen()
                    &&& r->0->ReadOk_messages->0@.no_duplicates()
                },
                _ => *final(self) == *old(self) && r is None,
            },
    {
        match &request.body.msg_type {
            MessageType::Topology { topology } => {
                if self.set_topology(node_id, topology) { Some(MessageType::TopologyOk) } else { None }
            },
            MessageType::Broadcast { message } => {
                self.receive(*message, request.src.as_str());
                Some(MessageType::BroadcastOk)
            },
            MessageType::BroadcastMany { messages } => {
                self.receive_many(messages, request.src.as_str());
                Some(MessageType::BroadcastManyOk)
            },
            MessageType::Read { .. } => {
                let messages = self.read();
                Some(MessageType::ReadOk { messages: Some(messages), value: None })
            },
            _ => None,
        }
    }
}

} // verus!
