use vstd::prelude::*;
use vstd::std_specs::hash::group_hash_axioms;
use vstd::string::*;
use std::collections::HashSet;

use crate::message::{Message, MessageBody, MessageType};
use crate::table::copy_strings;

verus! {

broadcast use group_hash_axioms;

/// The identity a node learns from the handshake.
#[derive(Debug)]
pub struct NodeMeta {
    pub node_id: String,
    pub node_ids: Vec<String>,
}

impl NodeMeta {
    pub fn new(node_id: String, node_ids: Vec<String>) -> (r: Self)
        ensures
            r.node_id == node_id,
            r.node_ids == node_ids,
    {
        NodeMeta { node_id, node_ids }
    }
}

/// The state of a node's runtime that its decisions read: the identity,
/// set once; the allocator of outgoing request ids; and the ids of the
/// requests that still wait for a reply.
pub struct Maelstrom {
    node: Option<NodeMeta>,
    next_msg_id: u64,
    pending: HashSet<u64>,
}

/// What a protocol handler does with one message: the payload of its reply,
/// if it replies, and the messages it sends on, each with its destination.
pub struct Reaction {
    pub reply: Option<MessageType>,
    pub outgoing: Vec<(String, MessageType)>,
}

/// `out` sends the payload `m` to each of `dests`, in order.
pub open spec fn addressed(out: Seq<(String, MessageType)>, dests: Seq<String>, m: MessageType) -> bool {
    &&& out.len() == dests.len()
    &&& forall|i: int| 0 <= i < out.len() ==> (#[trigger] out[i]).0 == dests[i] && out[i].1 == m
}

/// The reaction that replies with `reply` and sends nothing.
pub fn reply_only(reply: Option<MessageType>) -> (r: Reaction)
    ensures
        r.reply == reply,
        r.outgoing@.len() == 0,
{
    Reaction { reply, outgoing: Vec::new() }
}

/// What a session does next: the payload of its reply to the client, if it
/// replies now, and the request it sends to the linearizable store, if any.
/// A session with no request left is finished.
pub struct Step {
    pub reply: Option<MessageType>,
    pub request: Option<MessageBody>,
}

/// What an RPC waiting for its reply does when the retry interval ticks.
#[derive(Debug, Clone, Copy, PartialEq, Eq)]
pub enum RpcTick {
    /// Send the identical request again and keep waiting.
    Resend,
    /// Give up: the request has timed out.
    TimedOut,
}

/// Where the read loop routes an inbound message.
#[derive(Debug, Clone, Copy, PartialEq, Eq)]
pub enum Dispatch {
    /// A reply: hand it to the request waiting under this id.
    Response { in_reply_to: u64 },
    /// The handshake: handle it before reading on.
    Init,
    /// Anything else: run the protocol's handler on it.
    Handle,
}

/// The id allocated after `n`; the allocator wraps around as an atomic
/// counter does.
pub open spec fn next_after(n: u64) -> u64 {
    if n == u64::MAX {
        0
    } else {
        (n + 1) as u64
    }
}

/// The node id as a sequence of characters, empty before the handshake.
pub open spec fn id_of(node: Option<NodeMeta>) -> Seq<char> {
    match node {
        Some(m) => m.node_id@,
        None => Seq::empty(),
    }
}

/// The tick decision of an RPC.
pub open spec fn tick_decision(retry: bool) -> RpcTick {
    if retry {
        RpcTick::Resend
    } else {
        RpcTick::TimedOut
    }
}

/// Where a message goes in the read loop.
pub open spec fn dispatch_of(m: Message) -> Dispatch {
    match m.body.in_reply_to {
        Some(k) => Dispatch::Response { in_reply_to: k },
        None => match m.body.msg_type {
            MessageType::Init { .. } => Dispatch::Init,
            _ => Dispatch::Handle,
        },
    }
}

impl Maelstrom {
    /// The identity, if the handshake has set it.
    pub closed spec fn meta(&self) -> Option<NodeMeta> {
        self.node
    }

    /// The id that the next request will carry.
    pub closed spec fn next_id(&self) -> u64 {
        self.next_msg_id
    }

    /// The ids of the requests that wait for a reply.
    pub closed spec fn waiting(&self) -> Set<u64> {
        self.pending@
    }

    pub fn new() -> (r: Self)
        ensures
            r.meta() is None,
            r.next_id() == 0,
            r.waiting() == Set::<u64>::empty(),
    {
        Maelstrom { node: None, next_msg_id: 0, pending: HashSet::new() }
    }

    /// Sets the identity. Only the first call has an effect; a later one
    /// hands its argument back and changes nothing.
    pub fn set_node_meta(&mut self, node: NodeMeta) -> (r: Result<(), NodeMeta>)
        ensures
            old(self).meta() is None ==> r is Ok && final(self).meta() == Some(node),
            old(self).meta() is Some ==> r == Err::<(), NodeMeta>(node) && final(self).meta()
                == old(self).meta(),
            final(self).next_id() == old(self).next_id(),
            final(self).waiting() == old(self).waiting(),
    {
        if self.node.is_some() {
            Err(node)
        } else {
            self.node = Some(node);
            Ok(())
        }
    }

    /// The node's id; empty before the handshake.
    pub fn node_id(&self) -> (r: &str)
        ensures
            r@ == id_of(self.meta()),
    {
        match &self.node {
            Some(n) => n.node_id.as_str(),
            None => {
                proof { reveal_strlit(""); }
                ""
            },
        }
    }

    /// The ids of all nodes of the network; empty before the handshake.
    pub fn node_ids(&self) -> (r: Vec<String>)
        ensures
            self.meta() is Some ==> r@ == self.meta()->0.node_ids@,
            self.meta() is None ==> r@.len() == 0,
    {
        match &self.node {
            Some(n) => copy_strings(&n.node_ids),
            None => Vec::new(),
        }
    }

    /// Allocates the id of an outgoing request.
    pub fn next_msg_id(&mut self) -> (r: u64)
        ensures
            r == old(self).next_id(),
            final(self).next_id() == next_after(old(self).next_id()),
            final(self).meta() == old(self).meta(),
            final(self).waiting() == old(self).waiting(),
    {
        let r = self.next_msg_id;
        self.next_msg_id = if r == u64::MAX { 0 } else { r + 1 };
        r
    }

    /// The message that sends `body` from this node to `dest`.
    pub fn send(&self, dest: String, body: MessageBody) -> (r: Message)
        ensures
            r.src@ == id_of(self.meta()),
            r.dest == dest,
            r.body == body,
    {
        Message { src: self.node_id().to_owned(), dest, body }
    }

    /// As `send`, with a fresh request id on the body.
    pub fn send_with_id(&mut self, dest: String, body: MessageBody) -> (r: Message)
        ensures
            r.src@ == id_of(old(self).meta()),
            r.dest == dest,
            r.body.msg_id == Some(old(self).next_id()),
            r.body.in_reply_to == body.in_reply_to,
            r.body.msg_type == body.msg_type,
            final(self).next_id() == next_after(old(self).next_id()),
            final(self).meta() == old(self).meta(),
            final(self).waiting() == old(self).waiting(),
    {
        let mut body = body;
        body.msg_id = Some(self.next_msg_id());
        self.send(dest, body)
    }

    /// The message that answers `request` with `body`: it goes back to the
    /// request's source and names the request's id.
    pub fn reply(&self, request: Message, body: MessageBody) -> (r: Message)
        ensures
            r.src@ == id_of(self.meta()),
            r.dest == request.src,
            r.body.msg_id == body.msg_id,
            r.body.in_reply_to == request.body.msg_id,
            r.body.msg_type == body.msg_type,
    {
        let mut body = body;
        body.in_reply_to = request.body.msg_id;
        self.send(request.src, body)
    }

    /// As `reply`, with a fresh request id on the body.
    pub fn reply_with_id(&mut self, request: Message, body: MessageBody) -> (r: Message)
        ensures
            r.src@ == id_of(old(self).meta()),
            r.dest == request.src,
            r.body.msg_id == Some(old(self).next_id()),
            r.body.in_reply_to == request.body.msg_id,
            r.body.msg_type == body.msg_type,
            final(self).next_id() == next_after(old(self).next_id()),
            final(self).meta() == old(self).meta(),
            final(self).waiting() == old(self).waiting(),
    {
        let mut body = body;
        body.msg_id = Some(self.next_msg_id());
        body.in_reply_to = request.body.msg_id;
        self.send(request.src, body)
    }

    /// Starts an RPC: gives the request a fresh id, records that a reply
    /// is awaited under it, and returns the message to send.
    pub fn start_rpc(&mut self, dest: String, body: MessageBody) -> (r: Message)
        ensures
            r.src@ == id_of(old(self).meta()),
            r.dest == dest,
            r.body.msg_id == Some(old(self).next_id()),
            r.body.in_reply_to == body.in_reply_to,
            r.body.msg_type == body.msg_type,
            final(self).next_id() == next_after(old(self).next_id()),
            final(self).meta() == old(self).meta(),
            final(self).waiting() == old(self).waiting().insert(old(self).next_id()),
    {
        let id = self.next_msg_id();
        self.pending.insert(id);
        let mut body = body;
        body.msg_id = Some(id);
        self.send(dest, body)
    }

    /// A reply to request `in_reply_to` has come: returns whether a request
    /// still waited for it, and stops waiting. The first reply wins; a
    /// later one finds nothing.
    pub fn process_response(&mut self, in_reply_to: u64) -> (r: bool)
        ensures
            r == old(self).waiting().contains(in_reply_to),
            final(self).waiting() == old(self).waiting().remove(in_reply_to),
            final(self).meta() == old(self).meta(),
            final(self).next_id() == old(self).next_id(),
    {
        let r = self.pending.remove(&in_reply_to);
        r
    }

    /// An RPC that timed out stops waiting, so that a late reply finds
    /// nothing.
    pub fn abandon_rpc(&mut self, msg_id: u64)
        ensures
            final(self).waiting() == old(self).waiting().remove(msg_id),
            final(self).meta() == old(self).meta(),
            final(self).next_id() == old(self).next_id(),
    {
        self.pending.remove(&msg_id);
    }

    /// Handles the handshake: the first one sets the identity and is
    /// answered with `init_ok`; any later one, or a message that is no
    /// handshake, is ignored.
    pub fn handle_init(&mut self, request: Message) -> (r: Option<Message>)
        ensures
            (old(self).meta() is None && request.body.msg_type is Init) ==> {
                &&& final(self).meta() == Some(NodeMeta {
                    node_id: request.body.msg_type->Init_node_id,
                    node_ids: request.body.msg_type->Init_node_ids,
                })
                &&& r is Some
                &&& r->0.src@ == request.body.msg_type->Init_node_id@
                &&& r->0.dest == request.src
                &&& r->0.body.msg_id == Some(old(self).next_id())
                &&& r->0.body.in_reply_to == request.body.msg_id
                &&& r->0.body.msg_type is InitOk
                &&& final(self).next_id() == next_after(old(self).next_id())
            },
            !(old(self).meta() is None && request.body.msg_type is Init) ==> {
                &&& r is None
                &&& final(self).meta() == old(self).meta()
                &&& final(self).next_id() == old(self).next_id()
            },
            final(self).waiting() == old(self).waiting(),
    {
        if self.node.is_some() {
            return None;
        }
        let Message { src, dest, body } = request;
        let MessageBody { msg_id, in_reply_to, msg_type } = body;
        match msg_type {
            MessageType::Init { node_id, node_ids } => {
                let _ = self.set_node_meta(NodeMeta::new(node_id, node_ids));
                let request = Message {
                    src,
                    dest,
                    body: MessageBody { msg_id, in_reply_to, msg_type: MessageType::InitOk },
                };
                Some(self.reply_with_id(request, MessageBody::with_type(MessageType::InitOk)))
            },
            _ => None,
        }
    }
}

/// What an RPC does when its retry interval ticks with no reply: resend if
/// it retries, else time out.
pub fn rpc_tick(retry: bool) -> (r: RpcTick)
    ensures
        r == tick_decision(retry),
{
    if retry {
        RpcTick::Resend
    } else {
        RpcTick::TimedOut
    }
}

/// Routes an inbound message: replies to the pending-request table, the
/// handshake to the synchronous path, the rest to the handler.
pub fn classify(request: &Message) -> (r: Dispatch)
    ensures
        r == dispatch_of(*request),
{
    match request.body.in_reply_to {
        Some(k) => Dispatch::Response { in_reply_to: k },
        None => match &request.body.msg_type {
            MessageType::Init { .. } => Dispatch::Init,
            _ => Dispatch::Handle,
        },
    }
}

} // verus!
