use vstd::prelude::*;
use vstd::string::*;

use crate::kv::{decimal, decimal_digits};
use crate::message::MessageType;

verus! {

/// The answer to an echo request: the same text back; nothing for any
/// other payload.
pub fn echo_reply(msg_type: MessageType) -> (r: Option<MessageType>)
    ensures
        msg_type is Echo ==> r == Some(MessageType::EchoOk { echo: msg_type->Echo_echo }),
        !(msg_type is Echo) ==> r is None,
{
    match msg_type {
        MessageType::Echo { echo } => Some(MessageType::EchoOk { echo }),
        _ => None,
    }
}

/// A unique id: the node's id, a dash, and the node's local counter.
pub open spec fn unique_id(node_id: Seq<char>, n: u64) -> Seq<char> {
    node_id + seq!['-'] + decimal_digits(n as nat)
}

/// The local counter behind the ids a node generates.
pub struct IdGenerator {
    next: u64,
}

impl IdGenerator {
    /// The counter value the next id will carry.
    pub closed spec fn counter(&self) -> u64 {
        self.next
    }

    pub fn new() -> (r: Self)
        ensures
            r.counter() == 0,
    {
        IdGenerator { next: 0 }
    }

    /// The next id of node `node_id`. The counter wraps around as an atomic
    /// counter does.
    pub fn generate(&mut self, node_id: &str) -> (r: String)
        ensures
            r@ == unique_id(node_id@, old(self).counter()),
            final(self).counter() == (if old(self).counter() == u64::MAX {
                0
            } else {
                (old(self).counter() + 1) as u64
            }),
    {
        let n = self.next;
        self.next = if n == u64::MAX { 0 } else { n + 1 };
        let digits = decimal(n);
        proof {
            reveal_strlit("-");
            assert("-"@ =~= seq!['-']);
        }
        String::from_str(node_id).concat("-").concat(digits.as_str())
    }
}

} // verus!
