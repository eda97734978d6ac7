//! The message queue: an ordered log of signed messages per service, with
//! an acknowledgement watermark.

use vstd::prelude::*;

use crate::batches::NetworkId;

verus! {

/// Who a queue belongs to.
#[derive(Clone, Copy, PartialEq, Eq, Structural, Debug)]
pub enum Service {
    /// The processor of one external network.
    Processor(NetworkId),
    /// The coordinator.
    Coordinator,
}

/// One queued message: its origin, its position, its body and the signature
/// over it.
#[derive(Clone, PartialEq, Eq, Debug)]
pub struct QueuedMessage {
    pub from: Service,
    pub id: u64,
    pub msg: Vec<u8>,
    pub sig: Vec<u8>,
}

/// Compose a storage key: the domain behind its one-byte length, then the
/// key material.
pub fn storage_key(domain: &Vec<u8>, key: &Vec<u8>) -> (r: Vec<u8>)
    requires
        domain@.len() <= 255,
    ensures
        r@ == seq![(domain@.len() as u8)] + domain@ + key@,
{
    let mut r: Vec<u8> = Vec::new();
    r.push(domain.len() as u8);
    let mut d = vstd::slice::slice_to_vec(domain.as_slice());
    r.append(&mut d);
    let mut k = vstd::slice::slice_to_vec(key.as_slice());
    r.append(&mut k);
    proof {
        assert(r@ =~= seq![(domain@.len() as u8)] + domain@ + key@);
    }
    r
}

/// One service's message log and acknowledgement watermark.
pub struct Queue {
    service: Service,
    messages: Vec<QueuedMessage>,
    last_acknowledged: Option<u64>,
}

impl Queue {
    /// The service this queue belongs to.
    pub closed spec fn spec_service(self) -> Service {
        self.service
    }

    /// The queued messages, in queue order.
    pub closed spec fn spec_messages(self) -> Seq<QueuedMessage> {
        self.messages@
    }

    /// The acknowledgement watermark.
    pub closed spec fn spec_last_acknowledged(self) -> Option<u64> {
        self.last_acknowledged
    }

    /// Create an empty queue for a service.
    pub fn new(service: Service) -> (r: Queue)
        ensures
            r.spec_service() == service,
            r.spec_messages() == Seq::<QueuedMessage>::empty(),
            r.spec_last_acknowledged() is None,
    {
        Queue { service, messages: Vec::new(), last_acknowledged: None }
    }

    /// How many messages were ever queued.
    pub fn message_count(&self) -> (r: u64)
        requires
            self.spec_messages().len() <= 0xffff_ffff_ffff_ffff,
        ensures
            r == self.spec_messages().len(),
    {
        self.messages.len() as u64
    }

    /// The acknowledgement watermark, if any message was acknowledged.
    pub fn last_acknowledged(&self) -> (r: Option<u64>)
        ensures
            r == self.spec_last_acknowledged(),
    {
        self.last_acknowledged
    }

    /// Append a message to the log.
    pub fn queue_message(&mut self, msg: QueuedMessage)
        ensures
            final(self).spec_service() == old(self).spec_service(),
            final(self).spec_messages() == old(self).spec_messages().push(msg),
            final(self).spec_last_acknowledged() == old(self).spec_last_acknowledged(),
    {
        self.messages.push(msg);
    }

    /// Read the message at a position, if one was queued there.
    pub fn get_message(&self, id: u64) -> (r: Option<&QueuedMessage>)
        ensures
            match r {
                Some(m) => id < self.spec_messages().len() && *m == self.spec_messages()[id as int],
                None => id >= self.spec_messages().len(),
            },
    {
        if id < self.messages.len() as u64 {
            Some(&self.messages[id as usize])
        } else {
            None
        }
    }

    /// Advance the acknowledgement watermark.
    pub fn ack_message(&mut self, id: u64)
        ensures
            final(self).spec_service() == old(self).spec_service(),
            final(self).spec_messages() == old(self).spec_messages(),
            final(self).spec_last_acknowledged() == Some(id),
    {
        self.last_acknowledged = Some(id);
    }
}

} // verus!
