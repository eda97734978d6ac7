//! Durable FIFO channels: ordered append logs with in-order receive, keyed
//! by session or by an external key.

use vstd::prelude::*;

verus! {

/// An ordered append log with in-order receive. Receiving removes the value,
/// as committing the receiver's transaction frees the stored blob; the ghost
/// history of delivered values carries the ordering guarantee.
pub struct Channel<T> {
    pending: Vec<T>,
    delivered: Ghost<Seq<T>>,
}

impl<T> Channel<T> {
    /// Everything ever sent on the channel, in send order.
    pub closed spec fn sent_seq(self) -> Seq<T> {
        self.delivered@ + self.pending@
    }

    /// The values received so far, in the order they were returned.
    pub closed spec fn received_seq(self) -> Seq<T> {
        self.delivered@
    }

    /// The values sent and not yet received, in send order.
    pub closed spec fn pending_seq(self) -> Seq<T> {
        self.pending@
    }

    /// Create an empty channel.
    pub fn new() -> (r: Channel<T>)
        ensures
            r.sent_seq() == Seq::<T>::empty(),
            r.received_seq() == Seq::<T>::empty(),
            r.pending_seq() == Seq::<T>::empty(),
    {
        let r = Channel { pending: Vec::new(), delivered: Ghost(Seq::empty()) };
        proof {
            assert(r.sent_seq() =~= Seq::<T>::empty());
        }
        r
    }

    /// Append a value to the channel.
    pub fn send(&mut self, v: T)
        ensures
            final(self).sent_seq() == old(self).sent_seq().push(v),
            final(self).received_seq() == old(self).received_seq(),
            final(self).pending_seq() == old(self).pending_seq().push(v),
    {
        self.pending.push(v);
        proof {
            assert(self.sent_seq() =~= old(self).sent_seq().push(v));
        }
    }

    /// Receive the next value in send order, or nothing if every sent value
    /// was already received.
    pub fn try_recv(&mut self) -> (r: Option<T>)
        ensures
            final(self).sent_seq() == old(self).sent_seq(),
            match r {
                Some(v) => {
                    &&& old(self).pending_seq().len() > 0
                    &&& v == old(self).pending_seq()[0]
                    &&& v == old(self).sent_seq()[old(self).received_seq().len() as int]
                    &&& final(self).received_seq() == old(self).received_seq().push(v)
                    &&& final(self).pending_seq() == old(self).pending_seq().skip(1)
                },
                None => {
                    &&& old(self).pending_seq().len() == 0
                    &&& *final(self) == *old(self)
                },
            },
    {
        if self.pending.len() > 0 {
            let v = self.pending.remove(0);
            proof {
                self.delivered@ = self.delivered@.push(v);
                assert(self.sent_seq() =~= old(self).sent_seq());
            }
            Some(v)
        } else {
            None
        }
    }

    /// Drop everything the channel holds, delivered or not: afterwards
    /// nothing can be received until something is sent again.
    pub fn drain(&mut self)
        ensures
            final(self).sent_seq() == Seq::<T>::empty(),
            final(self).received_seq() == Seq::<T>::empty(),
            final(self).pending_seq() == Seq::<T>::empty(),
    {
        self.pending.clear();
        proof {
            self.delivered@ = Seq::empty();
            assert(self.sent_seq() =~= Seq::<T>::empty());
        }
    }
}

/// What was received on a channel is always a prefix of what was sent, in
/// send order.
pub proof fn lemma_channel_fifo<T>(ch: Channel<T>)
    ensures
        ch.received_seq().is_prefix_of(ch.sent_seq()),
        ch.received_seq() == ch.sent_seq().take(ch.received_seq().len() as int),
{
    assert(ch.received_seq() =~= ch.sent_seq().take(ch.received_seq().len() as int));
}

} // verus!
