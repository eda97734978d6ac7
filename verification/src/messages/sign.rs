//! Messages driving one signing protocol instance through its rounds.

use vstd::prelude::*;

use crate::ids::{Participant, Session, SignId};

verus! {

/// Coordinator-to-processor messages for a signing protocol. Contributions
/// from peers arrive keyed by participant index.
#[derive(Clone, PartialEq, Eq, Debug)]
pub enum CoordinatorMessage {
    /// Received preprocesses for the specified signing protocol.
    Preprocesses { id: SignId, preprocesses: Vec<(Participant, Vec<u8>)> },
    /// Received shares for the specified signing protocol.
    Shares { id: SignId, shares: Vec<(Participant, Vec<u8>)> },
    /// Re-attempt a signing protocol.
    Reattempt { id: SignId },
}

impl CoordinatorMessage {
    /// The protocol instance this message belongs to.
    pub open spec fn spec_sign_id(self) -> SignId {
        match self {
            CoordinatorMessage::Preprocesses { id, .. } => id,
            CoordinatorMessage::Shares { id, .. } => id,
            CoordinatorMessage::Reattempt { id } => id,
        }
    }

    /// Read the protocol instance this message belongs to.
    pub fn sign_id(&self) -> (r: &SignId)
        ensures
            *r == self.spec_sign_id(),
    {
        match self {
            CoordinatorMessage::Preprocesses { id, .. } => id,
            CoordinatorMessage::Shares { id, .. } => id,
            CoordinatorMessage::Reattempt { id } => id,
        }
    }
}

/// Processor-to-coordinator messages for a signing protocol.
#[derive(Clone, PartialEq, Eq, Debug)]
pub enum ProcessorMessage {
    /// A participant sent an invalid message during the sign protocol.
    InvalidParticipant { session: Session, participant: Participant },
    /// Our preprocesses for the specified signing protocol, one per local
    /// key share.
    Preprocesses { id: SignId, preprocesses: Vec<Vec<u8>> },
    /// Our signature shares for the specified signing protocol.
    Shares { id: SignId, shares: Vec<Vec<u8>> },
}

} // verus!
