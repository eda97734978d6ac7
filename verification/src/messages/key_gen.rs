//! Messages driving a key generation protocol.

use vstd::prelude::*;

use crate::ids::{Participant, Session};

verus! {

/// One participant's eVRF public keys: the substrate key and the encoded
/// network key.
#[derive(Clone, PartialEq, Eq, Debug)]
pub struct EvrfPublicKeys {
    pub substrate: [u8; 32],
    pub network: Vec<u8>,
}

/// Coordinator-to-processor messages for key generation.
#[derive(Clone, PartialEq, Eq, Debug)]
pub enum CoordinatorMessage {
    /// Instructs the processor to begin the key generation process.
    GenerateKey { session: Session, threshold: u16, evrf_public_keys: Vec<EvrfPublicKeys> },
    /// Received participations for the specified key generation protocol.
    Participation { session: Session, participant: Participant, participation: Vec<u8> },
}

/// Processor-to-coordinator messages for key generation.
#[derive(Clone, PartialEq, Eq, Debug)]
pub enum ProcessorMessage {
    /// Participated in the specified key generation protocol.
    Participation { session: Session, participation: Vec<u8> },
    /// Resulting keys from the specified key generation protocol.
    GeneratedKeyPair { session: Session, substrate_key: [u8; 32], network_key: Vec<u8> },
    /// Blame this participant.
    Blame { session: Session, participant: Participant },
}

} // verus!
