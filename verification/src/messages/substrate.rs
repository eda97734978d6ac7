//! Messages carrying canonical events from the Serai blockchain.

use vstd::prelude::*;

use crate::ids::Session;

verus! {

/// Whether an in-instruction was honored.
#[derive(Clone, Copy, PartialEq, Eq, Structural, Debug)]
pub enum InInstructionResult {
    Succeeded,
    Failed,
}

/// A batch as executed on the Serai blockchain.
#[derive(Clone, PartialEq, Eq, Debug)]
pub struct ExecutedBatch {
    pub id: u32,
    pub publisher: Session,
    pub external_network_block_hash: [u8; 32],
    pub in_instructions_hash: [u8; 32],
    pub in_instruction_results: Vec<InInstructionResult>,
}

/// A burn of Serai-minted tokens, carried in its canonical encoded form.
#[derive(Clone, PartialEq, Eq, Debug)]
pub struct OutInstructionWithBalance(pub Vec<u8>);

/// A substrate group key with the encoded group key for the external network.
#[derive(Clone, PartialEq, Eq, Debug)]
pub struct KeyPair {
    pub substrate: [u8; 32],
    pub network: Vec<u8>,
}

/// Coordinator-to-processor canonical events from the Serai blockchain.
#[derive(Clone, PartialEq, Eq, Debug)]
pub enum CoordinatorMessage {
    /// Keys set on the Serai blockchain: the substrate key and the encoded
    /// network key.
    SetKeys { serai_time: u64, session: Session, key_pair: KeyPair },
    /// Slashes reported on the Serai blockchain, the final message for a
    /// session.
    SlashesReported { session: Session },
    /// A block from Serai with relevance to this processor.
    Block { serai_block_number: u64, batch: Option<ExecutedBatch>, burns: Vec<
        OutInstructionWithBalance,
    > },
}

} // verus!
