//! Messages between a processor and the coordinator's own logic: cosigns,
//! signed batches and slash reports.

use vstd::prelude::*;
use vstd::bytes::*;

use crate::batches::Batch;
use crate::ids::Session;

verus! {

/// One slash of a misbehaving validator.
#[derive(Clone, Copy, PartialEq, Eq, Debug)]
pub struct Slash {
    /// The validator being slashed.
    pub key: [u8; 32],
    /// The penalty points assessed.
    pub points: u32,
}

/// A batch together with the threshold signature attesting it.
#[derive(Clone, PartialEq, Eq, Debug)]
pub struct SignedBatch {
    pub batch: Batch,
    pub signature: Vec<u8>,
}

/// The body a cosign signature commits to: a domain tag, the block number in
/// little-endian form, then the block hash.
pub open spec fn cosign_block_msg_spec(block_number: u64, block: Seq<u8>) -> Seq<u8> {
    seq![6u8, 67u8, 111u8, 115u8, 105u8, 103u8, 110u8] + spec_u64_to_le_bytes(block_number) + block
}

/// Build the message body a cosign signs: the length-prefixed domain tag
/// `Cosign`, the block number and the block hash.
pub fn cosign_block_msg(block_number: u64, block: [u8; 32]) -> (r: Vec<u8>)
    ensures
        r@ == cosign_block_msg_spec(block_number, block@),
{
    let mut r: Vec<u8> = Vec::new();
    r.push(6u8);
    // The ASCII bytes of `Cosign`.
    r.push(67u8);
    r.push(111u8);
    r.push(115u8);
    r.push(105u8);
    r.push(103u8);
    r.push(110u8);
    let mut num = u64_to_le_bytes(block_number);
    r.append(&mut num);
    let mut tail = vstd::slice::slice_to_vec(vstd::array::array_as_slice(&block));
    r.append(&mut tail);
    proof {
        assert(r@ =~= cosign_block_msg_spec(block_number, block@));
    }
    r
}

/// Coordinator-to-processor requests for coordinator-level signatures.
#[derive(Clone, PartialEq, Eq, Debug)]
pub enum CoordinatorMessage {
    /// Cosign the specified Substrate block.
    CosignSubstrateBlock { session: Session, block_number: u64, block: [u8; 32] },
    /// Sign the slash report for this session.
    SignSlashReport { session: Session, report: Vec<Slash> },
}

/// Metadata of a signing plan acknowledged for a Serai block.
#[derive(Clone, Copy, PartialEq, Eq, Debug)]
pub struct PlanMeta {
    pub session: Session,
    pub id: [u8; 32],
}

/// Processor-to-coordinator artifacts of coordinator-level signatures.
#[derive(Clone, PartialEq, Eq, Debug)]
pub enum ProcessorMessage {
    CosignedBlock { block_number: u64, block: [u8; 32], signature: Vec<u8> },
    SignedBatch { batch: SignedBatch },
    SubstrateBlockAck { block: u64, plans: Vec<PlanMeta> },
    SignedSlashReport { session: Session, signature: Vec<u8> },
}

} // verus!
