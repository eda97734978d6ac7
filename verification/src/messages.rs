//! The messages exchanged between the coordinator and a processor, and the
//! intent of each: a short canonical byte string naming the logical action,
//! used to deduplicate deliveries.

pub mod coordinator;
pub mod key_gen;
pub mod sign;
pub mod substrate;

use vstd::prelude::*;
use vstd::bytes::*;

use crate::batches::BlockHash;

verus! {

/// Context from the Serai blockchain accompanying substrate events.
#[derive(Clone, Copy, PartialEq, Eq, Debug)]
pub struct SubstrateContext {
    pub serai_time: u64,
    pub network_latest_finalized_block: BlockHash,
}

/// A message from the coordinator to a processor.
#[derive(Clone, PartialEq, Eq, Debug)]
pub enum CoordinatorMessage {
    KeyGen(key_gen::CoordinatorMessage),
    Sign(sign::CoordinatorMessage),
    Coordinator(coordinator::CoordinatorMessage),
    Substrate(substrate::CoordinatorMessage),
}

/// A message from a processor to the coordinator.
#[derive(Clone, PartialEq, Eq, Debug)]
pub enum ProcessorMessage {
    KeyGen(key_gen::ProcessorMessage),
    Sign(sign::ProcessorMessage),
    Coordinator(coordinator::ProcessorMessage),
}

impl CoordinatorMessage {
    /// The intent of this message: the originator and kind tags, the
    /// per-variant discriminator, then exactly the fields that name the
    /// logical action. Values the action does not key on are left out.
    pub open spec fn intent_spec(self) -> Seq<u8> {
        match self {
            CoordinatorMessage::KeyGen(m) => match m {
                key_gen::CoordinatorMessage::GenerateKey { session, .. } => seq![0u8, 0u8, 0u8]
                    + spec_u32_to_le_bytes(session.0),
                key_gen::CoordinatorMessage::Participation { session, participant, .. } => seq![
                    0u8,
                    0u8,
                    1u8,
                ] + spec_u32_to_le_bytes(session.0) + spec_u16_to_le_bytes(participant.0),
            },
            CoordinatorMessage::Sign(m) => match m {
                sign::CoordinatorMessage::Preprocesses { id, .. } => seq![0u8, 1u8, 0u8]
                    + id.encoded(),
                sign::CoordinatorMessage::Shares { id, .. } => seq![0u8, 1u8, 1u8] + id.encoded(),
                sign::CoordinatorMessage::Reattempt { id } => seq![0u8, 1u8, 2u8] + id.encoded(),
            },
            CoordinatorMessage::Coordinator(m) => match m {
                coordinator::CoordinatorMessage::CosignSubstrateBlock { block_number, .. } => seq![
                    0u8,
                    2u8,
                    0u8,
                ] + spec_u64_to_le_bytes(block_number),
                coordinator::CoordinatorMessage::SignSlashReport { session, .. } => seq![
                    0u8,
                    2u8,
                    1u8,
                ] + spec_u32_to_le_bytes(session.0),
            },
            CoordinatorMessage::Substrate(m) => match m {
                substrate::CoordinatorMessage::SetKeys { session, .. } => seq![0u8, 3u8, 0u8]
                    + spec_u32_to_le_bytes(session.0),
                substrate::CoordinatorMessage::SlashesReported { session } => seq![0u8, 3u8, 1u8]
                    + spec_u32_to_le_bytes(session.0),
                substrate::CoordinatorMessage::Block { serai_block_number, .. } => seq![
                    0u8,
                    3u8,
                    2u8,
                ] + spec_u64_to_le_bytes(serai_block_number),
            },
        }
    }

    /// Compute the intent of this message.
    pub fn intent(&self) -> (r: Vec<u8>)
        ensures
            r@ == self.intent_spec(),
    {
        let mut r: Vec<u8> = Vec::new();
        r.push(0u8);
        match self {
            CoordinatorMessage::KeyGen(m) => {
                r.push(0u8);
                match m {
                    key_gen::CoordinatorMessage::GenerateKey { session, .. } => {
                        r.push(0u8);
                        let mut tail = u32_to_le_bytes(session.0);
                        r.append(&mut tail);
                    }
                    key_gen::CoordinatorMessage::Participation { session, participant, .. } => {
                        r.push(1u8);
                        let mut tail = u32_to_le_bytes(session.0);
                        r.append(&mut tail);
                        let mut tail2 = u16_to_le_bytes(participant.0);
                        r.append(&mut tail2);
                    }
                }
            }
            CoordinatorMessage::Sign(m) => {
                r.push(1u8);
                match m {
                    sign::CoordinatorMessage::Preprocesses { id, .. } => {
                        r.push(0u8);
                        let mut tail = id.encode();
                        r.append(&mut tail);
                    }
                    sign::CoordinatorMessage::Shares { id, .. } => {
                        r.push(1u8);
                        let mut tail = id.encode();
                        r.append(&mut tail);
                    }
                    sign::CoordinatorMessage::Reattempt { id } => {
                        r.push(2u8);
                        let mut tail = id.encode();
                        r.append(&mut tail);
                    }
                }
            }
            CoordinatorMessage::Coordinator(m) => {
                r.push(2u8);
                match m {
                    coordinator::CoordinatorMessage::CosignSubstrateBlock {
                        block_number,
                        ..
                    } => {
                        r.push(0u8);
                        let mut tail = u64_to_le_bytes(*block_number);
                        r.append(&mut tail);
                    }
                    coordinator::CoordinatorMessage::SignSlashReport { session, .. } => {
                        r.push(1u8);
                        let mut tail = u32_to_le_bytes(session.0);
                        r.append(&mut tail);
                    }
                }
            }
            CoordinatorMessage::Substrate(m) => {
                r.push(3u8);
                match m {
                    substrate::CoordinatorMessage::SetKeys { session, .. } => {
                        r.push(0u8);
                        let mut tail = u32_to_le_bytes(session.0);
                        r.append(&mut tail);
                    }
                    substrate::CoordinatorMessage::SlashesReported { session } => {
                        r.push(1u8);
                        let mut tail = u32_to_le_bytes(session.0);
                        r.append(&mut tail);
                    }
                    substrate::CoordinatorMessage::Block { serai_block_number, .. } => {
                        r.push(2u8);
                        let mut tail = u64_to_le_bytes(*serai_block_number);
                        r.append(&mut tail);
                    }
                }
            }
        }
        proof {
            assert(r@ =~= self.intent_spec());
        }
        r
    }
}

impl ProcessorMessage {
    /// The intent of this message.
    pub open spec fn intent_spec(self) -> Seq<u8> {
        match self {
            ProcessorMessage::KeyGen(m) => match m {
                key_gen::ProcessorMessage::Participation { session, .. } => seq![1u8, 0u8, 0u8]
                    + spec_u32_to_le_bytes(session.0),
                key_gen::ProcessorMessage::GeneratedKeyPair { session, .. } => seq![1u8, 0u8, 1u8]
                    + spec_u32_to_le_bytes(session.0),
                key_gen::ProcessorMessage::Blame { session, participant } => seq![1u8, 0u8, 2u8]
                    + spec_u32_to_le_bytes(session.0) + spec_u16_to_le_bytes(participant.0),
            },
            ProcessorMessage::Sign(m) => match m {
                sign::ProcessorMessage::InvalidParticipant { session, participant } => seq![
                    1u8,
                    1u8,
                    0u8,
                ] + spec_u32_to_le_bytes(session.0) + spec_u16_to_le_bytes(participant.0),
                sign::ProcessorMessage::Preprocesses { id, .. } => seq![1u8, 1u8, 1u8]
                    + id.encoded(),
                sign::ProcessorMessage::Shares { id, .. } => seq![1u8, 1u8, 2u8] + id.encoded(),
            },
            ProcessorMessage::Coordinator(m) => match m {
                coordinator::ProcessorMessage::CosignedBlock { block, .. } => seq![1u8, 2u8, 0u8]
                    + block@,
                coordinator::ProcessorMessage::SignedBatch { batch } => seq![1u8, 2u8, 1u8]
                    + spec_u32_to_le_bytes(batch.batch.id),
                coordinator::ProcessorMessage::SubstrateBlockAck { block, .. } => seq![
                    1u8,
                    2u8,
                    2u8,
                ] + spec_u64_to_le_bytes(block),
                coordinator::ProcessorMessage::SignedSlashReport { session, .. } => seq![
                    1u8,
                    2u8,
                    3u8,
                ] + spec_u32_to_le_bytes(session.0),
            },
        }
    }

    /// Compute the intent of this message.
    pub fn intent(&self) -> (r: Vec<u8>)
        ensures
            r@ == self.intent_spec(),
    {
        let mut r: Vec<u8> = Vec::new();
        r.push(1u8);
        match self {
            ProcessorMessage::KeyGen(m) => {
                r.push(0u8);
                match m {
                    key_gen::ProcessorMessage::Participation { session, .. } => {
                        r.push(0u8);
                        let mut tail = u32_to_le_bytes(session.0);
                        r.append(&mut tail);
                    }
                    key_gen::ProcessorMessage::GeneratedKeyPair { session, .. } => {
                        r.push(1u8);
                        let mut tail = u32_to_le_bytes(session.0);
                        r.append(&mut tail);
                    }
                    key_gen::ProcessorMessage::Blame { session, participant } => {
                        r.push(2u8);
                        let mut tail = u32_to_le_bytes(session.0);
                        r.append(&mut tail);
                        let mut tail2 = u16_to_le_bytes(participant.0);
                        r.append(&mut tail2);
                    }
                }
            }
            ProcessorMessage::Sign(m) => {
                r.push(1u8);
                match m {
                    sign::ProcessorMessage::InvalidParticipant { session, participant } => {
                        r.push(0u8);
                        let mut tail = u32_to_le_bytes(session.0);
                        r.append(&mut tail);
                        let mut tail2 = u16_to_le_bytes(participant.0);
                        r.append(&mut tail2);
                    }
                    sign::ProcessorMessage::Preprocesses { id, .. } => {
                        r.push(1u8);
                        let mut tail = id.encode();
                        r.append(&mut tail);
                    }
                    sign::ProcessorMessage::Shares { id, .. } => {
                        r.push(2u8);
                        let mut tail = id.encode();
                        r.append(&mut tail);
                    }
                }
            }
            ProcessorMessage::Coordinator(m) => {
                r.push(2u8);
                match m {
                    coordinator::ProcessorMessage::CosignedBlock { block, .. } => {
                        r.push(0u8);
                        let mut tail = vstd::slice::slice_to_vec(
                            vstd::array::array_as_slice(block),
                        );
                        r.append(&mut tail);
                    }
                    coordinator::ProcessorMessage::SignedBatch { batch } => {
                        r.push(1u8);
                        let mut tail = u32_to_le_bytes(batch.batch.id);
                        r.append(&mut tail);
                    }
                    coordinator::ProcessorMessage::SubstrateBlockAck { block, .. } => {
                        r.push(2u8);
                        let mut tail = u64_to_le_bytes(*block);
                        r.append(&mut tail);
                    }
                    coordinator::ProcessorMessage::SignedSlashReport { session, .. } => {
                        r.push(3u8);
                        let mut tail = u32_to_le_bytes(session.0);
                        r.append(&mut tail);
                    }
                }
            }
        }
        proof {
            assert(r@ =~= self.intent_spec());
        }
        r
    }
}

/// The dedup rule for coordinator messages: two messages stand for the same
/// logical action exactly when their keyed fields agree, whatever the other
/// values carried alongside.
pub open spec fn same_coordinator_action(a: CoordinatorMessage, b: CoordinatorMessage) -> bool {
    match (a, b) {
        (
            CoordinatorMessage::KeyGen(key_gen::CoordinatorMessage::GenerateKey {
                session: s1,
                ..
            }),
            CoordinatorMessage::KeyGen(key_gen::CoordinatorMessage::GenerateKey {
                session: s2,
                ..
            }),
        ) => s1 == s2,
        (
            CoordinatorMessage::KeyGen(key_gen::CoordinatorMessage::Participation {
                session: s1,
                participant: p1,
                ..
            }),
            CoordinatorMessage::KeyGen(key_gen::CoordinatorMessage::Participation {
                session: s2,
                participant: p2,
                ..
            }),
        ) => s1 == s2 && p1 == p2,
        (
            CoordinatorMessage::Sign(sign::CoordinatorMessage::Preprocesses { id: i1, .. }),
            CoordinatorMessage::Sign(sign::CoordinatorMessage::Preprocesses { id: i2, .. }),
        ) => i1 == i2,
        (
            CoordinatorMessage::Sign(sign::CoordinatorMessage::Shares { id: i1, .. }),
            CoordinatorMessage::Sign(sign::CoordinatorMessage::Shares { id: i2, .. }),
        ) => i1 == i2,
        (
            CoordinatorMessage::Sign(sign::CoordinatorMessage::Reattempt { id: i1 }),
            CoordinatorMessage::Sign(sign::CoordinatorMessage::Reattempt { id: i2 }),
        ) => i1 == i2,
        (
            CoordinatorMessage::Coordinator(coordinator::CoordinatorMessage::CosignSubstrateBlock {
                block_number: n1,
                ..
            }),
            CoordinatorMessage::Coordinator(coordinator::CoordinatorMessage::CosignSubstrateBlock {
                block_number: n2,
                ..
            }),
        ) => n1 == n2,
        (
            CoordinatorMessage::Coordinator(coordinator::CoordinatorMessage::SignSlashReport {
                session: s1,
                ..
            }),
            CoordinatorMessage::Coordinator(coordinator::CoordinatorMessage::SignSlashReport {
                session: s2,
                ..
            }),
        ) => s1 == s2,
        (
            CoordinatorMessage::Substrate(substrate::CoordinatorMessage::SetKeys {
                session: s1,
                ..
            }),
            CoordinatorMessage::Substrate(substrate::CoordinatorMessage::SetKeys {
                session: s2,
                ..
            }),
        ) => s1 == s2,
        (
            CoordinatorMessage::Substrate(substrate::CoordinatorMessage::SlashesReported {
                session: s1,
            }),
            CoordinatorMessage::Substrate(substrate::CoordinatorMessage::SlashesReported {
                session: s2,
            }),
        ) => s1 == s2,
        (
            CoordinatorMessage::Substrate(substrate::CoordinatorMessage::Block {
                serai_block_number: n1,
                ..
            }),
            CoordinatorMessage::Substrate(substrate::CoordinatorMessage::Block {
                serai_block_number: n2,
                ..
            }),
        ) => n1 == n2,
        _ => false,
    }
}

/// The discriminating bytes of each coordinator message's intent.
spec fn coordinator_tags(a: CoordinatorMessage) -> (u8, u8) {
    match a {
        CoordinatorMessage::KeyGen(key_gen::CoordinatorMessage::GenerateKey { .. }) => (0, 0),
        CoordinatorMessage::KeyGen(key_gen::CoordinatorMessage::Participation { .. }) => (0, 1),
        CoordinatorMessage::Sign(sign::CoordinatorMessage::Preprocesses { .. }) => (1, 0),
        CoordinatorMessage::Sign(sign::CoordinatorMessage::Shares { .. }) => (1, 1),
        CoordinatorMessage::Sign(sign::CoordinatorMessage::Reattempt { .. }) => (1, 2),
        CoordinatorMessage::Coordinator(
            coordinator::CoordinatorMessage::CosignSubstrateBlock { .. },
        ) => (2, 0),
        CoordinatorMessage::Coordinator(
            coordinator::CoordinatorMessage::SignSlashReport { .. },
        ) => (2, 1),
        CoordinatorMessage::Substrate(substrate::CoordinatorMessage::SetKeys { .. }) => (3, 0),
        CoordinatorMessage::Substrate(substrate::CoordinatorMessage::SlashesReported { .. }) => (
            3,
            1,
        ),
        CoordinatorMessage::Substrate(substrate::CoordinatorMessage::Block { .. }) => (3, 2),
    }
}

/// Two coordinator messages carry equal intents exactly when the protocol
/// treats them as the same action.
pub proof fn lemma_coordinator_intent_is_action(a: CoordinatorMessage, b: CoordinatorMessage)
    ensures
        (a.intent_spec() == b.intent_spec()) <==> same_coordinator_action(a, b),
{
    lemma_auto_spec_u16_to_from_le_bytes();
    lemma_auto_spec_u32_to_from_le_bytes();
    lemma_auto_spec_u64_to_from_le_bytes();
    assert(a.intent_spec()[1] == coordinator_tags(a).0 && a.intent_spec()[2]
        == coordinator_tags(a).1);
    assert(b.intent_spec()[1] == coordinator_tags(b).0 && b.intent_spec()[2]
        == coordinator_tags(b).1);
    if a.intent_spec() == b.intent_spec() {
        match (a, b) {
            (
                CoordinatorMessage::KeyGen(key_gen::CoordinatorMessage::GenerateKey {
                    session: s1,
                    ..
                }),
                CoordinatorMessage::KeyGen(key_gen::CoordinatorMessage::GenerateKey {
                    session: s2,
                    ..
                }),
            ) => {
                assert(spec_u32_to_le_bytes(s1.0) =~= a.intent_spec().skip(3));
                assert(spec_u32_to_le_bytes(s2.0) =~= b.intent_spec().skip(3));
            }
            (
                CoordinatorMessage::KeyGen(key_gen::CoordinatorMessage::Participation {
                    session: s1,
                    participant: p1,
                    ..
                }),
                CoordinatorMessage::KeyGen(key_gen::CoordinatorMessage::Participation {
                    session: s2,
                    participant: p2,
                    ..
                }),
            ) => {
                assert(spec_u32_to_le_bytes(s1.0) =~= a.intent_spec().subrange(3, 7));
                assert(spec_u32_to_le_bytes(s2.0) =~= b.intent_spec().subrange(3, 7));
                assert(spec_u16_to_le_bytes(p1.0) =~= a.intent_spec().skip(7));
                assert(spec_u16_to_le_bytes(p2.0) =~= b.intent_spec().skip(7));
            }
            (
                CoordinatorMessage::Sign(sign::CoordinatorMessage::Preprocesses { id: i1, .. }),
                CoordinatorMessage::Sign(sign::CoordinatorMessage::Preprocesses { id: i2, .. }),
            ) => {
                assert(i1.encoded() =~= a.intent_spec().skip(3));
                assert(i2.encoded() =~= b.intent_spec().skip(3));
                crate::ids::lemma_sign_id_encoding_injective(i1, i2);
            }
            (
                CoordinatorMessage::Sign(sign::CoordinatorMessage::Shares { id: i1, .. }),
                CoordinatorMessage::Sign(sign::CoordinatorMessage::Shares { id: i2, .. }),
            ) => {
                assert(i1.encoded() =~= a.intent_spec().skip(3));
                assert(i2.encoded() =~= b.intent_spec().skip(3));
                crate::ids::lemma_sign_id_encoding_injective(i1, i2);
            }
            (
                CoordinatorMessage::Sign(sign::CoordinatorMessage::Reattempt { id: i1 }),
                CoordinatorMessage::Sign(sign::CoordinatorMessage::Reattempt { id: i2 }),
            ) => {
                assert(i1.encoded() =~= a.intent_spec().skip(3));
                assert(i2.encoded() =~= b.intent_spec().skip(3));
                crate::ids::lemma_sign_id_encoding_injective(i1, i2);
            }
            (
                CoordinatorMessage::Coordinator(
                    coordinator::CoordinatorMessage::CosignSubstrateBlock {
                        block_number: n1,
                        ..
                    },
                ),
                CoordinatorMessage::Coordinator(
                    coordinator::CoordinatorMessage::CosignSubstrateBlock {
                        block_number: n2,
                        ..
                    },
                ),
            ) => {
                assert(spec_u64_to_le_bytes(n1) =~= a.intent_spec().skip(3));
                assert(spec_u64_to_le_bytes(n2) =~= b.intent_spec().skip(3));
            }
            (
                CoordinatorMessage::Coordinator(coordinator::CoordinatorMessage::SignSlashReport {
                    session: s1,
                    ..
                }),
                CoordinatorMessage::Coordinator(coordinator::CoordinatorMessage::SignSlashReport {
                    session: s2,
                    ..
                }),
            ) => {
                assert(spec_u32_to_le_bytes(s1.0) =~= a.intent_spec().skip(3));
                assert(spec_u32_to_le_bytes(s2.0) =~= b.intent_spec().skip(3));
            }
            (
                CoordinatorMessage::Substrate(substrate::CoordinatorMessage::SetKeys {
                    session: s1,
                    ..
                }),
                CoordinatorMessage::Substrate(substrate::CoordinatorMessage::SetKeys {
                    session: s2,
                    ..
                }),
            ) => {
                assert(spec_u32_to_le_bytes(s1.0) =~= a.intent_spec().skip(3));
                assert(spec_u32_to_le_bytes(s2.0) =~= b.intent_spec().skip(3));
            }
            (
                CoordinatorMessage::Substrate(substrate::CoordinatorMessage::SlashesReported {
                    session: s1,
                }),
                CoordinatorMessage::Substrate(substrate::CoordinatorMessage::SlashesReported {
                    session: s2,
                }),
            ) => {
                assert(spec_u32_to_le_bytes(s1.0) =~= a.intent_spec().skip(3));
                assert(spec_u32_to_le_bytes(s2.0) =~= b.intent_spec().skip(3));
            }
            (
                CoordinatorMessage::Substrate(substrate::CoordinatorMessage::Block {
                    serai_block_number: n1,
                    ..
                }),
                CoordinatorMessage::Substrate(substrate::CoordinatorMessage::Block {
                    serai_block_number: n2,
                    ..
                }),
            ) => {
                assert(spec_u64_to_le_bytes(n1) =~= a.intent_spec().skip(3));
                assert(spec_u64_to_le_bytes(n2) =~= b.intent_spec().skip(3));
            }
            _ => {
                assert(false);
            }
        }
    }
    if same_coordinator_action(a, b) {
        assert(a.intent_spec() =~= b.intent_spec());
    }
}

/// Cosigning is one action per block number: the block hash carried along,
/// and the session asked to sign, do not change the intent.
pub proof fn lemma_cosign_intent_per_block_number(
    s1: crate::ids::Session,
    s2: crate::ids::Session,
    n: u64,
    h1: [u8; 32],
    h2: [u8; 32],
)
    ensures
        CoordinatorMessage::Coordinator(
            coordinator::CoordinatorMessage::CosignSubstrateBlock {
                session: s1,
                block_number: n,
                block: h1,
            },
        ).intent_spec() == CoordinatorMessage::Coordinator(
            coordinator::CoordinatorMessage::CosignSubstrateBlock {
                session: s2,
                block_number: n,
                block: h2,
            },
        ).intent_spec(),
{
    let a = CoordinatorMessage::Coordinator(
        coordinator::CoordinatorMessage::CosignSubstrateBlock {
            session: s1,
            block_number: n,
            block: h1,
        },
    );
    let b = CoordinatorMessage::Coordinator(
        coordinator::CoordinatorMessage::CosignSubstrateBlock {
            session: s2,
            block_number: n,
            block: h2,
        },
    );
    lemma_coordinator_intent_is_action(a, b);
}

/// The dedup rule for processor messages.
pub open spec fn same_processor_action(a: ProcessorMessage, b: ProcessorMessage) -> bool {
    match (a, b) {
        (
            ProcessorMessage::KeyGen(key_gen::ProcessorMessage::Participation {
                session: s1,
                ..
            }),
            ProcessorMessage::KeyGen(key_gen::ProcessorMessage::Participation {
                session: s2,
                ..
            }),
        ) => s1 == s2,
        (
            ProcessorMessage::KeyGen(key_gen::ProcessorMessage::GeneratedKeyPair {
                session: s1,
                ..
            }),
            ProcessorMessage::KeyGen(key_gen::ProcessorMessage::GeneratedKeyPair {
                session: s2,
                ..
            }),
        ) => s1 == s2,
        (
            ProcessorMessage::KeyGen(key_gen::ProcessorMessage::Blame {
                session: s1,
                participant: p1,
            }),
            ProcessorMessage::KeyGen(key_gen::ProcessorMessage::Blame {
                session: s2,
                participant: p2,
            }),
        ) => s1 == s2 && p1 == p2,
        (
            ProcessorMessage::Sign(sign::ProcessorMessage::InvalidParticipant {
                session: s1,
                participant: p1,
            }),
            ProcessorMessage::Sign(sign::ProcessorMessage::InvalidParticipant {
                session: s2,
                participant: p2,
            }),
        ) => s1 == s2 && p1 == p2,
        (
            ProcessorMessage::Sign(sign::ProcessorMessage::Preprocesses { id: i1, .. }),
            ProcessorMessage::Sign(sign::ProcessorMessage::Preprocesses { id: i2, .. }),
        ) => i1 == i2,
        (
            ProcessorMessage::Sign(sign::ProcessorMessage::Shares { id: i1, .. }),
            ProcessorMessage::Sign(sign::ProcessorMessage::Shares { id: i2, .. }),
        ) => i1 == i2,
        (
            ProcessorMessage::Coordinator(coordinator::ProcessorMessage::CosignedBlock {
                block: h1,
                ..
            }),
            ProcessorMessage::Coordinator(coordinator::ProcessorMessage::CosignedBlock {
                block: h2,
                ..
            }),
        ) => h1 == h2,
        (
            ProcessorMessage::Coordinator(coordinator::ProcessorMessage::SignedBatch {
                batch: b1,
            }),
            ProcessorMessage::Coordinator(coordinator::ProcessorMessage::SignedBatch {
                batch: b2,
            }),
        ) => b1.batch.id == b2.batch.id,
        (
            ProcessorMessage::Coordinator(coordinator::ProcessorMessage::SubstrateBlockAck {
                block: n1,
                ..
            }),
            ProcessorMessage::Coordinator(coordinator::ProcessorMessage::SubstrateBlockAck {
                block: n2,
                ..
            }),
        ) => n1 == n2,
        (
            ProcessorMessage::Coordinator(coordinator::ProcessorMessage::SignedSlashReport {
                session: s1,
                ..
            }),
            ProcessorMessage::Coordinator(coordinator::ProcessorMessage::SignedSlashReport {
                session: s2,
                ..
            }),
        ) => s1 == s2,
        _ => false,
    }
}

/// The discriminating bytes of each processor message's intent.
spec fn processor_tags(a: ProcessorMessage) -> (u8, u8) {
    match a {
        ProcessorMessage::KeyGen(key_gen::ProcessorMessage::Participation { .. }) => (0, 0),
        ProcessorMessage::KeyGen(key_gen::ProcessorMessage::GeneratedKeyPair { .. }) => (0, 1),
        ProcessorMessage::KeyGen(key_gen::ProcessorMessage::Blame { .. }) => (0, 2),
        ProcessorMessage::Sign(sign::ProcessorMessage::InvalidParticipant { .. }) => (1, 0),
        ProcessorMessage::Sign(sign::ProcessorMessage::Preprocesses { .. }) => (1, 1),
        ProcessorMessage::Sign(sign::ProcessorMessage::Shares { .. }) => (1, 2),
        ProcessorMessage::Coordinator(coordinator::ProcessorMessage::CosignedBlock { .. }) => (
            2,
            0,
        ),
        ProcessorMessage::Coordinator(coordinator::ProcessorMessage::SignedBatch { .. }) => (2, 1),
        ProcessorMessage::Coordinator(coordinator::ProcessorMessage::SubstrateBlockAck {
            ..
        }) => (2, 2),
        ProcessorMessage::Coordinator(coordinator::ProcessorMessage::SignedSlashReport {
            ..
        }) => (2, 3),
    }
}

/// Two processor messages carry equal intents exactly when the protocol
/// treats them as the same action.
pub proof fn lemma_processor_intent_is_action(a: ProcessorMessage, b: ProcessorMessage)
    ensures
        (a.intent_spec() == b.intent_spec()) <==> same_processor_action(a, b),
{
    lemma_auto_spec_u16_to_from_le_bytes();
    lemma_auto_spec_u32_to_from_le_bytes();
    lemma_auto_spec_u64_to_from_le_bytes();
    assert(a.intent_spec()[1] == processor_tags(a).0 && a.intent_spec()[2] == processor_tags(
        a,
    ).1);
    assert(b.intent_spec()[1] == processor_tags(b).0 && b.intent_spec()[2] == processor_tags(
        b,
    ).1);
    if a.intent_spec() == b.intent_spec() {
        match (a, b) {
            (
                ProcessorMessage::KeyGen(key_gen::ProcessorMessage::Participation {
                    session: s1,
                    ..
                }),
                ProcessorMessage::KeyGen(key_gen::ProcessorMessage::Participation {
                    session: s2,
                    ..
                }),
            ) => {
                assert(spec_u32_to_le_bytes(s1.0) =~= a.intent_spec().skip(3));
                assert(spec_u32_to_le_bytes(s2.0) =~= b.intent_spec().skip(3));
            }
            (
                ProcessorMessage::KeyGen(key_gen::ProcessorMessage::GeneratedKeyPair {
                    session: s1,
                    ..
                }),
                ProcessorMessage::KeyGen(key_gen::ProcessorMessage::GeneratedKeyPair {
                    session: s2,
                    ..
                }),
            ) => {
                assert(spec_u32_to_le_bytes(s1.0) =~= a.intent_spec().skip(3));
                assert(spec_u32_to_le_bytes(s2.0) =~= b.intent_spec().skip(3));
            }
            (
                ProcessorMessage::KeyGen(key_gen::ProcessorMessage::Blame {
                    session: s1,
                    participant: p1,
                }),
                ProcessorMessage::KeyGen(key_gen::ProcessorMessage::Blame {
                    session: s2,
                    participant: p2,
                }),
            ) => {
                assert(spec_u32_to_le_bytes(s1.0) =~= a.intent_spec().subrange(3, 7));
                assert(spec_u32_to_le_bytes(s2.0) =~= b.intent_spec().subrange(3, 7));
                assert(spec_u16_to_le_bytes(p1.0) =~= a.intent_spec().skip(7));
                assert(spec_u16_to_le_bytes(p2.0) =~= b.intent_spec().skip(7));
            }
            (
                ProcessorMessage::Sign(sign::ProcessorMessage::InvalidParticipant {
                    session: s1,
                    participant: p1,
                }),
                ProcessorMessage::Sign(sign::ProcessorMessage::InvalidParticipant {
                    session: s2,
                    participant: p2,
                }),
            ) => {
                assert(spec_u32_to_le_bytes(s1.0) =~= a.intent_spec().subrange(3, 7));
                assert(spec_u32_to_le_bytes(s2.0) =~= b.intent_spec().subrange(3, 7));
                assert(spec_u16_to_le_bytes(p1.0) =~= a.intent_spec().skip(7));
                assert(spec_u16_to_le_bytes(p2.0) =~= b.intent_spec().skip(7));
            }
            (
                ProcessorMessage::Sign(sign::ProcessorMessage::Preprocesses { id: i1, .. }),
                ProcessorMessage::Sign(sign::ProcessorMessage::Preprocesses { id: i2, .. }),
            ) => {
                assert(i1.encoded() =~= a.intent_spec().skip(3));
                assert(i2.encoded() =~= b.intent_spec().skip(3));
                crate::ids::lemma_sign_id_encoding_injective(i1, i2);
            }
            (
                ProcessorMessage::Sign(sign::ProcessorMessage::Shares { id: i1, .. }),
                ProcessorMessage::Sign(sign::ProcessorMessage::Shares { id: i2, .. }),
            ) => {
                assert(i1.encoded() =~= a.intent_spec().skip(3));
                assert(i2.encoded() =~= b.intent_spec().skip(3));
                crate::ids::lemma_sign_id_encoding_injective(i1, i2);
            }
            (
                ProcessorMessage::Coordinator(coordinator::ProcessorMessage::CosignedBlock {
                    block: h1,
                    ..
                }),
                ProcessorMessage::Coordinator(coordinator::ProcessorMessage::CosignedBlock {
                    block: h2,
                    ..
                }),
            ) => {
                assert(h1@ =~= a.intent_spec().skip(3));
                assert(h2@ =~= b.intent_spec().skip(3));
                assert(h1 =~= h2);
            }
            (
                ProcessorMessage::Coordinator(coordinator::ProcessorMessage::SignedBatch {
                    batch: b1,
                }),
                ProcessorMessage::Coordinator(coordinator::ProcessorMessage::SignedBatch {
                    batch: b2,
                }),
            ) => {
                assert(spec_u32_to_le_bytes(b1.batch.id) =~= a.intent_spec().skip(3));
                assert(spec_u32_to_le_bytes(b2.batch.id) =~= b.intent_spec().skip(3));
            }
            (
                ProcessorMessage::Coordinator(coordinator::ProcessorMessage::SubstrateBlockAck {
                    block: n1,
                    ..
                }),
                ProcessorMessage::Coordinator(coordinator::ProcessorMessage::SubstrateBlockAck {
                    block: n2,
                    ..
                }),
            ) => {
                assert(spec_u64_to_le_bytes(n1) =~= a.intent_spec().skip(3));
                assert(spec_u64_to_le_bytes(n2) =~= b.intent_spec().skip(3));
            }
            (
                ProcessorMessage::Coordinator(coordinator::ProcessorMessage::SignedSlashReport {
                    session: s1,
                    ..
                }),
                ProcessorMessage::Coordinator(coordinator::ProcessorMessage::SignedSlashReport {
                    session: s2,
                    ..
                }),
            ) => {
                assert(spec_u32_to_le_bytes(s1.0) =~= a.intent_spec().skip(3));
                assert(spec_u32_to_le_bytes(s2.0) =~= b.intent_spec().skip(3));
            }
            _ => {
                assert(false);
            }
        }
    }
    if same_processor_action(a, b) {
        assert(a.intent_spec() =~= b.intent_spec());
    }
}

/// A coordinator message and a processor message never share an intent: the
/// leading originator byte differs.
pub proof fn lemma_intent_separates_origins(a: CoordinatorMessage, b: ProcessorMessage)
    ensures
        a.intent_spec() != b.intent_spec(),
{
    assert(a.intent_spec()[0] == 0);
    assert(b.intent_spec()[0] == 1);
}

} // verus!
