use parity_scale_codec::Encode;

use serai_signing::ids::{Participant, Session, SignId, VariantSignId};
use serai_signing::messages::coordinator as coord;
use serai_signing::messages::key_gen;
use serai_signing::messages::sign;
use serai_signing::messages::substrate;
use serai_signing::messages::{CoordinatorMessage, ProcessorMessage};

fn sign_id(session: u32, id: VariantSignId, attempt: u32) -> SignId {
    SignId { session: Session(session), id, attempt }
}

#[test]
fn cosign_intent_is_per_block_number() {
    let a = CoordinatorMessage::Coordinator(coord::CoordinatorMessage::CosignSubstrateBlock {
        session: Session(0),
        block_number: 17,
        block: [1; 32],
    });
    let b = CoordinatorMessage::Coordinator(coord::CoordinatorMessage::CosignSubstrateBlock {
        session: Session(5),
        block_number: 17,
        block: [2; 32],
    });
    let c = CoordinatorMessage::Coordinator(coord::CoordinatorMessage::CosignSubstrateBlock {
        session: Session(0),
        block_number: 18,
        block: [1; 32],
    });
    // Same block number: one action, whatever the hash or session.
    assert_eq!(a.intent(), b.intent());
    // A different block number is a different action.
    assert_ne!(a.intent(), c.intent());
}

#[test]
fn sign_intents_differ_exactly_with_ids() {
    let id_a = sign_id(1, VariantSignId::Cosign(7), 0);
    let id_b = sign_id(1, VariantSignId::Cosign(8), 0);
    let pre_a = CoordinatorMessage::Sign(sign::CoordinatorMessage::Preprocesses {
        id: id_a,
        preprocesses: vec![(Participant(1), vec![1, 2])],
    });
    let pre_a2 = CoordinatorMessage::Sign(sign::CoordinatorMessage::Preprocesses {
        id: id_a,
        preprocesses: vec![(Participant(2), vec![9])],
    });
    let pre_b = CoordinatorMessage::Sign(sign::CoordinatorMessage::Preprocesses {
        id: id_b,
        preprocesses: vec![],
    });
    let shares_a = CoordinatorMessage::Sign(sign::CoordinatorMessage::Shares {
        id: id_a,
        shares: vec![],
    });
    // Equal ids carry equal intents, whatever the payload.
    assert_eq!(pre_a.intent(), pre_a2.intent());
    // Distinct ids, distinct intents.
    assert_ne!(pre_a.intent(), pre_b.intent());
    // Distinct variants, distinct intents, even over one id.
    assert_ne!(pre_a.intent(), shares_a.intent());

    // Attempt and artifact identity both weigh in.
    let id_att = sign_id(1, VariantSignId::Cosign(7), 1);
    let re0 = CoordinatorMessage::Sign(sign::CoordinatorMessage::Reattempt { id: id_a });
    let re1 = CoordinatorMessage::Sign(sign::CoordinatorMessage::Reattempt { id: id_att });
    assert_ne!(re0.intent(), re1.intent());

    let batch = sign_id(1, VariantSignId::Batch([3; 32]), 0);
    let tx = sign_id(1, VariantSignId::Transaction([3; 32]), 0);
    let re_batch = CoordinatorMessage::Sign(sign::CoordinatorMessage::Reattempt { id: batch });
    let re_tx = CoordinatorMessage::Sign(sign::CoordinatorMessage::Reattempt { id: tx });
    assert_ne!(re_batch.intent(), re_tx.intent());
}

#[test]
fn key_gen_and_substrate_intents() {
    let gen = CoordinatorMessage::KeyGen(key_gen::CoordinatorMessage::GenerateKey {
        session: Session(7),
        threshold: 3,
        evrf_public_keys: vec![],
    });
    let gen_other = CoordinatorMessage::KeyGen(key_gen::CoordinatorMessage::GenerateKey {
        session: Session(7),
        threshold: 4,
        evrf_public_keys: vec![],
    });
    // The threshold is not part of the action.
    assert_eq!(gen.intent(), gen_other.intent());

    let part = CoordinatorMessage::KeyGen(key_gen::CoordinatorMessage::Participation {
        session: Session(7),
        participant: Participant(2),
        participation: vec![1],
    });
    assert_ne!(gen.intent(), part.intent());

    let slashes = CoordinatorMessage::Substrate(substrate::CoordinatorMessage::SlashesReported {
        session: Session(7),
    });
    let keys = CoordinatorMessage::Substrate(substrate::CoordinatorMessage::SetKeys {
        serai_time: 5,
        session: Session(7),
        key_pair: substrate::KeyPair { substrate: [0; 32], network: vec![] },
    });
    assert_ne!(slashes.intent(), keys.intent());
}

#[test]
fn processor_intents() {
    let inv = ProcessorMessage::Sign(sign::ProcessorMessage::InvalidParticipant {
        session: Session(1),
        participant: Participant(2),
    });
    let inv_other = ProcessorMessage::Sign(sign::ProcessorMessage::InvalidParticipant {
        session: Session(1),
        participant: Participant(3),
    });
    assert_ne!(inv.intent(), inv_other.intent());

    let cosigned = ProcessorMessage::Coordinator(coord::ProcessorMessage::CosignedBlock {
        block_number: 9,
        block: [4; 32],
        signature: vec![1, 2, 3],
    });
    let cosigned_same = ProcessorMessage::Coordinator(coord::ProcessorMessage::CosignedBlock {
        block_number: 10,
        block: [4; 32],
        signature: vec![],
    });
    // The processor keys its cosigned-block announcements on the hash.
    assert_eq!(cosigned.intent(), cosigned_same.intent());

    // A processor message never shares an intent with a coordinator one.
    let re = CoordinatorMessage::Sign(sign::CoordinatorMessage::Reattempt {
        id: sign_id(1, VariantSignId::SlashReport, 0),
    });
    assert_ne!(inv.intent(), re.intent());
}

#[test]
fn intent_encodings_match_upstream_codecs() {
    // The little-endian integer encodings inside intents agree with the
    // upstream codec crates.
    let session = Session(513);
    let gen = CoordinatorMessage::KeyGen(key_gen::CoordinatorMessage::GenerateKey {
        session,
        threshold: 3,
        evrf_public_keys: vec![],
    });
    let intent = gen.intent();
    assert_eq!(&intent[..3], &[0, 0, 0]);
    assert_eq!(&intent[3..], borsh::to_vec(&513u32).unwrap().as_slice());
    assert_eq!(&intent[3..], 513u32.encode().as_slice());

    let cosign = CoordinatorMessage::Coordinator(coord::CoordinatorMessage::CosignSubstrateBlock {
        session,
        block_number: 77,
        block: [0; 32],
    });
    let intent = cosign.intent();
    assert_eq!(&intent[..3], &[0, 2, 0]);
    assert_eq!(&intent[3..], 77u64.encode().as_slice());
}

#[test]
fn cosign_block_msg_layout() {
    let body = serai_signing::messages::coordinator::cosign_block_msg(0x0102, [9; 32]);
    let mut expected = vec![6u8];
    expected.extend(b"Cosign");
    expected.extend(0x0102u64.to_le_bytes());
    expected.extend([9u8; 32]);
    assert_eq!(body, expected);
}
