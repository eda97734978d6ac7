use serai_signing::attempt::SignMachine;
use serai_signing::cosigner::{CosignMachines, CosignerTask};
use serai_signing::db::SignerDb;
use serai_signing::ids::{Participant, Session, SignId, VariantSignId};
use serai_signing::messages::sign::CoordinatorMessage;
use serai_signing::signers::{
    encode_keys, parse_keys, KeySharePair, RetireError, Signers,
};

struct EchoMachine;

impl SignMachine for EchoMachine {
    fn preprocess(&mut self) -> Vec<u8> {
        vec![1]
    }

    fn shares(&mut self, _p: &Vec<(Participant, Vec<u8>)>) -> Result<Vec<u8>, Participant> {
        Ok(vec![2])
    }

    fn complete(&mut self, _s: &Vec<(Participant, Vec<u8>)>) -> Result<Vec<u8>, Participant> {
        Ok(vec![3; 64])
    }
}

struct EchoKeys;

impl CosignMachines<EchoMachine> for EchoKeys {
    fn machines(&self, _message: &Vec<u8>) -> Vec<EchoMachine> {
        vec![EchoMachine]
    }
}

fn pair(a: u8, b: u8) -> KeySharePair {
    KeySharePair { substrate: vec![a, a, a], network: vec![b, b] }
}

#[test]
fn keys_blob_round_trip() {
    let pairs = vec![pair(1, 2), pair(3, 4)];
    let blob = encode_keys(&pairs);
    let parsed = parse_keys(&blob).unwrap();
    assert_eq!(parsed, pairs);

    // A truncated blob does not parse: parsing is exact.
    let mut cut = blob.clone();
    cut.pop();
    assert!(parse_keys(&cut).is_none());

    // Empty parses to no pairs.
    assert_eq!(parse_keys(&Vec::new()).unwrap(), Vec::<KeySharePair>::new());
}

#[test]
fn retire_ordering_and_idempotence() {
    let mut db = SignerDb::new();
    let mut signers = Signers::new(&mut db);

    // Sessions retire in order, starting at zero.
    assert_eq!(
        signers.retire_session(&mut db, Session(1), vec![9]),
        Err(RetireError::OutOfOrder)
    );
    assert_eq!(signers.retire_session(&mut db, Session(0), vec![9]), Ok(()));
    // Retiring the same session twice is an error.
    assert_eq!(
        signers.retire_session(&mut db, Session(0), vec![9]),
        Err(RetireError::OutOfOrder)
    );
    assert_eq!(signers.retire_session(&mut db, Session(1), vec![9]), Ok(()));

    // Registering keys at or below the watermark is a NOP.
    signers.register_keys(&mut db, Session(1), vec![pair(1, 2)]);
    assert!(db.registered_keys.is_empty());
    signers.register_keys(&mut db, Session(2), vec![pair(1, 2)]);
    assert_eq!(db.registered_keys, vec![Session(2)]);
}

#[test]
fn retirement_cleanup_across_boot() {
    let mut db = SignerDb::new();
    let mut signers = Signers::new(&mut db);

    // Register session 0 with keys and leave messages in its channels.
    signers.register_keys(&mut db, Session(0), vec![pair(1, 2)]);
    for attempt in 0..3u32 {
        signers.queue_message(
            &mut db,
            CoordinatorMessage::Reattempt {
                id: SignId { session: Session(0), id: VariantSignId::Cosign(7), attempt },
            },
        );
    }
    signers.cosign_block(&mut db, Session(0), 7, [1; 32]);
    signers.sign_slash_report(&mut db, Session(0), vec![]);
    assert!(db.coordinator_to_cosigner_messages.try_recv(0).is_some());

    // Retire session 0; the channels drain at the next boot, crash-safe.
    signers.retire_session(&mut db, Session(0), vec![5; 32]).unwrap();
    assert_eq!(db.to_cleanup.len(), 1);

    // "Crash" and boot again on the same durable state.
    let mut signers = Signers::new(&mut db);
    assert!(db.to_cleanup.is_empty());
    assert!(db.coordinator_to_cosigner_messages.try_recv(0).is_none());
    assert!(db.coordinator_to_batch_signer_messages.try_recv(0).is_none());
    assert!(db.coordinator_to_slash_report_signer_messages.try_recv(0).is_none());
    assert!(db.coordinator_to_transaction_signer_messages.try_recv(0).is_none());
    assert!(db.cosign.try_recv(0).is_none());
    assert!(db.slash_report.try_recv(0).is_none());
    assert!(db.batches_to_sign.try_recv(0).is_none());
    assert!(db.acknowledged_batches.try_recv(0).is_none());
    assert!(db.transactions_to_sign.try_recv(0).is_none());
    assert!(db.completed_eventualities.try_recv(0).is_none());

    // Registering the retired session again is a NOP.
    signers.register_keys(&mut db, Session(0), vec![pair(1, 2)]);
    assert!(!db.registered_keys.contains(&Session(0)));
}

#[test]
fn queue_message_routes_by_variant() {
    let mut db = SignerDb::new();
    let mut signers = Signers::new(&mut db);
    let mk = |id| CoordinatorMessage::Reattempt {
        id: SignId { session: Session(2), id, attempt: 0 },
    };
    signers.queue_message(&mut db, mk(VariantSignId::Cosign(1)));
    signers.queue_message(&mut db, mk(VariantSignId::Batch([0; 32])));
    signers.queue_message(&mut db, mk(VariantSignId::SlashReport));
    signers.queue_message(&mut db, mk(VariantSignId::Transaction([0; 32])));
    assert!(db.coordinator_to_cosigner_messages.try_recv(2).is_some());
    assert!(db.coordinator_to_batch_signer_messages.try_recv(2).is_some());
    assert!(db.coordinator_to_slash_report_signer_messages.try_recv(2).is_some());
    assert!(db.coordinator_to_transaction_signer_messages.try_recv(2).is_some());
    // Nothing crossed onto another channel.
    assert!(db.coordinator_to_cosigner_messages.try_recv(2).is_none());
}

#[test]
fn wake_flags_follow_routing() {
    let mut db = SignerDb::new();
    let mut signers = Signers::new(&mut db);
    signers.register_keys(&mut db, Session(0), vec![pair(1, 2)]);

    // Nothing asked to run yet.
    let wakes = signers.take_wakes(0).unwrap();
    assert!(!wakes.cosigner && !wakes.batch && !wakes.slash_report && !wakes.transaction);

    // Routing a cosign message wakes the cosigner task alone.
    signers.queue_message(
        &mut db,
        CoordinatorMessage::Reattempt {
            id: SignId { session: Session(0), id: VariantSignId::Cosign(4), attempt: 1 },
        },
    );
    let wakes = signers.take_wakes(0).unwrap();
    assert!(wakes.cosigner && !wakes.batch && !wakes.slash_report && !wakes.transaction);

    // Taking the wakes cleared them.
    let wakes = signers.take_wakes(0).unwrap();
    assert!(!wakes.cosigner);

    // An unknown session has no tasks to wake.
    assert!(signers.take_wakes(9).is_none());
}

#[test]
fn cosigner_latest_supersession() {
    let mut db = SignerDb::new();
    let mut signers = Signers::new(&mut db);
    let mut task: CosignerTask<EchoMachine, EchoKeys> =
        CosignerTask::new(Session(0), EchoKeys, 1);

    // Ask for block 17, then 18, before any contribution arrives: the task
    // must adopt 18.
    signers.cosign_block(&mut db, Session(0), 17, [17; 32]);
    signers.cosign_block(&mut db, Session(0), 18, [18; 32]);
    task.run_iteration(&mut db);

    // Our preprocess for Cosign(18) went out.
    let out = db.cosigner_to_coordinator_messages.try_recv(0).unwrap();
    match out {
        serai_signing::messages::sign::ProcessorMessage::Preprocesses { id, .. } => {
            assert_eq!(id.id, VariantSignId::Cosign(18));
        }
        other => panic!("unexpected: {other:?}"),
    }

    // Drive the protocol to completion with a single-participant threshold.
    let sid = SignId { session: Session(0), id: VariantSignId::Cosign(18), attempt: 0 };
    db.coordinator_to_cosigner_messages.send(
        0,
        CoordinatorMessage::Preprocesses { id: sid, preprocesses: vec![(Participant(1), vec![1])] },
    );
    db.coordinator_to_cosigner_messages.send(
        0,
        CoordinatorMessage::Shares { id: sid, shares: vec![(Participant(1), vec![2])] },
    );
    task.run_iteration(&mut db);

    // Exactly one signed cosign was published, and it names block 18.
    let signed = db.cosign.try_recv(0).unwrap();
    assert_eq!(signed.cosign.block_number, 18);
    assert_eq!(signed.cosign.block_hash, [18; 32]);
    assert!(db.cosign.try_recv(0).is_none());
}
