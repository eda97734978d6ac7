use serai_signing::batches::{
    batch_encoded_len, build_batches, BlockHash, InInstruction, NetworkId, MAX_BATCH_SIZE,
};
use serai_signing::channel::Channel;
use serai_signing::db::{Cosign, SignedCosign};
use serai_signing::ids::Session;
use serai_signing::messages::coordinator::Slash;
use serai_signing::messages::substrate::KeyPair;
use serai_signing::provided::{
    ProvidedError, ProvidedTransactions, Transaction, TransactionError, TransactionKind,
};
use serai_signing::queue::{storage_key, Queue, QueuedMessage, Service};
use serai_signing::report::{
    find_duplicate_output_id, sort_by_output_id, KeyedInstruction, NotableBlock, ReportDb,
    ReturnInformation,
};
use serai_signing::reqres::{
    decode_request, decode_response, encode_request, encode_response, read_frame, write_frame,
    Heartbeat, Request, Response, TributaryBlockWithCommit,
};
use serai_signing::scan_db::{QueuedOutput, ScanDb};
use serai_signing::substrate::{
    Canonical, Keys, SlashReports, SubstrateDb, ValidatorSet, MAX_SLASH_REPORT_ENTRIES,
};
use serai_signing::wallet::{
    scan_outputs, OutputCandidate, ScannedOutput, SpendableOutput,
};
use serai_signing::clsag::Commitment;
use serai_signing::messages::substrate::CoordinatorMessage as SubMsg;

#[test]
fn channel_fifo() {
    let mut ch: Channel<u32> = Channel::new();
    assert_eq!(ch.try_recv(), None);
    ch.send(1);
    ch.send(2);
    ch.send(3);
    // Receives come back in send order, a prefix of what was sent.
    assert_eq!(ch.try_recv(), Some(1));
    assert_eq!(ch.try_recv(), Some(2));
    ch.send(4);
    assert_eq!(ch.try_recv(), Some(3));
    assert_eq!(ch.try_recv(), Some(4));
    assert_eq!(ch.try_recv(), None);
    ch.drain();
    assert_eq!(ch.try_recv(), None);
}

#[test]
fn batch_splitting_preserves_order_and_caps_size() {
    // Enough instructions that one encoded batch would exceed the cap.
    let mut instructions = Vec::new();
    for i in 0..7u8 {
        instructions.push(InInstruction(vec![i; 6000]));
    }
    let batches = build_batches(
        NetworkId::Monero,
        5,
        BlockHash([9; 32]),
        instructions.clone(),
    );
    assert!(batches.len() > 1);
    let mut rebuilt = Vec::new();
    for (j, b) in batches.iter().enumerate() {
        // Strictly increasing ids, same block, each within the cap.
        assert_eq!(b.id, 5 + j as u32);
        assert_eq!(b.block, BlockHash([9; 32]));
        assert_eq!(b.network, NetworkId::Monero);
        assert!(batch_encoded_len(b) <= MAX_BATCH_SIZE);
        rebuilt.extend(b.instructions.iter().cloned());
    }
    // The concatenation equals the input order.
    assert_eq!(rebuilt, instructions);

    // A single oversized instruction gets a batch of its own.
    let big = vec![InInstruction(vec![1; MAX_BATCH_SIZE + 100])];
    let batches = build_batches(NetworkId::Monero, 0, BlockHash([0; 32]), big);
    assert_eq!(batches.len(), 2);
    assert_eq!(batches[0].instructions.len(), 0);
    assert_eq!(batches[1].instructions.len(), 1);
}

#[test]
fn report_db_rows_and_return_information() {
    let mut db = ReportDb::new();
    assert_eq!(db.acquire_batch_id(), 0);
    assert_eq!(db.acquire_batch_id(), 1);
    db.save_batch_info(1, 44, Session(2), vec![7; 32], [3; 32]);
    let info = db.take_info_for_batch(1).unwrap();
    assert_eq!(info.block_number, 44);
    assert_eq!(info.session_to_sign_batch, Session(2));
    assert!(db.take_info_for_batch(1).is_none());

    let rs = vec![
        Some(ReturnInformation { address: [8; 32], amount: 1_000_000 }),
        None,
        Some(ReturnInformation { address: [9; 32], amount: 0 }),
    ];
    db.save_return_information(3, &rs);
    assert_eq!(db.take_return_information(3).unwrap(), rs);
    assert!(db.take_return_information(3).is_none());
}

#[test]
fn report_block_assigns_consecutive_ids() {
    let mut db = ReportDb::new();
    let instructions = vec![InInstruction(vec![1; 10]), InInstruction(vec![2; 10])];
    let batches = db.report_block(
        NetworkId::Bitcoin,
        7,
        BlockHash([1; 32]),
        Session(0),
        vec![2; 32],
        [4; 32],
        instructions,
    );
    assert_eq!(batches.len(), 1);
    assert_eq!(batches[0].id, 0);
    assert_eq!(db.next_to_potentially_report_block(), Some(8));
    assert!(db.take_info_for_batch(0).is_some());
}

fn keyed(id: u8, body: u8) -> KeyedInstruction {
    KeyedInstruction { output_id: [id; 32], instruction: InInstruction(vec![body; 4]) }
}

#[test]
fn instructions_sort_by_output_id() {
    let items = vec![keyed(9, 1), keyed(2, 2), keyed(7, 3), keyed(2, 4)];
    // A duplicate output id is found, with its two positions.
    assert_eq!(find_duplicate_output_id(&items), Some((1, 3)));

    let items = vec![keyed(9, 1), keyed(2, 2), keyed(7, 3)];
    assert_eq!(find_duplicate_output_id(&items), None);
    let sorted = sort_by_output_id(items);
    assert_eq!(sorted, vec![keyed(2, 2), keyed(7, 3), keyed(9, 1)]);
}

#[test]
fn report_iteration_walks_the_scanned_range() {
    let mut db = ReportDb::new();
    db.set_next_to_potentially_report_block(0);
    let notable = NotableBlock {
        block_hash: BlockHash([5; 32]),
        session_to_sign_batch: Session(0),
        external_key: vec![1; 32],
        in_instructions_hash: [2; 32],
        instructions: vec![keyed(9, 1), keyed(2, 2)],
    };
    // Blocks zero to two were scanned (the scanner would next scan three);
    // only the middle one is notable.
    let (progressed, batches) = db.run_report_iteration(
        NetworkId::Monero,
        3,
        vec![None, Some(notable), None],
    );
    assert!(progressed);
    assert_eq!(db.next_to_potentially_report_block(), Some(3));
    assert_eq!(batches.len(), 1);
    // The batch carries the instructions in output-id order.
    assert_eq!(
        batches[0].instructions,
        vec![InInstruction(vec![2; 4]), InInstruction(vec![1; 4])]
    );

    // Nothing scanned yet: no progress, nothing moves.
    let mut idle = ReportDb::new();
    idle.set_next_to_potentially_report_block(4);
    let (progressed, batches) = idle.run_report_iteration(NetworkId::Monero, 0, vec![]);
    assert!(!progressed);
    assert!(batches.is_empty());
    assert_eq!(idle.next_to_potentially_report_block(), Some(4));
}

#[test]
fn scan_db_queues() {
    let mut db = ScanDb::new();
    assert_eq!(db.next_to_scan_for_outputs_block(), None);
    db.set_next_to_scan_for_outputs_block(12);
    assert_eq!(db.next_to_scan_for_outputs_block(), Some(12));
    db.queue_output_until_block(20, QueuedOutput(vec![1]));
    db.queue_output_until_block(20, QueuedOutput(vec![2]));
    assert_eq!(
        db.take_queued_outputs(20),
        vec![QueuedOutput(vec![1]), QueuedOutput(vec![2])]
    );
    // The row is read, not consumed: asking again gives the same list.
    assert_eq!(
        db.take_queued_outputs(20),
        vec![QueuedOutput(vec![1]), QueuedOutput(vec![2])]
    );
}

#[test]
fn message_queue_log() {
    let mut q = Queue::new(Service::Coordinator);
    assert_eq!(q.message_count(), 0);
    assert_eq!(q.last_acknowledged(), None);
    q.queue_message(QueuedMessage {
        from: Service::Processor(NetworkId::Monero),
        id: 0,
        msg: vec![1],
        sig: vec![2],
    });
    assert_eq!(q.message_count(), 1);
    assert_eq!(q.get_message(0).unwrap().msg, vec![1]);
    assert!(q.get_message(1).is_none());
    q.ack_message(0);
    assert_eq!(q.last_acknowledged(), Some(0));

    let key = storage_key(&b"message".to_vec(), &vec![9, 9]);
    assert_eq!(key, vec![7, b'm', b'e', b's', b's', b'a', b'g', b'e', 9, 9]);
}

#[derive(Clone)]
struct TestTx {
    kind: TransactionKind,
    valid: bool,
    hash: [u8; 32],
}

impl Transaction for TestTx {
    fn spec_hash(&self) -> [u8; 32] {
        self.hash
    }

    fn spec_kind(&self) -> TransactionKind {
        self.kind
    }

    fn spec_valid(&self) -> bool {
        self.valid
    }

    fn hash(&self) -> [u8; 32] {
        self.hash
    }

    fn kind(&self) -> TransactionKind {
        self.kind
    }

    fn verify(&self) -> Result<(), TransactionError> {
        if self.valid {
            Ok(())
        } else {
            Err(TransactionError::InvalidSignature)
        }
    }
}

#[test]
fn provided_transactions_pool() {
    let mut pool: ProvidedTransactions<TestTx> = ProvidedTransactions::new([1; 32]);
    let provided = |h: u8| TestTx { kind: TransactionKind::Provided, valid: true, hash: [h; 32] };

    assert_eq!(
        pool.provide(TestTx { kind: TransactionKind::Signed, valid: true, hash: [1; 32] }),
        Err(ProvidedError::NotProvided)
    );
    assert_eq!(
        pool.provide(TestTx { kind: TransactionKind::Provided, valid: false, hash: [1; 32] }),
        Err(ProvidedError::InvalidProvided(TransactionError::InvalidSignature))
    );
    assert_eq!(pool.provide(provided(1)), Ok(()));
    assert_eq!(pool.provide(provided(1)), Err(ProvidedError::AlreadyProvided));
    assert_eq!(pool.provide(provided(2)), Ok(()));

    // Completion is first-in first-out, by hash.
    assert!(pool.complete([2; 32]).is_none());
    assert_eq!(pool.complete([1; 32]).unwrap().hash, [1; 32]);
    assert_eq!(pool.complete([2; 32]).unwrap().hash, [2; 32]);
    assert!(pool.complete([2; 32]).is_none());
}

#[test]
fn provided_transactions_restore() {
    let mut pool: ProvidedTransactions<TestTx> = ProvidedTransactions::new([9; 32]);
    let provided = |h: u8| TestTx { kind: TransactionKind::Provided, valid: true, hash: [h; 32] };
    assert_eq!(pool.provide(provided(1)), Ok(()));
    assert_eq!(pool.provide(provided(2)), Ok(()));
    assert_eq!(pool.complete([1; 32]).unwrap().hash, [1; 32]);

    // Rebuilding from the durable image restores the pool exactly: the
    // pending queue and the full history of provided hashes.
    let (queue, hashes) = pool.durable_image();
    let (queue, hashes) = (queue.clone(), hashes.clone());
    assert_eq!(queue.len(), 1);
    assert_eq!(hashes, vec![[1; 32], [2; 32]]);
    let mut rebuilt: ProvidedTransactions<TestTx> = ProvidedTransactions::restore([9; 32], queue, hashes);

    // History survives the reboot: a completed hash cannot re-enter.
    assert_eq!(rebuilt.provide(provided(1)), Err(ProvidedError::AlreadyProvided));
    assert_eq!(rebuilt.complete([2; 32]).unwrap().hash, [2; 32]);
    assert_eq!(rebuilt.provide(provided(3)), Ok(()));
}

#[test]
fn reqres_round_trips() {
    let hb = Request::Heartbeat(Heartbeat {
        network: NetworkId::Monero,
        session: Session(3),
        latest_block_hash: [7; 32],
    });
    let bytes = encode_request(&hb);
    assert_eq!(decode_request(&bytes).unwrap(), hb);

    let nc = Request::NotableCosigns { global_session: [8; 32] };
    let bytes = encode_request(&nc);
    assert_eq!(decode_request(&bytes).unwrap(), nc);

    // Trailing bytes are rejected.
    let mut long = encode_request(&nc);
    long.push(0);
    assert!(decode_request(&long).is_none());

    let resp = Response::Blocks(vec![
        TributaryBlockWithCommit { block: vec![1, 2], commit: vec![3] },
        TributaryBlockWithCommit { block: vec![], commit: vec![4, 5, 6] },
    ]);
    let bytes = encode_response(&resp);
    assert_eq!(decode_response(&bytes).unwrap(), resp);

    let resp = Response::NotableCosigns(vec![SignedCosign {
        cosign: Cosign { block_number: 11, block_hash: [2; 32] },
        signature: vec![9; 64],
    }]);
    let bytes = encode_response(&resp);
    assert_eq!(decode_response(&bytes).unwrap(), resp);

    assert_eq!(decode_response(&encode_response(&Response::Empty)).unwrap(), Response::Empty);
    let mut long = encode_response(&Response::Empty);
    long.push(0);
    assert!(decode_response(&long).is_none());
}

#[test]
fn framing_enforces_cap_and_exact_length() {
    let body = vec![5u8; 10];
    let framed = write_frame(&body, 16).unwrap();
    assert_eq!(&framed[..4], &10u32.to_le_bytes());
    assert_eq!(read_frame(&framed, 16).unwrap(), body);

    // A body over the cap is refused on write, and on read.
    assert!(write_frame(&body, 9).is_none());
    assert!(read_frame(&framed, 9).is_none());

    // Trailing bytes are rejected.
    let mut long = framed.clone();
    long.push(0);
    assert!(read_frame(&long, 16).is_none());
    // A short buffer is rejected.
    assert!(read_frame(&framed[..8].to_vec(), 16).is_none());
}

#[test]
fn spendable_output_round_trip() {
    let out = SpendableOutput {
        tx: [1; 32],
        o: 3,
        key: curve25519_dalek::constants::ED25519_BASEPOINT_POINT.compress().to_bytes(),
        key_offset: {
            let mut b = [0u8; 32];
            b[0] = 9;
            b
        },
        commitment: Commitment {
            mask: {
                let mut b = [0u8; 32];
                b[0] = 7;
                b
            },
            amount: 123_456,
        },
    };
    let bytes = out.serialize();
    assert_eq!(bytes.len(), 137);
    assert_eq!(SpendableOutput::deserialize(&bytes).unwrap(), out);

    // A non-canonical scalar in the mask position is rejected.
    let mut bad = bytes.clone();
    bad[97 + 31] = 0xff;
    assert!(SpendableOutput::deserialize(&bad).is_none());
}

#[test]
fn scanning_selects_first_matching_key() {
    let outputs = vec![
        ScannedOutput { key: [1; 32], declared_amount: 0 },
        ScannedOutput { key: [2; 32], declared_amount: 50 },
        ScannedOutput { key: [3; 32], declared_amount: 0 },
    ];
    let miss = OutputCandidate {
        key_offset: None,
        decrypted_amount: None,
        mask: [0; 32],
        commitment_matches: false,
    };
    let hit = OutputCandidate {
        key_offset: Some([9; 32]),
        decrypted_amount: Some(777),
        mask: [4; 32],
        commitment_matches: true,
    };
    let bad_commitment = OutputCandidate { commitment_matches: false, ..hit };
    let candidates = vec![
        vec![miss, hit],
        vec![hit],
        vec![bad_commitment],
    ];
    let found = scan_outputs([6; 32], &outputs, &candidates);
    assert_eq!(found.len(), 2);
    // The regular output keeps its decrypted amount and rebuilt mask.
    assert_eq!(found[0].o, 0);
    assert_eq!(found[0].commitment.amount, 777);
    assert_eq!(found[0].commitment.mask, [4; 32]);
    // The miner output keeps its declared amount under the mask of one.
    assert_eq!(found[1].o, 1);
    assert_eq!(found[1].commitment.amount, 50);
    let mut one = [0u8; 32];
    one[0] = 1;
    assert_eq!(found[1].commitment.mask, one);
}

#[test]
fn substrate_rows_keep_the_latest_session() {
    let mut db = SubstrateDb::new();
    let set1 = ValidatorSet { network: NetworkId::Monero, session: Session(1) };
    let set0 = ValidatorSet { network: NetworkId::Monero, session: Session(0) };
    let kp = KeyPair { substrate: [1; 32], network: vec![2; 32] };
    Keys::set(&mut db, set1, kp.clone(), vec![0b11], vec![9; 64]);
    // A historic session never overwrites a newer one.
    Keys::set(&mut db, set0, kp.clone(), vec![0b01], vec![8; 64]);
    let pending = Keys::take(&mut db, NetworkId::Monero).unwrap();
    assert_eq!(pending.session, Session(1));
    assert!(Keys::take(&mut db, NetworkId::Monero).is_none());

    let slashes = vec![Slash { key: [3; 32], points: 5 }];
    SlashReports::set(&mut db, set1, slashes, vec![7; 64]).unwrap();
    // A historic report is dropped before its size is judged; a current
    // oversized one is refused.
    let too_many = vec![Slash { key: [0; 32], points: 0 }; MAX_SLASH_REPORT_ENTRIES + 1];
    assert!(SlashReports::set(&mut db, set0, too_many.clone(), vec![]).is_ok());
    let set2 = ValidatorSet { network: NetworkId::Monero, session: Session(2) };
    assert!(SlashReports::set(&mut db, set2, too_many, vec![]).is_err());
    let pending = SlashReports::take(&mut db, NetworkId::Monero).unwrap();
    assert_eq!(pending.session, Session(1));

    // The canonical stream is a FIFO per network.
    Canonical::send(&mut db, NetworkId::Monero, SubMsg::SlashesReported { session: Session(0) });
    Canonical::send(&mut db, NetworkId::Monero, SubMsg::SlashesReported { session: Session(1) });
    assert_eq!(
        Canonical::try_recv(&mut db, NetworkId::Monero),
        Some(SubMsg::SlashesReported { session: Session(0) })
    );
    assert!(Canonical::try_recv(&mut db, NetworkId::Bitcoin).is_none());
}
