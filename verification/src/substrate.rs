//! The coordinator's substrate-facing state: canonical events fanned out to
//! processors, new-set announcements, signed batches awaiting publication,
//! and the latest keys and slash reports to put on chain.

use vstd::prelude::*;
use vstd::bytes::*;

use crate::batches::NetworkId;
use crate::channel::Channel;
use crate::ids::Session;
use crate::keyed::{ExecKey, KeyedChannel, KeyedStore};
use crate::messages::coordinator::{SignedBatch, Slash};
use crate::messages::key_gen::EvrfPublicKeys;
use crate::messages::substrate::{CoordinatorMessage, KeyPair};

verus! {

broadcast use vstd::array::group_array_axioms;

/// A validator set: one network in one session.
#[derive(Clone, Copy, PartialEq, Eq, Structural, Debug, Hash)]
pub struct ValidatorSet {
    pub network: NetworkId,
    pub session: Session,
}

impl ExecKey for NetworkId {
    fn key_eq(&self, other: &Self) -> (r: bool)
        ensures
            r == (*self == *other),
    {
        *self == *other
    }
}

impl ExecKey for ValidatorSet {
    fn key_eq(&self, other: &Self) -> (r: bool)
        ensures
            r == (*self == *other),
    {
        *self == *other
    }
}

/// One validator and the number of key shares it holds.
#[derive(Clone, Copy, PartialEq, Eq, Debug)]
pub struct Validator {
    pub key: [u8; 32],
    pub weight: u16,
}

/// The information for a new set.
#[derive(Clone, PartialEq, Eq, Debug)]
pub struct NewSetInformation {
    /// The set.
    pub set: ValidatorSet,
    /// The Serai block which declared it.
    pub serai_block: [u8; 32],
    /// The time of the block which declared it, in seconds.
    pub declaration_time: u64,
    /// The threshold to use.
    pub threshold: u16,
    /// The validators, with the amount of key shares they have.
    pub validators: Vec<Validator>,
    /// The eVRF public keys.
    pub evrf_public_keys: Vec<EvrfPublicKeys>,
}

/// An encoded transaction pending publication, for one session.
#[derive(Clone, PartialEq, Eq, Debug)]
pub struct PendingTx {
    pub session: Session,
    pub tx: Vec<u8>,
}

/// The coordinator's substrate-facing channels and rows.
pub struct SubstrateDb {
    /// Canonical messages to send to the processor.
    pub canonical: KeyedChannel<NetworkId, CoordinatorMessage>,
    /// Relevant new sets, from an ephemeral event stream.
    pub new_set: Channel<NewSetInformation>,
    /// Potentially relevant sign-slash-report notices.
    pub sign_slash_report: KeyedChannel<ValidatorSet, bool>,
    /// Signed batches to publish onto the Serai network.
    pub signed_batches: KeyedChannel<NetworkId, SignedBatch>,
    /// Keys to set on the Serai network.
    pub keys: KeyedStore<NetworkId, PendingTx>,
    /// Slash reports to publish onto the Serai network.
    pub slash_reports: KeyedStore<NetworkId, PendingTx>,
}

impl SubstrateDb {
    /// The keyed stores are well formed.
    pub open spec fn wf(self) -> bool {
        &&& self.canonical.wf()
        &&& self.sign_slash_report.wf()
        &&& self.signed_batches.wf()
        &&& self.keys.wf()
        &&& self.slash_reports.wf()
    }

    /// Create empty state.
    pub fn new() -> (r: SubstrateDb)
        ensures
            r.wf(),
            forall|n: NetworkId| r.canonical.pending_of(n) == Seq::<CoordinatorMessage>::empty(),
            r.new_set.pending_seq() == Seq::<NewSetInformation>::empty(),
            forall|s: ValidatorSet| r.sign_slash_report.pending_of(s) == Seq::<bool>::empty(),
            forall|n: NetworkId| r.signed_batches.pending_of(n) == Seq::<SignedBatch>::empty(),
            forall|n: NetworkId| r.keys.spec_get(n) is None,
            forall|n: NetworkId| r.slash_reports.spec_get(n) is None,
    {
        SubstrateDb {
            canonical: KeyedChannel::new(),
            new_set: Channel::new(),
            sign_slash_report: KeyedChannel::new(),
            signed_batches: KeyedChannel::new(),
            keys: KeyedStore::new(),
            slash_reports: KeyedStore::new(),
        }
    }
}

/// The canonical event stream.
pub struct Canonical;

impl Canonical {
    /// Send a canonical event to a network's processor.
    pub fn send(db: &mut SubstrateDb, network: NetworkId, msg: CoordinatorMessage)
        requires
            old(db).wf(),
        ensures
            final(db).wf(),
            final(db).canonical.sent_of(network) == old(db).canonical.sent_of(network).push(msg),
    {
        db.canonical.send(network, msg);
    }

    /// Try to receive a canonical event, returning nothing if none awaits.
    pub fn try_recv(db: &mut SubstrateDb, network: NetworkId) -> (r: Option<CoordinatorMessage>)
        requires
            old(db).wf(),
        ensures
            final(db).wf(),
            match r {
                Some(m) => old(db).canonical.pending_of(network).len() > 0 && m == old(db).canonical.pending_of(network)[0] && final(db).canonical.pending_of(network)
                    == old(db).canonical.pending_of(network).skip(1) && final(db).canonical.received_of(network) == old(db).canonical.received_of(network).push(m),
                None => old(db).canonical.pending_of(network).len() == 0 && final(db).canonical.received_of(network) == old(db).canonical.received_of(network),
            },
            final(db).canonical.sent_of(network) == old(db).canonical.sent_of(network),
            forall|n2: NetworkId| #![auto]
                n2 != network ==> final(db).canonical.sent_of(n2) == old(db).canonical.sent_of(n2)
                    && final(db).canonical.received_of(n2) == old(db).canonical.received_of(n2)
                    && final(db).canonical.pending_of(n2) == old(db).canonical.pending_of(n2),
    {
        db.canonical.try_recv(network)
    }
}

/// The channel for new set events emitted by an ephemeral event stream.
pub struct NewSet;

impl NewSet {
    /// Announce a new set.
    pub fn send(db: &mut SubstrateDb, msg: NewSetInformation)
        requires
            old(db).wf(),
        ensures
            final(db).wf(),
            final(db).new_set.sent_seq() == old(db).new_set.sent_seq().push(msg),
            final(db).canonical == old(db).canonical,
    {
        db.new_set.send(msg);
    }

    /// Try to receive a new set's information.
    pub fn try_recv(db: &mut SubstrateDb) -> (r: Option<NewSetInformation>)
        requires
            old(db).wf(),
        ensures
            final(db).wf(),
            match r {
                Some(m) => old(db).new_set.pending_seq().len() > 0 && m == old(db).new_set.pending_seq()[0] && final(db).new_set.pending_seq() == old(db).new_set.pending_seq().skip(1)
                    && final(db).new_set.received_seq() == old(db).new_set.received_seq().push(m),
                None => old(db).new_set.pending_seq().len() == 0 && final(db).new_set.received_seq()
                    == old(db).new_set.received_seq(),
            },
            final(db).new_set.sent_seq() == old(db).new_set.sent_seq(),
    {
        db.new_set.try_recv()
    }
}

/// The channel for notifications to sign a slash report. Notifications may
/// name irrelevant validator sets; every relevant one is included.
pub struct SignSlashReport;

impl SignSlashReport {
    /// Notify a set to sign its slash report.
    pub fn send(db: &mut SubstrateDb, set: ValidatorSet)
        requires
            old(db).wf(),
        ensures
            final(db).wf(),
            final(db).sign_slash_report.sent_of(set) == old(db).sign_slash_report.sent_of(
                set,
            ).push(true),
    {
        db.sign_slash_report.send(set, true);
    }

    /// Try to receive a notification to sign a slash report.
    pub fn try_recv(db: &mut SubstrateDb, set: ValidatorSet) -> (r: Option<bool>)
        requires
            old(db).wf(),
        ensures
            final(db).wf(),
            match r {
                Some(v) => old(db).sign_slash_report.pending_of(set).len() > 0 && final(db).sign_slash_report.pending_of(set) == old(db).sign_slash_report.pending_of(
                    set,
                ).skip(1) && final(db).sign_slash_report.received_of(set) == old(db).sign_slash_report.received_of(set).push(v),
                None => old(db).sign_slash_report.pending_of(set).len() == 0 && final(db).sign_slash_report.received_of(set) == old(db).sign_slash_report.received_of(set),
            },
            final(db).sign_slash_report.sent_of(set) == old(db).sign_slash_report.sent_of(set),
            forall|s2: ValidatorSet| #![auto]
                s2 != set ==> final(db).sign_slash_report.sent_of(s2) == old(db).sign_slash_report.sent_of(s2) && final(db).sign_slash_report.received_of(s2)
                    == old(db).sign_slash_report.received_of(s2) && final(db).sign_slash_report.pending_of(s2) == old(db).sign_slash_report.pending_of(s2),
    {
        db.sign_slash_report.try_recv(set)
    }
}

/// The signed batches to publish onto Serai.
pub struct SignedBatches;

impl SignedBatches {
    /// Send a signed batch to publish onto Serai, queued on its network.
    pub fn send(db: &mut SubstrateDb, batch: SignedBatch)
        requires
            old(db).wf(),
        ensures
            final(db).wf(),
            final(db).signed_batches.sent_of(batch.batch.network) == old(db).signed_batches.sent_of(batch.batch.network).push(batch),
    {
        let network = batch.batch.network;
        db.signed_batches.send(network, batch);
    }

    /// Try to receive a signed batch to publish.
    pub fn try_recv(db: &mut SubstrateDb, network: NetworkId) -> (r: Option<SignedBatch>)
        requires
            old(db).wf(),
        ensures
            final(db).wf(),
            match r {
                Some(m) => old(db).signed_batches.pending_of(network).len() > 0 && m == old(db).signed_batches.pending_of(network)[0] && final(db).signed_batches.pending_of(
                    network,
                ) == old(db).signed_batches.pending_of(network).skip(1) && final(db).signed_batches.received_of(network) == old(db).signed_batches.received_of(
                    network,
                ).push(m),
                None => old(db).signed_batches.pending_of(network).len() == 0 && final(db).signed_batches.received_of(network) == old(db).signed_batches.received_of(
                    network,
                ),
            },
            final(db).signed_batches.sent_of(network) == old(db).signed_batches.sent_of(network),
            forall|n2: NetworkId| #![auto]
                n2 != network ==> final(db).signed_batches.sent_of(n2) == old(db).signed_batches.sent_of(n2) && final(db).signed_batches.received_of(n2) == old(db).signed_batches.received_of(n2) && final(db).signed_batches.pending_of(n2) == old(db).signed_batches.pending_of(n2),
    {
        db.signed_batches.try_recv(network)
    }
}

/// The encoded body of a set-keys transaction: the network, the key pair,
/// the participation bits and the signature, each length-prefixed where
/// variable.
pub open spec fn set_keys_tx_bytes(
    network: NetworkId,
    key_pair: KeyPair,
    signature_participants: Seq<u8>,
    signature: Seq<u8>,
) -> Seq<u8> {
    network.encoded() + key_pair.substrate@ + crate::signers::share_rec(key_pair.network@)
        + crate::signers::share_rec(signature_participants) + crate::signers::share_rec(signature)
}

/// The encoded body of a report-slashes transaction: the network, each
/// slash as its key and points, behind a count, and the signature.
pub open spec fn slashes_tx_bytes(
    network: NetworkId,
    slashes: Seq<Slash>,
    signature: Seq<u8>,
) -> Seq<u8> {
    network.encoded() + spec_u32_to_le_bytes(slashes.len() as u32) + slashes_bytes(slashes)
        + crate::signers::share_rec(signature)
}

/// The concatenated bytes of a list of slashes.
pub open spec fn slashes_bytes(slashes: Seq<Slash>) -> Seq<u8>
    decreases slashes.len(),
{
    if slashes.len() == 0 {
        Seq::empty()
    } else {
        slashes_bytes(slashes.drop_last()) + slashes.last().key@ + spec_u32_to_le_bytes(
            slashes.last().points,
        )
    }
}

/// A slash report may name at most this many key shares.
pub const MAX_SLASH_REPORT_ENTRIES: usize = 600;

/// The keys to set on Serai.
pub struct Keys;

impl Keys {
    /// Set the keys to report for a validator set, building the encoded
    /// set-keys transaction. Only the most recent session's keys are kept:
    /// a historic session never overwrites a newer one.
    pub fn set(
        db: &mut SubstrateDb,
        set: ValidatorSet,
        key_pair: KeyPair,
        signature_participants: Vec<u8>,
        signature: Vec<u8>,
    )
        requires
            old(db).wf(),
            key_pair.network@.len() < 0x1_0000_0000,
            signature_participants@.len() < 0x1_0000_0000,
            signature@.len() < 0x1_0000_0000,
        ensures
            final(db).wf(),
            match old(db).keys.spec_get(set.network) {
                Some(existing) => {
                    &&& (existing.session.0 >= set.session.0 ==> *final(db) == *old(db))
                    &&& (existing.session.0 < set.session.0 ==> (final(db).keys.spec_get(
                        set.network,
                    ) matches Some(e) && e.session == set.session && e.tx@ == set_keys_tx_bytes(
                        set.network,
                        key_pair,
                        signature_participants@,
                        signature@,
                    )))
                },
                None => final(db).keys.spec_get(set.network) matches Some(e) && e.session
                    == set.session && e.tx@ == set_keys_tx_bytes(
                    set.network,
                    key_pair,
                    signature_participants@,
                    signature@,
                ),
            },
    {
        match db.keys.get(set.network) {
            Some(existing) => {
                if existing.session.0 >= set.session.0 {
                    return ;
                }
            }
            None => {}
        }
        let mut tx: Vec<u8> = Vec::new();
        tx.push(set.network.encode());
        let mut substrate_key = vstd::slice::slice_to_vec(
            vstd::array::array_as_slice(&key_pair.substrate),
        );
        tx.append(&mut substrate_key);
        append_rec(&mut tx, &key_pair.network);
        append_rec(&mut tx, &signature_participants);
        append_rec(&mut tx, &signature);
        proof {
            assert(tx@ =~= set_keys_tx_bytes(
                set.network,
                key_pair,
                signature_participants@,
                signature@,
            ));
        }
        db.keys.set(set.network, PendingTx { session: set.session, tx });
    }

    /// Take the pending set-keys transaction for a network.
    pub fn take(db: &mut SubstrateDb, network: NetworkId) -> (r: Option<PendingTx>)
        requires
            old(db).wf(),
        ensures
            final(db).wf(),
            r == old(db).keys.spec_get(network),
            final(db).keys.spec_get(network) is None,
    {
        db.keys.remove(network)
    }
}

/// The slash report was invalid.
#[derive(Clone, Copy, PartialEq, Eq, Structural, Debug)]
pub struct InvalidSlashReport;

/// The slash reports to publish onto Serai.
pub struct SlashReports;

impl SlashReports {
    /// Set the slashes to report for a validator set, building the encoded
    /// report-slashes transaction. Only the most recent session's report is
    /// kept, and a report naming too many validators is refused.
    pub fn set(
        db: &mut SubstrateDb,
        set: ValidatorSet,
        slashes: Vec<Slash>,
        signature: Vec<u8>,
    ) -> (r: Result<(), InvalidSlashReport>)
        requires
            old(db).wf(),
            signature@.len() < 0x1_0000_0000,
        ensures
            final(db).wf(),
            ({
                let stale = match old(db).slash_reports.spec_get(set.network) {
                    Some(existing) => existing.session.0 >= set.session.0,
                    None => false,
                };
                // A historic report is dropped before its size is judged; a
                // current oversized one is refused.
                &&& (r is Err <==> !stale && slashes@.len() > MAX_SLASH_REPORT_ENTRIES)
                &&& (r is Err ==> *final(db) == *old(db))
                &&& (stale ==> *final(db) == *old(db))
                &&& ((r is Ok && !stale) ==> (final(db).slash_reports.spec_get(
                    set.network,
                ) matches Some(e) && e.session == set.session && e.tx@ == slashes_tx_bytes(
                    set.network,
                    slashes@,
                    signature@,
                )))
            }),
    {
        match db.slash_reports.get(set.network) {
            Some(existing) => {
                if existing.session.0 >= set.session.0 {
                    return Ok(());
                }
            }
            None => {}
        }
        if slashes.len() > MAX_SLASH_REPORT_ENTRIES {
            return Err(InvalidSlashReport);
        }
        let mut tx: Vec<u8> = Vec::new();
        tx.push(set.network.encode());
        let mut count = u32_to_le_bytes(slashes.len() as u32);
        tx.append(&mut count);
        let n = slashes.len();
        let mut i: usize = 0;
        let ghost header = tx@;
        proof {
            assert(slashes_bytes(slashes@.take(0)) =~= Seq::<u8>::empty());
            assert(tx@ =~= header + slashes_bytes(slashes@.take(0)));
        }
        while i < n
            invariant
                n == slashes@.len(),
                i <= n,
                tx@ == header + slashes_bytes(slashes@.take(i as int)),
            decreases n - i,
        {
            let mut key = vstd::slice::slice_to_vec(
                vstd::array::array_as_slice(&slashes[i].key),
            );
            tx.append(&mut key);
            let mut points = u32_to_le_bytes(slashes[i].points);
            tx.append(&mut points);
            proof {
                assert(slashes@.take(i + 1 as int).drop_last() =~= slashes@.take(i as int));
                assert(slashes@.take(i + 1 as int).last() == slashes@[i as int]);
                assert(tx@ =~= header + slashes_bytes(slashes@.take(i + 1 as int)));
            }
            i += 1;
        }
        append_rec(&mut tx, &signature);
        proof {
            assert(slashes@.take(n as int) =~= slashes@);
            assert(tx@ =~= slashes_tx_bytes(set.network, slashes@, signature@));
        }
        db.slash_reports.set(set.network, PendingTx { session: set.session, tx });
        Ok(())
    }

    /// Take the pending report-slashes transaction for a network.
    pub fn take(db: &mut SubstrateDb, network: NetworkId) -> (r: Option<PendingTx>)
        requires
            old(db).wf(),
        ensures
            final(db).wf(),
            r == old(db).slash_reports.spec_get(network),
            final(db).slash_reports.spec_get(network) is None,
    {
        db.slash_reports.remove(network)
    }
}

/// Append a byte string behind its length.
fn append_rec(to: &mut Vec<u8>, b: &Vec<u8>)
    requires
        b@.len() < 0x1_0000_0000,
    ensures
        final(to)@ == old(to)@ + crate::signers::share_rec(b@),
{
    let mut len_bytes = u32_to_le_bytes(b.len() as u32);
    to.append(&mut len_bytes);
    let mut body = vstd::slice::slice_to_vec(b.as_slice());
    to.append(&mut body);
    proof {
        assert(final(to)@ =~= old(to)@ + crate::signers::share_rec(b@));
    }
}

} // verus!
