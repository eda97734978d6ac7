//! The durable state of a processor's signers: registry rows and the
//! per-session channels tying the tasks together across restarts.

use vstd::prelude::*;

use crate::channel::Channel;
use crate::ids::Session;
use crate::keyed::{KeyedChannel, KeyedStore};
use crate::messages::coordinator::Slash;
use crate::messages::sign::{CoordinatorMessage, ProcessorMessage};

verus! {

/// A block a validator set is asked to cosign.
#[derive(Clone, Copy, PartialEq, Eq, Debug)]
pub struct Cosign {
    pub block_number: u64,
    pub block_hash: [u8; 32],
}

/// A cosign together with the threshold signature over its message body.
#[derive(Clone, PartialEq, Eq, Debug)]
pub struct SignedCosign {
    pub cosign: Cosign,
    pub signature: Vec<u8>,
}

/// Every durable row and channel the signers read or write. Sessions key
/// everything; a session's external key bytes ride along in the cleanup
/// queue.
pub struct SignerDb {
    /// The latest block each session was asked to cosign.
    pub to_cosign: KeyedStore<u32, Cosign>,
    /// Signed cosigns on their way out.
    pub cosign: KeyedChannel<u32, SignedCosign>,
    /// Slash reports each session was asked to sign.
    pub slash_report: KeyedChannel<u32, Vec<Slash>>,
    /// The highest block number each session has cosigned.
    pub latest_cosigned: KeyedStore<u32, u64>,
    pub coordinator_to_cosigner_messages: KeyedChannel<u32, CoordinatorMessage>,
    pub cosigner_to_coordinator_messages: KeyedChannel<u32, ProcessorMessage>,
    pub coordinator_to_batch_signer_messages: KeyedChannel<u32, CoordinatorMessage>,
    pub batch_signer_to_coordinator_messages: KeyedChannel<u32, ProcessorMessage>,
    pub coordinator_to_slash_report_signer_messages: KeyedChannel<u32, CoordinatorMessage>,
    pub slash_report_signer_to_coordinator_messages: KeyedChannel<u32, ProcessorMessage>,
    pub coordinator_to_transaction_signer_messages: KeyedChannel<u32, CoordinatorMessage>,
    pub transaction_signer_to_coordinator_messages: KeyedChannel<u32, ProcessorMessage>,
    /// Batches awaiting a signature, as opaque encoded blobs.
    pub batches_to_sign: KeyedChannel<u32, Vec<u8>>,
    /// Batches acknowledged on Serai, no longer to be signed.
    pub acknowledged_batches: KeyedChannel<u32, Vec<u8>>,
    /// External-chain transactions awaiting a signature.
    pub transactions_to_sign: KeyedChannel<u32, Vec<u8>>,
    /// Eventualities resolved on the external chain.
    pub completed_eventualities: KeyedChannel<u32, Vec<u8>>,
    /// The sessions whose keys are registered.
    pub registered_keys: Vec<Session>,
    /// The serialized key shares of each registered session.
    pub serialized_keys: KeyedStore<u32, Vec<u8>>,
    /// The last session retired, if any.
    pub latest_retired: Option<Session>,
    /// Sessions retired and awaiting their boot-time cleanup, with their
    /// external key bytes.
    pub to_cleanup: Vec<(Session, Vec<u8>)>,
}

impl SignerDb {
    /// All keyed stores are well formed.
    pub open spec fn wf(self) -> bool {
        &&& self.to_cosign.wf()
        &&& self.cosign.wf()
        &&& self.slash_report.wf()
        &&& self.latest_cosigned.wf()
        &&& self.coordinator_to_cosigner_messages.wf()
        &&& self.cosigner_to_coordinator_messages.wf()
        &&& self.coordinator_to_batch_signer_messages.wf()
        &&& self.batch_signer_to_coordinator_messages.wf()
        &&& self.coordinator_to_slash_report_signer_messages.wf()
        &&& self.slash_report_signer_to_coordinator_messages.wf()
        &&& self.coordinator_to_transaction_signer_messages.wf()
        &&& self.transaction_signer_to_coordinator_messages.wf()
        &&& self.batches_to_sign.wf()
        &&& self.acknowledged_batches.wf()
        &&& self.transactions_to_sign.wf()
        &&& self.completed_eventualities.wf()
        &&& self.serialized_keys.wf()
    }

    /// Every channel and intent row of one session is empty: nothing can be
    /// received for it until something is sent again.
    pub open spec fn session_clean(self, s: u32) -> bool {
        &&& self.to_cosign.spec_get(s) is None
        &&& self.cosign.pending_of(s).len() == 0
        &&& self.slash_report.pending_of(s).len() == 0
        &&& self.coordinator_to_cosigner_messages.pending_of(s).len() == 0
        &&& self.cosigner_to_coordinator_messages.pending_of(s).len() == 0
        &&& self.coordinator_to_batch_signer_messages.pending_of(s).len() == 0
        &&& self.batch_signer_to_coordinator_messages.pending_of(s).len() == 0
        &&& self.coordinator_to_slash_report_signer_messages.pending_of(s).len() == 0
        &&& self.slash_report_signer_to_coordinator_messages.pending_of(s).len() == 0
        &&& self.coordinator_to_transaction_signer_messages.pending_of(s).len() == 0
        &&& self.transaction_signer_to_coordinator_messages.pending_of(s).len() == 0
        &&& self.batches_to_sign.pending_of(s).len() == 0
        &&& self.acknowledged_batches.pending_of(s).len() == 0
        &&& self.transactions_to_sign.pending_of(s).len() == 0
        &&& self.completed_eventualities.pending_of(s).len() == 0
    }

    /// The channels and intent rows of a session carry the same content in
    /// two states.
    pub open spec fn session_channels_eq(a: SignerDb, b: SignerDb, s: u32) -> bool {
        &&& a.to_cosign.spec_get(s) == b.to_cosign.spec_get(s)
        &&& a.cosign.pending_of(s) == b.cosign.pending_of(s)
        &&& a.slash_report.pending_of(s) == b.slash_report.pending_of(s)
        &&& a.coordinator_to_cosigner_messages.pending_of(s)
            == b.coordinator_to_cosigner_messages.pending_of(s)
        &&& a.cosigner_to_coordinator_messages.pending_of(s)
            == b.cosigner_to_coordinator_messages.pending_of(s)
        &&& a.coordinator_to_batch_signer_messages.pending_of(s)
            == b.coordinator_to_batch_signer_messages.pending_of(s)
        &&& a.batch_signer_to_coordinator_messages.pending_of(s)
            == b.batch_signer_to_coordinator_messages.pending_of(s)
        &&& a.coordinator_to_slash_report_signer_messages.pending_of(s)
            == b.coordinator_to_slash_report_signer_messages.pending_of(s)
        &&& a.slash_report_signer_to_coordinator_messages.pending_of(s)
            == b.slash_report_signer_to_coordinator_messages.pending_of(s)
        &&& a.coordinator_to_transaction_signer_messages.pending_of(s)
            == b.coordinator_to_transaction_signer_messages.pending_of(s)
        &&& a.transaction_signer_to_coordinator_messages.pending_of(s)
            == b.transaction_signer_to_coordinator_messages.pending_of(s)
        &&& a.batches_to_sign.pending_of(s) == b.batches_to_sign.pending_of(s)
        &&& a.acknowledged_batches.pending_of(s) == b.acknowledged_batches.pending_of(s)
        &&& a.transactions_to_sign.pending_of(s) == b.transactions_to_sign.pending_of(s)
        &&& a.completed_eventualities.pending_of(s) == b.completed_eventualities.pending_of(s)
        &&& a.latest_cosigned.spec_get(s) == b.latest_cosigned.spec_get(s)
    }

    /// The four inbound task channels carry the same content in two states.
    pub open spec fn inbound_eq(a: SignerDb, b: SignerDb) -> bool {
        &&& a.coordinator_to_cosigner_messages == b.coordinator_to_cosigner_messages
        &&& a.coordinator_to_batch_signer_messages == b.coordinator_to_batch_signer_messages
        &&& a.coordinator_to_slash_report_signer_messages
            == b.coordinator_to_slash_report_signer_messages
        &&& a.coordinator_to_transaction_signer_messages
            == b.coordinator_to_transaction_signer_messages
    }

    /// Every channel and intent row carries the same content in two states:
    /// nothing but the registry rows may have moved.
    pub open spec fn channels_eq(a: SignerDb, b: SignerDb) -> bool {
        &&& a.to_cosign == b.to_cosign
        &&& a.cosign == b.cosign
        &&& a.slash_report == b.slash_report
        &&& a.latest_cosigned == b.latest_cosigned
        &&& SignerDb::inbound_eq(a, b)
        &&& a.cosigner_to_coordinator_messages == b.cosigner_to_coordinator_messages
        &&& a.batch_signer_to_coordinator_messages == b.batch_signer_to_coordinator_messages
        &&& a.slash_report_signer_to_coordinator_messages
            == b.slash_report_signer_to_coordinator_messages
        &&& a.transaction_signer_to_coordinator_messages
            == b.transaction_signer_to_coordinator_messages
        &&& a.batches_to_sign == b.batches_to_sign
        &&& a.acknowledged_batches == b.acknowledged_batches
        &&& a.transactions_to_sign == b.transactions_to_sign
        &&& a.completed_eventualities == b.completed_eventualities
    }

    /// Everything but the four inbound task channels carries the same
    /// content in two states.
    pub open spec fn non_inbound_eq(a: SignerDb, b: SignerDb) -> bool {
        &&& a.to_cosign == b.to_cosign
        &&& a.cosign == b.cosign
        &&& a.slash_report == b.slash_report
        &&& a.latest_cosigned == b.latest_cosigned
        &&& a.cosigner_to_coordinator_messages == b.cosigner_to_coordinator_messages
        &&& a.batch_signer_to_coordinator_messages == b.batch_signer_to_coordinator_messages
        &&& a.slash_report_signer_to_coordinator_messages
            == b.slash_report_signer_to_coordinator_messages
        &&& a.transaction_signer_to_coordinator_messages
            == b.transaction_signer_to_coordinator_messages
        &&& a.batches_to_sign == b.batches_to_sign
        &&& a.acknowledged_batches == b.acknowledged_batches
        &&& a.transactions_to_sign == b.transactions_to_sign
        &&& a.completed_eventualities == b.completed_eventualities
    }

    /// The registry rows carry the same content in two states.
    pub open spec fn rows_eq(a: SignerDb, b: SignerDb) -> bool {
        &&& a.registered_keys@ == b.registered_keys@
        &&& forall|k: u32| a.serialized_keys.spec_get(k) == b.serialized_keys.spec_get(k)
        &&& a.latest_retired == b.latest_retired
    }

    /// Create an empty store: nothing registered, nothing pending anywhere.
    pub fn new() -> (r: SignerDb)
        ensures
            r.wf(),
            forall|s: u32| r.session_clean(s),
            r.registered_keys@.len() == 0,
            forall|k: u32| r.serialized_keys.spec_get(k) is None,
            r.latest_retired is None,
            r.to_cleanup@.len() == 0,
            forall|s: u32| r.latest_cosigned.spec_get(s) is None,
    {
        SignerDb {
            to_cosign: KeyedStore::new(),
            cosign: KeyedChannel::new(),
            slash_report: KeyedChannel::new(),
            latest_cosigned: KeyedStore::new(),
            coordinator_to_cosigner_messages: KeyedChannel::new(),
            cosigner_to_coordinator_messages: KeyedChannel::new(),
            coordinator_to_batch_signer_messages: KeyedChannel::new(),
            batch_signer_to_coordinator_messages: KeyedChannel::new(),
            coordinator_to_slash_report_signer_messages: KeyedChannel::new(),
            slash_report_signer_to_coordinator_messages: KeyedChannel::new(),
            coordinator_to_transaction_signer_messages: KeyedChannel::new(),
            transaction_signer_to_coordinator_messages: KeyedChannel::new(),
            batches_to_sign: KeyedChannel::new(),
            acknowledged_batches: KeyedChannel::new(),
            transactions_to_sign: KeyedChannel::new(),
            completed_eventualities: KeyedChannel::new(),
            registered_keys: Vec::new(),
            serialized_keys: KeyedStore::new(),
            latest_retired: None,
            to_cleanup: Vec::new(),
        }
    }

    /// Drop everything a session's channels and intent rows hold, freeing
    /// their storage. Other sessions and the registry rows are untouched.
    pub fn drain_session(&mut self, s: u32)
        requires
            old(self).wf(),
        ensures
            final(self).wf(),
            final(self).session_clean(s),
            forall|s2: u32|
                s2 != s ==> #[trigger] SignerDb::session_channels_eq(*final(self), *old(self), s2),
            SignerDb::rows_eq(*final(self), *old(self)),
            final(self).to_cleanup@ == old(self).to_cleanup@,
            forall|k: u32|
                final(self).latest_cosigned.spec_get(k) == old(self).latest_cosigned.spec_get(k),
    {
        let _ = self.to_cosign.remove(s);
        self.cosign.drain(s);
        self.slash_report.drain(s);
        self.coordinator_to_cosigner_messages.drain(s);
        self.cosigner_to_coordinator_messages.drain(s);
        self.coordinator_to_batch_signer_messages.drain(s);
        self.batch_signer_to_coordinator_messages.drain(s);
        self.coordinator_to_slash_report_signer_messages.drain(s);
        self.slash_report_signer_to_coordinator_messages.drain(s);
        self.coordinator_to_transaction_signer_messages.drain(s);
        self.transaction_signer_to_coordinator_messages.drain(s);
        self.batches_to_sign.drain(s);
        self.acknowledged_batches.drain(s);
        self.transactions_to_sign.drain(s);
        self.completed_eventualities.drain(s);
    }
}

} // verus!
