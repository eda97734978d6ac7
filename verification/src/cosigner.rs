//! The cosigner task: watches the latest block its session was asked to
//! cosign, drives the threshold signing protocol for it through the attempt
//! manager, and publishes the signed cosign.
//!
//! Only the latest cosign is worked on: a newer request supersedes an
//! unfinished older one, whose protocol instance is retired. A signed
//! cosign is only ever published for the block the task adopted; a
//! signature the manager yields for any other identity is discarded, as
//! the manager has already marked that identity completed and nothing may
//! be published for a block that was superseded.

use vstd::prelude::*;

use crate::attempt::{AttemptManager, Response, SignMachine};
use crate::db::{Cosign, SignedCosign, SignerDb};
use crate::ids::{Session, SignId, VariantSignId};
use crate::messages::sign::ProcessorMessage;

verus! {

/// Builds the signing machines for a cosign's message body, one per local
/// key share. Implementations hold the session's key shares.
pub trait CosignMachines<M: SignMachine>: Sized {
    /// Build one machine per local key share for this message.
    fn machines(&self, message: &Vec<u8>) -> Vec<M>;
}

/// Send a batch of our protocol messages out to the coordinator, in order.
/// Only the outbound message channel changes, only at this session.
fn forward_to_coordinator(db: &mut SignerDb, s: u32, msgs: Vec<ProcessorMessage>)
    requires
        old(db).wf(),
    ensures
        final(db).wf(),
        final(db).cosigner_to_coordinator_messages.sent_of(s) == old(db).cosigner_to_coordinator_messages.sent_of(s) + msgs@,
        final(db).cosigner_to_coordinator_messages.received_of(s) == old(db).cosigner_to_coordinator_messages.received_of(s),
        forall|k2: u32| #![auto]
            k2 != s ==> final(db).cosigner_to_coordinator_messages.sent_of(k2) == old(db).cosigner_to_coordinator_messages.sent_of(k2) && final(db).cosigner_to_coordinator_messages.received_of(k2) == old(db).cosigner_to_coordinator_messages.received_of(k2),
        final(db).to_cosign == old(db).to_cosign,
        final(db).cosign == old(db).cosign,
        final(db).slash_report == old(db).slash_report,
        final(db).latest_cosigned == old(db).latest_cosigned,
        SignerDb::inbound_eq(*final(db), *old(db)),
        final(db).batch_signer_to_coordinator_messages == old(db).batch_signer_to_coordinator_messages,
        final(db).slash_report_signer_to_coordinator_messages == old(db).slash_report_signer_to_coordinator_messages,
        final(db).transaction_signer_to_coordinator_messages == old(db).transaction_signer_to_coordinator_messages,
        final(db).batches_to_sign == old(db).batches_to_sign,
        final(db).acknowledged_batches == old(db).acknowledged_batches,
        final(db).transactions_to_sign == old(db).transactions_to_sign,
        final(db).completed_eventualities == old(db).completed_eventualities,
        SignerDb::rows_eq(*final(db), *old(db)),
        final(db).to_cleanup@ == old(db).to_cleanup@,
{
    let ghost orig = msgs@;
    let mut msgs = msgs;
    let total = msgs.len();
    let mut sent: usize = 0;
    proof {
        assert(orig.take(0) =~= Seq::<ProcessorMessage>::empty());
        assert(db.cosigner_to_coordinator_messages.sent_of(s) =~= old(db).cosigner_to_coordinator_messages.sent_of(s) + orig.take(0));
    }
    while msgs.len() > 0
        invariant
            db.wf(),
            total == orig.len(),
            sent + msgs.len() == total,
            msgs@ == orig.skip(sent as int),
            db.cosigner_to_coordinator_messages.sent_of(s) == old(db).cosigner_to_coordinator_messages.sent_of(s) + orig.take(sent as int),
            db.cosigner_to_coordinator_messages.received_of(s) == old(db).cosigner_to_coordinator_messages.received_of(s),
            forall|k2: u32| #![auto]
                k2 != s ==> db.cosigner_to_coordinator_messages.sent_of(k2) == old(db).cosigner_to_coordinator_messages.sent_of(k2)
                    && db.cosigner_to_coordinator_messages.received_of(k2) == old(db).cosigner_to_coordinator_messages.received_of(k2),
            db.to_cosign == old(db).to_cosign,
            db.cosign == old(db).cosign,
            db.slash_report == old(db).slash_report,
            db.latest_cosigned == old(db).latest_cosigned,
            SignerDb::inbound_eq(*db, *old(db)),
            db.batch_signer_to_coordinator_messages == old(db).batch_signer_to_coordinator_messages,
            db.slash_report_signer_to_coordinator_messages == old(db).slash_report_signer_to_coordinator_messages,
            db.transaction_signer_to_coordinator_messages == old(db).transaction_signer_to_coordinator_messages,
            db.batches_to_sign == old(db).batches_to_sign,
            db.acknowledged_batches == old(db).acknowledged_batches,
            db.transactions_to_sign == old(db).transactions_to_sign,
            db.completed_eventualities == old(db).completed_eventualities,
            SignerDb::rows_eq(*db, *old(db)),
            db.to_cleanup@ == old(db).to_cleanup@,
        decreases msgs@.len(),
    {
        let m = msgs.remove(0);
        db.cosigner_to_coordinator_messages.send(s, m);
        proof {
            assert(orig.take(sent + 1 as int) =~= orig.take(sent as int).push(m));
            assert(db.cosigner_to_coordinator_messages.sent_of(s) =~= old(db).cosigner_to_coordinator_messages.sent_of(s) + orig.take(sent + 1 as int));
            assert(msgs@ =~= orig.skip(sent + 1 as int));
        }
        sent += 1;
    }
    proof {
        assert(orig.take(orig.len() as int) =~= orig);
    }
}

/// Whether the outbound slice from a position on holds our shares for
/// cosigning a block.
pub open spec fn outbound_has_shares(
    out: Seq<ProcessorMessage>,
    lo: int,
    session: Session,
    n: u64,
) -> bool {
    exists|k: int|
        lo <= k < out.len() && (match #[trigger] out[k] {
            ProcessorMessage::Shares { id, .. } => id.session == session && id.id
                == VariantSignId::Cosign(n),
            _ => false,
        })
}

/// Whether the outbound slice from a position on holds a blame in this
/// session's name.
pub open spec fn outbound_has_blame(out: Seq<ProcessorMessage>, lo: int, session: Session) -> bool {
    exists|k: int|
        lo <= k < out.len() && (match #[trigger] out[k] {
            ProcessorMessage::InvalidParticipant { session: s2, .. } => s2 == session,
            _ => false,
        })
}

/// Whether the outbound slice from a position on holds our preprocesses
/// for cosigning a block at an attempt.
pub open spec fn outbound_has_preprocesses(
    out: Seq<ProcessorMessage>,
    lo: int,
    session: Session,
    n: u64,
    attempt: u32,
) -> bool {
    exists|k: int|
        lo <= k < out.len() && (match #[trigger] out[k] {
            ProcessorMessage::Preprocesses { id, .. } => id.session == session && id.id
                == VariantSignId::Cosign(n) && id.attempt == attempt,
            _ => false,
        })
}

/// Fetches the latest cosign information and works on it.
pub struct CosignerTask<M: SignMachine, F: CosignMachines<M>> {
    session: Session,
    keys: F,
    current_cosign: Option<Cosign>,
    attempt_manager: AttemptManager<M>,
}

impl<M: SignMachine, F: CosignMachines<M>> CosignerTask<M, F> {
    /// The task's invariant: its manager is well formed and speaks for its
    /// session.
    pub closed spec fn wf(self) -> bool {
        &&& self.attempt_manager.wf()
        &&& self.attempt_manager.spec_session() == self.session
    }

    /// The session whose blocks the task cosigns.
    pub closed spec fn spec_session(self) -> Session {
        self.session
    }

    /// The cosign the task is working on, if any.
    pub closed spec fn spec_current_cosign(self) -> Option<Cosign> {
        self.current_cosign
    }

    /// Whether the task's manager holds a protocol instance for cosigning
    /// this block number.
    pub closed spec fn spec_has_active_cosign(self, block_number: u64) -> bool {
        self.attempt_manager.has_active(VariantSignId::Cosign(block_number))
    }

    /// The round the manager's instance for cosigning this block is in.
    pub closed spec fn spec_cosign_phase(self, block_number: u64) -> Option<crate::attempt::Phase> {
        self.attempt_manager.phase_of(VariantSignId::Cosign(block_number))
    }

    /// The attempt the manager's instance for cosigning this block is on.
    pub closed spec fn spec_cosign_attempt(self, block_number: u64) -> Option<u32> {
        self.attempt_manager.attempt_of(VariantSignId::Cosign(block_number))
    }

    /// The task never works below the session's cosigned watermark: any
    /// cosign its slot holds lies strictly above it, so the watermark only
    /// ever rises.
    pub open spec fn watermark_ok(self, db: SignerDb) -> bool {
        match self.spec_current_cosign() {
            Some(c) => match db.latest_cosigned.spec_get(self.spec_session().0) {
                Some(l) => l < c.block_number,
                None => true,
            },
            None => true,
        }
    }

    /// Create the task for a session.
    pub fn new(session: Session, keys: F, threshold: usize) -> (r: CosignerTask<M, F>)
        requires
            threshold >= 1,
        ensures
            r.wf(),
            r.spec_session() == session,
            r.spec_current_cosign() is None,
            forall|b: u64| !r.spec_has_active_cosign(b),
    {
        CosignerTask {
            session,
            keys,
            current_cosign: None,
            attempt_manager: AttemptManager::new(session, threshold),
        }
    }

    /// Run one iteration of the task: adopt the latest cosign intent,
    /// retiring a superseded one and opening the fresh protocol, then drain
    /// and handle every pending coordinator message, forwarding our
    /// responses and publishing a signed cosign on completion.
    ///
    /// Every signed cosign published by this call is for the block the task
    /// adopted: the latest intent when one newer than the cosigned
    /// watermark stood, the previously adopted cosign otherwise. A
    /// superseded block is never published here. An intent at or below the
    /// watermark is ignored rather than treated as the invariant violation
    /// the original asserted on; a signature for any identity but the
    /// adopted one is likewise discarded, its identity already completed.
    pub fn run_iteration(&mut self, db: &mut SignerDb) -> (progressed: bool)
        requires
            old(self).wf(),
            old(db).wf(),
            old(self).watermark_ok(*old(db)),
        ensures
            final(self).wf(),
            final(db).wf(),
            final(self).spec_session() == old(self).spec_session(),
            final(self).watermark_ok(*final(db)),
            // The watermark only rises.
            (match (
                old(db).latest_cosigned.spec_get(old(self).spec_session().0),
                final(db).latest_cosigned.spec_get(old(self).spec_session().0),
            ) {
                (Some(l), Some(l2)) => l <= l2,
                (Some(_), None) => false,
                (None, _) => true,
            }),
            ({
                let s = old(self).spec_session().0;
                let intent = old(db).to_cosign.spec_get(s);
                let fresh = match (intent, old(db).latest_cosigned.spec_get(s)) {
                    (Some(c), Some(l)) => l < c.block_number,
                    (Some(_), None) => true,
                    _ => false,
                };
                let target = if fresh {
                    intent
                } else {
                    old(self).spec_current_cosign()
                };
                let out0 = old(db).cosigner_to_coordinator_messages.sent_of(s);
                // The adopted cosign is the latest fresh intent; the slot
                // only closes by publishing its signed cosign.
                &&& (fresh ==> final(self).spec_current_cosign() == intent || final(db).cosign.sent_of(s).len() == old(db).cosign.sent_of(s).len() + 1)
                // The inbound channel is drained.
                &&& final(db).coordinator_to_cosigner_messages.pending_of(s).len() == 0
                // Adopting a fresh intent retires the superseded block's
                // protocol instance.
                &&& ((match (intent, old(self).spec_current_cosign()) {
                    (Some(c), Some(cur)) => fresh && cur.block_number != c.block_number
                        ==> !final(self).spec_has_active_cosign(cur.block_number),
                    _ => true,
                }))
                // If the fresh intent's protocol was opened here, our
                // preprocess message for it went out first, at attempt zero.
                &&& ((match intent {
                    Some(c) => (fresh && !old(self).spec_has_active_cosign(c.block_number)
                        && final(self).spec_has_active_cosign(c.block_number)) ==> {
                        &&& final(db).cosigner_to_coordinator_messages.sent_of(s).len()
                            > out0.len()
                        &&& (match final(db).cosigner_to_coordinator_messages.sent_of(s)[out0.len() as int] {
                            ProcessorMessage::Preprocesses { id: rid, .. } => rid == (SignId {
                                session: old(self).spec_session(),
                                id: VariantSignId::Cosign(c.block_number),
                                attempt: 0u32,
                            }),
                            _ => false,
                        })
                    },
                    None => true,
                }))
                // Our outbound messages only accumulate, in order.
                &&& out0.is_prefix_of(final(db).cosigner_to_coordinator_messages.sent_of(s))
                // The manager's responses go out: a round that advanced to
                // its share phase left our shares in the outbound channel,
                // a terminated round left its blame, and an adopted
                // re-attempt left its fresh preprocesses.
                &&& forall|n: u64|
                    (old(self).spec_cosign_phase(n) != Some(
                        crate::attempt::Phase::AwaitingShares,
                    ) && #[trigger] final(self).spec_cosign_phase(n) == Some(
                        crate::attempt::Phase::AwaitingShares,
                    )) ==> outbound_has_shares(
                        final(db).cosigner_to_coordinator_messages.sent_of(s),
                        out0.len() as int,
                        old(self).spec_session(),
                        n,
                    )
                &&& forall|n: u64|
                    (old(self).spec_cosign_phase(n) != Some(crate::attempt::Phase::Terminated)
                        && #[trigger] final(self).spec_cosign_phase(n) == Some(
                        crate::attempt::Phase::Terminated,
                    )) ==> outbound_has_blame(
                        final(db).cosigner_to_coordinator_messages.sent_of(s),
                        out0.len() as int,
                        old(self).spec_session(),
                    )
                &&& forall|n: u64|
                    (match (
                        old(self).spec_cosign_attempt(n),
                        #[trigger] final(self).spec_cosign_attempt(n),
                    ) {
                        (Some(a0), Some(a)) => a > a0 ==> outbound_has_preprocesses(
                            final(db).cosigner_to_coordinator_messages.sent_of(s),
                            out0.len() as int,
                            old(self).spec_session(),
                            n,
                            a,
                        ),
                        _ => true,
                    })
                // At most one cosign is published per iteration; publishing
                // records the block as the session's cosigned watermark and
                // closes the adopted slot, and nothing else moves the
                // watermark.
                &&& final(db).cosign.sent_of(s).len() >= old(db).cosign.sent_of(s).len()
                &&& final(db).cosign.sent_of(s).len() <= old(db).cosign.sent_of(s).len() + 1
                &&& (final(db).cosign.sent_of(s).len() == old(db).cosign.sent_of(s).len()
                    ==> final(db).latest_cosigned.spec_get(s) == old(db).latest_cosigned.spec_get(
                    s,
                ))
                &&& (final(db).cosign.sent_of(s).len() == old(db).cosign.sent_of(s).len() + 1
                    ==> (match target {
                    Some(c) => final(db).latest_cosigned.spec_get(s) == Some(c.block_number)
                        && final(self).spec_current_cosign() is None,
                    None => false,
                }))
                &&& forall|k: int|
                    old(db).cosign.sent_of(s).len() <= k < final(db).cosign.sent_of(s).len()
                        ==> (match target {
                        Some(c) => (#[trigger] final(db).cosign.sent_of(s)[k]).cosign == c,
                        None => false,
                    })
                &&& forall|k: int|
                    0 <= k < old(db).cosign.sent_of(s).len() ==> #[trigger] final(db).cosign.sent_of(s)[k] == old(db).cosign.sent_of(s)[k]
                &&& final(db).cosign.received_of(s) == old(db).cosign.received_of(s)
                &&& forall|k2: u32| #![auto]
                    k2 != s ==> final(db).cosign.sent_of(k2) == old(db).cosign.sent_of(k2)
                        && final(db).cosign.received_of(k2) == old(db).cosign.received_of(k2)
                        && final(db).latest_cosigned.spec_get(k2) == old(db).latest_cosigned.spec_get(k2)
            }),
            // Nothing else of the durable state moves.
            final(db).to_cosign == old(db).to_cosign,
            final(db).slash_report == old(db).slash_report,
            final(db).coordinator_to_batch_signer_messages == old(db).coordinator_to_batch_signer_messages,
            final(db).coordinator_to_slash_report_signer_messages == old(db).coordinator_to_slash_report_signer_messages,
            final(db).coordinator_to_transaction_signer_messages == old(db).coordinator_to_transaction_signer_messages,
            final(db).batch_signer_to_coordinator_messages == old(db).batch_signer_to_coordinator_messages,
            final(db).slash_report_signer_to_coordinator_messages == old(db).slash_report_signer_to_coordinator_messages,
            final(db).transaction_signer_to_coordinator_messages == old(db).transaction_signer_to_coordinator_messages,
            final(db).batches_to_sign == old(db).batches_to_sign,
            final(db).acknowledged_batches == old(db).acknowledged_batches,
            final(db).transactions_to_sign == old(db).transactions_to_sign,
            final(db).completed_eventualities == old(db).completed_eventualities,
            SignerDb::rows_eq(*final(db), *old(db)),
            final(db).to_cleanup@ == old(db).to_cleanup@,
    {
        let s = self.session.0;
        let ghost intent_g = db.to_cosign.spec_get(s);
        let ghost fresh_g = match (intent_g, db.latest_cosigned.spec_get(s)) {
            (Some(c), Some(l)) => l < c.block_number,
            (Some(_), None) => true,
            _ => false,
        };
        let ghost target_g = if fresh_g {
            intent_g
        } else {
            old(self).spec_current_cosign()
        };
        let ghost out0 = db.cosigner_to_coordinator_messages.sent_of(s);
        let mut progressed = false;
        let ghost mut retired_block: Option<u64> = None;

        // Check the cosign to work on.
        let intent: Option<Cosign> = match db.to_cosign.get(s) {
            Some(c) => Some(*c),
            None => None,
        };
        match intent {
            Some(cosign) => {
                let newer = match db.latest_cosigned.get(s) {
                    Some(l) => *l < cosign.block_number,
                    None => true,
                };
                if newer {
                    let same = match &self.current_cosign {
                        Some(cur) => cur.block_number == cosign.block_number
                            && crate::ids::bytes32_eq(&cur.block_hash, &cosign.block_hash),
                        None => false,
                    };
                    if same {
                        proof {
                            assert(self.current_cosign == Some(cosign));
                        }
                    } else {
                        // Retire the superseded cosign's protocol instance.
                        match &self.current_cosign {
                            Some(cur) => {
                                let old_id = VariantSignId::Cosign(cur.block_number);
                                self.attempt_manager.retire(&old_id);
                                proof {
                                    self.attempt_manager.lemma_inactive_none(old_id);
                                    if cur.block_number != cosign.block_number {
                                        retired_block = Some(cur.block_number);
                                    }
                                }
                            }
                            None => {}
                        }
                        // Adopt the fresh cosign and open its protocol.
                        self.current_cosign = Some(cosign);
                        let id = VariantSignId::Cosign(cosign.block_number);
                        let body = crate::messages::coordinator::cosign_block_msg(
                            cosign.block_number,
                            cosign.block_hash,
                        );
                        let machines = self.keys.machines(&body);
                        if machines.len() >= 1 && !self.attempt_manager.is_active(&id)
                            && !self.attempt_manager.was_completed(&id) {
                            let msgs = self.attempt_manager.register(id, machines);
                            proof {
                                assert(msgs@[0] is Preprocesses);
                                assert(match msgs@[0] {
                                    ProcessorMessage::Preprocesses { id: rid, .. } => rid
                                        == (SignId {
                                        session: old(self).spec_session(),
                                        id: VariantSignId::Cosign(cosign.block_number),
                                        attempt: 0u32,
                                    }),
                                    _ => false,
                                });
                            }
                            forward_to_coordinator(db, s, msgs);
                            proof {
                                assert(db.cosigner_to_coordinator_messages.sent_of(s)[out0.len() as int]
                                    == msgs@[0]);
                            }
                            progressed = true;
                        }
                    }
                }
            }
            None => {}
        }
        proof {
            assert(self.current_cosign == target_g || self.current_cosign is None);
        }
        let ghost opened = match intent_g {
            Some(c) => self.attempt_manager.has_active(VariantSignId::Cosign(c.block_number)),
            None => false,
        };
        let ghost out1 = db.cosigner_to_coordinator_messages.sent_of(s);

        // Handle any messages sent to us.
        let ghost base_sent = db.cosign.sent_of(s);
        let ghost lc0 = db.latest_cosigned.spec_get(s);
        let ghost mut appended: Seq<SignedCosign> = Seq::empty();
        let ghost has_target = target_g is Some;
        let ghost target_c: Cosign = match target_g {
            Some(c) => c,
            None => vstd::pervasive::arbitrary(),
        };
        proof {
            assert(db.cosign.sent_of(s) =~= base_sent + appended);
        }
        loop
            invariant
                self.wf(),
                db.wf(),
                self.session.0 == s,
                self.session == old(self).spec_session(),
                self.current_cosign == target_g || self.current_cosign is None,
                fresh_g ==> self.current_cosign == target_g || appended.len() == 1,
                match self.current_cosign {
                    Some(c) => match db.latest_cosigned.spec_get(s) {
                        Some(l) => l < c.block_number,
                        None => true,
                    },
                    None => true,
                },
                match (lc0, db.latest_cosigned.spec_get(s)) {
                    (Some(l), Some(l2)) => l <= l2,
                    (Some(_), None) => false,
                    (None, _) => true,
                },
                db.cosign.sent_of(s) == base_sent + appended,
                appended.len() == 0 || (appended.len() == 1 && self.current_cosign is None),
                has_target == (target_g is Some),
                has_target ==> target_g == Some(target_c),
                !has_target ==> appended.len() == 0,
                forall|k: int|
                    0 <= k < appended.len() ==> (#[trigger] appended[k]).cosign == target_c,
                appended.len() == 0 ==> db.latest_cosigned.spec_get(s) == lc0,
                appended.len() == 1 ==> db.latest_cosigned.spec_get(s) == Some(
                    target_c.block_number,
                ),
                forall|k2: u32| #![auto]
                    k2 != s ==> db.cosign.sent_of(k2) == old(db).cosign.sent_of(k2)
                        && db.cosign.received_of(k2) == old(db).cosign.received_of(k2)
                        && db.latest_cosigned.spec_get(k2) == old(db).latest_cosigned.spec_get(
                        k2,
                    ),
                db.cosign.received_of(s) == old(db).cosign.received_of(s),
                out1.is_prefix_of(db.cosigner_to_coordinator_messages.sent_of(s)),
                out0.is_prefix_of(out1),
                forall|n: u64|
                    (old(self).spec_cosign_phase(n) != Some(
                        crate::attempt::Phase::AwaitingShares,
                    ) && #[trigger] self.spec_cosign_phase(n) == Some(
                        crate::attempt::Phase::AwaitingShares,
                    )) ==> outbound_has_shares(
                        db.cosigner_to_coordinator_messages.sent_of(s),
                        out0.len() as int,
                        old(self).spec_session(),
                        n,
                    ),
                forall|n: u64|
                    (old(self).spec_cosign_phase(n) != Some(crate::attempt::Phase::Terminated)
                        && #[trigger] self.spec_cosign_phase(n) == Some(
                        crate::attempt::Phase::Terminated,
                    )) ==> outbound_has_blame(
                        db.cosigner_to_coordinator_messages.sent_of(s),
                        out0.len() as int,
                        old(self).spec_session(),
                    ),
                forall|n: u64|
                    (match (
                        old(self).spec_cosign_attempt(n),
                        #[trigger] self.spec_cosign_attempt(n),
                    ) {
                        (Some(a0), Some(a)) => a > a0 ==> outbound_has_preprocesses(
                            db.cosigner_to_coordinator_messages.sent_of(s),
                            out0.len() as int,
                            old(self).spec_session(),
                            n,
                            a,
                        ),
                        _ => true,
                    }),
                db.cosigner_to_coordinator_messages.received_of(s) == old(db).cosigner_to_coordinator_messages.received_of(s),
                forall|k2: u32| #![auto]
                    k2 != s ==> db.cosigner_to_coordinator_messages.sent_of(k2) == old(db).cosigner_to_coordinator_messages.sent_of(k2)
                        && db.cosigner_to_coordinator_messages.received_of(k2) == old(db).cosigner_to_coordinator_messages.received_of(k2),
                match retired_block {
                    Some(b) => !self.attempt_manager.has_active(VariantSignId::Cosign(b)),
                    None => true,
                },
                match intent_g {
                    Some(c) => self.attempt_manager.has_active(
                        VariantSignId::Cosign(c.block_number),
                    ) ==> opened,
                    None => true,
                },
                db.to_cosign == old(db).to_cosign,
                db.slash_report == old(db).slash_report,
                db.coordinator_to_batch_signer_messages == old(db).coordinator_to_batch_signer_messages,
                db.coordinator_to_slash_report_signer_messages == old(db).coordinator_to_slash_report_signer_messages,
                db.coordinator_to_transaction_signer_messages == old(db).coordinator_to_transaction_signer_messages,
                db.batch_signer_to_coordinator_messages == old(db).batch_signer_to_coordinator_messages,
                db.slash_report_signer_to_coordinator_messages == old(db).slash_report_signer_to_coordinator_messages,
                db.transaction_signer_to_coordinator_messages == old(db).transaction_signer_to_coordinator_messages,
                db.batches_to_sign == old(db).batches_to_sign,
                db.acknowledged_batches == old(db).acknowledged_batches,
                db.transactions_to_sign == old(db).transactions_to_sign,
                db.completed_eventualities == old(db).completed_eventualities,
                SignerDb::rows_eq(*db, *old(db)),
                db.to_cleanup@ == old(db).to_cleanup@,
            ensures
                db.coordinator_to_cosigner_messages.pending_of(s).len() == 0,
            decreases db.coordinator_to_cosigner_messages.pending_of(s).len(),
        {
            let msg = match db.coordinator_to_cosigner_messages.try_recv(s) {
                Some(m) => m,
                None => {
                    break ;
                }
            };
            progressed = true;
            let ghost self0 = *self;
            let ghost outp = db.cosigner_to_coordinator_messages.sent_of(s);
            let resp = self.attempt_manager.handle(&msg);
            match resp {
                Response::Messages(msgs) => {
                    let ghost msgs_g = msgs@;
                    forward_to_coordinator(db, s, msgs);
                    proof {
                        let ghost sid = msg.spec_sign_id();
                        let ghost ses = old(self).spec_session();
                        let ghost cur_out = db.cosigner_to_coordinator_messages.sent_of(s);
                        let ghost lo = out0.len() as int;
                        assert(cur_out == outp + msgs_g);
                        assert(out0.len() <= outp.len());
                        assert forall|n: u64|
                            (old(self).spec_cosign_phase(n) != Some(
                                crate::attempt::Phase::AwaitingShares,
                            ) && #[trigger] self.spec_cosign_phase(n) == Some(
                                crate::attempt::Phase::AwaitingShares,
                            )) implies outbound_has_shares(cur_out, lo, ses, n) by {
                            let vid = VariantSignId::Cosign(n);
                            if self0.spec_cosign_phase(n) == Some(
                                crate::attempt::Phase::AwaitingShares,
                            ) {
                                // The round advanced in an earlier step; the
                                // witness stands below the appended tail.
                                let k = choose|k: int|
                                    lo <= k < outp.len() && (match #[trigger] outp[k] {
                                        ProcessorMessage::Shares { id, .. } => id.session == ses
                                            && id.id == VariantSignId::Cosign(n),
                                        _ => false,
                                    });
                                assert(cur_out[k] == outp[k]);
                            } else {
                                // The round advanced in this very call.
                                assert(vid == sid.id);
                                assert(msgs_g.len() == 1 && (match msgs_g[0] {
                                    ProcessorMessage::Shares { id, .. } => id == sid,
                                    _ => false,
                                }));
                                assert(sid.session == ses);
                                assert(cur_out[outp.len() as int] == msgs_g[0]);
                                assert(lo <= outp.len() < cur_out.len());
                            }
                        }
                        assert forall|n: u64|
                            (old(self).spec_cosign_phase(n) != Some(
                                crate::attempt::Phase::Terminated,
                            ) && #[trigger] self.spec_cosign_phase(n) == Some(
                                crate::attempt::Phase::Terminated,
                            )) implies outbound_has_blame(cur_out, lo, ses) by {
                            let vid = VariantSignId::Cosign(n);
                            if self0.spec_cosign_phase(n) == Some(
                                crate::attempt::Phase::Terminated,
                            ) {
                                let k = choose|k: int|
                                    lo <= k < outp.len() && (match #[trigger] outp[k] {
                                        ProcessorMessage::InvalidParticipant {
                                            session: s2,
                                            ..
                                        } => s2 == ses,
                                        _ => false,
                                    });
                                assert(cur_out[k] == outp[k]);
                            } else {
                                assert(vid == sid.id);
                                assert(msgs_g.len() == 1 && msgs_g[0] is InvalidParticipant);
                                assert(match msgs_g[0] {
                                    ProcessorMessage::InvalidParticipant { session: s2, .. } => s2
                                        == ses,
                                    _ => false,
                                });
                                assert(cur_out[outp.len() as int] == msgs_g[0]);
                                assert(lo <= outp.len() < cur_out.len());
                            }
                        }
                        assert forall|n: u64|
                            (match (
                                old(self).spec_cosign_attempt(n),
                                #[trigger] self.spec_cosign_attempt(n),
                            ) {
                                (Some(a0), Some(a)) => a > a0,
                                _ => false,
                            }) implies (match self.spec_cosign_attempt(n) {
                            Some(a) => outbound_has_preprocesses(cur_out, lo, ses, n, a),
                            None => false,
                        }) by {
                            let vid = VariantSignId::Cosign(n);
                            if vid != sid.id {
                                assert(crate::attempt::AttemptManager::state_eq_at(
                                    self.attempt_manager,
                                    self0.attempt_manager,
                                    vid,
                                ));
                            }
                            if self0.spec_cosign_attempt(n) == self.spec_cosign_attempt(n) {
                                // The re-attempt was adopted in an earlier
                                // step; the witness stands below the tail.
                                let a = self.spec_cosign_attempt(n)->0;
                                let k = choose|k: int|
                                    lo <= k < outp.len() && (match #[trigger] outp[k] {
                                        ProcessorMessage::Preprocesses { id, .. } => id.session
                                            == ses && id.id == VariantSignId::Cosign(n)
                                            && id.attempt == a,
                                        _ => false,
                                    });
                                assert(cur_out[k] == outp[k]);
                            } else {
                                // The re-attempt was adopted in this call.
                                assert(vid == sid.id);
                                assert(self.spec_cosign_attempt(n) == Some(sid.attempt));
                                assert(msgs_g.len() == 1 && (match msgs_g[0] {
                                    ProcessorMessage::Preprocesses { id: rid, .. } => rid == sid,
                                    _ => false,
                                }));
                                assert(sid.session == ses);
                                assert(cur_out[outp.len() as int] == msgs_g[0]);
                                assert(lo <= outp.len() < cur_out.len());
                            }
                        }
                    }
                }
                Response::Signature { id, signature } => {
                    proof {
                        self.attempt_manager.lemma_inactive_none(id);
                        assert forall|n: u64|
                            #[trigger] self.spec_cosign_phase(n) != self0.spec_cosign_phase(n)
                            implies self.spec_cosign_phase(n) is None by {
                            if VariantSignId::Cosign(n) != id {
                                assert(crate::attempt::AttemptManager::state_eq_at(
                                    self.attempt_manager,
                                    self0.attempt_manager,
                                    VariantSignId::Cosign(n),
                                ));
                            }
                        }
                        assert forall|n: u64|
                            #[trigger] self.spec_cosign_attempt(n) != self0.spec_cosign_attempt(n)
                            implies self.spec_cosign_attempt(n) is None by {
                            if VariantSignId::Cosign(n) != id {
                                assert(crate::attempt::AttemptManager::state_eq_at(
                                    self.attempt_manager,
                                    self0.attempt_manager,
                                    VariantSignId::Cosign(n),
                                ));
                            }
                        }
                    }
                    match (id, &self.current_cosign) {
                        (VariantSignId::Cosign(block_number), Some(cur)) => {
                            if cur.block_number == block_number {
                                let cur = *cur;
                                proof {
                                    assert(target_g == Some(cur));
                                }
                                db.latest_cosigned.set(s, cur.block_number);
                                let sc = SignedCosign { cosign: cur, signature };
                                let ghost scg = sc;
                                db.cosign.send(s, sc);
                                proof {
                                    assert(target_g == Some(cur));
                                    appended = appended.push(scg);
                                    assert(db.cosign.sent_of(s) =~= base_sent + appended);
                                    assert forall|k: int|
                                        0 <= k < appended.len() implies (#[trigger] appended[k])
                                        .cosign == target_c by {
                                        if k == appended.len() - 1 {
                                            assert(appended[k] == scg);
                                        }
                                    }
                                }
                                self.current_cosign = None;
                            }
                        }
                        _ => {}
                    }
                }
            }
        }
        proof {
            assert forall|k: int|
                0 <= k < out1.len() implies #[trigger] db.cosigner_to_coordinator_messages.sent_of(
                s,
            )[k] == out1[k] by {
                assert(out1 =~= db.cosigner_to_coordinator_messages.sent_of(s).subrange(
                    0,
                    out1.len() as int,
                ));
            }
            assert(base_sent == old(db).cosign.sent_of(s));
            assert forall|k: int|
                base_sent.len() <= k < db.cosign.sent_of(s).len() implies (match target_g {
                Some(c) => (#[trigger] db.cosign.sent_of(s)[k]).cosign == c,
                None => false,
            }) by {
                assert(db.cosign.sent_of(s)[k] == appended[k - base_sent.len()]);
            }
            assert forall|k: int|
                0 <= k < base_sent.len() implies #[trigger] db.cosign.sent_of(s)[k]
                == base_sent[k] by {
                assert(db.cosign.sent_of(s)[k] == (base_sent + appended)[k]);
            }
        }
        progressed
    }
}

} // verus!
