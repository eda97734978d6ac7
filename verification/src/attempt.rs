//! The attempt manager: multiplexes concurrent threshold signing protocols
//! by artifact identity, drives each through its preprocess and share
//! rounds, assigns blame on faulty contributions, and supersedes stale
//! attempts.
//!
//! Two laws govern it, both carried by the contract of `handle`:
//! - at most one signature is ever emitted per artifact identity: a
//!   signature marks the identity completed, completion is never unmade, and
//!   a completed identity can never yield another signature;
//! - a re-attempt strictly raises the attempt number, and a signature only
//!   arises from shares carrying the current attempt number, so no
//!   signature for a superseded attempt is ever produced.

use vstd::prelude::*;

use crate::ids::{Participant, Session, SignId, VariantSignId};
use crate::keyed::{ExecKey, KeyedStore};
use crate::messages::sign::{CoordinatorMessage, ProcessorMessage};

verus! {

impl ExecKey for VariantSignId {
    fn key_eq(&self, other: &Self) -> (r: bool)
        ensures
            r == (*self == *other),
    {
        self.eq_id(other)
    }
}

/// What the manager hands back from an operation.
#[derive(Clone, PartialEq, Eq, Debug)]
pub enum Response {
    /// Messages to broadcast to the other participants.
    Messages(Vec<ProcessorMessage>),
    /// The aggregate signature completing the protocol for this identity.
    Signature { id: VariantSignId, signature: Vec<u8> },
}

/// One machine advancing a threshold signing protocol for one local key
/// share. The cryptography lives behind this trait; implementations supply
/// it, and the manager's guarantees hold for every implementation.
pub trait SignMachine: Sized {
    /// Produce our preprocess for a fresh attempt.
    fn preprocess(&mut self) -> Vec<u8>;

    /// Produce our share from the selected preprocesses, or name the
    /// participant whose preprocess failed to parse or validate.
    fn shares(&mut self, preprocesses: &Vec<(Participant, Vec<u8>)>) -> Result<Vec<u8>, Participant>;

    /// Aggregate the selected shares into a signature, or name the
    /// participant whose share failed verification.
    fn complete(&mut self, shares: &Vec<(Participant, Vec<u8>)>) -> Result<Vec<u8>, Participant>;
}

/// The round a protocol instance is in.
#[derive(Clone, Copy, PartialEq, Eq, Structural, Debug)]
pub enum Phase {
    AwaitingPreprocesses,
    AwaitingShares,
    /// A participant was blamed; the attempt is dead until a re-attempt.
    Terminated,
}

/// The participants of a list of contributions, in delivery order.
pub open spec fn participants_view(s: Seq<(Participant, Vec<u8>)>) -> Seq<Participant> {
    Seq::new(s.len(), |i: int| s[i].0)
}

/// Whether a participant list names one.
pub open spec fn participants_contain(s: Seq<Participant>, p: Participant) -> bool {
    exists|i: int| 0 <= i < s.len() && s[i] == p
}

/// Contributions merged in delivery order: each incoming participant joins
/// the list once, the first time it appears.
pub open spec fn merge_participants(acc: Seq<Participant>, incoming: Seq<Participant>) -> Seq<
    Participant,
>
    decreases incoming.len(),
{
    if incoming.len() == 0 {
        acc
    } else {
        let acc2 = if participants_contain(acc, incoming[0]) {
            acc
        } else {
            acc.push(incoming[0])
        };
        merge_participants(acc2, incoming.skip(1))
    }
}

/// The state of one protocol instance.
struct SignState<M> {
    attempt: u32,
    phase: Phase,
    machines: Vec<M>,
    preprocesses: Vec<(Participant, Vec<u8>)>,
    shares: Vec<(Participant, Vec<u8>)>,
}

/// Whether a list of contributions already names a participant.
fn contributions_contain(list: &Vec<(Participant, Vec<u8>)>, p: Participant) -> (r: bool)
    ensures
        r == exists|i: int| 0 <= i < list@.len() && list@[i].0 == p,
{
    let mut i: usize = 0;
    while i < list.len()
        invariant
            i <= list@.len(),
            forall|j: int| 0 <= j < i ==> list@[j].0 != p,
        decreases list@.len() - i,
    {
        if list[i].0.0 == p.0 {
            return true;
        }
        i += 1;
    }
    false
}

/// Whether a sequence of identities contains one.
pub open spec fn contains_id(s: Seq<VariantSignId>, id: VariantSignId) -> bool {
    exists|i: int| 0 <= i < s.len() && s[i] == id
}

/// Pushing an identity marks it contained and leaves the rest as they were.
proof fn lemma_contains_push(s: Seq<VariantSignId>, x: VariantSignId)
    ensures
        contains_id(s.push(x), x),
        forall|i2: VariantSignId| #![auto] i2 != x ==> contains_id(s.push(x), i2) == contains_id(s, i2),
        forall|i2: VariantSignId| #![auto] contains_id(s, i2) ==> contains_id(s.push(x), i2),
{
    assert(s.push(x)[s.len() as int] == x);
    assert forall|i2: VariantSignId| #![auto] contains_id(s, i2) implies contains_id(
        s.push(x),
        i2,
    ) by {
        let w = choose|i: int| 0 <= i < s.len() && s[i] == i2;
        assert(s.push(x)[w] == i2);
    }
    assert forall|i2: VariantSignId| i2 != x && contains_id(s.push(x), i2) implies contains_id(
        s,
        i2,
    ) by {
        let w = choose|i: int| 0 <= i < s.push(x).len() && s.push(x)[i] == i2;
        assert(w < s.len());
        assert(s[w] == i2);
    }
}

/// The attempt manager for one session of one signer task.
pub struct AttemptManager<M> {
    session: Session,
    threshold: usize,
    active: KeyedStore<VariantSignId, SignState<M>>,
    completed: Vec<VariantSignId>,
}

impl<M: SignMachine> AttemptManager<M> {
    /// The session this manager signs for.
    pub closed spec fn spec_session(self) -> Session {
        self.session
    }

    /// How many contributions complete a round.
    pub closed spec fn spec_threshold(self) -> usize {
        self.threshold
    }

    /// The manager's invariant: unique identities, a positive threshold, and
    /// at least one machine per active instance.
    pub closed spec fn wf(self) -> bool {
        &&& self.active.wf()
        &&& self.threshold >= 1
        &&& forall|i2: VariantSignId|
            match #[trigger] self.active.spec_get(i2) {
                Some(st) => st.machines@.len() >= 1,
                None => true,
            }
    }

    /// Whether a signature was already emitted for this identity.
    pub closed spec fn is_completed(self, id: VariantSignId) -> bool {
        contains_id(self.completed@, id)
    }

    /// Whether a protocol instance is registered for this identity.
    pub closed spec fn has_active(self, id: VariantSignId) -> bool {
        self.active.spec_get(id) is Some
    }

    /// The current attempt number of an identity's instance, if registered.
    pub closed spec fn attempt_of(self, id: VariantSignId) -> Option<u32> {
        match self.active.spec_get(id) {
            Some(st) => Some(st.attempt),
            None => None,
        }
    }

    /// The round an identity's instance is in, if registered.
    pub closed spec fn phase_of(self, id: VariantSignId) -> Option<Phase> {
        match self.active.spec_get(id) {
            Some(st) => Some(st.phase),
            None => None,
        }
    }

    /// How many local machines an identity's instance drives.
    pub closed spec fn machines_len_of(self, id: VariantSignId) -> nat {
        match self.active.spec_get(id) {
            Some(st) => st.machines@.len(),
            None => 0,
        }
    }

    /// The participants whose preprocesses an instance holds, in delivery
    /// order.
    pub closed spec fn preprocess_participants(self, id: VariantSignId) -> Seq<Participant> {
        match self.active.spec_get(id) {
            Some(st) => participants_view(st.preprocesses@),
            None => Seq::empty(),
        }
    }

    /// The participants whose shares an instance holds, in delivery order.
    pub closed spec fn share_participants(self, id: VariantSignId) -> Seq<Participant> {
        match self.active.spec_get(id) {
            Some(st) => participants_view(st.shares@),
            None => Seq::empty(),
        }
    }

    /// One identity's whole observable state agrees in two manager states.
    pub open spec fn state_eq_at(a: Self, b: Self, id: VariantSignId) -> bool {
        &&& a.has_active(id) == b.has_active(id)
        &&& a.attempt_of(id) == b.attempt_of(id)
        &&& a.phase_of(id) == b.phase_of(id)
        &&& a.machines_len_of(id) == b.machines_len_of(id)
        &&& a.preprocess_participants(id) == b.preprocess_participants(id)
        &&& a.share_participants(id) == b.share_participants(id)
        &&& a.is_completed(id) == b.is_completed(id)
    }

    /// An identity without a registered instance has no attempt and no
    /// round.
    pub proof fn lemma_inactive_none(self, id: VariantSignId)
        requires
            !self.has_active(id),
        ensures
            self.attempt_of(id) is None,
            self.phase_of(id) is None,
    {
    }

    /// Decide whether this identity was completed.
    fn completed_contains(&self, id: &VariantSignId) -> (r: bool)
        ensures
            r == self.is_completed(*id),
    {
        let mut i: usize = 0;
        while i < self.completed.len()
            invariant
                i <= self.completed@.len(),
                forall|j: int| 0 <= j < i ==> self.completed@[j] != *id,
            decreases self.completed@.len() - i,
        {
            if self.completed[i].eq_id(id) {
                return true;
            }
            i += 1;
        }
        false
    }

    /// Decide whether an instance is registered for this identity.
    pub fn is_active(&self, id: &VariantSignId) -> (r: bool)
        requires
            self.wf(),
        ensures
            r == self.has_active(*id),
    {
        self.active.contains(*id)
    }

    /// Decide whether a signature was already emitted for this identity.
    pub fn was_completed(&self, id: &VariantSignId) -> (r: bool)
        ensures
            r == self.is_completed(*id),
    {
        self.completed_contains(id)
    }

    /// Create a manager with nothing registered and nothing completed.
    pub fn new(session: Session, threshold: usize) -> (r: AttemptManager<M>)
        requires
            threshold >= 1,
        ensures
            r.wf(),
            r.spec_session() == session,
            r.spec_threshold() == threshold,
            forall|i2: VariantSignId| !r.has_active(i2),
            forall|i2: VariantSignId| !r.is_completed(i2),
    {
        AttemptManager {
            session,
            threshold,
            active: KeyedStore::new(),
            completed: Vec::new(),
        }
    }

    /// Register a protocol instance for attempt zero, returning our
    /// preprocess message to broadcast.
    pub fn register(&mut self, id: VariantSignId, machines: Vec<M>) -> (r: Vec<ProcessorMessage>)
        requires
            old(self).wf(),
            !old(self).has_active(id),
            !old(self).is_completed(id),
            machines@.len() >= 1,
        ensures
            final(self).wf(),
            final(self).spec_session() == old(self).spec_session(),
            final(self).spec_threshold() == old(self).spec_threshold(),
            final(self).has_active(id),
            final(self).attempt_of(id) == Some(0u32),
            final(self).phase_of(id) == Some(Phase::AwaitingPreprocesses),
            final(self).machines_len_of(id) == machines@.len(),
            final(self).preprocess_participants(id) == Seq::<Participant>::empty(),
            final(self).share_participants(id) == Seq::<Participant>::empty(),
            forall|i2: VariantSignId| i2 != id ==> final(self).has_active(i2) == old(
                self,
            ).has_active(i2),
            forall|i2: VariantSignId| i2 != id ==> final(self).attempt_of(i2) == old(
                self,
            ).attempt_of(i2),
            forall|i2: VariantSignId| i2 != id ==> final(self).phase_of(i2) == old(
                self,
            ).phase_of(i2),
            forall|i2: VariantSignId|
                i2 != id ==> #[trigger] Self::state_eq_at(*final(self), *old(self), i2),
            forall|i2: VariantSignId| final(self).is_completed(i2) == old(self).is_completed(i2),
            r@.len() == 1,
            r@[0] matches ProcessorMessage::Preprocesses { id: sid, preprocesses } ==> sid
                == (SignId { session: old(self).spec_session(), id, attempt: 0u32 })
                && preprocesses@.len() == machines@.len(),
            r@[0] is Preprocesses,
    {
        let mut machines = machines;
        let mut blobs: Vec<Vec<u8>> = Vec::new();
        let n = machines.len();
        let mut i: usize = 0;
        while i < n
            invariant
                machines@.len() == n,
                blobs@.len() == i,
                i <= n,
            decreases n - i,
        {
            let m = &mut machines[i];
            let blob = m.preprocess();
            blobs.push(blob);
            i += 1;
        }
        let st = SignState {
            attempt: 0,
            phase: Phase::AwaitingPreprocesses,
            machines,
            preprocesses: Vec::new(),
            shares: Vec::new(),
        };
        self.active.set(id, st);
        let sid = SignId { session: self.session, id, attempt: 0 };
        let mut r: Vec<ProcessorMessage> = Vec::new();
        r.push(ProcessorMessage::Preprocesses { id: sid, preprocesses: blobs });
        r
    }

    /// Drop the instance registered for an identity, if any. Completion
    /// marks are kept: retiring never re-opens an identity.
    pub fn retire(&mut self, id: &VariantSignId)
        requires
            old(self).wf(),
        ensures
            final(self).wf(),
            final(self).spec_session() == old(self).spec_session(),
            final(self).spec_threshold() == old(self).spec_threshold(),
            !final(self).has_active(*id),
            forall|i2: VariantSignId| i2 != *id ==> final(self).has_active(i2) == old(
                self,
            ).has_active(i2),
            forall|i2: VariantSignId| i2 != *id ==> final(self).attempt_of(i2) == old(
                self,
            ).attempt_of(i2),
            forall|i2: VariantSignId| i2 != *id ==> final(self).phase_of(i2) == old(
                self,
            ).phase_of(i2),
            forall|i2: VariantSignId|
                i2 != *id ==> #[trigger] Self::state_eq_at(*final(self), *old(self), i2),
            forall|i2: VariantSignId| final(self).is_completed(i2) == old(self).is_completed(i2),
    {
        let _ = self.active.remove(*id);
    }

    /// Handle a coordinator message for one of our protocol instances.
    ///
    /// Messages for another session, an unknown or completed identity, or a
    /// stale attempt are dropped. A faulty contribution terminates the
    /// attempt and names the participant. Threshold shares at the current
    /// attempt complete the instance, exactly once, forever.
    pub fn handle(&mut self, msg: &CoordinatorMessage) -> (r: Response)
        requires
            old(self).wf(),
        ensures
            final(self).wf(),
            final(self).spec_session() == old(self).spec_session(),
            final(self).spec_threshold() == old(self).spec_threshold(),
            // Completion is monotone: nothing completed is ever unmade.
            forall|i2: VariantSignId|
                old(self).is_completed(i2) ==> final(self).is_completed(i2),
            // A fresh completion happens only for the identity whose
            // signature is being returned.
            forall|i2: VariantSignId|
                final(self).is_completed(i2) && !old(self).is_completed(i2) ==> (
                r matches Response::Signature { id: rid, .. } && rid == i2),
            // A signature comes only from threshold shares, for the
            // message's own identity, in this session, at the instance's
            // current attempt, for an identity never completed before; it
            // completes the identity and releases its state.
            r matches Response::Signature { id: rid, .. } ==> {
                &&& msg is Shares
                &&& msg.spec_sign_id().session == old(self).spec_session()
                &&& msg.spec_sign_id().id == rid
                &&& old(self).attempt_of(rid) == Some(msg.spec_sign_id().attempt)
                &&& !old(self).is_completed(rid)
                &&& final(self).is_completed(rid)
                &&& !final(self).has_active(rid)
            },
            // No instance appears out of nowhere, and attempts never move
            // backwards.
            forall|i2: VariantSignId| #![auto]
                final(self).has_active(i2) ==> old(self).has_active(i2) && (match (
                    old(self).attempt_of(i2),
                    final(self).attempt_of(i2),
                ) {
                    (Some(a), Some(b)) => a <= b,
                    _ => false,
                }),
            // Blame is only ever assigned in our own session's name.
            (match r {
                Response::Messages(msgs) => forall|k: int|
                    0 <= k < msgs@.len() ==> (match #[trigger] msgs@[k] {
                        ProcessorMessage::InvalidParticipant { session, .. } => session == old(
                            self,
                        ).spec_session(),
                        _ => true,
                    }),
                Response::Signature { .. } => true,
            }),
            // A re-attempt with a higher number supersedes the instance's
            // prior rounds and adopts the new attempt number.
            (msg matches CoordinatorMessage::Reattempt { id } && id.session == old(
                self,
            ).spec_session() && old(self).has_active(id.id) && !old(self).is_completed(id.id)
                && (match old(self).attempt_of(id.id) {
                    Some(a) => id.attempt > a,
                    None => false,
                })) ==> final(self).attempt_of(msg.spec_sign_id().id) == Some(
                msg.spec_sign_id().attempt,
            ),
            // Every other identity's state is untouched.
            forall|i2: VariantSignId| #![auto]
                i2 != msg.spec_sign_id().id ==> final(self).phase_of(i2) == old(self).phase_of(i2),
            forall|i2: VariantSignId|
                i2 != msg.spec_sign_id().id ==> #[trigger] Self::state_eq_at(
                    *final(self),
                    *old(self),
                    i2,
                ),
            // What each kind of message is owed, whatever the machines
            // return: a message the manager does not accept changes nothing
            // and answers nothing; an accepted re-attempt answers exactly
            // one preprocess message with one blob per machine; accepted
            // contributions merge in delivery order, and reaching the
            // threshold forces the round forward with exactly one shares
            // message, one blame, or the signature.
            ({
                let sid = msg.spec_sign_id();
                let relevant = sid.session == old(self).spec_session() && old(self).has_active(
                    sid.id,
                ) && !old(self).is_completed(sid.id);
                let accepted = match *msg {
                    CoordinatorMessage::Preprocesses { .. } => relevant && old(self).attempt_of(
                        sid.id,
                    ) == Some(sid.attempt) && old(self).phase_of(sid.id) == Some(
                        Phase::AwaitingPreprocesses,
                    ),
                    CoordinatorMessage::Shares { .. } => relevant && old(self).attempt_of(sid.id)
                        == Some(sid.attempt) && old(self).phase_of(sid.id) == Some(
                        Phase::AwaitingShares,
                    ),
                    CoordinatorMessage::Reattempt { .. } => relevant && (match old(
                        self,
                    ).attempt_of(sid.id) {
                        Some(a) => sid.attempt > a,
                        None => false,
                    }),
                };
                let threshold = old(self).spec_threshold() as int;
                &&& (!accepted ==> Self::state_eq_at(*final(self), *old(self), sid.id) && (
                match r {
                    Response::Messages(m) => m@.len() == 0,
                    _ => false,
                }))
                &&& ((accepted && msg is Reattempt) ==> {
                    &&& final(self).phase_of(sid.id) == Some(Phase::AwaitingPreprocesses)
                    &&& final(self).machines_len_of(sid.id) == old(self).machines_len_of(sid.id)
                    &&& final(self).preprocess_participants(sid.id) == Seq::<Participant>::empty()
                    &&& final(self).share_participants(sid.id) == Seq::<Participant>::empty()
                    &&& (match r {
                        Response::Messages(m) => m@.len() == 1 && (match m@[0] {
                            ProcessorMessage::Preprocesses { id: rid, preprocesses: blobs } => rid
                                == sid && blobs@.len() == old(self).machines_len_of(sid.id),
                            _ => false,
                        }),
                        _ => false,
                    })
                })
                &&& (match *msg {
                    CoordinatorMessage::Preprocesses { preprocesses: contribs, .. } => accepted
                        ==> {
                        let merged = merge_participants(
                            old(self).preprocess_participants(sid.id),
                            participants_view(contribs@),
                        );
                        ||| {
                            &&& merged.len() < threshold
                            &&& final(self).preprocess_participants(sid.id) == merged
                            &&& final(self).phase_of(sid.id) == Some(Phase::AwaitingPreprocesses)
                            &&& final(self).attempt_of(sid.id) == old(self).attempt_of(sid.id)
                            &&& (match r {
                                Response::Messages(m) => m@.len() == 0,
                                _ => false,
                            })
                        }
                        ||| {
                            &&& merged.len() >= threshold
                            &&& final(self).preprocess_participants(sid.id) == merged.take(
                                threshold,
                            )
                            &&& final(self).attempt_of(sid.id) == old(self).attempt_of(sid.id)
                            &&& {
                                ||| {
                                    &&& final(self).phase_of(sid.id) == Some(
                                        Phase::AwaitingShares,
                                    )
                                    &&& (match r {
                                        Response::Messages(m) => m@.len() == 1 && (match m@[0] {
                                            ProcessorMessage::Shares {
                                                id: rid,
                                                shares: blobs,
                                            } => rid == sid && blobs@.len() == old(
                                                self,
                                            ).machines_len_of(sid.id),
                                            _ => false,
                                        }),
                                        _ => false,
                                    })
                                }
                                ||| {
                                    &&& final(self).phase_of(sid.id) == Some(Phase::Terminated)
                                    &&& (match r {
                                        Response::Messages(m) => m@.len() == 1 && m@[0]
                                            is InvalidParticipant,
                                        _ => false,
                                    })
                                }
                            }
                        }
                    },
                    CoordinatorMessage::Shares { shares: contribs, .. } => accepted ==> {
                        let merged = merge_participants(
                            old(self).share_participants(sid.id),
                            participants_view(contribs@),
                        );
                        ||| {
                            &&& merged.len() < threshold
                            &&& final(self).share_participants(sid.id) == merged
                            &&& final(self).phase_of(sid.id) == Some(Phase::AwaitingShares)
                            &&& final(self).attempt_of(sid.id) == old(self).attempt_of(sid.id)
                            &&& (match r {
                                Response::Messages(m) => m@.len() == 0,
                                _ => false,
                            })
                        }
                        ||| {
                            &&& merged.len() >= threshold
                            &&& (match r {
                                Response::Signature { id: rid, .. } => rid == sid.id,
                                Response::Messages(m) => {
                                    &&& m@.len() == 1
                                    &&& m@[0] is InvalidParticipant
                                    &&& final(self).phase_of(sid.id) == Some(Phase::Terminated)
                                    &&& final(self).share_participants(sid.id) == merged.take(
                                        threshold,
                                    )
                                    &&& final(self).attempt_of(sid.id) == old(self).attempt_of(
                                        sid.id,
                                    )
                                },
                            })
                        }
                    },
                    CoordinatorMessage::Reattempt { .. } => true,
                })
            }),
    {
        let sid: SignId = *msg.sign_id();
        if sid.session.0 != self.session.0 {
            return Response::Messages(Vec::new());
        }
        if self.completed_contains(&sid.id) {
            return Response::Messages(Vec::new());
        }
        let st_opt = self.active.remove(sid.id);
        match st_opt {
            None => Response::Messages(Vec::new()),
            Some(mut st) => {
                match msg {
                    CoordinatorMessage::Preprocesses { id, preprocesses } => {
                        if id.attempt != st.attempt || !matches!(
                            st.phase,
                            Phase::AwaitingPreprocesses,
                        ) {
                            self.active.set(sid.id, st);
                            return Response::Messages(Vec::new());
                        }
                        let ghost a0 = st.attempt;
                        let ghost pp0 = participants_view(st.preprocesses@);
                        let ghost inc = participants_view(preprocesses@);
                        let ghost mc0 = st.machines@.len();
                        let mut k: usize = 0;
                        let n = preprocesses.len();
                        proof {
                            assert(inc.skip(0) =~= inc);
                        }
                        while k < n
                            invariant
                                n == preprocesses@.len(),
                                k <= n,
                                st.machines@.len() == mc0,
                                mc0 >= 1,
                                st.attempt == a0,
                                st.phase == Phase::AwaitingPreprocesses,
                                inc == participants_view(preprocesses@),
                                merge_participants(pp0, inc) == merge_participants(
                                    participants_view(st.preprocesses@),
                                    inc.skip(k as int),
                                ),
                            decreases n - k,
                        {
                            let ghost prev_view = participants_view(st.preprocesses@);
                            let ghost rest = inc.skip(k as int);
                            let p = preprocesses[k].0;
                            proof {
                                assert(rest[0] == inc[k as int]);
                                assert(inc[k as int] == preprocesses@[k as int].0);
                                assert(rest.skip(1) =~= inc.skip(k + 1 as int));
                            }
                            if !contributions_contain(&st.preprocesses, p) {
                                proof {
                                    if participants_contain(prev_view, p) {
                                        let w = choose|i: int|
                                            0 <= i < prev_view.len() && prev_view[i] == p;
                                        assert(st.preprocesses@[w].0 == p);
                                    }
                                }
                                let blob = preprocesses[k].1.clone();
                                st.preprocesses.push((p, blob));
                                proof {
                                    assert(participants_view(st.preprocesses@) =~= prev_view.push(
                                        p,
                                    ));
                                }
                            } else {
                                proof {
                                    let w = choose|i: int|
                                        0 <= i < st.preprocesses@.len() && st.preprocesses@[i].0
                                            == p;
                                    assert(prev_view[w] == p);
                                    assert(participants_contain(prev_view, p));
                                }
                            }
                            k += 1;
                        }
                        proof {
                            assert(inc.skip(n as int) =~= Seq::<Participant>::empty());
                            assert(participants_view(st.preprocesses@) == merge_participants(
                                pp0,
                                inc,
                            ));
                        }
                        if st.preprocesses.len() < self.threshold {
                            self.active.set(sid.id, st);
                            return Response::Messages(Vec::new());
                        }
                        // The round runs over the first threshold-many
                        // contributions in delivery order; the ordered
                        // channel makes that choice common to all honest
                        // peers.
                        let ghost merged_view = participants_view(st.preprocesses@);
                        st.preprocesses.truncate(self.threshold);
                        proof {
                            assert(participants_view(st.preprocesses@) =~= merged_view.take(
                                self.threshold as int,
                            ));
                        }
                        let mut our_shares: Vec<Vec<u8>> = Vec::new();
                        let mut blame: Option<Participant> = None;
                        let ghost pv1 = participants_view(st.preprocesses@);
                        let mc = st.machines.len();
                        let mut mi: usize = 0;
                        while mi < mc
                            invariant
                                mc == st.machines@.len(),
                                mi <= mc,
                                mc >= 1,
                                mc == mc0,
                                st.attempt == a0,
                                blame is None ==> our_shares@.len() == mi,
                                participants_view(st.preprocesses@) == pv1,
                            decreases mc - mi,
                        {
                            if blame.is_none() {
                                let res = {
                                    let m = &mut st.machines[mi];
                                    m.shares(&st.preprocesses)
                                };
                                match res {
                                    Ok(share) => {
                                        our_shares.push(share);
                                    }
                                    Err(p) => {
                                        blame = Some(p);
                                    }
                                }
                            }
                            mi += 1;
                        }
                        match blame {
                            Some(p) => {
                                st.phase = Phase::Terminated;
                                self.active.set(sid.id, st);
                                let mut msgs: Vec<ProcessorMessage> = Vec::new();
                                msgs.push(
                                    ProcessorMessage::InvalidParticipant {
                                        session: self.session,
                                        participant: p,
                                    },
                                );
                                Response::Messages(msgs)
                            }
                            None => {
                                st.phase = Phase::AwaitingShares;
                                self.active.set(sid.id, st);
                                let mut msgs: Vec<ProcessorMessage> = Vec::new();
                                msgs.push(
                                    ProcessorMessage::Shares { id: sid, shares: our_shares },
                                );
                                Response::Messages(msgs)
                            }
                        }
                    }
                    CoordinatorMessage::Shares { id, shares } => {
                        if id.attempt != st.attempt || !matches!(st.phase, Phase::AwaitingShares) {
                            self.active.set(sid.id, st);
                            return Response::Messages(Vec::new());
                        }
                        let ghost a0 = st.attempt;
                        let ghost sp0 = participants_view(st.shares@);
                        let ghost inc = participants_view(shares@);
                        let mut k: usize = 0;
                        let n = shares.len();
                        proof {
                            assert(inc.skip(0) =~= inc);
                        }
                        while k < n
                            invariant
                                n == shares@.len(),
                                k <= n,
                                st.machines@.len() >= 1,
                                st.attempt == a0,
                                st.phase == Phase::AwaitingShares,
                                inc == participants_view(shares@),
                                merge_participants(sp0, inc) == merge_participants(
                                    participants_view(st.shares@),
                                    inc.skip(k as int),
                                ),
                            decreases n - k,
                        {
                            let ghost prev_view = participants_view(st.shares@);
                            let ghost rest = inc.skip(k as int);
                            let p = shares[k].0;
                            proof {
                                assert(rest[0] == inc[k as int]);
                                assert(inc[k as int] == shares@[k as int].0);
                                assert(rest.skip(1) =~= inc.skip(k + 1 as int));
                            }
                            if !contributions_contain(&st.shares, p) {
                                proof {
                                    if participants_contain(prev_view, p) {
                                        let w = choose|i: int|
                                            0 <= i < prev_view.len() && prev_view[i] == p;
                                        assert(st.shares@[w].0 == p);
                                    }
                                }
                                let blob = shares[k].1.clone();
                                st.shares.push((p, blob));
                                proof {
                                    assert(participants_view(st.shares@) =~= prev_view.push(p));
                                }
                            } else {
                                proof {
                                    let w = choose|i: int|
                                        0 <= i < st.shares@.len() && st.shares@[i].0 == p;
                                    assert(prev_view[w] == p);
                                    assert(participants_contain(prev_view, p));
                                }
                            }
                            k += 1;
                        }
                        proof {
                            assert(inc.skip(n as int) =~= Seq::<Participant>::empty());
                            assert(participants_view(st.shares@) == merge_participants(sp0, inc));
                        }
                        if st.shares.len() < self.threshold {
                            self.active.set(sid.id, st);
                            return Response::Messages(Vec::new());
                        }
                        let ghost merged_view = participants_view(st.shares@);
                        st.shares.truncate(self.threshold);
                        proof {
                            assert(participants_view(st.shares@) =~= merged_view.take(
                                self.threshold as int,
                            ));
                        }
                        let res = {
                            let m = &mut st.machines[0];
                            m.complete(&st.shares)
                        };
                        match res {
                            Ok(signature) => {
                                proof {
                                    lemma_contains_push(self.completed@, sid.id);
                                }
                                self.completed.push(sid.id);
                                Response::Signature { id: sid.id, signature }
                            }
                            Err(p) => {
                                st.phase = Phase::Terminated;
                                self.active.set(sid.id, st);
                                let mut msgs: Vec<ProcessorMessage> = Vec::new();
                                msgs.push(
                                    ProcessorMessage::InvalidParticipant {
                                        session: self.session,
                                        participant: p,
                                    },
                                );
                                Response::Messages(msgs)
                            }
                        }
                    }
                    CoordinatorMessage::Reattempt { id } => {
                        if id.attempt <= st.attempt {
                            self.active.set(sid.id, st);
                            return Response::Messages(Vec::new());
                        }
                        st.attempt = id.attempt;
                        st.phase = Phase::AwaitingPreprocesses;
                        st.preprocesses = Vec::new();
                        st.shares = Vec::new();
                        let ghost a1 = st.attempt;
                        let ghost mc0 = st.machines@.len();
                        proof {
                            assert(participants_view(st.preprocesses@) =~= Seq::<
                                Participant,
                            >::empty());
                            assert(participants_view(st.shares@) =~= Seq::<Participant>::empty());
                        }
                        let mut blobs: Vec<Vec<u8>> = Vec::new();
                        let mc = st.machines.len();
                        let mut mi: usize = 0;
                        while mi < mc
                            invariant
                                mc == st.machines@.len(),
                                mi <= mc,
                                mc >= 1,
                                mc == mc0,
                                st.attempt == a1,
                                st.phase == Phase::AwaitingPreprocesses,
                                blobs@.len() == mi,
                                participants_view(st.preprocesses@) == Seq::<Participant>::empty(),
                                participants_view(st.shares@) == Seq::<Participant>::empty(),
                            decreases mc - mi,
                        {
                            let blob = {
                                let m = &mut st.machines[mi];
                                m.preprocess()
                            };
                            blobs.push(blob);
                            mi += 1;
                        }
                        self.active.set(sid.id, st);
                        let mut msgs: Vec<ProcessorMessage> = Vec::new();
                        msgs.push(ProcessorMessage::Preprocesses { id: sid, preprocesses: blobs });
                        Response::Messages(msgs)
                    }
                }
            }
        }
    }
}

} // verus!
