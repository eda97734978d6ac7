use serai_signing::attempt::{AttemptManager, Response, SignMachine};
use serai_signing::ids::{Participant, Session, SignId, VariantSignId};
use serai_signing::messages::sign::{CoordinatorMessage, ProcessorMessage};

/// A machine whose cryptography is scripted: it can be told to blame a
/// participant at the share or aggregation step.
struct ScriptedMachine {
    blame_on_shares: Option<Participant>,
    blame_on_complete: Option<Participant>,
}

impl SignMachine for ScriptedMachine {
    fn preprocess(&mut self) -> Vec<u8> {
        vec![0xaa]
    }

    fn shares(&mut self, _preprocesses: &Vec<(Participant, Vec<u8>)>) -> Result<Vec<u8>, Participant> {
        match self.blame_on_shares {
            Some(p) => Err(p),
            None => Ok(vec![0xbb]),
        }
    }

    fn complete(&mut self, shares: &Vec<(Participant, Vec<u8>)>) -> Result<Vec<u8>, Participant> {
        match self.blame_on_complete {
            Some(p) => Err(p),
            None => Ok(vec![0xcc; shares.len()]),
        }
    }
}

fn honest() -> ScriptedMachine {
    ScriptedMachine { blame_on_shares: None, blame_on_complete: None }
}

fn sid(session: u32, id: VariantSignId, attempt: u32) -> SignId {
    SignId { session: Session(session), id, attempt }
}

fn contributions(ps: &[u16]) -> Vec<(Participant, Vec<u8>)> {
    ps.iter().map(|p| (Participant(*p), vec![*p as u8])).collect()
}

#[test]
fn preprocess_share_signature_flow() {
    let mut mgr: AttemptManager<ScriptedMachine> = AttemptManager::new(Session(0), 2);
    let id = VariantSignId::Cosign(5);
    let out = mgr.register(id, vec![honest()]);
    assert_eq!(out.len(), 1);
    match &out[0] {
        ProcessorMessage::Preprocesses { id: out_id, preprocesses } => {
            assert_eq!(*out_id, sid(0, id, 0));
            assert_eq!(preprocesses.len(), 1);
        }
        other => panic!("unexpected: {other:?}"),
    }

    // One contribution is below the threshold: nothing advances.
    let r = mgr.handle(&CoordinatorMessage::Preprocesses {
        id: sid(0, id, 0),
        preprocesses: contributions(&[1]),
    });
    assert_eq!(r, Response::Messages(vec![]));

    // The second contribution completes the round: our shares go out.
    let r = mgr.handle(&CoordinatorMessage::Preprocesses {
        id: sid(0, id, 0),
        preprocesses: contributions(&[2]),
    });
    match r {
        Response::Messages(msgs) => {
            assert_eq!(msgs.len(), 1);
            assert!(matches!(&msgs[0], ProcessorMessage::Shares { .. }));
        }
        other => panic!("unexpected: {other:?}"),
    }

    // Threshold shares complete the protocol.
    let r = mgr.handle(&CoordinatorMessage::Shares {
        id: sid(0, id, 0),
        shares: contributions(&[1, 2]),
    });
    match r {
        Response::Signature { id: done, signature } => {
            assert_eq!(done, id);
            assert_eq!(signature, vec![0xcc, 0xcc]);
        }
        other => panic!("unexpected: {other:?}"),
    }

    // At most once: replaying the shares yields nothing, ever again.
    let r = mgr.handle(&CoordinatorMessage::Shares {
        id: sid(0, id, 0),
        shares: contributions(&[1, 2]),
    });
    assert_eq!(r, Response::Messages(vec![]));
}

#[test]
fn invalid_participant_blame() {
    // With a threshold of two, a corrupted contribution from participant
    // two draws exactly one blame and no signature.
    let mut mgr: AttemptManager<ScriptedMachine> = AttemptManager::new(Session(3), 2);
    let id = VariantSignId::SlashReport;
    let machine = ScriptedMachine {
        blame_on_shares: None,
        blame_on_complete: Some(Participant(2)),
    };
    let _ = mgr.register(id, vec![machine]);
    let r = mgr.handle(&CoordinatorMessage::Preprocesses {
        id: sid(3, id, 0),
        preprocesses: contributions(&[1, 2]),
    });
    assert!(matches!(r, Response::Messages(_)));
    let r = mgr.handle(&CoordinatorMessage::Shares {
        id: sid(3, id, 0),
        shares: contributions(&[1, 2]),
    });
    assert_eq!(
        r,
        Response::Messages(vec![ProcessorMessage::InvalidParticipant {
            session: Session(3),
            participant: Participant(2),
        }])
    );

    // The attempt is terminated: more shares do nothing until a re-attempt.
    let r = mgr.handle(&CoordinatorMessage::Shares {
        id: sid(3, id, 0),
        shares: contributions(&[1, 3]),
    });
    assert_eq!(r, Response::Messages(vec![]));
}

#[test]
fn reattempt_supersedes() {
    let mut mgr: AttemptManager<ScriptedMachine> = AttemptManager::new(Session(0), 2);
    let id = VariantSignId::Batch([7; 32]);
    let _ = mgr.register(id, vec![honest()]);

    // Move to attempt 2.
    let r = mgr.handle(&CoordinatorMessage::Reattempt { id: sid(0, id, 2) });
    match r {
        Response::Messages(msgs) => {
            assert!(matches!(&msgs[0], ProcessorMessage::Preprocesses { id: i, .. } if i.attempt == 2));
        }
        other => panic!("unexpected: {other:?}"),
    }

    // Messages for the superseded attempt are dropped: no signature for an
    // attempt below the current one can ever be produced.
    let r = mgr.handle(&CoordinatorMessage::Preprocesses {
        id: sid(0, id, 0),
        preprocesses: contributions(&[1, 2]),
    });
    assert_eq!(r, Response::Messages(vec![]));
    let r = mgr.handle(&CoordinatorMessage::Shares {
        id: sid(0, id, 0),
        shares: contributions(&[1, 2]),
    });
    assert_eq!(r, Response::Messages(vec![]));

    // A stale re-attempt is likewise dropped.
    let r = mgr.handle(&CoordinatorMessage::Reattempt { id: sid(0, id, 1) });
    assert_eq!(r, Response::Messages(vec![]));

    // The current attempt still completes.
    let r = mgr.handle(&CoordinatorMessage::Preprocesses {
        id: sid(0, id, 2),
        preprocesses: contributions(&[1, 2]),
    });
    assert!(matches!(r, Response::Messages(_)));
    let r = mgr.handle(&CoordinatorMessage::Shares {
        id: sid(0, id, 2),
        shares: contributions(&[1, 2]),
    });
    assert!(matches!(r, Response::Signature { .. }));
}

#[test]
fn retire_and_foreign_session() {
    let mut mgr: AttemptManager<ScriptedMachine> = AttemptManager::new(Session(0), 1);
    let id = VariantSignId::Cosign(9);
    let _ = mgr.register(id, vec![honest()]);

    // A message for another session is dropped.
    let r = mgr.handle(&CoordinatorMessage::Preprocesses {
        id: sid(1, id, 0),
        preprocesses: contributions(&[1]),
    });
    assert_eq!(r, Response::Messages(vec![]));

    // Retiring drops the instance; handling then does nothing. Retiring
    // again is harmless.
    mgr.retire(&id);
    mgr.retire(&id);
    let r = mgr.handle(&CoordinatorMessage::Preprocesses {
        id: sid(0, id, 0),
        preprocesses: contributions(&[1]),
    });
    assert_eq!(r, Response::Messages(vec![]));
}
