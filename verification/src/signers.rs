//! The session manager: owns the wake state of each session's signer tasks,
//! registers and retires key material, performs the boot-time cleanup of
//! retired sessions, and routes coordinator messages to the right task.
//!
//! Retirement is strictly sequential: retiring a session demands that it be
//! exactly the successor of the last retired one, so retiring the same
//! session twice is an error, and registering keys at or below the retired
//! watermark does nothing.

use vstd::prelude::*;
use vstd::bytes::*;

use crate::db::SignerDb;
use crate::ids::Session;
use crate::keyed::KeyedStore;
use crate::messages::coordinator::Slash;
use crate::messages::sign::CoordinatorMessage;
use crate::ids::VariantSignId;

verus! {

/// One local validator's pair of key shares: the substrate share and the
/// external-network share, both serialized.
#[derive(Clone, PartialEq, Eq, Debug)]
pub struct KeySharePair {
    pub substrate: Vec<u8>,
    pub network: Vec<u8>,
}

/// A serialized share behind its little-endian length.
pub open spec fn share_rec(b: Seq<u8>) -> Seq<u8> {
    spec_u32_to_le_bytes(b.len() as u32) + b
}

/// The blob storing a session's key shares: the pairs in order, each share
/// behind its length, substrate share first.
pub open spec fn keys_blob(pairs: Seq<(Seq<u8>, Seq<u8>)>) -> Seq<u8>
    decreases pairs.len(),
{
    if pairs.len() == 0 {
        Seq::empty()
    } else {
        share_rec(pairs[0].0) + share_rec(pairs[0].1) + keys_blob(pairs.skip(1))
    }
}

/// The views of a vector of share pairs.
pub open spec fn pair_views(pairs: Seq<KeySharePair>) -> Seq<(Seq<u8>, Seq<u8>)> {
    Seq::new(pairs.len(), |i: int| (pairs[i].substrate@, pairs[i].network@))
}

/// Appending a pair appends its two records to the blob.
pub(crate) proof fn lemma_keys_blob_push(pairs: Seq<(Seq<u8>, Seq<u8>)>, p: (Seq<u8>, Seq<u8>))
    ensures
        keys_blob(pairs.push(p)) == keys_blob(pairs) + share_rec(p.0) + share_rec(p.1),
    decreases pairs.len(),
{
    let t = pairs.push(p);
    assert(t[0] == if pairs.len() == 0 { p } else { pairs[0] });
    if pairs.len() == 0 {
        assert(t.skip(1) =~= Seq::<(Seq<u8>, Seq<u8>)>::empty());
        assert(keys_blob(t.skip(1)) == Seq::<u8>::empty());
        assert(keys_blob(pairs) == Seq::<u8>::empty());
        assert(keys_blob(t) =~= keys_blob(pairs) + share_rec(p.0) + share_rec(p.1));
    } else {
        lemma_keys_blob_push(pairs.skip(1), p);
        assert(t.skip(1) =~= pairs.skip(1).push(p));
        assert(t[0] == pairs[0]);
        assert(keys_blob(t) =~= keys_blob(pairs) + share_rec(p.0) + share_rec(p.1));
    }
}

/// Serialize key share pairs: substrate and network shares interleaved, each
/// behind its length, so the reader can consume pairs to end-of-buffer.
pub fn encode_keys(pairs: &Vec<KeySharePair>) -> (r: Vec<u8>)
    requires
        forall|i: int|
            0 <= i < pairs@.len() ==> #[trigger] pairs@[i].substrate@.len() < 0x1_0000_0000
                && pairs@[i].network@.len() < 0x1_0000_0000,
    ensures
        r@ == keys_blob(pair_views(pairs@)),
{
    let mut r: Vec<u8> = Vec::new();
    let mut i: usize = 0;
    proof {
        assert(pair_views(pairs@.take(0)) =~= Seq::<(Seq<u8>, Seq<u8>)>::empty());
    }
    while i < pairs.len()
        invariant
            i <= pairs@.len(),
            forall|j: int|
                0 <= j < pairs@.len() ==> #[trigger] pairs@[j].substrate@.len() < 0x1_0000_0000
                    && pairs@[j].network@.len() < 0x1_0000_0000,
            r@ == keys_blob(pair_views(pairs@.take(i as int))),
        decreases pairs@.len() - i,
    {
        let p = &pairs[i];
        let mut len_bytes = u32_to_le_bytes(p.substrate.len() as u32);
        r.append(&mut len_bytes);
        let mut body = p.substrate.clone();
        r.append(&mut body);
        let mut len_bytes2 = u32_to_le_bytes(p.network.len() as u32);
        r.append(&mut len_bytes2);
        let mut body2 = p.network.clone();
        r.append(&mut body2);
        proof {
            let pv = pair_views(pairs@.take(i as int));
            let pair = (pairs@[i as int].substrate@, pairs@[i as int].network@);
            lemma_keys_blob_push(pv, pair);
            assert(pair_views(pairs@.take(i + 1 as int)) =~= pv.push(pair));
            assert(r@ =~= keys_blob(pair_views(pairs@.take(i + 1 as int))));
        }
        i += 1;
    }
    proof {
        assert(pairs@.take(pairs@.len() as int) =~= pairs@);
    }
    r
}

/// Read one length-prefixed record starting at a position. Reading fails
/// exactly when the buffer cannot hold the length field or the body it
/// announces.
fn read_rec(blob: &Vec<u8>, pos: usize) -> (r: Option<(Vec<u8>, usize)>)
    requires
        pos <= blob@.len(),
    ensures
        match r {
            Some((body, end)) => {
                &&& pos < end <= blob@.len()
                &&& body@.len() < 0x1_0000_0000
                &&& end == pos + 4 + body@.len()
                &&& blob@.subrange(pos as int, end as int) == share_rec(body@)
            },
            None => blob@.len() - pos < 4 || blob@.len() - pos - 4 < spec_u32_from_le_bytes(
                blob@.subrange(pos as int, pos + 4),
            ),
        },
{
    if blob.len() - pos < 4 {
        return None;
    }
    let len_slice = vstd::slice::slice_subrange(blob.as_slice(), pos, pos + 4);
    let len = u32_from_le_bytes(len_slice);
    let len = len as usize;
    if blob.len() - pos - 4 < len {
        return None;
    }
    let body = vstd::slice::slice_to_vec(
        vstd::slice::slice_subrange(blob.as_slice(), pos + 4, pos + 4 + len),
    );
    let end = pos + 4 + len;
    proof {
        lemma_auto_spec_u32_to_from_le_bytes();
        assert(blob@.subrange(pos as int, pos + 4) == spec_u32_to_le_bytes(body@.len() as u32))
            by {
            assert(len_slice@ == blob@.subrange(pos as int, pos + 4));
            assert(body@.len() == spec_u32_from_le_bytes(len_slice@));
        }
        assert(blob@.subrange(pos as int, end as int) =~= share_rec(body@));
    }
    Some((body, end))
}

/// Every share of every pair fits its length field.
pub open spec fn pairs_bounded(ps: Seq<(Seq<u8>, Seq<u8>)>) -> bool {
    forall|i: int|
        0 <= i < ps.len() ==> (#[trigger] ps[i]).0.len() < 0x1_0000_0000 && ps[i].1.len()
            < 0x1_0000_0000
}

/// A parsed prefix of a blob of pairs aligns with whole pairs: what remains
/// is the blob of the remaining pairs.
pub(crate) proof fn lemma_keys_blob_align(full: Seq<(Seq<u8>, Seq<u8>)>, parsed: Seq<(Seq<u8>, Seq<u8>)>)
    requires
        pairs_bounded(full),
        pairs_bounded(parsed),
        keys_blob(parsed).is_prefix_of(keys_blob(full)),
    ensures
        parsed.len() <= full.len(),
        keys_blob(full).skip(keys_blob(parsed).len() as int) == keys_blob(
            full.skip(parsed.len() as int),
        ),
    decreases parsed.len(),
{
    lemma_auto_spec_u32_to_from_le_bytes();
    let bp = keys_blob(parsed);
    let bf = keys_blob(full);
    if parsed.len() == 0 {
        assert(bp =~= Seq::<u8>::empty());
        assert(bf.skip(0) =~= bf);
        assert(full.skip(0) =~= full);
    } else {
        assert(bp.len() >= 8) by {
            assert(share_rec(parsed[0].0).len() >= 4);
            assert(share_rec(parsed[0].1).len() >= 4);
        }
        if full.len() == 0 {
            assert(bf =~= Seq::<u8>::empty());
            assert(false);
        }
        // The leading length fields coincide, so the first pairs' records
        // occupy the same bytes.
        assert(bp.subrange(0, 4) =~= spec_u32_to_le_bytes(parsed[0].0.len() as u32));
        assert(bf.subrange(0, 4) =~= spec_u32_to_le_bytes(full[0].0.len() as u32));
        assert(bp.subrange(0, 4) =~= bf.subrange(0, 4));
        assert(parsed[0].0.len() == full[0].0.len());
        let la = parsed[0].0.len() as int;
        assert(bp.subrange(4 + la, 8 + la) =~= spec_u32_to_le_bytes(parsed[0].1.len() as u32));
        assert(bf.subrange(4 + la, 8 + la) =~= spec_u32_to_le_bytes(full[0].1.len() as u32));
        assert(bp.subrange(4 + la, 8 + la) =~= bf.subrange(4 + la, 8 + la));
        assert(parsed[0].1.len() == full[0].1.len());
        let lb = parsed[0].1.len() as int;
        let head = 8 + la + lb;
        assert(keys_blob(parsed.skip(1)) =~= bp.skip(head));
        assert(keys_blob(full.skip(1)) =~= bf.skip(head));
        assert forall|i: int|
            0 <= i < parsed.skip(1).len() implies (#[trigger] parsed.skip(1)[i]).0.len()
            < 0x1_0000_0000 && parsed.skip(1)[i].1.len() < 0x1_0000_0000 by {
            assert(parsed.skip(1)[i] == parsed[i + 1]);
        }
        assert forall|i: int|
            0 <= i < full.skip(1).len() implies (#[trigger] full.skip(1)[i]).0.len()
            < 0x1_0000_0000 && full.skip(1)[i].1.len() < 0x1_0000_0000 by {
            assert(full.skip(1)[i] == full[i + 1]);
        }
        assert(keys_blob(parsed.skip(1)).is_prefix_of(keys_blob(full.skip(1)))) by {
            assert(keys_blob(parsed.skip(1)) =~= keys_blob(full.skip(1)).subrange(
                0,
                keys_blob(parsed.skip(1)).len() as int,
            ));
        }
        lemma_keys_blob_align(full.skip(1), parsed.skip(1));
        assert(full.skip(1).skip(parsed.skip(1).len() as int) =~= full.skip(parsed.len() as int));
        assert(bf.skip(bp.len() as int) =~= keys_blob(full.skip(1)).skip(
            keys_blob(parsed.skip(1)).len() as int,
        ));
    }
}

/// Parse a key-shares blob. Success demands the blob parse exactly: every
/// byte belongs to some pair's records and none trail. A blob that is the
/// serialization of pairs always parses.
pub fn parse_keys(blob: &Vec<u8>) -> (r: Option<Vec<KeySharePair>>)
    ensures
        match r {
            Some(pairs) => blob@ == keys_blob(pair_views(pairs@)),
            None => true,
        },
        forall|ps: Seq<(Seq<u8>, Seq<u8>)>|
            pairs_bounded(ps) && blob@ == #[trigger] keys_blob(ps) ==> r is Some,
{
    let mut pairs: Vec<KeySharePair> = Vec::new();
    let mut pos: usize = 0;
    proof {
        assert(pair_views(pairs@) =~= Seq::<(Seq<u8>, Seq<u8>)>::empty());
        assert(blob@.subrange(0, 0) =~= keys_blob(pair_views(pairs@)));
    }
    while pos < blob.len()
        invariant
            pos <= blob@.len(),
            blob@.subrange(0, pos as int) == keys_blob(pair_views(pairs@)),
            pairs_bounded(pair_views(pairs@)),
        decreases blob@.len() - pos,
    {
        proof {
            // Whenever the blob is a serialization of pairs, what remains
            // at the cursor is the serialization of the remaining pairs.
            assert forall|ps: Seq<(Seq<u8>, Seq<u8>)>|
                pairs_bounded(ps) && blob@ == #[trigger] keys_blob(ps) implies {
                let rest = ps.skip(pairs@.len() as int);
                &&& pairs@.len() <= ps.len()
                &&& blob@.subrange(pos as int, blob@.len() as int) == keys_blob(rest)
                &&& rest.len() > 0
                &&& pairs_bounded(rest)
            } by {
                let pv = pair_views(pairs@);
                assert(keys_blob(pv).is_prefix_of(keys_blob(ps))) by {
                    assert(keys_blob(pv) =~= keys_blob(ps).subrange(0, pos as int));
                }
                lemma_keys_blob_align(ps, pv);
                let rest = ps.skip(pairs@.len() as int);
                assert(blob@.subrange(pos as int, blob@.len() as int) =~= blob@.skip(pos as int));
                if rest.len() == 0 {
                    assert(keys_blob(rest) =~= Seq::<u8>::empty());
                }
                assert forall|i: int|
                    0 <= i < rest.len() implies (#[trigger] rest[i]).0.len() < 0x1_0000_0000
                        && rest[i].1.len() < 0x1_0000_0000 by {
                    assert(rest[i] == ps[pairs@.len() + i]);
                }
            }
        }
        let first = read_rec(blob, pos);
        let (substrate, mid) = match first {
            Some(v) => v,
            None => {
                proof {
                    lemma_auto_spec_u32_to_from_le_bytes();
                    assert forall|ps: Seq<(Seq<u8>, Seq<u8>)>|
                        pairs_bounded(ps) && blob@ == #[trigger] keys_blob(ps) implies false by {
                        let rest = ps.skip(pairs@.len() as int);
                        let suffix = keys_blob(rest);
                        assert(suffix.subrange(0, 4) =~= spec_u32_to_le_bytes(
                            rest[0].0.len() as u32,
                        ));
                        assert(blob@.subrange(pos as int, pos + 4) =~= suffix.subrange(0, 4));
                        assert(suffix.len() >= 8 + rest[0].0.len() + rest[0].1.len()) by {
                            assert(share_rec(rest[0].1).len() >= 4);
                        }
                    }
                }
                return None;
            }
        };
        proof {
            // The first record is the pair's substrate share; what follows
            // it begins the network share's record.
            assert forall|ps: Seq<(Seq<u8>, Seq<u8>)>|
                pairs_bounded(ps) && blob@ == #[trigger] keys_blob(ps) implies {
                let rest = ps.skip(pairs@.len() as int);
                &&& substrate@ == rest[0].0
                &&& mid as int == pos + 4 + rest[0].0.len()
                &&& blob@.len() - mid >= 4 + rest[0].1.len()
                &&& blob@.subrange(mid as int, mid + 4) == spec_u32_to_le_bytes(
                    rest[0].1.len() as u32,
                )
            } by {
                lemma_auto_spec_u32_to_from_le_bytes();
                let rest = ps.skip(pairs@.len() as int);
                let suffix = keys_blob(rest);
                assert(suffix =~= blob@.subrange(pos as int, blob@.len() as int));
                assert(suffix.subrange(0, 4) =~= spec_u32_to_le_bytes(rest[0].0.len() as u32));
                assert(blob@.subrange(pos as int, pos + 4) =~= suffix.subrange(0, 4));
                assert(spec_u32_to_le_bytes(substrate@.len() as u32) =~= blob@.subrange(
                    pos as int,
                    pos + 4,
                ));
                assert(substrate@.len() == rest[0].0.len());
                let la = rest[0].0.len() as int;
                assert(substrate@ =~= suffix.subrange(4, 4 + la)) by {
                    assert(blob@.subrange(pos as int, mid as int) == share_rec(substrate@));
                    assert(substrate@ =~= blob@.subrange(pos as int, mid as int).skip(4));
                    assert(blob@.subrange(pos as int, mid as int).skip(4) =~= blob@.subrange(
                        pos + 4,
                        mid as int,
                    ));
                    assert(suffix.subrange(4, 4 + la) =~= blob@.subrange(pos + 4, pos + 4 + la));
                }
                assert(rest[0].0 =~= suffix.subrange(4, 4 + la));
                assert(suffix.subrange(4 + la, 8 + la) =~= spec_u32_to_le_bytes(
                    rest[0].1.len() as u32,
                ));
                assert(blob@.subrange(mid as int, mid + 4) =~= suffix.subrange(4 + la, 8 + la));
                assert(suffix.len() >= 8 + la + rest[0].1.len()) by {
                    assert(share_rec(rest[0].1).len() == 4 + rest[0].1.len());
                }
            }
        }
        let second = read_rec(blob, mid);
        let (network, end) = match second {
            Some(v) => v,
            None => {
                proof {
                    lemma_auto_spec_u32_to_from_le_bytes();
                    assert forall|ps: Seq<(Seq<u8>, Seq<u8>)>|
                        pairs_bounded(ps) && blob@ == #[trigger] keys_blob(ps) implies false by {
                        let rest = ps.skip(pairs@.len() as int);
                        assert(spec_u32_from_le_bytes(blob@.subrange(mid as int, mid + 4))
                            == rest[0].1.len());
                    }
                }
                return None;
            }
        };
        proof {
            let pv = pair_views(pairs@);
            let pair = (substrate@, network@);
            lemma_keys_blob_push(pv, pair);
            assert(pair_views(
                pairs@.push(KeySharePair { substrate, network }),
            ) =~= pv.push(pair));
            assert(blob@.subrange(0, end as int) =~= blob@.subrange(0, pos as int)
                + blob@.subrange(pos as int, mid as int) + blob@.subrange(
                mid as int,
                end as int,
            ));
        }
        pairs.push(KeySharePair { substrate, network });
        proof {
            assert forall|i: int|
                0 <= i < pair_views(pairs@).len() implies (#[trigger] pair_views(pairs@)[i]).0.len()
                < 0x1_0000_0000 && pair_views(pairs@)[i].1.len() < 0x1_0000_0000 by {
            }
        }
        pos = end;
    }
    proof {
        assert(blob@.subrange(0, blob@.len() as int) =~= blob@);
    }
    Some(pairs)
}

/// Parsing what was serialized gives back the same pairs' bytes.
pub proof fn lemma_keys_blob_exact(a: Seq<(Seq<u8>, Seq<u8>)>, b: Seq<(Seq<u8>, Seq<u8>)>)
    requires
        keys_blob(a) == keys_blob(b),
        forall|i: int| 0 <= i < a.len() ==> (#[trigger] a[i].0).len() < 0x1_0000_0000
            && a[i].1.len() < 0x1_0000_0000,
        forall|i: int| 0 <= i < b.len() ==> (#[trigger] b[i].0).len() < 0x1_0000_0000
            && b[i].1.len() < 0x1_0000_0000,
    ensures
        a == b,
    decreases a.len(),
{
    lemma_auto_spec_u32_to_from_le_bytes();
    if a.len() == 0 || b.len() == 0 {
        if a.len() != b.len() {
            assert(keys_blob(a).len() == 0 || keys_blob(b).len() == 0);
            if a.len() > 0 {
                assert(keys_blob(a).len() >= 4);
            }
            if b.len() > 0 {
                assert(keys_blob(b).len() >= 4);
            }
            assert(false);
        }
        assert(a =~= b);
    } else {
        let blob = keys_blob(a);
        // The first length field pins the first substrate share.
        assert(blob.subrange(0, 4) =~= spec_u32_to_le_bytes(a[0].0.len() as u32));
        assert(blob.subrange(0, 4) =~= spec_u32_to_le_bytes(b[0].0.len() as u32));
        assert(a[0].0.len() == b[0].0.len());
        let la = a[0].0.len() as int;
        assert(a[0].0 =~= blob.subrange(4, 4 + la));
        assert(b[0].0 =~= blob.subrange(4, 4 + la));
        // And the second length field pins the first network share.
        let ma = 4 + la;
        assert(blob.subrange(ma, ma + 4) =~= spec_u32_to_le_bytes(a[0].1.len() as u32));
        assert(blob.subrange(ma, ma + 4) =~= spec_u32_to_le_bytes(b[0].1.len() as u32));
        assert(a[0].1.len() == b[0].1.len());
        let lb = a[0].1.len() as int;
        assert(a[0].1 =~= blob.subrange(ma + 4, ma + 4 + lb));
        assert(b[0].1 =~= blob.subrange(ma + 4, ma + 4 + lb));
        assert(a[0] == b[0]);
        let rest = ma + 4 + lb;
        assert(keys_blob(a.skip(1)) =~= blob.skip(rest));
        assert(keys_blob(b.skip(1)) =~= blob.skip(rest));
        assert forall|i: int| 0 <= i < a.skip(1).len() implies (#[trigger] a.skip(1)[i].0).len()
            < 0x1_0000_0000 && a.skip(1)[i].1.len() < 0x1_0000_0000 by {
            assert(a.skip(1)[i] == a[i + 1]);
        }
        assert forall|i: int| 0 <= i < b.skip(1).len() implies (#[trigger] b.skip(1)[i].0).len()
            < 0x1_0000_0000 && b.skip(1)[i].1.len() < 0x1_0000_0000 by {
            assert(b.skip(1)[i] == b[i + 1]);
        }
        lemma_keys_blob_exact(a.skip(1), b.skip(1));
        assert(a.len() == b.len());
        assert forall|i: int| 0 <= i < a.len() implies a[i] == b[i] by {
            if i > 0 {
                assert(a.skip(1)[i - 1] == b.skip(1)[i - 1]);
            }
        }
        assert(a =~= b);
    }
}

/// Whether a sequence of sessions contains one.
pub open spec fn contains_session(s: Seq<Session>, x: Session) -> bool {
    exists|i: int| 0 <= i < s.len() && s[i] == x
}

/// Pushing a session marks it contained and leaves the rest as they were.
proof fn lemma_session_contains_push(s: Seq<Session>, x: Session)
    ensures
        contains_session(s.push(x), x),
        forall|s2: Session| #![auto]
            s2 != x ==> contains_session(s.push(x), s2) == contains_session(s, s2),
        forall|s2: Session| #![auto] contains_session(s, s2) ==> contains_session(s.push(x), s2),
{
    assert(s.push(x)[s.len() as int] == x);
    assert forall|s2: Session| #![auto] contains_session(s, s2) implies contains_session(
        s.push(x),
        s2,
    ) by {
        let w = choose|i: int| 0 <= i < s.len() && s[i] == s2;
        assert(s.push(x)[w] == s2);
    }
    assert forall|s2: Session| s2 != x && contains_session(s.push(x), s2) implies contains_session(
        s,
        s2,
    ) by {
        let w = choose|i: int| 0 <= i < s.push(x).len() && s.push(x)[i] == s2;
        assert(w < s.len());
        assert(s[w] == s2);
    }
}

/// The registered sessions without one of them, order kept.
fn remove_session(v: &Vec<Session>, x: Session) -> (r: Vec<Session>)
    ensures
        !contains_session(r@, x),
        forall|s2: Session|
            s2 != x ==> contains_session(r@, s2) == contains_session(v@, s2),
{
    let mut kept: Vec<Session> = Vec::new();
    let mut i: usize = 0;
    let n = v.len();
    while i < n
        invariant
            n == v@.len(),
            i <= n,
            forall|j: int| 0 <= j < kept@.len() ==> #[trigger] kept@[j] != x,
            forall|j: int|
                0 <= j < kept@.len() ==> contains_session(v@, #[trigger] kept@[j]),
            forall|j: int|
                0 <= j < i && v@[j] != x ==> contains_session(kept@, #[trigger] v@[j]),
        decreases n - i,
    {
        let s = v[i];
        if s.0 != x.0 {
            let ghost prev = kept@;
            kept.push(s);
            proof {
                lemma_session_contains_push(prev, s);
                assert forall|j: int| 0 <= j < i + 1 && v@[j] != x implies contains_session(
                    kept@,
                    #[trigger] v@[j],
                ) by {
                    if j < i {
                        assert(contains_session(prev, v@[j]));
                    }
                }
            }
        }
        i += 1;
    }
    proof {
        assert forall|s2: Session| s2 != x implies contains_session(kept@, s2)
            == contains_session(v@, s2) by {
            if contains_session(kept@, s2) {
                let w = choose|j: int| 0 <= j < kept@.len() && kept@[j] == s2;
                assert(contains_session(v@, kept@[w]));
            }
            if contains_session(v@, s2) {
                let w = choose|j: int| 0 <= j < v@.len() && v@[j] == s2;
                assert(contains_session(kept@, v@[w]));
            }
        }
        assert forall|s2: Session| !(s2 != x) implies !contains_session(kept@, s2) by {
            if contains_session(kept@, s2) {
                let w = choose|j: int| 0 <= j < kept@.len() && kept@[j] == s2;
            }
        }
    }
    kept
}

/// The error of retiring a session out of order: every session must be
/// retired exactly once, in increasing order, starting at zero.
#[derive(Clone, Copy, PartialEq, Eq, Structural, Debug)]
pub enum RetireError {
    OutOfOrder,
}

/// The wake state of one session's four signer tasks.
#[derive(Clone, Copy, PartialEq, Eq, Structural, Debug)]
pub struct Tasks {
    pub cosigner: bool,
    pub batch: bool,
    pub slash_report: bool,
    pub transaction: bool,
}

impl Tasks {
    /// Fresh task handles: nothing asked to run yet.
    pub open spec fn spec_fresh() -> Tasks {
        Tasks { cosigner: false, batch: false, slash_report: false, transaction: false }
    }

    /// Fresh task handles: nothing asked to run yet.
    pub fn new() -> (r: Tasks)
        ensures
            r == Tasks::spec_fresh(),
    {
        Tasks { cosigner: false, batch: false, slash_report: false, transaction: false }
    }
}

/// One wake flag raised: the cosigner's, the batch signer's, the
/// slash-report signer's or the transaction signer's, in that coding.
pub open spec fn spec_wake(t: Tasks, which: u8) -> Tasks {
    Tasks {
        cosigner: t.cosigner || which == 0,
        batch: t.batch || which == 1,
        slash_report: t.slash_report || which == 2,
        transaction: t.transaction || (which != 0 && which != 1 && which != 2),
    }
}

/// The signers used by a processor: the per-session task wake state, with
/// the durable rows and channels handed in per call.
pub struct Signers {
    tasks: KeyedStore<u32, Tasks>,
}

impl Signers {
    /// The store of wake states is well formed.
    pub closed spec fn wf(self) -> bool {
        self.tasks.wf()
    }

    /// The wake state of a session's tasks, if spawned.
    pub closed spec fn spec_tasks(self, s: u32) -> Option<Tasks> {
        self.tasks.spec_get(s)
    }

    /// Initialize the signers: perform the cleanup queued by earlier
    /// retirements, then spawn task state for every registered session.
    ///
    /// After this returns, every channel of every session queued for cleanup
    /// receives nothing until something is sent again, and the cleanup queue
    /// is empty: retirement reclaims everything, exactly at boot.
    pub fn new(db: &mut SignerDb) -> (r: Signers)
        requires
            old(db).wf(),
        ensures
            final(db).wf(),
            r.wf(),
            // Cleanup completeness.
            forall|j: int|
                0 <= j < old(db).to_cleanup@.len() ==> final(db).session_clean(
                    #[trigger] old(db).to_cleanup@[j].0.0,
                ),
            final(db).to_cleanup@.len() == 0,
            // The registry rows survive boot.
            SignerDb::rows_eq(*final(db), *old(db)),
            // Task state exists for every registered session.
            forall|j: int|
                0 <= j < final(db).registered_keys@.len() ==> r.spec_tasks(
                    #[trigger] final(db).registered_keys@[j].0,
                ) is Some,
    {
        let mut i: usize = 0;
        let n = db.to_cleanup.len();
        let ghost orig = *db;
        while i < n
            invariant
                db.wf(),
                n == db.to_cleanup@.len(),
                i <= n,
                db.to_cleanup@ == orig.to_cleanup@,
                SignerDb::rows_eq(*db, orig),
                forall|j: int|
                    0 <= j < i ==> db.session_clean(#[trigger] orig.to_cleanup@[j].0.0),
            decreases n - i,
        {
            let s = db.to_cleanup[i].0.0;
            let ghost before = *db;
            db.drain_session(s);
            proof {
                assert forall|j: int| 0 <= j < i + 1 implies db.session_clean(
                    #[trigger] orig.to_cleanup@[j].0.0,
                ) by {
                    let s2 = orig.to_cleanup@[j].0.0;
                    if s2 != s {
                        assert(SignerDb::session_channels_eq(*db, before, s2));
                    }
                }
            }
            i += 1;
        }
        db.to_cleanup = Vec::new();
        let mut signers = Signers { tasks: KeyedStore::new() };
        let mut j: usize = 0;
        let m = db.registered_keys.len();
        while j < m
            invariant
                signers.tasks.wf(),
                m == db.registered_keys@.len(),
                j <= m,
                forall|k: int|
                    0 <= k < j ==> signers.tasks.spec_get(
                        #[trigger] db.registered_keys@[k].0,
                    ) is Some,
            decreases m - j,
        {
            let s = db.registered_keys[j].0;
            signers.tasks.set(s, Tasks::new());
            j += 1;
        }
        signers
    }

    /// Register a session's key shares. If the session is at or below the
    /// retirement watermark this does nothing: retired sessions never come
    /// back.
    pub fn register_keys(
        &mut self,
        db: &mut SignerDb,
        session: Session,
        key_shares: Vec<KeySharePair>,
    )
        requires
            old(self).wf(),
            old(db).wf(),
            forall|i: int|
                0 <= i < key_shares@.len() ==> #[trigger] key_shares@[i].substrate@.len()
                    < 0x1_0000_0000 && key_shares@[i].network@.len() < 0x1_0000_0000,
        ensures
            final(self).wf(),
            final(db).wf(),
            match old(db).latest_retired {
                Some(r) => session.0 <= r.0 ==> *final(db) == *old(db) && *final(self) == *old(self),
                None => true,
            },
            (match old(db).latest_retired {
                Some(r) => session.0 > r.0,
                None => true,
            }) ==> {
                &&& final(db).registered_keys@ == old(db).registered_keys@.push(session)
                &&& final(db).serialized_keys.spec_get(session.0) matches Some(blob)
                    && blob@ == keys_blob(pair_views(key_shares@))
                &&& forall|k2: u32|
                    k2 != session.0 ==> final(db).serialized_keys.spec_get(k2) == old(db).serialized_keys.spec_get(k2)
                &&& final(db).latest_retired == old(db).latest_retired
                &&& final(db).to_cleanup@ == old(db).to_cleanup@
                &&& final(self).spec_tasks(session.0) == Some(Tasks::spec_fresh())
            },
            SignerDb::channels_eq(*final(db), *old(db)),
            forall|s2: u32|
                s2 != session.0 ==> final(self).spec_tasks(s2) == old(self).spec_tasks(s2),
    {
        match db.latest_retired {
            Some(r) => {
                if session.0 <= r.0 {
                    return;
                }
            }
            None => {}
        }
        let blob = encode_keys(&key_shares);
        db.registered_keys.push(session);
        db.serialized_keys.set(session.0, blob);
        self.tasks.set(session.0, Tasks::new());
    }

    /// Retire a session. Sessions retire in strict order: the session must
    /// be exactly the successor of the last retired one (or the first
    /// session when none was). Anything else, including retiring a session
    /// twice, is an invariant violation: the error is returned with nothing
    /// committed, and the process around this library aborts on it.
    pub fn retire_session(
        &mut self,
        db: &mut SignerDb,
        session: Session,
        external_key: Vec<u8>,
    ) -> (r: Result<(), RetireError>)
        requires
            old(self).wf(),
            old(db).wf(),
        ensures
            final(self).wf(),
            final(db).wf(),
            *final(self) == *old(self),
            r is Ok <==> (match old(db).latest_retired {
                Some(last) => last.0 < 0xffff_ffff && session.0 == last.0 + 1,
                None => session.0 == 0,
            }),
            r is Err ==> *final(db) == *old(db),
            r is Ok ==> {
                &&& final(db).latest_retired == Some(session)
                &&& !contains_session(final(db).registered_keys@, session)
                &&& forall|s2: Session|
                    s2 != session ==> contains_session(final(db).registered_keys@, s2)
                        == contains_session(old(db).registered_keys@, s2)
                &&& final(db).serialized_keys.spec_get(session.0) is None
                &&& forall|k2: u32|
                    k2 != session.0 ==> final(db).serialized_keys.spec_get(k2) == old(db).serialized_keys.spec_get(k2)
                &&& final(db).to_cleanup@ == old(db).to_cleanup@.push((session, external_key))
            },
            SignerDb::channels_eq(*final(db), *old(db)),
    {
        let expected: u32 = match db.latest_retired {
            Some(last) => {
                if last.0 == 0xffff_ffff {
                    return Err(RetireError::OutOfOrder);
                }
                last.0 + 1
            }
            None => 0,
        };
        if session.0 != expected {
            return Err(RetireError::OutOfOrder);
        }
        db.latest_retired = Some(session);
        let kept = remove_session(&db.registered_keys, session);
        db.registered_keys = kept;
        let removed = db.serialized_keys.remove(session.0);
        match removed {
            Some(mut blob) => {
                crate::curve::zeroize_bytes(&mut blob);
            }
            None => {}
        }
        db.to_cleanup.push((session, external_key));
        Ok(())
    }

    /// Queue a coordinator message for the task its artifact identity names,
    /// and wake that task. Exactly one inbound channel gains the message, at
    /// the message's session; every other channel, row and session is left
    /// as it was.
    pub fn queue_message(&mut self, db: &mut SignerDb, message: CoordinatorMessage)
        requires
            old(self).wf(),
            old(db).wf(),
        ensures
            final(self).wf(),
            final(db).wf(),
            ({
                let s = message.spec_sign_id().session.0;
                let which: u8 = match message.spec_sign_id().id {
                    VariantSignId::Cosign(_) => 0,
                    VariantSignId::Batch(_) => 1,
                    VariantSignId::SlashReport => 2,
                    VariantSignId::Transaction(_) => 3,
                };
                // The chosen channel gains exactly this message at this
                // session; the other three inbound channels are untouched.
                &&& (match message.spec_sign_id().id {
                    VariantSignId::Cosign(_) => {
                        &&& final(db).coordinator_to_cosigner_messages.sent_of(s) == old(db).coordinator_to_cosigner_messages.sent_of(s).push(message)
                        &&& final(db).coordinator_to_cosigner_messages.received_of(s) == old(db).coordinator_to_cosigner_messages.received_of(s)
                        &&& forall|k2: u32| #![auto]
                            k2 != s ==> final(db).coordinator_to_cosigner_messages.sent_of(k2)
                                == old(db).coordinator_to_cosigner_messages.sent_of(k2) && final(db).coordinator_to_cosigner_messages.received_of(k2) == old(db).coordinator_to_cosigner_messages.received_of(k2)
                        &&& final(db).coordinator_to_batch_signer_messages == old(db).coordinator_to_batch_signer_messages
                        &&& final(db).coordinator_to_slash_report_signer_messages == old(db).coordinator_to_slash_report_signer_messages
                        &&& final(db).coordinator_to_transaction_signer_messages == old(db).coordinator_to_transaction_signer_messages
                    },
                    VariantSignId::Batch(_) => {
                        &&& final(db).coordinator_to_batch_signer_messages.sent_of(s) == old(db).coordinator_to_batch_signer_messages.sent_of(s).push(message)
                        &&& final(db).coordinator_to_batch_signer_messages.received_of(s) == old(db).coordinator_to_batch_signer_messages.received_of(s)
                        &&& forall|k2: u32| #![auto]
                            k2 != s ==> final(db).coordinator_to_batch_signer_messages.sent_of(
                                k2,
                            ) == old(db).coordinator_to_batch_signer_messages.sent_of(k2)
                                && final(db).coordinator_to_batch_signer_messages.received_of(
                                k2,
                            ) == old(db).coordinator_to_batch_signer_messages.received_of(k2)
                        &&& final(db).coordinator_to_cosigner_messages == old(db).coordinator_to_cosigner_messages
                        &&& final(db).coordinator_to_slash_report_signer_messages == old(db).coordinator_to_slash_report_signer_messages
                        &&& final(db).coordinator_to_transaction_signer_messages == old(db).coordinator_to_transaction_signer_messages
                    },
                    VariantSignId::SlashReport => {
                        &&& final(db).coordinator_to_slash_report_signer_messages.sent_of(s)
                            == old(db).coordinator_to_slash_report_signer_messages.sent_of(
                            s,
                        ).push(message)
                        &&& final(db).coordinator_to_slash_report_signer_messages.received_of(s)
                            == old(db).coordinator_to_slash_report_signer_messages.received_of(s)
                        &&& forall|k2: u32| #![auto]
                            k2 != s ==> final(db).coordinator_to_slash_report_signer_messages.sent_of(k2) == old(db).coordinator_to_slash_report_signer_messages.sent_of(k2) && final(db).coordinator_to_slash_report_signer_messages.received_of(k2) == old(db).coordinator_to_slash_report_signer_messages.received_of(k2)
                        &&& final(db).coordinator_to_cosigner_messages == old(db).coordinator_to_cosigner_messages
                        &&& final(db).coordinator_to_batch_signer_messages == old(db).coordinator_to_batch_signer_messages
                        &&& final(db).coordinator_to_transaction_signer_messages == old(db).coordinator_to_transaction_signer_messages
                    },
                    VariantSignId::Transaction(_) => {
                        &&& final(db).coordinator_to_transaction_signer_messages.sent_of(s)
                            == old(db).coordinator_to_transaction_signer_messages.sent_of(
                            s,
                        ).push(message)
                        &&& final(db).coordinator_to_transaction_signer_messages.received_of(s)
                            == old(db).coordinator_to_transaction_signer_messages.received_of(s)
                        &&& forall|k2: u32| #![auto]
                            k2 != s ==> final(db).coordinator_to_transaction_signer_messages.sent_of(k2) == old(db).coordinator_to_transaction_signer_messages.sent_of(k2) && final(db).coordinator_to_transaction_signer_messages.received_of(k2) == old(db).coordinator_to_transaction_signer_messages.received_of(k2)
                        &&& final(db).coordinator_to_cosigner_messages == old(db).coordinator_to_cosigner_messages
                        &&& final(db).coordinator_to_batch_signer_messages == old(db).coordinator_to_batch_signer_messages
                        &&& final(db).coordinator_to_slash_report_signer_messages == old(db).coordinator_to_slash_report_signer_messages
                    },
                })
                // The matching task, if spawned, is woken; nothing else of
                // the wake state moves.
                &&& (match old(self).spec_tasks(s) {
                    Some(t) => final(self).spec_tasks(s) == Some(spec_wake(t, which)),
                    None => *final(self) == *old(self),
                })
                &&& forall|s2: u32|
                    s2 != s ==> final(self).spec_tasks(s2) == old(self).spec_tasks(s2)
            }),
            SignerDb::non_inbound_eq(*final(db), *old(db)),
            SignerDb::rows_eq(*final(db), *old(db)),
            final(db).to_cleanup@ == old(db).to_cleanup@,
    {
        let s = message.sign_id().session.0;
        let id = message.sign_id().id;
        match id {
            VariantSignId::Cosign(_) => {
                db.coordinator_to_cosigner_messages.send(s, message);
                self.wake(s, 0);
            }
            VariantSignId::Batch(_) => {
                db.coordinator_to_batch_signer_messages.send(s, message);
                self.wake(s, 1);
            }
            VariantSignId::SlashReport => {
                db.coordinator_to_slash_report_signer_messages.send(s, message);
                self.wake(s, 2);
            }
            VariantSignId::Transaction(_) => {
                db.coordinator_to_transaction_signer_messages.send(s, message);
                self.wake(s, 3);
            }
        }
    }

    /// Ask a session to cosign a block. Only the latest request per session
    /// is kept: a newer block supersedes an unfinished older one.
    pub fn cosign_block(
        &mut self,
        db: &mut SignerDb,
        session: Session,
        block_number: u64,
        block: [u8; 32],
    )
        requires
            old(self).wf(),
            old(db).wf(),
        ensures
            final(self).wf(),
            final(db).wf(),
            final(db).to_cosign.spec_get(session.0) == Some(
                crate::db::Cosign { block_number, block_hash: block },
            ),
            forall|k2: u32|
                k2 != session.0 ==> final(db).to_cosign.spec_get(k2) == old(db).to_cosign.spec_get(k2),
            SignerDb::rows_eq(*final(db), *old(db)),
            final(db).to_cleanup@ == old(db).to_cleanup@,
            // Every channel is untouched; the cosigner task, if spawned, is
            // woken.
            SignerDb::inbound_eq(*final(db), *old(db)),
            final(db).cosign == old(db).cosign,
            final(db).slash_report == old(db).slash_report,
            final(db).latest_cosigned == old(db).latest_cosigned,
            final(db).cosigner_to_coordinator_messages == old(db).cosigner_to_coordinator_messages,
            final(db).batch_signer_to_coordinator_messages == old(db).batch_signer_to_coordinator_messages,
            final(db).slash_report_signer_to_coordinator_messages == old(db).slash_report_signer_to_coordinator_messages,
            final(db).transaction_signer_to_coordinator_messages == old(db).transaction_signer_to_coordinator_messages,
            final(db).batches_to_sign == old(db).batches_to_sign,
            final(db).acknowledged_batches == old(db).acknowledged_batches,
            final(db).transactions_to_sign == old(db).transactions_to_sign,
            final(db).completed_eventualities == old(db).completed_eventualities,
            match old(self).spec_tasks(session.0) {
                Some(t) => final(self).spec_tasks(session.0) == Some(spec_wake(t, 0)),
                None => *final(self) == *old(self),
            },
            forall|s2: u32|
                s2 != session.0 ==> final(self).spec_tasks(s2) == old(self).spec_tasks(s2),
    {
        db.to_cosign.set(session.0, crate::db::Cosign { block_number, block_hash: block });
        self.wake(session.0, 0);
    }

    /// Ask a session to sign a slash report; at most one is signed per
    /// session, driven by this intent channel.
    pub fn sign_slash_report(&mut self, db: &mut SignerDb, session: Session, report: Vec<Slash>)
        requires
            old(self).wf(),
            old(db).wf(),
        ensures
            final(self).wf(),
            final(db).wf(),
            final(db).slash_report.sent_of(session.0) == old(db).slash_report.sent_of(
                session.0,
            ).push(report),
            final(db).slash_report.received_of(session.0) == old(db).slash_report.received_of(
                session.0,
            ),
            forall|k2: u32| #![auto]
                k2 != session.0 ==> final(db).slash_report.sent_of(k2) == old(db).slash_report.sent_of(k2) && final(db).slash_report.received_of(k2) == old(db).slash_report.received_of(k2),
            SignerDb::rows_eq(*final(db), *old(db)),
            final(db).to_cleanup@ == old(db).to_cleanup@,
            // Every other channel and row is untouched; the slash-report
            // task, if spawned, is woken.
            SignerDb::inbound_eq(*final(db), *old(db)),
            final(db).to_cosign == old(db).to_cosign,
            final(db).cosign == old(db).cosign,
            final(db).latest_cosigned == old(db).latest_cosigned,
            final(db).cosigner_to_coordinator_messages == old(db).cosigner_to_coordinator_messages,
            final(db).batch_signer_to_coordinator_messages == old(db).batch_signer_to_coordinator_messages,
            final(db).slash_report_signer_to_coordinator_messages == old(db).slash_report_signer_to_coordinator_messages,
            final(db).transaction_signer_to_coordinator_messages == old(db).transaction_signer_to_coordinator_messages,
            final(db).batches_to_sign == old(db).batches_to_sign,
            final(db).acknowledged_batches == old(db).acknowledged_batches,
            final(db).transactions_to_sign == old(db).transactions_to_sign,
            final(db).completed_eventualities == old(db).completed_eventualities,
            match old(self).spec_tasks(session.0) {
                Some(t) => final(self).spec_tasks(session.0) == Some(spec_wake(t, 2)),
                None => *final(self) == *old(self),
            },
            forall|s2: u32|
                s2 != session.0 ==> final(self).spec_tasks(s2) == old(self).spec_tasks(s2),
    {
        db.slash_report.send(session.0, report);
        self.wake(session.0, 2);
    }

    /// Set the wake flag of one of a session's tasks, if spawned.
    fn wake(&mut self, s: u32, which: u8)
        requires
            old(self).wf(),
        ensures
            final(self).wf(),
            match old(self).spec_tasks(s) {
                Some(t) => final(self).spec_tasks(s) == Some(spec_wake(t, which)),
                None => *final(self) == *old(self),
            },
            forall|s2: u32| s2 != s ==> final(self).spec_tasks(s2) == old(self).spec_tasks(s2),
    {
        let existing = self.tasks.get(s);
        match existing {
            Some(t) => {
                let mut t = *t;
                if which == 0 {
                    t.cosigner = true;
                } else if which == 1 {
                    t.batch = true;
                } else if which == 2 {
                    t.slash_report = true;
                } else {
                    t.transaction = true;
                }
                self.tasks.set(s, t);
            }
            None => {}
        }
    }

    /// Take a task's wake flags for a session, clearing them: the caller
    /// runs the tasks whose flags were set.
    pub fn take_wakes(&mut self, s: u32) -> (r: Option<Tasks>)
        requires
            old(self).wf(),
        ensures
            final(self).wf(),
            r == old(self).spec_tasks(s),
            match r {
                Some(_) => final(self).spec_tasks(s) == Some(Tasks::spec_fresh()),
                None => *final(self) == *old(self),
            },
            forall|s2: u32| s2 != s ==> final(self).spec_tasks(s2) == old(self).spec_tasks(s2),
    {
        let existing = self.tasks.get(s);
        match existing {
            Some(t) => {
                let t = *t;
                self.tasks.set(s, Tasks::new());
                Some(t)
            }
            None => None,
        }
    }
}

} // verus!
