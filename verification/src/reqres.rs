//! The request-response protocol between coordinators: heartbeats asking
//! peers for blocks, and queries for the notable cosigns of a global
//! session. Messages travel behind a little-endian length prefix, capped per
//! protocol, with trailing bytes rejected.

use vstd::prelude::*;
use vstd::bytes::*;

use crate::batches::NetworkId;
use crate::db::{Cosign, SignedCosign};
use crate::ids::Session;

verus! {

broadcast use vstd::array::group_array_axioms;

/// A heartbeat: the sender's view of one tributary, inviting newer blocks.
#[derive(Clone, Copy, PartialEq, Eq, Debug)]
pub struct Heartbeat {
    pub network: NetworkId,
    pub session: Session,
    pub latest_block_hash: [u8; 32],
}

/// A tributary block and its commit.
#[derive(Clone, PartialEq, Eq, Debug)]
pub struct TributaryBlockWithCommit {
    pub block: Vec<u8>,
    pub commit: Vec<u8>,
}

/// Requests which can be made via the request-response protocol.
#[derive(Clone, Copy, PartialEq, Eq, Debug)]
pub enum Request {
    /// A heartbeat informing our peers of our latest block; peers with more
    /// blocks are expected to respond with them.
    Heartbeat(Heartbeat),
    /// A request for the notable cosigns of a global session.
    NotableCosigns { global_session: [u8; 32] },
}

/// Responses which can be received via the request-response protocol.
#[derive(Clone, PartialEq, Eq, Debug)]
pub enum Response {
    /// Nothing to answer with.
    Empty,
    /// The blocks a heartbeat asked for.
    Blocks(Vec<TributaryBlockWithCommit>),
    /// The notable cosigns of a global session.
    NotableCosigns(Vec<SignedCosign>),
}

/// A byte string behind its little-endian length.
pub open spec fn bytes_rec(b: Seq<u8>) -> Seq<u8> {
    spec_u32_to_le_bytes(b.len() as u32) + b
}

/// The canonical bytes of a heartbeat.
pub open spec fn heartbeat_bytes(h: Heartbeat) -> Seq<u8> {
    h.network.encoded() + spec_u32_to_le_bytes(h.session.0) + h.latest_block_hash@
}

/// The canonical bytes of a request.
pub open spec fn request_bytes(r: Request) -> Seq<u8> {
    match r {
        Request::Heartbeat(h) => seq![0u8] + heartbeat_bytes(h),
        Request::NotableCosigns { global_session } => seq![1u8] + global_session@,
    }
}

/// The canonical bytes of a block-with-commit.
pub open spec fn block_with_commit_bytes(b: TributaryBlockWithCommit) -> Seq<u8> {
    bytes_rec(b.block@) + bytes_rec(b.commit@)
}

/// The canonical bytes of a signed cosign.
pub open spec fn signed_cosign_bytes(c: SignedCosign) -> Seq<u8> {
    spec_u64_to_le_bytes(c.cosign.block_number) + c.cosign.block_hash@ + bytes_rec(c.signature@)
}

/// The concatenated bytes of a list of blocks-with-commits.
pub open spec fn blocks_bytes(bs: Seq<TributaryBlockWithCommit>) -> Seq<u8>
    decreases bs.len(),
{
    if bs.len() == 0 {
        Seq::empty()
    } else {
        blocks_bytes(bs.drop_last()) + block_with_commit_bytes(bs.last())
    }
}

/// The concatenated bytes of a list of signed cosigns.
pub open spec fn cosigns_bytes(cs: Seq<SignedCosign>) -> Seq<u8>
    decreases cs.len(),
{
    if cs.len() == 0 {
        Seq::empty()
    } else {
        cosigns_bytes(cs.drop_last()) + signed_cosign_bytes(cs.last())
    }
}

/// The canonical bytes of a response: a tag, then for the list-carrying
/// variants the element count and the elements.
pub open spec fn response_bytes(r: Response) -> Seq<u8> {
    match r {
        Response::Empty => seq![0u8],
        Response::Blocks(bs) => seq![1u8] + spec_u32_to_le_bytes(bs@.len() as u32) + blocks_bytes(
            bs@,
        ),
        Response::NotableCosigns(cs) => seq![2u8] + spec_u32_to_le_bytes(cs@.len() as u32)
            + cosigns_bytes(cs@),
    }
}

/// Append a byte string behind its length.
fn append_rec(to: &mut Vec<u8>, b: &Vec<u8>)
    requires
        b@.len() < 0x1_0000_0000,
    ensures
        final(to)@ == old(to)@ + bytes_rec(b@),
{
    let mut len_bytes = u32_to_le_bytes(b.len() as u32);
    to.append(&mut len_bytes);
    let mut body = vstd::slice::slice_to_vec(b.as_slice());
    to.append(&mut body);
    proof {
        assert(final(to)@ =~= old(to)@ + bytes_rec(b@));
    }
}

/// Append 32 bytes.
fn append_hash(to: &mut Vec<u8>, b: &[u8; 32])
    ensures
        final(to)@ == old(to)@ + b@,
{
    let mut v = vstd::slice::slice_to_vec(vstd::array::array_as_slice(b));
    to.append(&mut v);
}

/// Serialize a request.
pub fn encode_request(r: &Request) -> (out: Vec<u8>)
    ensures
        out@ == request_bytes(*r),
{
    let mut out: Vec<u8> = Vec::new();
    match r {
        Request::Heartbeat(h) => {
            out.push(0u8);
            out.push(h.network.encode());
            let mut session = u32_to_le_bytes(h.session.0);
            out.append(&mut session);
            append_hash(&mut out, &h.latest_block_hash);
            proof {
                assert(out@ =~= request_bytes(*r));
            }
        }
        Request::NotableCosigns { global_session } => {
            out.push(1u8);
            append_hash(&mut out, global_session);
            proof {
                assert(out@ =~= request_bytes(*r));
            }
        }
    }
    out
}

/// Copy 32 bytes out of a buffer.
fn take32(bytes: &Vec<u8>, pos: usize) -> (r: [u8; 32])
    requires
        pos + 32 <= bytes@.len(),
    ensures
        r@ == bytes@.subrange(pos as int, pos + 32),
{
    let blen = bytes.len();
    let mut r = [0u8; 32];
    let mut k: usize = 0;
    while k < 32
        invariant
            pos + 32 <= blen,
            blen == bytes@.len(),
            k <= 32,
            forall|j: int| 0 <= j < k ==> r@[j] == bytes@[pos + j],
        decreases 32 - k,
    {
        r[k] = bytes[pos + k];
        k += 1;
    }
    proof {
        assert(r@ =~= bytes@.subrange(pos as int, pos + 32));
    }
    r
}

/// Parse a request. Success demands exactly a request's bytes, nothing
/// more; a buffer shaped like a request's encoding always parses.
pub fn decode_request(bytes: &Vec<u8>) -> (r: Option<Request>)
    ensures
        match r {
            Some(m) => bytes@ == request_bytes(m),
            None => !(bytes@.len() >= 1 && ((bytes@[0] == 0 && bytes@.len() == 38 && bytes@[1]
                <= 3) || (bytes@[0] == 1 && bytes@.len() == 33))),
        },
{
    if bytes.len() == 0 {
        return None;
    }
    let tag = bytes[0];
    if tag == 0 {
        if bytes.len() != 38 {
            return None;
        }
        let network = match bytes[1] {
            0 => NetworkId::Serai,
            1 => NetworkId::Bitcoin,
            2 => NetworkId::Ethereum,
            3 => NetworkId::Monero,
            _ => {
                return None;
            }
        };
        let session_slice = vstd::slice::slice_subrange(bytes.as_slice(), 2, 6);
        let session = u32_from_le_bytes(session_slice);
        let latest_block_hash = take32(bytes, 6);
        let h = Heartbeat { network, session: Session(session), latest_block_hash };
        proof {
            lemma_auto_spec_u32_to_from_le_bytes();
            assert(spec_u32_to_le_bytes(session) =~= bytes@.subrange(2, 6));
            assert(bytes@ =~= request_bytes(Request::Heartbeat(h)));
        }
        Some(Request::Heartbeat(h))
    } else if tag == 1 {
        if bytes.len() != 33 {
            return None;
        }
        let global_session = take32(bytes, 1);
        proof {
            assert(bytes@ =~= request_bytes(Request::NotableCosigns { global_session }));
        }
        Some(Request::NotableCosigns { global_session })
    } else {
        None
    }
}

/// Serialize a response.
pub fn encode_response(r: &Response) -> (out: Vec<u8>)
    requires
        match *r {
            Response::Empty => true,
            Response::Blocks(bs) => bs@.len() < 0x1_0000_0000 && forall|i: int|
                0 <= i < bs@.len() ==> (#[trigger] bs@[i]).block@.len() < 0x1_0000_0000
                    && bs@[i].commit@.len() < 0x1_0000_0000,
            Response::NotableCosigns(cs) => cs@.len() < 0x1_0000_0000 && forall|i: int|
                0 <= i < cs@.len() ==> (#[trigger] cs@[i]).signature@.len() < 0x1_0000_0000,
        },
    ensures
        out@ == response_bytes(*r),
{
    let mut out: Vec<u8> = Vec::new();
    match r {
        Response::Empty => {
            out.push(0u8);
            proof {
                assert(out@ =~= response_bytes(*r));
            }
        }
        Response::Blocks(bs) => {
            out.push(1u8);
            let mut count = u32_to_le_bytes(bs.len() as u32);
            out.append(&mut count);
            let n = bs.len();
            let mut i: usize = 0;
            proof {
                assert(blocks_bytes(bs@.take(0)) =~= Seq::<u8>::empty());
                assert(out@ =~= seq![1u8] + spec_u32_to_le_bytes(bs@.len() as u32)
                    + blocks_bytes(bs@.take(0)));
            }
            while i < n
                invariant
                    n == bs@.len(),
                    i <= n,
                    forall|k: int|
                        0 <= k < n ==> (#[trigger] bs@[k]).block@.len() < 0x1_0000_0000
                            && bs@[k].commit@.len() < 0x1_0000_0000,
                    out@ == seq![1u8] + spec_u32_to_le_bytes(bs@.len() as u32) + blocks_bytes(
                        bs@.take(i as int),
                    ),
                decreases n - i,
            {
                append_rec(&mut out, &bs[i].block);
                append_rec(&mut out, &bs[i].commit);
                proof {
                    assert(bs@.take(i + 1 as int).drop_last() =~= bs@.take(i as int));
                    assert(bs@.take(i + 1 as int).last() == bs@[i as int]);
                    assert(out@ =~= seq![1u8] + spec_u32_to_le_bytes(bs@.len() as u32)
                        + blocks_bytes(bs@.take(i + 1 as int)));
                }
                i += 1;
            }
            proof {
                assert(bs@.take(n as int) =~= bs@);
            }
        }
        Response::NotableCosigns(cs) => {
            out.push(2u8);
            let mut count = u32_to_le_bytes(cs.len() as u32);
            out.append(&mut count);
            let n = cs.len();
            let mut i: usize = 0;
            proof {
                assert(cosigns_bytes(cs@.take(0)) =~= Seq::<u8>::empty());
                assert(out@ =~= seq![2u8] + spec_u32_to_le_bytes(cs@.len() as u32)
                    + cosigns_bytes(cs@.take(0)));
            }
            while i < n
                invariant
                    n == cs@.len(),
                    i <= n,
                    forall|k: int|
                        0 <= k < n ==> (#[trigger] cs@[k]).signature@.len() < 0x1_0000_0000,
                    out@ == seq![2u8] + spec_u32_to_le_bytes(cs@.len() as u32) + cosigns_bytes(
                        cs@.take(i as int),
                    ),
                decreases n - i,
            {
                let mut num = u64_to_le_bytes(cs[i].cosign.block_number);
                out.append(&mut num);
                append_hash(&mut out, &cs[i].cosign.block_hash);
                append_rec(&mut out, &cs[i].signature);
                proof {
                    assert(cs@.take(i + 1 as int).drop_last() =~= cs@.take(i as int));
                    assert(cs@.take(i + 1 as int).last() == cs@[i as int]);
                    assert(out@ =~= seq![2u8] + spec_u32_to_le_bytes(cs@.len() as u32)
                        + cosigns_bytes(cs@.take(i + 1 as int)));
                }
                i += 1;
            }
            proof {
                assert(cs@.take(n as int) =~= cs@);
            }
        }
    }
    out
}

/// Read one length-prefixed byte string. Reading fails exactly when the
/// buffer cannot hold the length field or the body it announces.
fn take_rec(bytes: &Vec<u8>, pos: usize) -> (r: Option<(Vec<u8>, usize)>)
    requires
        pos <= bytes@.len(),
    ensures
        match r {
            Some((body, end)) => {
                &&& pos < end <= bytes@.len()
                &&& body@.len() < 0x1_0000_0000
                &&& end == pos + 4 + body@.len()
                &&& bytes@.subrange(pos as int, end as int) == bytes_rec(body@)
            },
            None => bytes@.len() - pos < 4 || bytes@.len() - pos - 4 < spec_u32_from_le_bytes(
                bytes@.subrange(pos as int, pos + 4),
            ),
        },
{
    if bytes.len() - pos < 4 {
        return None;
    }
    let len_slice = vstd::slice::slice_subrange(bytes.as_slice(), pos, pos + 4);
    let len = u32_from_le_bytes(len_slice) as usize;
    if bytes.len() - pos - 4 < len {
        return None;
    }
    let body = vstd::slice::slice_to_vec(
        vstd::slice::slice_subrange(bytes.as_slice(), pos + 4, pos + 4 + len),
    );
    let end = pos + 4 + len;
    proof {
        lemma_auto_spec_u32_to_from_le_bytes();
        assert(len_slice@ == bytes@.subrange(pos as int, pos + 4));
        assert(bytes@.subrange(pos as int, end as int) =~= bytes_rec(body@));
    }
    Some((body, end))
}

/// Every field of a response fits its length prefix.
pub open spec fn response_bounded(resp: Response) -> bool {
    match resp {
        Response::Empty => true,
        Response::Blocks(bs) => bs@.len() < 0x1_0000_0000 && forall|i: int|
            0 <= i < bs@.len() ==> (#[trigger] bs@[i]).block@.len() < 0x1_0000_0000
                && bs@[i].commit@.len() < 0x1_0000_0000,
        Response::NotableCosigns(cs) => cs@.len() < 0x1_0000_0000 && forall|i: int|
            0 <= i < cs@.len() ==> (#[trigger] cs@[i]).signature@.len() < 0x1_0000_0000,
    }
}

/// A block-with-commit list's bytes are a share-pair blob: each element is
/// two length-prefixed records.
spec fn blocks_as_pairs(bs: Seq<TributaryBlockWithCommit>) -> Seq<(Seq<u8>, Seq<u8>)> {
    Seq::new(bs.len(), |i: int| (bs[i].block@, bs[i].commit@))
}

proof fn lemma_blocks_bytes_as_pairs(bs: Seq<TributaryBlockWithCommit>)
    ensures
        blocks_bytes(bs) == crate::signers::keys_blob(blocks_as_pairs(bs)),
    decreases bs.len(),
{
    if bs.len() == 0 {
        assert(blocks_as_pairs(bs) =~= Seq::<(Seq<u8>, Seq<u8>)>::empty());
    } else {
        lemma_blocks_bytes_as_pairs(bs.drop_last());
        crate::signers::lemma_keys_blob_push(
            blocks_as_pairs(bs.drop_last()),
            (bs.last().block@, bs.last().commit@),
        );
        assert(blocks_as_pairs(bs) =~= blocks_as_pairs(bs.drop_last()).push(
            (bs.last().block@, bs.last().commit@),
        ));
        assert(bytes_rec(bs.last().block@) =~= crate::signers::share_rec(bs.last().block@));
        assert(bytes_rec(bs.last().commit@) =~= crate::signers::share_rec(bs.last().commit@));
        assert(blocks_bytes(bs) =~= crate::signers::keys_blob(blocks_as_pairs(bs)));
    }
}

/// A parsed prefix of a signed-cosign list's bytes aligns with whole
/// elements: what remains is the bytes of the remaining elements.
proof fn lemma_cosigns_align(full: Seq<SignedCosign>, parsed: Seq<SignedCosign>)
    requires
        forall|i: int| 0 <= i < full.len() ==> (#[trigger] full[i]).signature@.len()
            < 0x1_0000_0000,
        forall|i: int| 0 <= i < parsed.len() ==> (#[trigger] parsed[i]).signature@.len()
            < 0x1_0000_0000,
        cosigns_bytes(parsed).is_prefix_of(cosigns_bytes(full)),
    ensures
        parsed.len() <= full.len(),
        cosigns_bytes(full).skip(cosigns_bytes(parsed).len() as int) == cosigns_bytes(
            full.skip(parsed.len() as int),
        ),
    decreases parsed.len(),
{
    lemma_auto_spec_u32_to_from_le_bytes();
    lemma_auto_spec_u64_to_from_le_bytes();
    lemma_cosigns_bytes_front(parsed);
    lemma_cosigns_bytes_front(full);
    if parsed.len() > 0 {
        assert(cosigns_bytes_front(parsed) == signed_cosign_bytes(parsed[0])
            + cosigns_bytes_front(parsed.skip(1)));
    }
    if full.len() > 0 {
        assert(cosigns_bytes_front(full) == signed_cosign_bytes(full[0]) + cosigns_bytes_front(
            full.skip(1),
        ));
    }
    if parsed.len() == 0 {
        assert(cosigns_bytes(parsed) =~= Seq::<u8>::empty());
        assert(cosigns_bytes(full).skip(0) =~= cosigns_bytes(full));
        assert(full.skip(0) =~= full);
    } else {
        let p0 = cosigns_bytes(parsed);
        let f0 = cosigns_bytes(full);
        assert(p0.len() >= 44) by {
            assert(signed_cosign_bytes(parsed[0]).len() >= 44);
        }
        if full.len() == 0 {
            assert(f0 =~= Seq::<u8>::empty());
            assert(false);
        }
        // The signature length fields coincide, so the first elements
        // occupy the same bytes.
        assert(p0.subrange(40, 44) =~= spec_u32_to_le_bytes(parsed[0].signature@.len() as u32));
        assert(f0.subrange(40, 44) =~= spec_u32_to_le_bytes(full[0].signature@.len() as u32));
        assert(p0.subrange(40, 44) =~= f0.subrange(40, 44));
        assert(parsed[0].signature@.len() == full[0].signature@.len());
        let head = 44 + parsed[0].signature@.len() as int;
        lemma_cosigns_bytes_front(parsed.skip(1));
        lemma_cosigns_bytes_front(full.skip(1));
        assert(signed_cosign_bytes(parsed[0]).len() == head);
        assert(signed_cosign_bytes(full[0]).len() == head);
        assert(cosigns_bytes(parsed.skip(1)) =~= p0.skip(head));
        assert(cosigns_bytes(full.skip(1)) =~= f0.skip(head));
        assert forall|i: int|
            0 <= i < parsed.skip(1).len() implies (#[trigger] parsed.skip(1)[i]).signature@.len()
            < 0x1_0000_0000 by {
            assert(parsed.skip(1)[i] == parsed[i + 1]);
        }
        assert forall|i: int|
            0 <= i < full.skip(1).len() implies (#[trigger] full.skip(1)[i]).signature@.len()
            < 0x1_0000_0000 by {
            assert(full.skip(1)[i] == full[i + 1]);
        }
        assert(cosigns_bytes(parsed.skip(1)).is_prefix_of(cosigns_bytes(full.skip(1)))) by {
            assert(cosigns_bytes(parsed.skip(1)) =~= cosigns_bytes(full.skip(1)).subrange(
                0,
                cosigns_bytes(parsed.skip(1)).len() as int,
            ));
        }
        lemma_cosigns_align(full.skip(1), parsed.skip(1));
        assert(full.skip(1).skip(parsed.skip(1).len() as int) =~= full.skip(parsed.len() as int));
        assert(f0.skip(p0.len() as int) =~= cosigns_bytes(full.skip(1)).skip(
            cosigns_bytes(parsed.skip(1)).len() as int,
        ));
    }
}

/// The signed-cosign bytes, unrolled from the front.
spec fn cosigns_bytes_front(cs: Seq<SignedCosign>) -> Seq<u8>
    decreases cs.len(),
{
    if cs.len() == 0 {
        Seq::empty()
    } else {
        signed_cosign_bytes(cs[0]) + cosigns_bytes_front(cs.skip(1))
    }
}

/// The drop-last and front unrollings of the signed-cosign bytes agree.
proof fn lemma_cosigns_bytes_front(cs: Seq<SignedCosign>)
    ensures
        cosigns_bytes(cs) == cosigns_bytes_front(cs),
    decreases cs.len(),
{
    if cs.len() == 0 {
    } else if cs.len() == 1 {
        assert(cs.drop_last() =~= Seq::<SignedCosign>::empty());
        assert(cs.skip(1) =~= Seq::<SignedCosign>::empty());
        assert(cosigns_bytes(cs.drop_last()) == Seq::<u8>::empty());
        assert(cosigns_bytes_front(cs.skip(1)) == Seq::<u8>::empty());
        assert(cs.last() == cs[0]);
        assert(cosigns_bytes(cs) =~= cosigns_bytes_front(cs));
    } else {
        lemma_cosigns_bytes_front(cs.drop_last());
        lemma_cosigns_bytes_front(cs.skip(1));
        assert(cs.skip(1).drop_last() =~= cs.drop_last().skip(1));
        lemma_cosigns_bytes_front(cs.drop_last().skip(1));
        assert(cs.drop_last()[0] == cs[0]);
        assert(cs.skip(1).last() == cs.last());
        assert(cosigns_bytes(cs) =~= cosigns_bytes_front(cs)) by {
            assert(cosigns_bytes(cs) == cosigns_bytes(cs.drop_last()) + signed_cosign_bytes(
                cs.last(),
            ));
            assert(cosigns_bytes(cs.drop_last()) == signed_cosign_bytes(cs[0])
                + cosigns_bytes_front(cs.drop_last().skip(1)));
            assert(cosigns_bytes_front(cs) == signed_cosign_bytes(cs[0]) + cosigns_bytes_front(
                cs.skip(1),
            ));
            assert(cosigns_bytes_front(cs.skip(1)) == cosigns_bytes(cs.skip(1)));
            assert(cosigns_bytes(cs.skip(1)) == cosigns_bytes(cs.drop_last().skip(1))
                + signed_cosign_bytes(cs.last()));
            assert(cosigns_bytes(cs.drop_last().skip(1)) == cosigns_bytes_front(
                cs.drop_last().skip(1),
            ));
        }
    }
}

/// Parse a response. Success demands exactly a response's bytes: a bad tag,
/// a short buffer or trailing bytes are rejected. A buffer that is the
/// serialization of a response always parses.
pub fn decode_response(bytes: &Vec<u8>) -> (r: Option<Response>)
    ensures
        match r {
            Some(m) => bytes@ == response_bytes(m),
            None => true,
        },
        forall|resp: Response|
            response_bounded(resp) && bytes@ == #[trigger] response_bytes(resp) ==> r is Some,
{
    if bytes.len() == 0 {
        return None;
    }
    let tag = bytes[0];
    if tag == 0 {
        if bytes.len() != 1 {
            proof {
                assert forall|resp: Response|
                    response_bounded(resp) && bytes@ == #[trigger] response_bytes(
                        resp,
                    ) implies false by {
                    match resp {
                        Response::Empty => {
                            assert(bytes@.len() == 1);
                        }
                        Response::Blocks(_) => {
                            assert(bytes@[0] == 1);
                        }
                        Response::NotableCosigns(_) => {
                            assert(bytes@[0] == 2);
                        }
                    }
                }
            }
            return None;
        }
        proof {
            assert(bytes@ =~= response_bytes(Response::Empty));
        }
        Some(Response::Empty)
    } else if tag == 1 {
        if bytes.len() < 5 {
            proof {
                lemma_auto_spec_u32_to_from_le_bytes();
                assert forall|resp: Response|
                    response_bounded(resp) && bytes@ == #[trigger] response_bytes(
                        resp,
                    ) implies false by {
                    match resp {
                        Response::Empty => {
                            assert(bytes@.len() == 1);
                        }
                        Response::NotableCosigns(_) => {
                            assert(bytes@[0] == 2);
                        }
                        Response::Blocks(_) => {
                            assert(bytes@.len() >= 5);
                        }
                    }
                }
            }
            return None;
        }
        let count_slice = vstd::slice::slice_subrange(bytes.as_slice(), 1, 5);
        let count = u32_from_le_bytes(count_slice) as usize;
        let mut bs: Vec<TributaryBlockWithCommit> = Vec::new();
        let mut pos: usize = 5;
        proof {
            lemma_auto_spec_u32_to_from_le_bytes();
            assert(blocks_bytes(bs@.take(0)) =~= Seq::<u8>::empty());
            assert(bytes@.subrange(0, 5) =~= seq![1u8] + spec_u32_to_le_bytes(count as u32));
        }
        while bs.len() < count
            invariant
                pos <= bytes@.len(),
                bs@.len() <= count,
                count < 0x1_0000_0000,
                bytes@.len() >= 5,
                bytes@[0] == 1u8,
                bytes@.subrange(1, 5) == spec_u32_to_le_bytes(count as u32),
                bytes@.subrange(0, pos as int) == seq![1u8] + spec_u32_to_le_bytes(count as u32)
                    + blocks_bytes(bs@),
                forall|i: int|
                    0 <= i < bs@.len() ==> (#[trigger] bs@[i]).block@.len() < 0x1_0000_0000
                        && bs@[i].commit@.len() < 0x1_0000_0000,
            decreases count - bs@.len(),
        {
            proof {
                // Whenever the buffer encodes a block response, what
                // remains at the cursor encodes the remaining blocks, of
                // which at least one is due.
                lemma_auto_spec_u32_to_from_le_bytes();
                assert forall|resp: Response|
                    response_bounded(resp) && bytes@ == #[trigger] response_bytes(
                        resp,
                    ) implies {
                    match resp {
                        Response::Blocks(vs) => {
                            let rest = crate::signers::keys_blob(
                                blocks_as_pairs(vs@).skip(bs@.len() as int),
                            );
                            &&& vs@.len() == count
                            &&& bs@.len() < vs@.len()
                            &&& bytes@.subrange(pos as int, bytes@.len() as int) == rest
                            &&& blocks_as_pairs(vs@).skip(bs@.len() as int).len() > 0
                            &&& crate::signers::pairs_bounded(
                                blocks_as_pairs(vs@).skip(bs@.len() as int),
                            )
                        },
                        _ => false,
                    }
                } by {
                    match resp {
                        Response::Empty => {
                            assert(bytes@.len() == 1);
                        }
                        Response::NotableCosigns(_) => {
                            assert(bytes@[0] == 2);
                        }
                        Response::Blocks(vs) => {
                            assert(bytes@.subrange(1, 5) =~= spec_u32_to_le_bytes(
                                vs@.len() as u32,
                            ));
                            assert(vs@.len() == count);
                            lemma_blocks_bytes_as_pairs(bs@);
                            lemma_blocks_bytes_as_pairs(vs@);
                            let parsed = blocks_as_pairs(bs@);
                            let full = blocks_as_pairs(vs@);
                            assert(crate::signers::pairs_bounded(parsed));
                            assert(crate::signers::pairs_bounded(full));
                            assert(crate::signers::keys_blob(parsed).is_prefix_of(
                                crate::signers::keys_blob(full),
                            )) by {
                                assert(bytes@.subrange(5, bytes@.len() as int) =~= bytes@.skip(
                                    5,
                                ));
                                assert(crate::signers::keys_blob(full) =~= bytes@.subrange(
                                    5,
                                    bytes@.len() as int,
                                ));
                                assert(bytes@.subrange(5, pos as int) =~= bytes@.subrange(
                                    0,
                                    pos as int,
                                ).skip(5));
                                assert(crate::signers::keys_blob(parsed) =~= bytes@.subrange(
                                    5,
                                    pos as int,
                                ));
                                assert(crate::signers::keys_blob(parsed)
                                    =~= crate::signers::keys_blob(full).subrange(
                                    0,
                                    crate::signers::keys_blob(parsed).len() as int,
                                ));
                            }
                            crate::signers::lemma_keys_blob_align(full, parsed);
                            assert(bytes@.subrange(pos as int, bytes@.len() as int)
                                =~= crate::signers::keys_blob(full).skip(
                                crate::signers::keys_blob(parsed).len() as int,
                            ));
                            assert forall|i: int|
                                0 <= i < full.skip(bs@.len() as int).len() implies (
                            #[trigger] full.skip(bs@.len() as int)[i]).0.len() < 0x1_0000_0000
                                && full.skip(bs@.len() as int)[i].1.len() < 0x1_0000_0000 by {
                                assert(full.skip(bs@.len() as int)[i] == full[bs@.len() + i]);
                            }
                        }
                    }
                }
            }
            let first = take_rec(bytes, pos);
            let (block, mid) = match first {
                Some(v) => v,
                None => {
                    proof {
                        lemma_auto_spec_u32_to_from_le_bytes();
                        assert forall|resp: Response|
                            response_bounded(resp) && bytes@ == #[trigger] response_bytes(
                                resp,
                            ) implies false by {
                            match resp {
                                Response::Blocks(vs) => {
                                    let rest = blocks_as_pairs(vs@).skip(bs@.len() as int);
                                    let suffix = crate::signers::keys_blob(rest);
                                    assert(suffix.subrange(0, 4) =~= spec_u32_to_le_bytes(
                                        rest[0].0.len() as u32,
                                    ));
                                    assert(bytes@.subrange(pos as int, pos + 4) =~= suffix.subrange(
                                        0,
                                        4,
                                    ));
                                    assert(suffix.len() >= 8 + rest[0].0.len()
                                        + rest[0].1.len()) by {
                                        assert(crate::signers::share_rec(rest[0].1).len() >= 4);
                                    }
                                }
                                _ => {}
                            }
                        }
                    }
                    return None;
                }
            };
            proof {
                assert forall|resp: Response|
                    response_bounded(resp) && bytes@ == #[trigger] response_bytes(
                        resp,
                    ) implies {
                    match resp {
                        Response::Blocks(vs) => {
                            let rest = blocks_as_pairs(vs@).skip(bs@.len() as int);
                            &&& mid as int == pos + 4 + rest[0].0.len()
                            &&& bytes@.len() - mid >= 4 + rest[0].1.len()
                            &&& bytes@.subrange(mid as int, mid + 4) == spec_u32_to_le_bytes(
                                rest[0].1.len() as u32,
                            )
                        },
                        _ => false,
                    }
                } by {
                    lemma_auto_spec_u32_to_from_le_bytes();
                    match resp {
                        Response::Blocks(vs) => {
                            let rest = blocks_as_pairs(vs@).skip(bs@.len() as int);
                            let suffix = crate::signers::keys_blob(rest);
                            assert(suffix =~= bytes@.subrange(pos as int, bytes@.len() as int));
                            assert(suffix.subrange(0, 4) =~= spec_u32_to_le_bytes(
                                rest[0].0.len() as u32,
                            ));
                            assert(bytes@.subrange(pos as int, pos + 4) =~= suffix.subrange(
                                0,
                                4,
                            ));
                            assert(spec_u32_to_le_bytes(block@.len() as u32) =~= bytes@.subrange(
                                pos as int,
                                pos + 4,
                            ));
                            assert(block@.len() == rest[0].0.len());
                            let la = rest[0].0.len() as int;
                            assert(suffix.subrange(4 + la, 8 + la) =~= spec_u32_to_le_bytes(
                                rest[0].1.len() as u32,
                            ));
                            assert(bytes@.subrange(mid as int, mid + 4) =~= suffix.subrange(
                                4 + la,
                                8 + la,
                            ));
                            assert(suffix.len() >= 8 + la + rest[0].1.len()) by {
                                assert(crate::signers::share_rec(rest[0].1).len() == 4
                                    + rest[0].1.len());
                            }
                        }
                        _ => {}
                    }
                }
            }
            let second = take_rec(bytes, mid);
            let (commit, end) = match second {
                Some(v) => v,
                None => {
                    proof {
                        lemma_auto_spec_u32_to_from_le_bytes();
                        assert forall|resp: Response|
                            response_bounded(resp) && bytes@ == #[trigger] response_bytes(
                                resp,
                            ) implies false by {
                            match resp {
                                Response::Blocks(vs) => {
                                    let rest = blocks_as_pairs(vs@).skip(bs@.len() as int);
                                    assert(spec_u32_from_le_bytes(
                                        bytes@.subrange(mid as int, mid + 4),
                                    ) == rest[0].1.len());
                                }
                                _ => {}
                            }
                        }
                    }
                    return None;
                }
            };
            let ghost pre = bs@;
            let item = TributaryBlockWithCommit { block, commit };
            bs.push(item);
            proof {
                assert(bs@.drop_last() =~= pre);
                assert(bytes@.subrange(0, end as int) =~= bytes@.subrange(0, pos as int)
                    + bytes@.subrange(pos as int, mid as int) + bytes@.subrange(
                    mid as int,
                    end as int,
                ));
            }
            pos = end;
        }
        if pos != bytes.len() {
            proof {
                assert forall|resp: Response|
                    response_bounded(resp) && bytes@ == #[trigger] response_bytes(
                        resp,
                    ) implies false by {
                    lemma_auto_spec_u32_to_from_le_bytes();
                    match resp {
                        Response::Empty => {
                            assert(bytes@.len() == 1);
                        }
                        Response::NotableCosigns(_) => {
                            assert(bytes@[0] == 2);
                        }
                        Response::Blocks(vs) => {
                            assert(bytes@.subrange(1, 5) =~= spec_u32_to_le_bytes(
                                vs@.len() as u32,
                            ));
                            assert(vs@.len() == count);
                            lemma_blocks_bytes_as_pairs(bs@);
                            lemma_blocks_bytes_as_pairs(vs@);
                            let parsed = blocks_as_pairs(bs@);
                            let full = blocks_as_pairs(vs@);
                            assert(crate::signers::keys_blob(parsed).is_prefix_of(
                                crate::signers::keys_blob(full),
                            )) by {
                                assert(bytes@.subrange(5, bytes@.len() as int) =~= bytes@.skip(
                                    5,
                                ));
                                assert(crate::signers::keys_blob(full) =~= bytes@.subrange(
                                    5,
                                    bytes@.len() as int,
                                ));
                                assert(bytes@.subrange(5, pos as int) =~= bytes@.subrange(
                                    0,
                                    pos as int,
                                ).skip(5));
                                assert(crate::signers::keys_blob(parsed) =~= bytes@.subrange(
                                    5,
                                    pos as int,
                                ));
                                assert(crate::signers::keys_blob(parsed)
                                    =~= crate::signers::keys_blob(full).subrange(
                                    0,
                                    crate::signers::keys_blob(parsed).len() as int,
                                ));
                            }
                            crate::signers::lemma_keys_blob_align(full, parsed);
                            assert(full.skip(bs@.len() as int) =~= Seq::<
                                (Seq<u8>, Seq<u8>),
                            >::empty());
                            assert(crate::signers::keys_blob(full).skip(
                                crate::signers::keys_blob(parsed).len() as int,
                            ) =~= Seq::<u8>::empty());
                        }
                    }
                }
            }
            return None;
        }
        let r = Response::Blocks(bs);
        proof {
            assert(bytes@.subrange(0, bytes@.len() as int) =~= bytes@);
        }
        Some(r)
    } else if tag == 2 {
        if bytes.len() < 5 {
            proof {
                lemma_auto_spec_u32_to_from_le_bytes();
                assert forall|resp: Response|
                    response_bounded(resp) && bytes@ == #[trigger] response_bytes(
                        resp,
                    ) implies false by {
                    match resp {
                        Response::Empty => {
                            assert(bytes@.len() == 1);
                        }
                        Response::Blocks(_) => {
                            assert(bytes@[0] == 1);
                        }
                        Response::NotableCosigns(_) => {
                            assert(bytes@.len() >= 5);
                        }
                    }
                }
            }
            return None;
        }
        let count_slice = vstd::slice::slice_subrange(bytes.as_slice(), 1, 5);
        let count = u32_from_le_bytes(count_slice) as usize;
        let mut cs: Vec<SignedCosign> = Vec::new();
        let mut pos: usize = 5;
        proof {
            lemma_auto_spec_u32_to_from_le_bytes();
            assert(cosigns_bytes(cs@.take(0)) =~= Seq::<u8>::empty());
            assert(bytes@.subrange(0, 5) =~= seq![2u8] + spec_u32_to_le_bytes(count as u32));
        }
        while cs.len() < count
            invariant
                pos <= bytes@.len(),
                cs@.len() <= count,
                count < 0x1_0000_0000,
                bytes@.len() >= 5,
                bytes@[0] == 2u8,
                bytes@.subrange(1, 5) == spec_u32_to_le_bytes(count as u32),
                bytes@.subrange(0, pos as int) == seq![2u8] + spec_u32_to_le_bytes(count as u32)
                    + cosigns_bytes(cs@),
                forall|i: int|
                    0 <= i < cs@.len() ==> (#[trigger] cs@[i]).signature@.len() < 0x1_0000_0000,
            decreases count - cs@.len(),
        {
            proof {
                // Whenever the buffer encodes a cosign response, what
                // remains at the cursor encodes the remaining cosigns, of
                // which at least one is due.
                lemma_auto_spec_u32_to_from_le_bytes();
                assert forall|resp: Response|
                    response_bounded(resp) && bytes@ == #[trigger] response_bytes(
                        resp,
                    ) implies {
                    match resp {
                        Response::NotableCosigns(vs) => {
                            let rest = vs@.skip(cs@.len() as int);
                            &&& vs@.len() == count
                            &&& cs@.len() < vs@.len()
                            &&& bytes@.subrange(pos as int, bytes@.len() as int) == cosigns_bytes(
                                rest,
                            )
                            &&& rest.len() > 0
                            &&& forall|i: int|
                                0 <= i < rest.len() ==> (#[trigger] rest[i]).signature@.len()
                                    < 0x1_0000_0000
                        },
                        _ => false,
                    }
                } by {
                    match resp {
                        Response::Empty => {
                            assert(bytes@.len() == 1);
                        }
                        Response::Blocks(_) => {
                            assert(bytes@[0] == 1);
                        }
                        Response::NotableCosigns(vs) => {
                            assert(bytes@.subrange(1, 5) =~= spec_u32_to_le_bytes(
                                vs@.len() as u32,
                            ));
                            assert(vs@.len() == count);
                            assert(cosigns_bytes(cs@).is_prefix_of(cosigns_bytes(vs@))) by {
                                assert(bytes@.subrange(5, bytes@.len() as int) =~= bytes@.skip(
                                    5,
                                ));
                                assert(cosigns_bytes(vs@) =~= bytes@.subrange(
                                    5,
                                    bytes@.len() as int,
                                ));
                                assert(bytes@.subrange(5, pos as int) =~= bytes@.subrange(
                                    0,
                                    pos as int,
                                ).skip(5));
                                assert(cosigns_bytes(cs@) =~= bytes@.subrange(5, pos as int));
                                assert(cosigns_bytes(cs@) =~= cosigns_bytes(vs@).subrange(
                                    0,
                                    cosigns_bytes(cs@).len() as int,
                                ));
                            }
                            lemma_cosigns_align(vs@, cs@);
                            assert(bytes@.subrange(pos as int, bytes@.len() as int)
                                =~= cosigns_bytes(vs@).skip(cosigns_bytes(cs@).len() as int));
                            assert forall|i: int|
                                0 <= i < vs@.skip(cs@.len() as int).len() implies (#[trigger] vs@.skip(
                                cs@.len() as int,
                            )[i]).signature@.len() < 0x1_0000_0000 by {
                                assert(vs@.skip(cs@.len() as int)[i] == vs@[cs@.len() + i]);
                            }
                            if vs@.skip(cs@.len() as int).len() == 0 {
                                assert(cosigns_bytes(vs@.skip(cs@.len() as int)) =~= Seq::<
                                    u8,
                                >::empty());
                            }
                        }
                    }
                }
            }
            if bytes.len() - pos < 40 {
                proof {
                    assert forall|resp: Response|
                        response_bounded(resp) && bytes@ == #[trigger] response_bytes(
                            resp,
                        ) implies false by {
                        match resp {
                            Response::NotableCosigns(vs) => {
                                let rest = vs@.skip(cs@.len() as int);
                                lemma_auto_spec_u64_to_from_le_bytes();
                                lemma_cosigns_bytes_front(rest);
                                assert(cosigns_bytes_front(rest) == signed_cosign_bytes(rest[0])
                                    + cosigns_bytes_front(rest.skip(1)));
                                assert(cosigns_bytes(rest).len() >= 44) by {
                                    assert(signed_cosign_bytes(rest[0]).len() >= 44);
                                }
                            }
                            _ => {}
                        }
                    }
                }
                return None;
            }
            let num_slice = vstd::slice::slice_subrange(bytes.as_slice(), pos, pos + 8);
            let block_number = u64_from_le_bytes(num_slice);
            let block_hash = take32(bytes, pos + 8);
            let sig = take_rec(bytes, pos + 40);
            let (signature, end) = match sig {
                Some(v) => v,
                None => {
                    proof {
                        lemma_auto_spec_u32_to_from_le_bytes();
                        assert forall|resp: Response|
                            response_bounded(resp) && bytes@ == #[trigger] response_bytes(
                                resp,
                            ) implies false by {
                            match resp {
                                Response::NotableCosigns(vs) => {
                                    let rest = vs@.skip(cs@.len() as int);
                                    let suffix = cosigns_bytes(rest);
                                    lemma_auto_spec_u64_to_from_le_bytes();
                                    lemma_cosigns_bytes_front(rest);
                                    assert(cosigns_bytes_front(rest) == signed_cosign_bytes(
                                        rest[0],
                                    ) + cosigns_bytes_front(rest.skip(1)));
                                    assert(suffix.subrange(40, 44) =~= spec_u32_to_le_bytes(
                                        rest[0].signature@.len() as u32,
                                    ));
                                    assert(bytes@.subrange(pos + 40, pos + 44) =~= suffix.subrange(
                                        40,
                                        44,
                                    ));
                                    assert(suffix.len() >= 44 + rest[0].signature@.len()) by {
                                        assert(signed_cosign_bytes(rest[0]).len() == 44
                                            + rest[0].signature@.len());
                                    }
                                }
                                _ => {}
                            }
                        }
                    }
                    return None;
                }
            };
            let ghost pre = cs@;
            let item = SignedCosign { cosign: Cosign { block_number, block_hash }, signature };
            cs.push(item);
            proof {
                lemma_auto_spec_u64_to_from_le_bytes();
                assert(cs@.drop_last() =~= pre);
                assert(spec_u64_to_le_bytes(block_number) =~= bytes@.subrange(
                    pos as int,
                    pos + 8,
                ));
                assert(bytes@.subrange(pos as int, end as int) =~= signed_cosign_bytes(item))
                    by {
                    assert(bytes@.subrange(pos as int, end as int) =~= bytes@.subrange(
                        pos as int,
                        pos + 8,
                    ) + bytes@.subrange(pos + 8, pos + 40) + bytes@.subrange(
                        pos + 40,
                        end as int,
                    ));
                }
                assert(bytes@.subrange(0, end as int) =~= bytes@.subrange(0, pos as int)
                    + bytes@.subrange(pos as int, end as int));
            }
            pos = end;
        }
        if pos != bytes.len() {
            proof {
                assert forall|resp: Response|
                    response_bounded(resp) && bytes@ == #[trigger] response_bytes(
                        resp,
                    ) implies false by {
                    lemma_auto_spec_u32_to_from_le_bytes();
                    match resp {
                        Response::Empty => {
                            assert(bytes@.len() == 1);
                        }
                        Response::Blocks(_) => {
                            assert(bytes@[0] == 1);
                        }
                        Response::NotableCosigns(vs) => {
                            assert(bytes@.subrange(1, 5) =~= spec_u32_to_le_bytes(
                                vs@.len() as u32,
                            ));
                            assert(vs@.len() == count);
                            assert(cosigns_bytes(cs@).is_prefix_of(cosigns_bytes(vs@))) by {
                                assert(bytes@.subrange(5, bytes@.len() as int) =~= bytes@.skip(
                                    5,
                                ));
                                assert(cosigns_bytes(vs@) =~= bytes@.subrange(
                                    5,
                                    bytes@.len() as int,
                                ));
                                assert(bytes@.subrange(5, pos as int) =~= bytes@.subrange(
                                    0,
                                    pos as int,
                                ).skip(5));
                                assert(cosigns_bytes(cs@) =~= bytes@.subrange(5, pos as int));
                                assert(cosigns_bytes(cs@) =~= cosigns_bytes(vs@).subrange(
                                    0,
                                    cosigns_bytes(cs@).len() as int,
                                ));
                            }
                            lemma_cosigns_align(vs@, cs@);
                            assert(vs@.skip(cs@.len() as int) =~= Seq::<SignedCosign>::empty());
                            assert(cosigns_bytes(vs@).skip(cosigns_bytes(cs@).len() as int)
                                =~= Seq::<u8>::empty());
                        }
                    }
                }
            }
            return None;
        }
        let r = Response::NotableCosigns(cs);
        proof {
            assert(bytes@.subrange(0, bytes@.len() as int) =~= bytes@);
        }
        Some(r)
    } else {
        proof {
            assert forall|resp: Response|
                response_bounded(resp) && bytes@ == #[trigger] response_bytes(
                    resp,
                ) implies false by {
                match resp {
                    Response::Empty => {
                        assert(bytes@[0] == 0);
                    }
                    Response::Blocks(_) => {
                        assert(bytes@[0] == 1);
                    }
                    Response::NotableCosigns(_) => {
                        assert(bytes@[0] == 2);
                    }
                }
            }
        }
        None
    }
}

/// Frame a message body: its length, little-endian, then the body. A body
/// over the protocol's cap is refused.
pub fn write_frame(body: &Vec<u8>, cap: usize) -> (r: Option<Vec<u8>>)
    ensures
        match r {
            Some(framed) => {
                &&& body@.len() <= cap
                &&& body@.len() < 0x1_0000_0000
                &&& framed@ == spec_u32_to_le_bytes(body@.len() as u32) + body@
            },
            None => body@.len() > cap || body@.len() >= 0x1_0000_0000,
        },
{
    if body.len() > cap {
        return None;
    }
    if (body.len() as u64) >= 0x1_0000_0000u64 {
        return None;
    }
    let mut framed = u32_to_le_bytes(body.len() as u32);
    let mut b = vstd::slice::slice_to_vec(body.as_slice());
    framed.append(&mut b);
    Some(framed)
}

/// Unframe a message: the length prefix must be within the protocol's cap
/// and the buffer must hold exactly the framed bytes, nothing trailing.
/// Unframing fails exactly on a short buffer, an over-cap length, or a
/// length prefix not matching the buffer.
pub fn read_frame(bytes: &Vec<u8>, cap: usize) -> (r: Option<Vec<u8>>)
    ensures
        match r {
            Some(body) => {
                &&& body@.len() <= cap
                &&& bytes@ == spec_u32_to_le_bytes(body@.len() as u32) + body@
            },
            None => bytes@.len() < 4 || spec_u32_from_le_bytes(bytes@.subrange(0, 4)) > cap
                || bytes@.len() != 4 + spec_u32_from_le_bytes(bytes@.subrange(0, 4)),
        },
{
    if bytes.len() < 4 {
        return None;
    }
    let len_slice = vstd::slice::slice_subrange(bytes.as_slice(), 0, 4);
    let len64 = u32_from_le_bytes(len_slice) as u64;
    if len64 > cap as u64 {
        return None;
    }
    let len = len64 as usize;
    if bytes.len() - 4 != len {
        return None;
    }
    let body = vstd::slice::slice_to_vec(
        vstd::slice::slice_subrange(bytes.as_slice(), 4, 4 + len),
    );
    proof {
        lemma_auto_spec_u32_to_from_le_bytes();
        assert(len_slice@ == bytes@.subrange(0, 4));
        assert(bytes@ =~= spec_u32_to_le_bytes(body@.len() as u32) + body@);
    }
    Some(body)
}

} // verus!
