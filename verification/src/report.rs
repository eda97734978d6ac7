//! The report task's durable rows: batch ids are acquired in order, each
//! batch's verification info and return addresses are stored until the
//! batch executes, and a whole notable block is turned into size-bounded
//! batches.

use vstd::prelude::*;
use vstd::bytes::*;

use crate::batches::{build_batches, Batch, BlockHash, InInstruction, NetworkId};
use crate::ids::Session;
use crate::keyed::KeyedStore;

verus! {

broadcast use vstd::array::group_array_axioms;

/// The information needed to verify a batch once Serai executes it.
#[derive(Clone, PartialEq, Eq, Debug)]
pub struct BatchInfo {
    pub block_number: u64,
    pub session_to_sign_batch: Session,
    pub external_key_for_session_to_sign_batch: Vec<u8>,
    pub in_instructions_hash: [u8; 32],
}

/// Where to return an instruction's funds if it fails.
#[derive(Clone, Copy, PartialEq, Eq, Debug)]
pub struct ReturnInformation {
    pub address: [u8; 32],
    pub amount: u64,
}

/// One optional return-information record: a presence flag, then the
/// address and amount.
pub open spec fn return_rec(r: Option<ReturnInformation>) -> Seq<u8> {
    match r {
        Some(info) => seq![1u8] + info.address@ + spec_u64_to_le_bytes(info.amount),
        None => seq![0u8],
    }
}

/// The serialized return information of a batch's instructions.
pub open spec fn return_blob(rs: Seq<Option<ReturnInformation>>) -> Seq<u8>
    decreases rs.len(),
{
    if rs.len() == 0 {
        Seq::empty()
    } else {
        return_blob(rs.drop_last()) + return_rec(rs.last())
    }
}

/// Serialize return information, one record per instruction.
pub fn encode_return_information(rs: &Vec<Option<ReturnInformation>>) -> (r: Vec<u8>)
    ensures
        r@ == return_blob(rs@),
{
    let mut r: Vec<u8> = Vec::new();
    let n = rs.len();
    let mut i: usize = 0;
    proof {
        assert(rs@.take(0) =~= Seq::<Option<ReturnInformation>>::empty());
    }
    while i < n
        invariant
            n == rs@.len(),
            i <= n,
            r@ == return_blob(rs@.take(i as int)),
        decreases n - i,
    {
        match &rs[i] {
            Some(info) => {
                r.push(1u8);
                let mut a = vstd::slice::slice_to_vec(
                    vstd::array::array_as_slice(&info.address),
                );
                r.append(&mut a);
                let mut amt = u64_to_le_bytes(info.amount);
                r.append(&mut amt);
            }
            None => {
                r.push(0u8);
            }
        }
        proof {
            assert(rs@.take(i + 1 as int).drop_last() =~= rs@.take(i as int));
            assert(rs@.take(i + 1 as int).last() == rs@[i as int]);
            assert(r@ =~= return_blob(rs@.take(i + 1 as int)));
        }
        i += 1;
    }
    proof {
        assert(rs@.take(n as int) =~= rs@);
    }
    r
}

/// The return-information bytes, unrolled from the front.
spec fn return_blob_front(rs: Seq<Option<ReturnInformation>>) -> Seq<u8>
    decreases rs.len(),
{
    if rs.len() == 0 {
        Seq::empty()
    } else {
        return_rec(rs[0]) + return_blob_front(rs.skip(1))
    }
}

/// The drop-last and front unrollings of the return-information bytes
/// agree.
proof fn lemma_return_blob_front(rs: Seq<Option<ReturnInformation>>)
    ensures
        return_blob(rs) == return_blob_front(rs),
    decreases rs.len(),
{
    if rs.len() == 0 {
    } else if rs.len() == 1 {
        assert(rs.drop_last() =~= Seq::<Option<ReturnInformation>>::empty());
        assert(rs.skip(1) =~= Seq::<Option<ReturnInformation>>::empty());
        assert(return_blob(rs.drop_last()) == Seq::<u8>::empty());
        assert(return_blob_front(rs.skip(1)) == Seq::<u8>::empty());
        assert(rs.last() == rs[0]);
        assert(return_blob(rs) =~= return_blob_front(rs));
    } else {
        lemma_return_blob_front(rs.drop_last());
        lemma_return_blob_front(rs.skip(1));
        assert(rs.skip(1).drop_last() =~= rs.drop_last().skip(1));
        lemma_return_blob_front(rs.drop_last().skip(1));
        assert(rs.drop_last()[0] == rs[0]);
        assert(rs.skip(1).last() == rs.last());
        assert(return_blob(rs) =~= return_blob_front(rs)) by {
            assert(return_blob(rs) == return_blob(rs.drop_last()) + return_rec(rs.last()));
            assert(return_blob(rs.drop_last()) == return_rec(rs[0]) + return_blob_front(
                rs.drop_last().skip(1),
            ));
            assert(return_blob_front(rs) == return_rec(rs[0]) + return_blob_front(rs.skip(1)));
            assert(return_blob_front(rs.skip(1)) == return_blob(rs.skip(1)));
            assert(return_blob(rs.skip(1)) == return_blob(rs.drop_last().skip(1)) + return_rec(
                rs.last(),
            ));
            assert(return_blob(rs.drop_last().skip(1)) == return_blob_front(
                rs.drop_last().skip(1),
            ));
        }
    }
}

/// A parsed prefix of a return-information blob aligns with whole records:
/// what remains is the blob of the remaining records.
proof fn lemma_return_blob_align(
    full: Seq<Option<ReturnInformation>>,
    parsed: Seq<Option<ReturnInformation>>,
)
    requires
        return_blob(parsed).is_prefix_of(return_blob(full)),
    ensures
        parsed.len() <= full.len(),
        return_blob(full).skip(return_blob(parsed).len() as int) == return_blob(
            full.skip(parsed.len() as int),
        ),
    decreases parsed.len(),
{
    lemma_auto_spec_u64_to_from_le_bytes();
    lemma_return_blob_front(parsed);
    lemma_return_blob_front(full);
    if parsed.len() == 0 {
        assert(return_blob(parsed) =~= Seq::<u8>::empty());
        assert(return_blob(full).skip(0) =~= return_blob(full));
        assert(full.skip(0) =~= full);
    } else {
        let p0 = return_blob(parsed);
        let f0 = return_blob(full);
        assert(return_blob_front(parsed) == return_rec(parsed[0]) + return_blob_front(
            parsed.skip(1),
        ));
        assert(p0.len() >= 1);
        if full.len() == 0 {
            assert(f0 =~= Seq::<u8>::empty());
            assert(false);
        }
        assert(return_blob_front(full) == return_rec(full[0]) + return_blob_front(full.skip(1)));
        // The flag byte fixes the record's length, and both flags stand at
        // the front of the same bytes.
        assert(p0[0] == return_rec(parsed[0])[0]);
        assert(f0[0] == return_rec(full[0])[0]);
        assert(p0[0] == f0[0]);
        let head: int = match parsed[0] {
            Some(_) => 41,
            None => 1,
        };
        assert(match (parsed[0], full[0]) {
            (Some(_), Some(_)) => true,
            (None, None) => true,
            _ => false,
        }) by {
            assert(return_rec(parsed[0])[0] == (match parsed[0] {
                Some(_) => 1u8,
                None => 0u8,
            }));
            assert(return_rec(full[0])[0] == (match full[0] {
                Some(_) => 1u8,
                None => 0u8,
            }));
        }
        assert(return_rec(parsed[0]).len() == head);
        assert(return_rec(full[0]).len() == head);
        lemma_return_blob_front(parsed.skip(1));
        lemma_return_blob_front(full.skip(1));
        assert(return_blob(parsed.skip(1)) =~= p0.skip(head));
        assert(return_blob(full.skip(1)) =~= f0.skip(head));
        assert(return_blob(parsed.skip(1)).is_prefix_of(return_blob(full.skip(1)))) by {
            assert(return_blob(parsed.skip(1)) =~= return_blob(full.skip(1)).subrange(
                0,
                return_blob(parsed.skip(1)).len() as int,
            ));
        }
        lemma_return_blob_align(full.skip(1), parsed.skip(1));
        assert(full.skip(1).skip(parsed.skip(1).len() as int) =~= full.skip(parsed.len() as int));
        assert(f0.skip(p0.len() as int) =~= return_blob(full.skip(1)).skip(
            return_blob(parsed.skip(1)).len() as int,
        ));
    }
}

/// The serialized form determines the records.
pub proof fn lemma_return_blob_exact(
    a: Seq<Option<ReturnInformation>>,
    b: Seq<Option<ReturnInformation>>,
)
    requires
        return_blob(a) == return_blob(b),
    ensures
        a == b,
    decreases a.len(),
{
    broadcast use vstd::array::group_array_axioms;

    lemma_auto_spec_u64_to_from_le_bytes();
    lemma_return_blob_front(a);
    lemma_return_blob_front(b);
    if a.len() == 0 || b.len() == 0 {
        if a.len() > 0 {
            assert(return_blob_front(a).len() >= 1) by {
                assert(return_blob_front(a) == return_rec(a[0]) + return_blob_front(a.skip(1)));
            }
        }
        if b.len() > 0 {
            assert(return_blob_front(b).len() >= 1) by {
                assert(return_blob_front(b) == return_rec(b[0]) + return_blob_front(b.skip(1)));
            }
        }
        assert(a.len() == 0 && b.len() == 0);
        assert(a =~= b);
    } else {
        let blob = return_blob(a);
        assert(return_blob_front(a) == return_rec(a[0]) + return_blob_front(a.skip(1)));
        assert(return_blob_front(b) == return_rec(b[0]) + return_blob_front(b.skip(1)));
        assert(blob[0] == return_rec(a[0])[0]);
        assert(blob[0] == return_rec(b[0])[0]);
        match (a[0], b[0]) {
            (Some(ia), Some(ib)) => {
                lemma_return_blob_front(a.skip(1));
                lemma_return_blob_front(b.skip(1));
                assert(ia.address@ =~= blob.subrange(1, 33));
                assert(ib.address@ =~= blob.subrange(1, 33));
                assert(ia.address =~= ib.address);
                assert(spec_u64_to_le_bytes(ia.amount) =~= blob.subrange(33, 41));
                assert(spec_u64_to_le_bytes(ib.amount) =~= blob.subrange(33, 41));
                assert(return_blob(a.skip(1)) =~= blob.skip(41));
                assert(return_blob(b.skip(1)) =~= blob.skip(41));
                lemma_return_blob_exact(a.skip(1), b.skip(1));
                assert(ia.amount == ib.amount);
                assert(a[0] == b[0]);
                assert(a.len() == b.len());
                assert forall|i: int| 0 <= i < a.len() implies a[i] == b[i] by {
                    if i > 0 {
                        assert(a.skip(1)[i - 1] == b.skip(1)[i - 1]);
                    }
                }
                assert(a =~= b);
            }
            (None, None) => {
                lemma_return_blob_front(a.skip(1));
                lemma_return_blob_front(b.skip(1));
                assert(return_blob(a.skip(1)) =~= blob.skip(1));
                assert(return_blob(b.skip(1)) =~= blob.skip(1));
                lemma_return_blob_exact(a.skip(1), b.skip(1));
                assert(a.len() == b.len());
                assert forall|i: int| 0 <= i < a.len() implies a[i] == b[i] by {
                    if i > 0 {
                        assert(a.skip(1)[i - 1] == b.skip(1)[i - 1]);
                    }
                }
                assert(a =~= b);
            }
            _ => {
                assert(false);
            }
        }
    }
}

/// Parse serialized return information. Success demands the blob parse
/// exactly, record by record, to its end; a blob that is the serialization
/// of records always parses, and to exactly those records.
pub fn decode_return_information(blob: &Vec<u8>) -> (r: Option<Vec<Option<ReturnInformation>>>)
    ensures
        match r {
            Some(rs) => blob@ == return_blob(rs@),
            None => true,
        },
        forall|rs: Seq<Option<ReturnInformation>>|
            blob@ == #[trigger] return_blob(rs) ==> r is Some,
{
    let mut rs: Vec<Option<ReturnInformation>> = Vec::new();
    let mut pos: usize = 0;
    proof {
        assert(rs@.take(0) =~= Seq::<Option<ReturnInformation>>::empty());
        assert(blob@.subrange(0, 0) =~= return_blob(rs@));
    }
    while pos < blob.len()
        invariant
            pos <= blob@.len(),
            blob@.subrange(0, pos as int) == return_blob(rs@),
        decreases blob@.len() - pos,
    {
        proof {
            // Whenever the blob encodes records, what remains at the cursor
            // encodes the remaining records, of which at least one is due.
            assert forall|ws: Seq<Option<ReturnInformation>>|
                blob@ == #[trigger] return_blob(ws) implies {
                let rest = ws.skip(rs@.len() as int);
                &&& rs@.len() <= ws.len()
                &&& blob@.subrange(pos as int, blob@.len() as int) == return_blob(rest)
                &&& rest.len() > 0
                &&& blob@[pos as int] == return_rec(rest[0])[0]
                &&& return_blob(rest).len() >= return_rec(rest[0]).len()
            } by {
                lemma_auto_spec_u64_to_from_le_bytes();
                assert(return_blob(rs@).is_prefix_of(return_blob(ws))) by {
                    assert(return_blob(rs@) =~= return_blob(ws).subrange(0, pos as int));
                }
                lemma_return_blob_align(ws, rs@);
                let rest = ws.skip(rs@.len() as int);
                assert(blob@.subrange(pos as int, blob@.len() as int) =~= blob@.skip(pos as int));
                if rest.len() == 0 {
                    assert(return_blob(rest) =~= Seq::<u8>::empty());
                }
                lemma_return_blob_front(rest);
                assert(return_blob_front(rest) == return_rec(rest[0]) + return_blob_front(
                    rest.skip(1),
                ));
                assert(blob@[pos as int] == blob@.subrange(pos as int, blob@.len() as int)[0]);
            }
        }
        let flag = blob[pos];
        if flag == 0 {
            let ghost pre = rs@;
            rs.push(None);
            pos = pos + 1;
            proof {
                assert(rs@.drop_last() =~= pre);
                assert(blob@.subrange(0, pos as int) =~= blob@.subrange(0, pos - 1)
                    + blob@.subrange(pos - 1, pos as int));
                assert(blob@.subrange(pos - 1, pos as int) =~= return_rec(None));
            }
        } else if flag == 1 {
            if blob.len() - pos < 41 {
                proof {
                    assert forall|ws: Seq<Option<ReturnInformation>>|
                        blob@ == #[trigger] return_blob(ws) implies false by {
                        lemma_auto_spec_u64_to_from_le_bytes();
                        let rest = ws.skip(rs@.len() as int);
                        assert(rest[0] is Some) by {
                            if rest[0] is None {
                                assert(return_rec(rest[0])[0] == 0u8);
                            }
                        }
                        assert(return_rec(rest[0]).len() == 41);
                    }
                }
                return None;
            }
            let blen = blob.len();
            let mut address = [0u8; 32];
            let mut k: usize = 0;
            while k < 32
                invariant
                    pos + 41 <= blen,
                    blen == blob@.len(),
                    k <= 32,
                    forall|j: int| 0 <= j < k ==> address@[j] == blob@[pos + 1 + j],
                decreases 32 - k,
            {
                address[k] = blob[pos + 1 + k];
                k += 1;
            }
            let amt_slice = vstd::slice::slice_subrange(
                blob.as_slice(),
                pos + 33,
                pos + 41,
            );
            let amount = u64_from_le_bytes(amt_slice);
            let ghost pre = rs@;
            let info = ReturnInformation { address, amount };
            rs.push(Some(info));
            proof {
                lemma_auto_spec_u64_to_from_le_bytes();
                assert(rs@.drop_last() =~= pre);
                assert(address@ =~= blob@.subrange(pos + 1, pos + 33));
                assert(spec_u64_to_le_bytes(amount) =~= blob@.subrange(pos + 33, pos + 41));
                assert(blob@.subrange(pos as int, pos + 41) =~= return_rec(Some(info)));
                assert(blob@.subrange(0, pos + 41) =~= blob@.subrange(0, pos as int)
                    + blob@.subrange(pos as int, pos + 41));
            }
            pos = pos + 41;
        } else {
            proof {
                assert forall|ws: Seq<Option<ReturnInformation>>|
                    blob@ == #[trigger] return_blob(ws) implies false by {
                    let rest = ws.skip(rs@.len() as int);
                    assert(return_rec(rest[0])[0] == 0u8 || return_rec(rest[0])[0] == 1u8);
                }
            }
            return None;
        }
    }
    proof {
        assert(blob@.subrange(0, blob@.len() as int) =~= blob@);
    }
    Some(rs)
}

/// The report task's durable rows.
pub struct ReportDb {
    next_to_potentially_report_block: Option<u64>,
    last_session_to_sign_batch: Option<Session>,
    first_batch_of_last_session: u32,
    next_batch_id: u32,
    info_for_batch: KeyedStore<u32, BatchInfo>,
    return_information: KeyedStore<u32, Vec<u8>>,
}

impl ReportDb {
    /// All keyed stores are well formed.
    pub closed spec fn wf(self) -> bool {
        self.info_for_batch.wf() && self.return_information.wf()
    }

    /// The next block to potentially report.
    pub closed spec fn spec_next_to_potentially_report_block(self) -> Option<u64> {
        self.next_to_potentially_report_block
    }

    /// The next batch id to hand out.
    pub closed spec fn spec_next_batch_id(self) -> u32 {
        self.next_batch_id
    }

    /// The stored info of a batch.
    pub closed spec fn spec_info_for_batch(self, id: u32) -> Option<BatchInfo> {
        self.info_for_batch.spec_get(id)
    }

    /// The stored return information of a batch, serialized.
    pub closed spec fn spec_return_information(self, id: u32) -> Option<Vec<u8>> {
        self.return_information.spec_get(id)
    }

    /// Create empty rows.
    pub fn new() -> (r: ReportDb)
        ensures
            r.wf(),
            r.spec_next_to_potentially_report_block() is None,
            r.spec_next_batch_id() == 0,
            forall|id: u32| r.spec_info_for_batch(id) is None,
            forall|id: u32| r.spec_return_information(id) is None,
    {
        ReportDb {
            next_to_potentially_report_block: None,
            last_session_to_sign_batch: None,
            first_batch_of_last_session: 0,
            next_batch_id: 0,
            info_for_batch: KeyedStore::new(),
            return_information: KeyedStore::new(),
        }
    }

    /// Record the last session to sign a batch and its first batch.
    pub fn set_last_session_to_sign_batch_and_first_batch(&mut self, session: Session, id: u32)
        requires
            old(self).wf(),
        ensures
            final(self).wf(),
            final(self).last_session_to_sign_batch_and_first_batch() == Some((session, id)),
    {
        self.last_session_to_sign_batch = Some(session);
        self.first_batch_of_last_session = id;
    }

    /// The last session to sign a batch and its first batch.
    pub closed spec fn last_session_to_sign_batch_and_first_batch(self) -> Option<(Session, u32)> {
        match self.last_session_to_sign_batch {
            Some(s) => Some((s, self.first_batch_of_last_session)),
            None => None,
        }
    }

    /// Record the next block to potentially report.
    pub fn set_next_to_potentially_report_block(&mut self, block: u64)
        requires
            old(self).wf(),
        ensures
            final(self).wf(),
            final(self).spec_next_to_potentially_report_block() == Some(block),
            final(self).spec_next_batch_id() == old(self).spec_next_batch_id(),
            forall|id2: u32|
                #[trigger] final(self).spec_info_for_batch(id2) == old(self).spec_info_for_batch(
                    id2,
                ),
            forall|id2: u32|
                #[trigger] final(self).spec_return_information(id2) == old(
                    self,
                ).spec_return_information(id2),
            final(self).last_session_to_sign_batch_and_first_batch() == old(
                self,
            ).last_session_to_sign_batch_and_first_batch(),
    {
        self.next_to_potentially_report_block = Some(block);
    }

    /// The next block to potentially report.
    pub fn next_to_potentially_report_block(&self) -> (r: Option<u64>)
        ensures
            r == self.spec_next_to_potentially_report_block(),
    {
        self.next_to_potentially_report_block
    }

    /// Hand out the next batch id.
    pub fn acquire_batch_id(&mut self) -> (r: u32)
        requires
            old(self).wf(),
            old(self).spec_next_batch_id() < 0xffff_ffff,
        ensures
            final(self).wf(),
            r == old(self).spec_next_batch_id(),
            final(self).spec_next_batch_id() == old(self).spec_next_batch_id() + 1,
            final(self).spec_next_to_potentially_report_block() == old(
                self,
            ).spec_next_to_potentially_report_block(),
            forall|id2: u32|
                #[trigger] final(self).spec_info_for_batch(id2) == old(self).spec_info_for_batch(
                    id2,
                ),
            forall|id2: u32|
                #[trigger] final(self).spec_return_information(id2) == old(
                    self,
                ).spec_return_information(id2),
            final(self).last_session_to_sign_batch_and_first_batch() == old(
                self,
            ).last_session_to_sign_batch_and_first_batch(),
    {
        let id = self.next_batch_id;
        self.next_batch_id = id + 1;
        id
    }

    /// Store the info needed to verify a batch.
    pub fn save_batch_info(
        &mut self,
        id: u32,
        block_number: u64,
        session_to_sign_batch: Session,
        external_key: Vec<u8>,
        in_instructions_hash: [u8; 32],
    )
        requires
            old(self).wf(),
        ensures
            final(self).wf(),
            final(self).spec_info_for_batch(id) == Some(
                BatchInfo {
                    block_number,
                    session_to_sign_batch,
                    external_key_for_session_to_sign_batch: external_key,
                    in_instructions_hash,
                },
            ),
            forall|id2: u32|
                id2 != id ==> final(self).spec_info_for_batch(id2) == old(
                    self,
                ).spec_info_for_batch(id2),
            final(self).spec_next_batch_id() == old(self).spec_next_batch_id(),
            final(self).spec_next_to_potentially_report_block() == old(
                self,
            ).spec_next_to_potentially_report_block(),
            forall|id2: u32|
                #[trigger] final(self).spec_return_information(id2) == old(
                    self,
                ).spec_return_information(id2),
            final(self).last_session_to_sign_batch_and_first_batch() == old(
                self,
            ).last_session_to_sign_batch_and_first_batch(),
    {
        self.info_for_batch.set(
            id,
            BatchInfo {
                block_number,
                session_to_sign_batch,
                external_key_for_session_to_sign_batch: external_key,
                in_instructions_hash,
            },
        );
    }

    /// Take the info stored for a batch.
    pub fn take_info_for_batch(&mut self, id: u32) -> (r: Option<BatchInfo>)
        requires
            old(self).wf(),
        ensures
            final(self).wf(),
            r == old(self).spec_info_for_batch(id),
            final(self).spec_info_for_batch(id) is None,
    {
        self.info_for_batch.remove(id)
    }

    /// Store the return information of a batch's instructions, serialized
    /// record by record.
    pub fn save_return_information(&mut self, id: u32, rs: &Vec<Option<ReturnInformation>>)
        requires
            old(self).wf(),
        ensures
            final(self).wf(),
            final(self).spec_return_information(id) matches Some(blob) && blob@ == return_blob(
                rs@,
            ),
    {
        let blob = encode_return_information(rs);
        self.return_information.set(id, blob);
    }

    /// Take and parse the return information stored for a batch. A stored
    /// blob parses exactly back to the records it was written from; a blob
    /// this store never wrote may fail to parse and yields nothing, where
    /// the original store trusted its own rows unconditionally.
    pub fn take_return_information(&mut self, id: u32) -> (r: Option<
        Vec<Option<ReturnInformation>>,
    >)
        requires
            old(self).wf(),
        ensures
            final(self).wf(),
            final(self).spec_return_information(id) is None,
            match r {
                Some(rs) => old(self).spec_return_information(id) matches Some(blob) && blob@
                    == return_blob(rs@),
                None => true,
            },
            // What save_return_information stored always comes back; with
            // the exactness lemma, to exactly the records it was given.
            (match old(self).spec_return_information(id) {
                Some(blob) => (exists|ws: Seq<Option<ReturnInformation>>|
                    blob@ == #[trigger] return_blob(ws)) ==> r is Some,
                None => r is None,
            }),
    {
        let blob = match self.return_information.remove(id) {
            Some(b) => b,
            None => {
                return None;
            }
        };
        decode_return_information(&blob)
    }

    /// Turn one notable block's sorted instructions into batches: ids are
    /// acquired in order, each batch's info is saved, and the next block to
    /// potentially report moves past this one.
    pub fn report_block(
        &mut self,
        network: NetworkId,
        block_number: u64,
        block_hash: BlockHash,
        session_to_sign_batch: Session,
        external_key: Vec<u8>,
        in_instructions_hash: [u8; 32],
        instructions: Vec<InInstruction>,
    ) -> (r: Vec<Batch>)
        requires
            old(self).wf(),
            block_number < 0xffff_ffff_ffff_ffff,
            instructions@.len() < 0x0100_0000,
            old(self).spec_next_batch_id() + instructions@.len() < 0xffff_fffe,
            Batch::instructions_len(instructions@) <= 0x4000_0000,
        ensures
            final(self).wf(),
            r@.len() >= 1,
            r@.len() <= instructions@.len() + 1,
            forall|j: int|
                0 <= j < r@.len() ==> {
                    &&& (#[trigger] r@[j]).network == network
                    &&& r@[j].block == block_hash
                    &&& r@[j].id as int == old(self).spec_next_batch_id() + j
                    &&& (r@[j].encoded_len() <= crate::batches::MAX_BATCH_SIZE
                        || r@[j].instructions@.len() == 1)
                },
            crate::batches::batches_instructions(r@) == instructions@,
            forall|j: int|
                0 <= j < r@.len() && (#[trigger] r@[j]).instructions@.len() == 0 ==> j == 0,
            instructions@.len() > 0 && r@.len() == 1 ==> r@[0].instructions@.len() > 0,
            (instructions@.len() > 0 && 38 + instructions@[0].0@.len()
                <= crate::batches::MAX_BATCH_SIZE) ==> forall|j: int|
                0 <= j < r@.len() ==> (#[trigger] r@[j]).instructions@.len() > 0,
            final(self).spec_next_batch_id() as int == old(self).spec_next_batch_id() + r@.len(),
            final(self).spec_next_to_potentially_report_block() == Some((block_number + 1) as u64),
            // Each produced batch's verification info is saved under its id;
            // no other row moves.
            forall|id2: u32|
                old(self).spec_next_batch_id() <= id2 < final(self).spec_next_batch_id()
                    ==> (match #[trigger] final(self).spec_info_for_batch(id2) {
                    Some(info) => {
                        &&& info.block_number == block_number
                        &&& info.session_to_sign_batch == session_to_sign_batch
                        &&& info.external_key_for_session_to_sign_batch@ == external_key@
                        &&& info.in_instructions_hash == in_instructions_hash
                    },
                    None => false,
                }),
            forall|id2: u32|
                !(old(self).spec_next_batch_id() <= id2 < final(self).spec_next_batch_id())
                    ==> #[trigger] final(self).spec_info_for_batch(id2) == old(
                    self,
                ).spec_info_for_batch(id2),
            forall|id2: u32|
                #[trigger] final(self).spec_return_information(id2) == old(
                    self,
                ).spec_return_information(id2),
            final(self).last_session_to_sign_batch_and_first_batch() == old(
                self,
            ).last_session_to_sign_batch_and_first_batch(),
    {
        let first_id = self.next_batch_id;
        let batches = build_batches(network, first_id, block_hash, instructions);
        let mut j: usize = 0;
        let n = batches.len();
        while j < n
            invariant
                self.wf(),
                n == batches@.len(),
                j <= n,
                first_id + n < 0xffff_ffff,
                forall|k: int| 0 <= k < n ==> (#[trigger] batches@[k]).id as int == first_id + k,
                self.next_batch_id as int == first_id + j,
                self.spec_next_to_potentially_report_block() == old(
                    self,
                ).spec_next_to_potentially_report_block(),
                forall|id2: u32|
                    first_id <= id2 < first_id + j ==> (
                    match #[trigger] self.spec_info_for_batch(id2) {
                        Some(info) => {
                            &&& info.block_number == block_number
                            &&& info.session_to_sign_batch == session_to_sign_batch
                            &&& info.external_key_for_session_to_sign_batch@ == external_key@
                            &&& info.in_instructions_hash == in_instructions_hash
                        },
                        None => false,
                    }),
                forall|id2: u32|
                    !(first_id <= id2 < first_id + j) ==> #[trigger] self.spec_info_for_batch(
                        id2,
                    ) == old(self).spec_info_for_batch(id2),
                forall|id2: u32|
                    #[trigger] self.spec_return_information(id2) == old(
                        self,
                    ).spec_return_information(id2),
                self.last_session_to_sign_batch_and_first_batch() == old(
                    self,
                ).last_session_to_sign_batch_and_first_batch(),
            decreases n - j,
        {
            let id = self.acquire_batch_id();
            let ghost before = *self;
            self.save_batch_info(
                id,
                block_number,
                session_to_sign_batch,
                vstd::slice::slice_to_vec(external_key.as_slice()),
                in_instructions_hash,
            );
            proof {
                assert forall|id2: u32|
                    first_id <= id2 < first_id + j + 1 implies (
                match #[trigger] self.spec_info_for_batch(id2) {
                    Some(info) => {
                        &&& info.block_number == block_number
                        &&& info.session_to_sign_batch == session_to_sign_batch
                        &&& info.external_key_for_session_to_sign_batch@ == external_key@
                        &&& info.in_instructions_hash == in_instructions_hash
                    },
                    None => false,
                }) by {
                    if id2 != id {
                        assert(self.spec_info_for_batch(id2) == before.spec_info_for_batch(id2));
                    }
                }
                assert forall|id2: u32|
                    !(first_id <= id2 < first_id + j + 1) implies #[trigger] self.spec_info_for_batch(
                    id2,
                ) == old(self).spec_info_for_batch(id2) by {
                    assert(id2 != id);
                    assert(self.spec_info_for_batch(id2) == before.spec_info_for_batch(id2));
                }
            }
            j += 1;
        }
        self.set_next_to_potentially_report_block(block_number + 1);
        batches
    }
}

/// An output id interpreted as a base-256 number, most significant byte
/// first: numeric order of these values is the lexicographic order of the
/// ids.
pub open spec fn key_num(s: Seq<u8>) -> int
    decreases s.len(),
{
    if s.len() == 0 {
        0
    } else {
        key_num(s.drop_last()) * 256 + s.last()
    }
}

/// The numeric reading of an id determines the id.
proof fn lemma_key_num_injective(a: Seq<u8>, b: Seq<u8>)
    requires
        a.len() == b.len(),
        key_num(a) == key_num(b),
    ensures
        a == b,
    decreases a.len(),
{
    if a.len() > 0 {
        assert(key_num(a.drop_last()) == key_num(b.drop_last()) && a.last() == b.last()) by (
        nonlinear_arith)
            requires
                key_num(a) == key_num(a.drop_last()) * 256 + a.last(),
                key_num(b) == key_num(b.drop_last()) * 256 + b.last(),
                key_num(a) == key_num(b),
                0 <= a.last() < 256,
                0 <= b.last() < 256,
        {
        }
        lemma_key_num_injective(a.drop_last(), b.drop_last());
        assert(a =~= a.drop_last().push(a.last()));
        assert(b =~= b.drop_last().push(b.last()));
        assert(a =~= b);
    } else {
        assert(a =~= b);
    }
}

/// Compare two output ids by their numeric reading.
fn key_lt(a: &[u8; 32], b: &[u8; 32]) -> (r: bool)
    ensures
        r == (key_num(a@) < key_num(b@)),
{
    let mut i: usize = 0;
    let mut lt = false;
    let mut gt = false;
    proof {
        assert(a@.take(0) =~= Seq::<u8>::empty());
        assert(b@.take(0) =~= Seq::<u8>::empty());
    }
    while i < 32
        invariant
            i <= 32,
            lt ==> key_num(a@.take(i as int)) < key_num(b@.take(i as int)),
            gt ==> key_num(a@.take(i as int)) > key_num(b@.take(i as int)),
            (!lt && !gt) ==> key_num(a@.take(i as int)) == key_num(b@.take(i as int)),
            !(lt && gt),
        decreases 32 - i,
    {
        let ghost xa = key_num(a@.take(i as int));
        let ghost xb = key_num(b@.take(i as int));
        proof {
            assert(a@.take(i + 1 as int).drop_last() =~= a@.take(i as int));
            assert(a@.take(i + 1 as int).last() == a@[i as int]);
            assert(b@.take(i + 1 as int).drop_last() =~= b@.take(i as int));
            assert(b@.take(i + 1 as int).last() == b@[i as int]);
            // A difference in the more significant digits outweighs any
            // difference in this one.
            assert(xa < xb ==> xa * 256 + a@[i as int] < xb * 256 + b@[i as int]) by (
            nonlinear_arith)
                requires
                    0 <= a@[i as int] < 256,
                    0 <= b@[i as int] < 256,
            {
            }
            assert(xa > xb ==> xa * 256 + a@[i as int] > xb * 256 + b@[i as int]) by (
            nonlinear_arith)
                requires
                    0 <= a@[i as int] < 256,
                    0 <= b@[i as int] < 256,
            {
            }
        }
        if !lt && !gt {
            if a[i] < b[i] {
                lt = true;
            } else if a[i] > b[i] {
                gt = true;
            }
        }
        i += 1;
    }
    proof {
        assert(a@.take(32) =~= a@);
        assert(b@.take(32) =~= b@);
    }
    lt
}

/// One instruction behind the id of the output that carried it.
#[derive(Clone, PartialEq, Eq, Debug)]
pub struct KeyedInstruction {
    pub output_id: [u8; 32],
    pub instruction: InInstruction,
}

/// Whether a list of keyed instructions is ordered by ascending output id.
pub open spec fn instructions_ordered(s: Seq<KeyedInstruction>) -> bool {
    forall|i: int, j: int|
        0 <= i < j < s.len() ==> key_num((#[trigger] s[i]).output_id@) <= key_num(
            (#[trigger] s[j]).output_id@,
        )
}

/// Whether no two keyed instructions share an output id.
pub open spec fn instructions_distinct(s: Seq<KeyedInstruction>) -> bool {
    forall|i: int, j: int|
        0 <= i < j < s.len() ==> (#[trigger] s[i]).output_id@ != (#[trigger] s[j]).output_id@
}

/// Find two instructions sharing an output id, if any.
pub fn find_duplicate_output_id(items: &Vec<KeyedInstruction>) -> (r: Option<(usize, usize)>)
    ensures
        match r {
            Some((i, j)) => i < j < items@.len() && items@[i as int].output_id@
                == items@[j as int].output_id@,
            None => instructions_distinct(items@),
        },
{
    let n = items.len();
    let mut i: usize = 0;
    while i < n
        invariant
            n == items@.len(),
            i <= n,
            forall|x: int, y: int|
                0 <= x < y < n && x < i ==> (#[trigger] items@[x]).output_id@ != (
                #[trigger] items@[y]).output_id@,
        decreases n - i,
    {
        let mut j: usize = i + 1;
        while j < n
            invariant
                n == items@.len(),
                i < n,
                i + 1 <= j <= n,
                forall|y: int|
                    i < y < j ==> (#[trigger] items@[y]).output_id@ != items@[i as int].output_id@,
            decreases n - j,
        {
            if crate::ids::bytes32_eq(&items[i].output_id, &items[j].output_id) {
                return Some((i, j));
            }
            proof {
                if items@[j as int].output_id@ == items@[i as int].output_id@ {
                    assert(items@[j as int].output_id =~= items@[i as int].output_id);
                }
            }
            j += 1;
        }
        i += 1;
    }
    None
}

/// Inserting an element anywhere preserves the multiset of a sequence plus
/// that element.
proof fn lemma_insert_to_multiset(s: Seq<KeyedInstruction>, i: int, x: KeyedInstruction)
    requires
        0 <= i <= s.len(),
    ensures
        s.insert(i, x).to_multiset() == s.to_multiset().insert(x),
{
    broadcast use vstd::seq_lib::group_to_multiset_ensures;

    let t = s.insert(i, x);
    assert(t.remove(i) =~= s);
    assert(t[i] == x);
    assert(t.remove(i).to_multiset() == t.to_multiset().remove(x));
    assert(t.to_multiset().contains(x)) by {
        assert(t.contains(x));
    }
    assert(t.to_multiset() =~= s.to_multiset().insert(x));
}

/// Sort instructions by ascending output id. The result holds exactly the
/// input's instructions; ids that compare equal stay adjacent.
pub fn sort_by_output_id(items: Vec<KeyedInstruction>) -> (r: Vec<KeyedInstruction>)
    ensures
        instructions_ordered(r@),
        r@.to_multiset() == items@.to_multiset(),
        r@.len() == items@.len(),
{
    broadcast use vstd::seq_lib::group_to_multiset_ensures;

    let ghost orig = items@;
    let n = items.len();
    let mut items = items;
    let mut out: Vec<KeyedInstruction> = Vec::new();
    proof {
        assert(orig.take(0) =~= Seq::<KeyedInstruction>::empty());
        assert(out@.to_multiset() =~= orig.take(0).to_multiset());
        assert(items@ =~= orig.skip(0));
    }
    let mut i: usize = 0;
    while i < n
        invariant
            n == orig.len(),
            i <= n,
            items@ == orig.skip(i as int),
            out@.len() == i,
            instructions_ordered(out@),
            out@.to_multiset() == orig.take(i as int).to_multiset(),
        decreases n - i,
    {
        let item = items.remove(0);
        proof {
            assert(orig.skip(i as int)[0] == orig[i as int]);
            assert(item == orig[i as int]);
            assert(items@ =~= orig.skip(i + 1 as int));
        }
        // Find the first strictly greater id and insert before it.
        let mut p: usize = 0;
        while p < out.len() && !key_lt(&item.output_id, &out[p].output_id)
            invariant
                p <= out@.len(),
                forall|j: int|
                    0 <= j < p ==> key_num((#[trigger] out@[j]).output_id@) <= key_num(
                        item.output_id@,
                    ),
                out@.len() == i,
                instructions_ordered(out@),
            decreases out@.len() - p,
        {
            p += 1;
        }
        let ghost pre = out@;
        out.insert(p, item);
        proof {
            assert(out@ =~= pre.insert(p as int, out@[p as int]));
            lemma_insert_to_multiset(pre, p as int, out@[p as int]);
            // Multiset bookkeeping: the item moved from the input's front.
            assert(orig.take(i + 1 as int) =~= orig.take(i as int).push(orig[i as int]));
            orig.take(i as int).to_multiset_ensures();
            assert(orig.take(i as int).push(orig[i as int]).to_multiset() == orig.take(
                i as int,
            ).to_multiset().insert(orig[i as int]));
            // Order bookkeeping: everything before the slot is at most the
            // item, everything after at least it.
            assert forall|x: int, y: int|
                0 <= x < y < out@.len() implies key_num((#[trigger] out@[x]).output_id@)
                <= key_num((#[trigger] out@[y]).output_id@) by {
                if y == p {
                    assert(out@[x] == pre[x]);
                } else if x == p {
                    assert(out@[y] == pre[y - 1]);
                    if p < pre.len() {
                        assert(key_num(item.output_id@) < key_num(pre[p as int].output_id@));
                        if y - 1 > p {
                            assert(key_num(pre[p as int].output_id@) <= key_num(
                                pre[y - 1].output_id@,
                            ));
                        }
                    }
                } else if x < p && y > p {
                    assert(out@[x] == pre[x]);
                    assert(out@[y] == pre[y - 1]);
                } else if x < p {
                    assert(out@[x] == pre[x]);
                    assert(out@[y] == pre[y]);
                } else {
                    assert(out@[x] == pre[x - 1]);
                    assert(out@[y] == pre[y - 1]);
                }
            }
        }
        i += 1;
    }
    proof {
        assert(orig.take(n as int) =~= orig);
    }
    out
}

/// The instructions of a keyed list, keys dropped, order kept.
pub open spec fn bare_instructions(s: Seq<KeyedInstruction>) -> Seq<InInstruction> {
    Seq::new(s.len(), |i: int| s[i].instruction)
}

/// What the scanner recorded for one notable block: who signs its batches,
/// under which key, and the instructions it yielded, each behind the id of
/// the output that carried it.
#[derive(Clone, PartialEq, Eq, Debug)]
pub struct NotableBlock {
    pub block_hash: BlockHash,
    pub session_to_sign_batch: Session,
    pub external_key: Vec<u8>,
    pub in_instructions_hash: [u8; 32],
    pub instructions: Vec<KeyedInstruction>,
}

/// Every block's instructions fit the batch arithmetic: a bounded count of
/// boundedly sized instructions.
pub open spec fn feed_ok(feed: Seq<Option<NotableBlock>>) -> bool {
    forall|k: int|
        0 <= k < feed.len() ==> (match #[trigger] feed[k] {
            Some(nb) => nb.instructions@.len() <= 0x1_0000 && instructions_distinct(
                nb.instructions@,
            ) && (forall|i: int|
                0 <= i < nb.instructions@.len() ==> (#[trigger] nb.instructions@[i])
                    .instruction.0@.len() <= 0x4000),
            None => true,
        })
}

/// The batch ids a feed can consume: one per instruction and one extra per
/// notable block.
pub open spec fn feed_cost(feed: Seq<Option<NotableBlock>>) -> nat
    decreases feed.len(),
{
    if feed.len() == 0 {
        0
    } else {
        (match feed[0] {
            Some(nb) => nb.instructions@.len() + 1,
            None => 0nat,
        }) + feed_cost(feed.skip(1))
    }
}

/// Boundedly sized instructions add up to a bounded encoding.
proof fn lemma_instructions_len_bounded(s: Seq<InInstruction>, each: int)
    requires
        0 <= each,
        forall|i: int| 0 <= i < s.len() ==> (#[trigger] s[i]).0@.len() <= each,
    ensures
        Batch::instructions_len(s) <= s.len() * each,
    decreases s.len(),
{
    if s.len() > 0 {
        assert forall|i: int|
            0 <= i < s.drop_last().len() implies (#[trigger] s.drop_last()[i]).0@.len()
            <= each by {
            assert(s.drop_last()[i] == s[i]);
        }
        lemma_instructions_len_bounded(s.drop_last(), each);
        assert((s.len() - 1) * each + each == s.len() * each) by (nonlinear_arith);
    }
}

/// A multiset-preserving rearrangement keeps every element's bound.
proof fn lemma_permutation_elem_bound(
    out: Seq<KeyedInstruction>,
    input: Seq<KeyedInstruction>,
    each: int,
)
    requires
        out.to_multiset() == input.to_multiset(),
        forall|i: int|
            0 <= i < input.len() ==> (#[trigger] input[i]).instruction.0@.len() <= each,
    ensures
        forall|i: int| 0 <= i < out.len() ==> (#[trigger] out[i]).instruction.0@.len() <= each,
{
    broadcast use vstd::seq_lib::group_to_multiset_ensures;

    assert forall|i: int|
        0 <= i < out.len() implies (#[trigger] out[i]).instruction.0@.len() <= each by {
        assert(out.contains(out[i]));
        assert(out.to_multiset().count(out[i]) > 0);
        assert(input.contains(out[i]));
        let w = choose|j: int| 0 <= j < input.len() && input[j] == out[i];
        assert(input[w].instruction.0@.len() <= each);
    }
}

/// The concatenation of per-block batch groups, in block order.
pub open spec fn concat_groups(gs: Seq<Seq<Batch>>) -> Seq<Batch>
    decreases gs.len(),
{
    if gs.len() == 0 {
        Seq::empty()
    } else {
        concat_groups(gs.drop_last()) + gs.last()
    }
}

/// How many batches the groups before the k-th hold.
pub open spec fn groups_prefix_len(gs: Seq<Seq<Batch>>, k: int) -> int {
    concat_groups(gs.take(k)).len() as int
}

/// What one notable block's batches must look like: consecutive ids from
/// the given one, the block's own hash, the size cap honored, and the
/// instructions exactly the block's own, ordered by ascending output id.
pub open spec fn block_batches_ok(
    group: Seq<Batch>,
    network: NetworkId,
    block_hash: BlockHash,
    first_id: int,
    keyed: Seq<KeyedInstruction>,
) -> bool {
    &&& group.len() >= 1
    &&& group.len() <= keyed.len() + 1
    &&& (forall|j: int|
        0 <= j < group.len() ==> {
            &&& (#[trigger] group[j]).network == network
            &&& group[j].block == block_hash
            &&& group[j].id as int == first_id + j
            &&& (group[j].encoded_len() <= crate::batches::MAX_BATCH_SIZE
                || group[j].instructions@.len() == 1)
        })
    &&& (keyed.len() > 0 ==> forall|j: int|
        0 <= j < group.len() ==> (#[trigger] group[j]).instructions@.len() > 0)
    &&& (keyed.len() == 0 ==> group.len() == 1 && group[0].instructions@.len() == 0)
    &&& exists|sorted: Seq<KeyedInstruction>|
        sorted.to_multiset() == keyed.to_multiset() && instructions_ordered(sorted)
            && #[trigger] crate::batches::batches_instructions(group) == bare_instructions(sorted)
}

impl ReportDb {
    /// Run one report iteration: walk the blocks from the next to report up
    /// to the last scanned one, and turn each notable block's instructions,
    /// sorted by the ids of the outputs that carried them, into batches.
    ///
    /// The caller supplies the scanner's view: the next block it would scan
    /// (so the last scanned one bounds the walk) and one feed entry per
    /// block of the walk, its instructions carrying pairwise distinct
    /// output ids — a duplicate id is an invariant violation, which
    /// `find_duplicate_output_id` lets the caller detect and abort on, as
    /// the original process did. Progress is made exactly when any block
    /// stood in the walk; the next block to report then moves past the
    /// scanned ones.
    ///
    /// The returned batches are, block by block in walk order, exactly the
    /// notable blocks' batches: consecutive ids counting on from the batch
    /// id row, each block's own hash, the size cap honored, instructions
    /// equal to that block's own in ascending output-id order, and the
    /// verification info of every produced batch saved under its id. A walk
    /// over no notable block consumes no id and saves nothing.
    pub fn run_report_iteration(
        &mut self,
        network: NetworkId,
        next_to_scan: u64,
        feed: Vec<Option<NotableBlock>>,
    ) -> (r: (bool, Vec<Batch>))
        requires
            old(self).wf(),
            old(self).spec_next_to_potentially_report_block() matches Some(p) && (
            if next_to_scan == 0 {
                feed@.len() == 0
            } else {
                p + feed@.len() == next_to_scan && p <= next_to_scan
            }),
            feed_ok(feed@),
            old(self).spec_next_batch_id() + feed_cost(feed@) < 0xffff_fffe,
        ensures
            final(self).wf(),
            r.0 == (next_to_scan > 0 && feed@.len() > 0),
            ({
                let p = old(self).spec_next_to_potentially_report_block()->0;
                final(self).spec_next_to_potentially_report_block() == Some(
                    if next_to_scan > 0 && feed@.len() > 0 {
                        next_to_scan
                    } else {
                        p
                    },
                )
            }),
            final(self).spec_next_batch_id() >= old(self).spec_next_batch_id(),
            final(self).spec_next_batch_id() as int == old(self).spec_next_batch_id()
                + r.1@.len(),
            // Block by block, the returned batches are the notable blocks'
            // own, with their info saved; nothing else moves.
            exists|groups: Seq<Seq<Batch>>|
                {
                    let p = old(self).spec_next_to_potentially_report_block()->0 as int;
                    let id0 = old(self).spec_next_batch_id() as int;
                    &&& groups.len() == feed@.len()
                    &&& r.1@ == #[trigger] concat_groups(groups)
                    &&& forall|k: int|
                        0 <= k < feed@.len() ==> (match #[trigger] feed@[k] {
                            None => groups[k].len() == 0,
                            Some(nb) => {
                                let gfirst = id0 + groups_prefix_len(groups, k);
                                &&& block_batches_ok(
                                    groups[k],
                                    network,
                                    nb.block_hash,
                                    gfirst,
                                    nb.instructions@,
                                )
                                &&& forall|id2: u32|
                                    gfirst <= id2 < gfirst + groups[k].len() ==> (
                                    match #[trigger] final(self).spec_info_for_batch(id2) {
                                        Some(info) => {
                                            &&& info.block_number as int == p + k
                                            &&& info.session_to_sign_batch
                                                == nb.session_to_sign_batch
                                            &&& info.external_key_for_session_to_sign_batch@
                                                == nb.external_key@
                                            &&& info.in_instructions_hash
                                                == nb.in_instructions_hash
                                        },
                                        None => false,
                                    })
                            },
                        })
                },
            forall|id2: u32|
                !(old(self).spec_next_batch_id() <= id2 < final(self).spec_next_batch_id())
                    ==> #[trigger] final(self).spec_info_for_batch(id2) == old(
                    self,
                ).spec_info_for_batch(id2),
            forall|id2: u32|
                #[trigger] final(self).spec_return_information(id2) == old(
                    self,
                ).spec_return_information(id2),
            final(self).last_session_to_sign_batch_and_first_batch() == old(
                self,
            ).last_session_to_sign_batch_and_first_batch(),
    {
        let p = match self.next_to_potentially_report_block() {
            Some(p) => p,
            None => {
                proof {
                    assert(false);
                }
                0
            }
        };
        let ghost id0 = old(self).spec_next_batch_id() as int;
        if next_to_scan == 0 {
            proof {
                let groups = Seq::<Seq<Batch>>::empty();
                assert(concat_groups(groups) =~= Seq::<Batch>::empty());
            }
            return (false, Vec::new());
        }
        let ghost orig_feed = feed@;
        let mut feed = feed;
        let total = feed.len();
        if total == 0 {
            proof {
                let groups = Seq::<Seq<Batch>>::empty();
                assert(concat_groups(groups) =~= Seq::<Batch>::empty());
            }
            return (false, Vec::new());
        }
        let mut batches: Vec<Batch> = Vec::new();
        let ghost mut groups: Seq<Seq<Batch>> = Seq::empty();
        let mut i: usize = 0;
        proof {
            assert(feed@ =~= orig_feed.skip(0));
            assert(concat_groups(groups) =~= Seq::<Batch>::empty());
        }
        while i < total
            invariant
                self.wf(),
                total == orig_feed.len(),
                i <= total,
                feed@ == orig_feed.skip(i as int),
                feed_ok(orig_feed),
                p + total == next_to_scan,
                p <= next_to_scan,
                self.spec_next_batch_id() + feed_cost(orig_feed.skip(i as int)) < 0xffff_fffe,
                self.spec_next_batch_id() >= old(self).spec_next_batch_id(),
                id0 == old(self).spec_next_batch_id() as int,
                self.spec_next_to_potentially_report_block() == Some(
                    if i == 0 {
                        p
                    } else {
                        (p + i) as u64
                    },
                ),
                groups.len() == i,
                batches@ == concat_groups(groups),
                self.spec_next_batch_id() as int == id0 + concat_groups(groups).len(),
                forall|k: int|
                    0 <= k < i ==> (match #[trigger] orig_feed[k] {
                        None => groups[k].len() == 0,
                        Some(nb) => {
                            let gfirst = id0 + groups_prefix_len(groups, k);
                            &&& block_batches_ok(
                                groups[k],
                                network,
                                nb.block_hash,
                                gfirst,
                                nb.instructions@,
                            )
                            &&& gfirst + groups[k].len() <= self.spec_next_batch_id() as int
                            &&& forall|id2: u32|
                                gfirst <= id2 < gfirst + groups[k].len() ==> (
                                match #[trigger] self.spec_info_for_batch(id2) {
                                    Some(info) => {
                                        &&& info.block_number as int == p + k
                                        &&& info.session_to_sign_batch
                                            == nb.session_to_sign_batch
                                        &&& info.external_key_for_session_to_sign_batch@
                                            == nb.external_key@
                                        &&& info.in_instructions_hash == nb.in_instructions_hash
                                    },
                                    None => false,
                                })
                        },
                    }),
                forall|id2: u32|
                    !(id0 <= id2 < self.spec_next_batch_id()) ==> #[trigger] self.spec_info_for_batch(
                        id2,
                    ) == old(self).spec_info_for_batch(id2),
                forall|id2: u32|
                    #[trigger] self.spec_return_information(id2) == old(
                        self,
                    ).spec_return_information(id2),
                self.last_session_to_sign_batch_and_first_batch() == old(
                    self,
                ).last_session_to_sign_batch_and_first_batch(),
            decreases total - i,
        {
            let b: u64 = p + i as u64;
            let ghost pre_cost = feed_cost(orig_feed.skip(i as int));
            proof {
                assert(orig_feed.skip(i as int)[0] == orig_feed[i as int]);
                assert(orig_feed.skip(i as int).skip(1) =~= orig_feed.skip(i + 1 as int));
            }
            let entry = feed.remove(0);
            proof {
                assert(feed@ =~= orig_feed.skip(i + 1 as int));
            }
            match entry {
                Some(nb) => {
                    let ghost keyed0 = nb.instructions@;
                    let sorted = sort_by_output_id(nb.instructions);
                    let ghost sorted0 = sorted@;
                    let mut sorted = sorted;
                    let mut instructions: Vec<InInstruction> = Vec::new();
                    let m = sorted.len();
                    let mut k: usize = 0;
                    proof {
                        assert(sorted@ =~= sorted0.skip(0));
                        assert(instructions@ =~= bare_instructions(sorted0.take(0)));
                    }
                    while k < m
                        invariant
                            m == sorted0.len(),
                            k <= m,
                            sorted@ == sorted0.skip(k as int),
                            instructions@ == bare_instructions(sorted0.take(k as int)),
                        decreases m - k,
                    {
                        proof {
                            assert(sorted0.skip(k as int)[0] == sorted0[k as int]);
                        }
                        let ki = sorted.remove(0);
                        instructions.push(ki.instruction);
                        proof {
                            assert(sorted@ =~= sorted0.skip(k + 1 as int));
                            assert(instructions@ =~= bare_instructions(sorted0.take(k + 1 as int)));
                        }
                        k += 1;
                    }
                    proof {
                        assert(sorted0.take(m as int) =~= sorted0);
                        assert(instructions@ == bare_instructions(sorted0));
                        lemma_permutation_elem_bound(sorted0, keyed0, 0x4000);
                        assert forall|j: int|
                            0 <= j < bare_instructions(sorted0).len() implies (
                        #[trigger] bare_instructions(sorted0)[j]).0@.len() <= 0x4000 by {
                            assert(bare_instructions(sorted0)[j] == sorted0[j].instruction);
                        }
                        lemma_instructions_len_bounded(bare_instructions(sorted0), 0x4000);
                        broadcast use vstd::seq_lib::group_to_multiset_ensures;

                        assert(sorted0.len() == keyed0.len());
                        assert(pre_cost == keyed0.len() + 1 + feed_cost(
                            orig_feed.skip(i + 1 as int),
                        ));
                        assert(Batch::instructions_len(instructions@) <= 0x1_0000 * 0x4000) by (
                        nonlinear_arith)
                            requires
                                Batch::instructions_len(instructions@) <= instructions@.len()
                                    * 0x4000,
                                instructions@.len() <= 0x1_0000,
                        {
                        }
                    }
                    let ghost pre_self = *self;
                    let ghost instr_view = instructions@;
                    let ghost nb_key_view = nb.external_key@;
                    let ghost nb_hash = nb.block_hash;
                    let ghost nb_session = nb.session_to_sign_batch;
                    let ghost nb_iih = nb.in_instructions_hash;
                    let produced = self.report_block(
                        network,
                        b,
                        nb.block_hash,
                        nb.session_to_sign_batch,
                        nb.external_key,
                        nb.in_instructions_hash,
                        instructions,
                    );
                    let ghost g = produced@;
                    let mut produced = produced;
                    batches.append(&mut produced);
                    proof {
                        assert(self.spec_next_batch_id() + feed_cost(orig_feed.skip(i + 1 as int))
                            < 0xffff_fffe);
                        let prev_groups = groups;
                        groups = groups.push(g);
                        // The new group concatenates onto the accumulated
                        // batches, starting at the id row's old value.
                        assert(groups.drop_last() =~= prev_groups);
                        assert(groups.last() == g);
                        assert(concat_groups(groups) == concat_groups(prev_groups) + g);
                        assert(batches@ =~= concat_groups(groups));
                        assert(groups.take(i as int) =~= prev_groups);
                        let gfirst = id0 + groups_prefix_len(groups, i as int);
                        assert(gfirst == pre_self.spec_next_batch_id() as int);
                        // The fresh group satisfies the per-block shape.
                        assert(block_batches_ok(g, network, nb_hash, gfirst, keyed0)) by {
                            if keyed0.len() > 0 {
                                assert(instr_view[0] == sorted0[0].instruction);
                                assert(38 + instr_view[0].0@.len()
                                    <= crate::batches::MAX_BATCH_SIZE);
                            } else {
                                assert(sorted0 =~= Seq::<KeyedInstruction>::empty());
                                assert(instr_view =~= Seq::<InInstruction>::empty());
                                assert(g.len() == 1);
                                assert(crate::batches::batches_instructions(g) =~= g[0]
                                    .instructions@) by {
                                    assert(g.drop_last() =~= Seq::<Batch>::empty());
                                    assert(crate::batches::batches_instructions(g.drop_last())
                                        =~= Seq::<InInstruction>::empty());
                                    assert(g.last() == g[0]);
                                }
                            }
                        }
                        // Earlier groups are untouched, their id ranges
                        // below everything this block consumed.
                        assert forall|k: int|
                            0 <= k < i + 1 implies (match #[trigger] orig_feed[k] {
                            None => groups[k].len() == 0,
                            Some(nb2) => {
                                let gf = id0 + groups_prefix_len(groups, k);
                                &&& block_batches_ok(
                                    groups[k],
                                    network,
                                    nb2.block_hash,
                                    gf,
                                    nb2.instructions@,
                                )
                                &&& gf + groups[k].len() <= self.spec_next_batch_id() as int
                                &&& forall|id2: u32|
                                    gf <= id2 < gf + groups[k].len() ==> (
                                    match #[trigger] self.spec_info_for_batch(id2) {
                                        Some(info) => {
                                            &&& info.block_number as int == p + k
                                            &&& info.session_to_sign_batch
                                                == nb2.session_to_sign_batch
                                            &&& info.external_key_for_session_to_sign_batch@
                                                == nb2.external_key@
                                            &&& info.in_instructions_hash
                                                == nb2.in_instructions_hash
                                        },
                                        None => false,
                                    })
                            },
                        }) by {
                            if k < i {
                                assert(groups[k] == prev_groups[k]);
                                assert(groups.take(k) =~= prev_groups.take(k));
                            }
                        }
                    }
                }
                None => {
                    self.set_next_to_potentially_report_block(b + 1);
                    proof {
                        let prev_groups = groups;
                        groups = groups.push(Seq::<Batch>::empty());
                        assert(groups.drop_last() =~= prev_groups);
                        assert(groups.last() == Seq::<Batch>::empty());
                        assert(concat_groups(groups) =~= concat_groups(prev_groups));
                        assert(batches@ =~= concat_groups(groups));
                        assert forall|k: int|
                            0 <= k < i + 1 implies (match #[trigger] orig_feed[k] {
                            None => groups[k].len() == 0,
                            Some(nb2) => {
                                let gf = id0 + groups_prefix_len(groups, k);
                                &&& block_batches_ok(
                                    groups[k],
                                    network,
                                    nb2.block_hash,
                                    gf,
                                    nb2.instructions@,
                                )
                                &&& gf + groups[k].len() <= self.spec_next_batch_id() as int
                                &&& forall|id2: u32|
                                    gf <= id2 < gf + groups[k].len() ==> (
                                    match #[trigger] self.spec_info_for_batch(id2) {
                                        Some(info) => {
                                            &&& info.block_number as int == p + k
                                            &&& info.session_to_sign_batch
                                                == nb2.session_to_sign_batch
                                            &&& info.external_key_for_session_to_sign_batch@
                                                == nb2.external_key@
                                            &&& info.in_instructions_hash
                                                == nb2.in_instructions_hash
                                        },
                                        None => false,
                                    })
                            },
                        }) by {
                            if k < i {
                                assert(groups[k] == prev_groups[k]);
                                assert(groups.take(k) =~= prev_groups.take(k));
                            }
                        }
                    }
                }
            }
            i += 1;
        }
        proof {
            assert(orig_feed.skip(total as int) =~= Seq::<Option<NotableBlock>>::empty());
        }
        (true, batches)
    }
}

} // verus!
