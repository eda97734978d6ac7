//! Wallet-side scanning: the serialized form of a spendable output, and the
//! selection of spendable outputs from a scanned transaction. The key
//! derivations themselves are elliptic-curve work done upstream; the
//! decision logic here is a function of their verdicts.

use vstd::prelude::*;
use vstd::bytes::*;

use crate::clsag::Commitment;
use crate::curve::{point_is_valid, scalar_is_canonical, spec_point_valid, spec_scalar_canonical};

verus! {

broadcast use vstd::array::group_array_axioms;

/// An output spendable by our key, with everything needed to spend it.
#[derive(Clone, Copy, PartialEq, Eq, Debug)]
pub struct SpendableOutput {
    pub tx: [u8; 32],
    pub o: u8,
    pub key: [u8; 32],
    pub key_offset: [u8; 32],
    pub commitment: Commitment,
}

/// The serialized form of a spendable output: transaction hash, output
/// index, key, key offset, then the commitment's mask and amount.
pub open spec fn spendable_bytes(s: SpendableOutput) -> Seq<u8> {
    s.tx@ + seq![s.o] + s.key@ + s.key_offset@ + s.commitment.mask@ + spec_u64_to_le_bytes(
        s.commitment.amount,
    )
}

impl SpendableOutput {
    /// Serialize the output.
    pub fn serialize(&self) -> (r: Vec<u8>)
        ensures
            r@ == spendable_bytes(*self),
    {
        let mut r: Vec<u8> = Vec::new();
        let mut t = vstd::slice::slice_to_vec(vstd::array::array_as_slice(&self.tx));
        r.append(&mut t);
        r.push(self.o);
        let mut k = vstd::slice::slice_to_vec(vstd::array::array_as_slice(&self.key));
        r.append(&mut k);
        let mut ko = vstd::slice::slice_to_vec(vstd::array::array_as_slice(&self.key_offset));
        r.append(&mut ko);
        let mut m = vstd::slice::slice_to_vec(
            vstd::array::array_as_slice(&self.commitment.mask),
        );
        r.append(&mut m);
        let mut a = u64_to_le_bytes(self.commitment.amount);
        r.append(&mut a);
        proof {
            assert(r@ =~= spendable_bytes(*self));
        }
        r
    }

    /// Deserialize an output from the front of a buffer, consuming exactly
    /// its serialized bytes. The key must be a curve point and the key
    /// offset and mask canonical scalars; reading fails exactly when the
    /// buffer is short or one of those checks does, so what `serialize`
    /// wrote always reads back.
    pub fn deserialize(bytes: &Vec<u8>) -> (r: Option<SpendableOutput>)
        ensures
            match r {
                Some(out) => {
                    &&& bytes@.len() >= 137
                    &&& bytes@.take(137) == spendable_bytes(out)
                    &&& spec_point_valid(out.key@)
                    &&& spec_scalar_canonical(out.key_offset@)
                    &&& spec_scalar_canonical(out.commitment.mask@)
                },
                None => {
                    ||| bytes@.len() < 137
                    ||| !spec_point_valid(bytes@.subrange(33, 65))
                    ||| !spec_scalar_canonical(bytes@.subrange(65, 97))
                    ||| !spec_scalar_canonical(bytes@.subrange(97, 129))
                },
            },
    {
        if bytes.len() < 137 {
            return None;
        }
        let tx = take32(bytes, 0);
        let o = bytes[32];
        let key = take32(bytes, 33);
        if !point_is_valid(&key) {
            return None;
        }
        let key_offset = take32(bytes, 65);
        if !scalar_is_canonical(&key_offset) {
            return None;
        }
        let mask = take32(bytes, 97);
        if !scalar_is_canonical(&mask) {
            return None;
        }
        let amt_slice = vstd::slice::slice_subrange(bytes.as_slice(), 129, 137);
        let amount = u64_from_le_bytes(amt_slice);
        let out = SpendableOutput {
            tx,
            o,
            key,
            key_offset,
            commitment: Commitment { mask, amount },
        };
        proof {
            lemma_auto_spec_u64_to_from_le_bytes();
            assert(spec_u64_to_le_bytes(amount) =~= bytes@.subrange(129, 137));
            assert(bytes@.take(137) =~= spendable_bytes(out));
        }
        Some(out)
    }
}

/// Copy 32 bytes out of a buffer.
fn take32(bytes: &Vec<u8>, pos: usize) -> (r: [u8; 32])
    requires
        pos + 32 <= bytes@.len(),
    ensures
        r@ == bytes@.subrange(pos as int, pos + 32),
{
    let blen = bytes.len();
    let mut r = [0u8; 32];
    let mut k: usize = 0;
    while k < 32
        invariant
            pos + 32 <= blen,
            blen == bytes@.len(),
            k <= 32,
            forall|j: int| 0 <= j < k ==> r@[j] == bytes@[pos + j],
        decreases 32 - k,
    {
        r[k] = bytes[pos + k];
        k += 1;
    }
    proof {
        assert(r@ =~= bytes@.subrange(pos as int, pos + 32));
    }
    r
}

/// The serialized form determines the output.
pub proof fn lemma_spendable_bytes_injective(a: SpendableOutput, b: SpendableOutput)
    requires
        spendable_bytes(a) == spendable_bytes(b),
    ensures
        a == b,
{
    lemma_auto_spec_u64_to_from_le_bytes();
    let ba = spendable_bytes(a);
    assert(a.tx@ =~= ba.subrange(0, 32));
    assert(b.tx@ =~= ba.subrange(0, 32));
    assert(a.tx =~= b.tx);
    assert(a.o == ba[32] && b.o == ba[32]);
    assert(a.key@ =~= ba.subrange(33, 65));
    assert(b.key@ =~= ba.subrange(33, 65));
    assert(a.key =~= b.key);
    assert(a.key_offset@ =~= ba.subrange(65, 97));
    assert(b.key_offset@ =~= ba.subrange(65, 97));
    assert(a.key_offset =~= b.key_offset);
    assert(a.commitment.mask@ =~= ba.subrange(97, 129));
    assert(b.commitment.mask@ =~= ba.subrange(97, 129));
    assert(a.commitment.mask =~= b.commitment.mask);
    assert(spec_u64_to_le_bytes(a.commitment.amount) =~= ba.subrange(129, 137));
    assert(spec_u64_to_le_bytes(b.commitment.amount) =~= ba.subrange(129, 137));
}

/// The key-derivation verdicts for one output under one transaction key:
/// whether a derived shared key recovers our spend key, and if so what
/// decrypting the amount and rebuilding the commitment under it gave.
#[derive(Clone, Copy, PartialEq, Eq, Debug)]
pub struct OutputCandidate {
    /// The recovered key offset, when the traditional or uniqueness-bound
    /// shared key matched; the traditional one takes precedence.
    pub key_offset: Option<[u8; 32]>,
    /// The amount decrypted under the offset, absent when the transaction
    /// carried no encrypted amount for this output.
    pub decrypted_amount: Option<u64>,
    /// The rebuilt commitment's mask under the offset.
    pub mask: [u8; 32],
    /// Whether the rebuilt commitment equals the one the transaction states.
    pub commitment_matches: bool,
}

/// What the transaction states about one of its outputs.
#[derive(Clone, Copy, PartialEq, Eq, Debug)]
pub struct ScannedOutput {
    /// The output's one-time key.
    pub key: [u8; 32],
    /// The amount the transaction declares; zero for everything but miner
    /// transactions.
    pub declared_amount: u64,
}

/// The scalar one, the mask of a miner transaction's commitment.
pub open spec fn spec_one_scalar() -> Seq<u8> {
    seq![1u8] + Seq::new(31, |i: int| 0u8)
}

/// What scanning one output decides, walking its candidates in transaction
/// key order: the first matching key wins; an output without an encrypted
/// amount under the matching key falls through to the next key; a
/// commitment mismatch abandons the output; a zero amount spends nothing.
/// The result carries the key offset, the commitment mask and the amount.
pub open spec fn spec_scan_one(
    candidates: Seq<OutputCandidate>,
    declared_amount: u64,
) -> Option<(([u8; 32], [u8; 32]), u64)>
    decreases candidates.len(),
{
    if candidates.len() == 0 {
        None
    } else {
        let c = candidates[0];
        match c.key_offset {
            None => spec_scan_one(candidates.skip(1), declared_amount),
            Some(offset) => {
                if declared_amount != 0 {
                    Some(((offset, c.mask), declared_amount))
                } else {
                    match c.decrypted_amount {
                        None => spec_scan_one(candidates.skip(1), declared_amount),
                        Some(amount) => {
                            if !c.commitment_matches {
                                None
                            } else if amount != 0 {
                                Some(((offset, c.mask), amount))
                            } else {
                                None
                            }
                        },
                    }
                }
            },
        }
    }
}

/// What a selected spendable output looks like, given the scan decision.
pub open spec fn spec_scanned_entry(
    e: SpendableOutput,
    tx_hash: [u8; 32],
    o: int,
    out: ScannedOutput,
    found: (([u8; 32], [u8; 32]), u64),
) -> bool {
    &&& e.tx == tx_hash
    &&& e.o as int == o
    &&& e.key == out.key
    &&& e.key_offset == found.0.0
    &&& e.commitment.amount == found.1
    &&& e.commitment.mask@ == if out.declared_amount != 0 {
        spec_one_scalar()
    } else {
        found.0.1@
    }
}

/// The scalar one as executable bytes.
pub fn one_scalar_bytes() -> (r: [u8; 32])
    ensures
        r@ == spec_one_scalar(),
{
    let mut r = [0u8; 32];
    r[0] = 1;
    proof {
        assert(r@ =~= spec_one_scalar());
    }
    r
}

/// Scan one output: walk its candidates in transaction key order and decide
/// whether we can spend it, exactly as `spec_scan_one` does.
pub fn scan_one_output(
    tx_hash: [u8; 32],
    o: u8,
    out: &ScannedOutput,
    candidates: &Vec<OutputCandidate>,
) -> (r: Option<SpendableOutput>)
    ensures
        match spec_scan_one(candidates@, out.declared_amount) {
            Some(found) => r matches Some(e) && spec_scanned_entry(
                e,
                tx_hash,
                o as int,
                *out,
                found,
            ),
            None => r is None,
        },
{
    let declared = out.declared_amount;
    let m = candidates.len();
    let mut p: usize = 0;
    proof {
        assert(candidates@.skip(0) =~= candidates@);
    }
    while p < m
        invariant
            m == candidates@.len(),
            p <= m,
            declared == out.declared_amount,
            spec_scan_one(candidates@, declared) == spec_scan_one(
                candidates@.skip(p as int),
                declared,
            ),
        decreases m - p,
    {
        let c = candidates[p];
        proof {
            assert(candidates@.skip(p as int)[0] == c);
            assert(candidates@.skip(p as int).skip(1) =~= candidates@.skip(p + 1 as int));
        }
        match c.key_offset {
            None => {}
            Some(offset) => {
                if declared != 0 {
                    // A miner transaction: the amount is declared and the
                    // commitment mask is one.
                    return Some(
                        SpendableOutput {
                            tx: tx_hash,
                            o,
                            key: out.key,
                            key_offset: offset,
                            commitment: Commitment { mask: one_scalar_bytes(), amount: declared },
                        },
                    );
                }
                match c.decrypted_amount {
                    None => {}
                    Some(amount) => {
                        if !c.commitment_matches {
                            // A malicious commitment: ignore the output.
                            return None;
                        }
                        if amount != 0 {
                            return Some(
                                SpendableOutput {
                                    tx: tx_hash,
                                    o,
                                    key: out.key,
                                    key_offset: offset,
                                    commitment: Commitment { mask: c.mask, amount },
                                },
                            );
                        }
                        return None;
                    }
                }
            }
        }
        p += 1;
    }
    proof {
        assert(candidates@.skip(m as int) =~= Seq::<OutputCandidate>::empty());
    }
    None
}

/// Scan a transaction's outputs for ones spendable by us, given the
/// transaction's hash, its stated outputs, and the key-derivation verdicts
/// of every output under every transaction key. Each output spends at most
/// once, exactly as `spec_scan_one` decides per output.
pub fn scan_outputs(
    tx_hash: [u8; 32],
    outputs: &Vec<ScannedOutput>,
    candidates: &Vec<Vec<OutputCandidate>>,
) -> (r: Vec<SpendableOutput>)
    requires
        outputs@.len() <= 256,
        candidates@.len() == outputs@.len(),
    ensures
        forall|j: int| 0 <= j < r@.len() ==> (#[trigger] r@[j]).tx == tx_hash,
        forall|o: int|
            0 <= o < outputs@.len() ==> {
                match spec_scan_one((#[trigger] candidates@[o])@, outputs@[o].declared_amount) {
                    Some(found) => exists|j: int|
                        0 <= j < r@.len() && spec_scanned_entry(
                            #[trigger] r@[j],
                            tx_hash,
                            o,
                            outputs@[o],
                            found,
                        ),
                    None => true,
                }
            },
        // Completeness: every returned entry is one output's own decision,
        // and output indices come back strictly increasing, so no output
        // spends twice and nothing spurious appears.
        forall|j: int|
            0 <= j < r@.len() ==> ((#[trigger] r@[j]).o as int) < outputs@.len() && (
            match spec_scan_one(
                candidates@[r@[j].o as int]@,
                outputs@[r@[j].o as int].declared_amount,
            ) {
                Some(found) => spec_scanned_entry(
                    r@[j],
                    tx_hash,
                    r@[j].o as int,
                    outputs@[r@[j].o as int],
                    found,
                ),
                None => false,
            }),
        forall|j1: int, j2: int|
            0 <= j1 < j2 < r@.len() ==> (#[trigger] r@[j1]).o < (#[trigger] r@[j2]).o,
{
    let mut r: Vec<SpendableOutput> = Vec::new();
    let n = outputs.len();
    let mut o: usize = 0;
    while o < n
        invariant
            n == outputs@.len(),
            n <= 256,
            candidates@.len() == outputs@.len(),
            o <= n,
            forall|j: int| 0 <= j < r@.len() ==> (#[trigger] r@[j]).tx == tx_hash,
            forall|j: int| 0 <= j < r@.len() ==> ((#[trigger] r@[j]).o as int) < o,
            forall|j: int|
                0 <= j < r@.len() ==> ((#[trigger] r@[j]).o as int) < outputs@.len() && (
                match spec_scan_one(
                    candidates@[r@[j].o as int]@,
                    outputs@[r@[j].o as int].declared_amount,
                ) {
                    Some(found) => spec_scanned_entry(
                        r@[j],
                        tx_hash,
                        r@[j].o as int,
                        outputs@[r@[j].o as int],
                        found,
                    ),
                    None => false,
                }),
            forall|j1: int, j2: int|
                0 <= j1 < j2 < r@.len() ==> (#[trigger] r@[j1]).o < (#[trigger] r@[j2]).o,
            forall|oo: int|
                0 <= oo < o ==> {
                    match spec_scan_one((#[trigger] candidates@[oo])@, outputs@[oo].declared_amount) {
                        Some(found) => exists|j: int|
                            0 <= j < r@.len() && spec_scanned_entry(
                                #[trigger] r@[j],
                                tx_hash,
                                oo,
                                outputs@[oo],
                                found,
                            ),
                        None => true,
                    }
                },
        decreases n - o,
    {
        let found = scan_one_output(tx_hash, o as u8, &outputs[o], &candidates[o]);
        let ghost prev = r@;
        match found {
            Some(e) => {
                r.push(e);
            }
            None => {}
        }
        proof {
            assert forall|oo: int| 0 <= oo < o + 1 implies {
                match spec_scan_one((#[trigger] candidates@[oo])@, outputs@[oo].declared_amount) {
                    Some(found2) => exists|j: int|
                        0 <= j < r@.len() && spec_scanned_entry(
                            #[trigger] r@[j],
                            tx_hash,
                            oo,
                            outputs@[oo],
                            found2,
                        ),
                    None => true,
                }
            } by {
                if oo < o {
                    match spec_scan_one(candidates@[oo]@, outputs@[oo].declared_amount) {
                        Some(found2) => {
                            let w = choose|j: int|
                                0 <= j < prev.len() && spec_scanned_entry(
                                    prev[j],
                                    tx_hash,
                                    oo,
                                    outputs@[oo],
                                    found2,
                                );
                            assert(r@[w] == prev[w]);
                            assert(spec_scanned_entry(r@[w], tx_hash, oo, outputs@[oo], found2));
                        }
                        None => {}
                    }
                } else {
                    match spec_scan_one(candidates@[oo]@, outputs@[oo].declared_amount) {
                        Some(found2) => {
                            assert(r@[r@.len() - 1] == prev.push(r@.last()).last());
                            assert(spec_scanned_entry(
                                r@[r@.len() - 1],
                                tx_hash,
                                oo,
                                outputs@[oo],
                                found2,
                            ));
                        }
                        None => {}
                    }
                }
            }
        }
        o += 1;
    }
    r
}

} // verus!
