//! Identities of sessions, participants and signable artifacts, with their
//! canonical byte encodings as used inside message intents.

use vstd::prelude::*;
use vstd::bytes::*;

verus! {

broadcast use vstd::array::group_array_axioms;

/// A generation of the validator set. Sessions are retired in strict order.
#[derive(Clone, Copy, PartialEq, Eq, Structural, Debug, Hash)]
pub struct Session(pub u32);

/// One-based index of a participant in a threshold signing protocol.
#[derive(Clone, Copy, PartialEq, Eq, Structural, Debug, Hash)]
pub struct Participant(pub u16);

impl Participant {
    /// A participant index is never zero.
    pub open spec fn wf(self) -> bool {
        self.0 >= 1
    }

    /// Build a participant index, rejecting zero.
    pub fn new(i: u16) -> (r: Option<Participant>)
        ensures
            match r {
                Some(p) => p.wf() && p.0 == i,
                None => i == 0,
            },
    {
        if i == 0 {
            None
        } else {
            Some(Participant(i))
        }
    }
}

/// Tagged identity of a signable artifact.
#[derive(Clone, Copy, PartialEq, Eq, Debug, Hash)]
pub enum VariantSignId {
    /// A Serai block to cosign, by block number.
    Cosign(u64),
    /// A batch of in-instructions, by its hash.
    Batch([u8; 32]),
    /// The slash report of a session; at most one exists per session.
    SlashReport,
    /// An external-chain transaction, by its identifier.
    Transaction([u8; 32]),
}

/// Uniquely names one signing protocol instance.
#[derive(Clone, Copy, PartialEq, Eq, Debug, Hash)]
pub struct SignId {
    pub session: Session,
    pub id: VariantSignId,
    pub attempt: u32,
}

/// Compare two 32-byte identifiers.
pub fn bytes32_eq(a: &[u8; 32], b: &[u8; 32]) -> (r: bool)
    ensures
        r == (*a == *b),
{
    let mut i: usize = 0;
    while i < 32
        invariant
            i <= 32,
            forall|k: int| 0 <= k < i ==> a@[k] == b@[k],
        decreases 32 - i,
    {
        if a[i] != b[i] {
            return false;
        }
        i += 1;
    }
    proof {
        assert(*a =~= *b);
    }
    true
}

impl VariantSignId {
    /// Decide spec-level equality of two artifact identities.
    pub fn eq_id(&self, other: &VariantSignId) -> (r: bool)
        ensures
            r == (*self == *other),
    {
        match (self, other) {
            (VariantSignId::Cosign(a), VariantSignId::Cosign(b)) => a == b,
            (VariantSignId::Batch(a), VariantSignId::Batch(b)) => bytes32_eq(a, b),
            (VariantSignId::SlashReport, VariantSignId::SlashReport) => true,
            (VariantSignId::Transaction(a), VariantSignId::Transaction(b)) => bytes32_eq(a, b),
            _ => false,
        }
    }

    /// Canonical encoding: a tag byte, then the payload in little-endian form.
    pub open spec fn encoded(self) -> Seq<u8> {
        match self {
            VariantSignId::Cosign(n) => seq![0u8] + spec_u64_to_le_bytes(n),
            VariantSignId::Batch(h) => seq![1u8] + h@,
            VariantSignId::SlashReport => seq![2u8],
            VariantSignId::Transaction(h) => seq![3u8] + h@,
        }
    }

    /// Encode this identity canonically.
    pub fn encode(&self) -> (r: Vec<u8>)
        ensures
            r@ == self.encoded(),
    {
        let mut r: Vec<u8> = Vec::new();
        match self {
            VariantSignId::Cosign(n) => {
                r.push(0u8);
                let mut tail = u64_to_le_bytes(*n);
                r.append(&mut tail);
            }
            VariantSignId::Batch(h) => {
                r.push(1u8);
                let mut tail = vstd::slice::slice_to_vec(vstd::array::array_as_slice(h));
                r.append(&mut tail);
            }
            VariantSignId::SlashReport => {
                r.push(2u8);
            }
            VariantSignId::Transaction(h) => {
                r.push(3u8);
                let mut tail = vstd::slice::slice_to_vec(vstd::array::array_as_slice(h));
                r.append(&mut tail);
            }
        }
        proof {
            assert(r@ =~= self.encoded());
        }
        r
    }
}

impl SignId {
    /// Canonical encoding: session, artifact identity, then attempt number.
    pub open spec fn encoded(self) -> Seq<u8> {
        spec_u32_to_le_bytes(self.session.0) + self.id.encoded() + spec_u32_to_le_bytes(
            self.attempt,
        )
    }

    /// Encode this protocol-instance name canonically.
    pub fn encode(&self) -> (r: Vec<u8>)
        ensures
            r@ == self.encoded(),
    {
        let mut r = u32_to_le_bytes(self.session.0);
        let mut mid = self.id.encode();
        r.append(&mut mid);
        let mut tail = u32_to_le_bytes(self.attempt);
        r.append(&mut tail);
        proof {
            assert(r@ =~= self.encoded());
        }
        r
    }

    /// Decide spec-level equality of two protocol-instance names.
    pub fn eq_id(&self, other: &SignId) -> (r: bool)
        ensures
            r == (*self == *other),
    {
        self.session.0 == other.session.0 && self.attempt == other.attempt && self.id.eq_id(
            &other.id,
        )
    }
}

/// The encoding of an artifact identity determines the identity: no two
/// distinct identities share an encoding.
pub proof fn lemma_variant_sign_id_encoding_injective(a: VariantSignId, b: VariantSignId)
    requires
        a.encoded() == b.encoded(),
    ensures
        a == b,
{
    lemma_auto_spec_u64_to_from_le_bytes();
    assert(a.encoded()[0] == b.encoded()[0]);
    assert(match a {
        VariantSignId::Cosign(_) => a.encoded()[0] == 0,
        VariantSignId::Batch(_) => a.encoded()[0] == 1,
        VariantSignId::SlashReport => a.encoded()[0] == 2,
        VariantSignId::Transaction(_) => a.encoded()[0] == 3,
    });
    assert(match b {
        VariantSignId::Cosign(_) => b.encoded()[0] == 0,
        VariantSignId::Batch(_) => b.encoded()[0] == 1,
        VariantSignId::SlashReport => b.encoded()[0] == 2,
        VariantSignId::Transaction(_) => b.encoded()[0] == 3,
    });
    match (a, b) {
        (VariantSignId::Cosign(x), VariantSignId::Cosign(y)) => {
            assert(spec_u64_to_le_bytes(x) =~= a.encoded().skip(1));
            assert(spec_u64_to_le_bytes(y) =~= b.encoded().skip(1));
        }
        (VariantSignId::Batch(x), VariantSignId::Batch(y)) => {
            assert(x@ =~= a.encoded().skip(1));
            assert(y@ =~= b.encoded().skip(1));
            assert(x =~= y);
        }
        (VariantSignId::Transaction(x), VariantSignId::Transaction(y)) => {
            assert(x@ =~= a.encoded().skip(1));
            assert(y@ =~= b.encoded().skip(1));
            assert(x =~= y);
        }
        (VariantSignId::SlashReport, VariantSignId::SlashReport) => {}
        _ => {
            assert(false);
        }
    }
}

/// The encoding of a protocol-instance name determines the name.
pub proof fn lemma_sign_id_encoding_injective(a: SignId, b: SignId)
    requires
        a.encoded() == b.encoded(),
    ensures
        a == b,
{
    lemma_auto_spec_u32_to_from_le_bytes();
    // The leading four bytes give the session.
    assert(spec_u32_to_le_bytes(a.session.0) =~= a.encoded().take(4));
    assert(spec_u32_to_le_bytes(b.session.0) =~= b.encoded().take(4));
    assert(a.session == b.session);
    // The tag byte fixes the length of the artifact identity's encoding, so
    // the middle segments coincide.
    let alen = a.id.encoded().len() as int;
    let blen = b.id.encoded().len() as int;
    assert(a.id.encoded()[0] == a.encoded()[4]);
    assert(b.id.encoded()[0] == b.encoded()[4]);
    if alen == blen {
        assert(a.id.encoded() =~= a.encoded().subrange(4, 4 + alen));
        assert(b.id.encoded() =~= b.encoded().subrange(4, 4 + blen));
        lemma_variant_sign_id_encoding_injective(a.id, b.id);
        // The trailing four bytes give the attempt.
        assert(spec_u32_to_le_bytes(a.attempt) =~= a.encoded().skip(4 + alen));
        assert(spec_u32_to_le_bytes(b.attempt) =~= b.encoded().skip(4 + blen));
    } else {
        // The tag byte fixes the encoded length, and both tags stand at the
        // fifth byte of the same sequence, so the lengths cannot differ.
        assert(match a.id {
            VariantSignId::Cosign(_) => a.id.encoded()[0] == 0 && alen == 9,
            VariantSignId::Batch(_) => a.id.encoded()[0] == 1 && alen == 33,
            VariantSignId::SlashReport => a.id.encoded()[0] == 2 && alen == 1,
            VariantSignId::Transaction(_) => a.id.encoded()[0] == 3 && alen == 33,
        });
        assert(match b.id {
            VariantSignId::Cosign(_) => b.id.encoded()[0] == 0 && blen == 9,
            VariantSignId::Batch(_) => b.id.encoded()[0] == 1 && blen == 33,
            VariantSignId::SlashReport => b.id.encoded()[0] == 2 && blen == 1,
            VariantSignId::Transaction(_) => b.id.encoded()[0] == 3 && blen == 33,
        });
        assert(false);
    }
}

} // verus!
