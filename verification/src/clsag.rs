//! CLSAG linkable ring signatures as used by Monero: signing and
//! verification share one challenge-chain routine, differing only in where
//! the chain starts and how it is seeded.
//!
//! Scalars and curve points live in their canonical 32-byte encodings; the
//! curve and hash primitives stand behind the trusted wrappers of the curve
//! module, and every transcript byte is pinned by the specification
//! functions here. Each ring member carries its key, its commitment and the
//! hash-to-point image of its key; the hash-to-point evaluation itself is
//! supplied by the caller.

use vstd::prelude::*;

use crate::curve::{
    keccak256, point_add, point_is_identity, point_is_torsion_free, point_is_valid, point_mul, scalar_add, spec_scalar_add,
    point_mul_base, point_mul_h, point_sub, scalar_is_canonical, scalar_mul, scalar_reduce,
    scalar_sub, spec_base_point, spec_h_point, spec_keccak256, spec_point_add, spec_scalar_canonical,
    spec_point_is_identity, spec_point_mul, spec_point_sub, spec_point_torsion_free,
    spec_point_valid, spec_scalar_mul, spec_scalar_reduce, spec_scalar_sub,
};

verus! {

broadcast use vstd::array::group_array_axioms;

/// Errors when working with CLSAGs.
#[derive(Clone, Copy, PartialEq, Eq, Structural, Debug)]
pub enum ClsagError {
    /// The ring was invalid (such as being too small or too large).
    InvalidRing,
    /// The specified ring member was invalid (index, ring size).
    InvalidRingMember(u8, u8),
    /// The commitment opening provided did not match the ring member's.
    InvalidCommitment,
    /// The key image was invalid (such as being identity or torsioned).
    InvalidImage,
    /// The `D` component was invalid.
    InvalidD,
    /// The `s` vector was invalid.
    InvalidS,
    /// The `c1` variable was invalid.
    InvalidC1,
}

/// One ring member: its one-time key, its amount commitment, and the
/// hash-to-point image of the key, all compressed.
#[derive(Clone, Copy, PartialEq, Eq, Debug)]
pub struct RingMember {
    pub key: [u8; 32],
    pub commitment: [u8; 32],
    pub key_hash: [u8; 32],
}

impl RingMember {
    /// All three components decompress to curve points.
    pub open spec fn wf(self) -> bool {
        &&& spec_point_valid(self.key@)
        &&& spec_point_valid(self.commitment@)
        &&& spec_point_valid(self.key_hash@)
    }
}

/// Every member of a ring slice is well formed.
pub open spec fn ring_wf(ring: Seq<RingMember>) -> bool {
    forall|i: int| 0 <= i < ring.len() ==> (#[trigger] ring[i]).wf()
}

/// The scalar encoding of eight, which undoes the cofactor division of the
/// wire form of `D`.
pub open spec fn spec_eight() -> Seq<u8> {
    seq![
        8u8, 0u8, 0u8, 0u8, 0u8, 0u8, 0u8, 0u8, 0u8, 0u8, 0u8, 0u8, 0u8, 0u8, 0u8, 0u8, 0u8, 0u8,
        0u8, 0u8, 0u8, 0u8, 0u8, 0u8, 0u8, 0u8, 0u8, 0u8, 0u8, 0u8, 0u8, 0u8,
    ]
}

/// The scalar encoding of eight as executable bytes.
pub fn eight_bytes() -> (r: [u8; 32])
    ensures
        r@ == spec_eight(),
{
    let mut r = [0u8; 32];
    r[0] = 8;
    proof {
        assert(r@ =~= spec_eight());
    }
    r
}

/// The inverse of eight modulo the ed25519 group order.
pub open spec fn spec_inv_eight() -> Seq<u8> {
    seq![
        121u8, 47u8, 220u8, 226u8, 41u8, 229u8, 6u8, 97u8, 208u8, 218u8, 28u8, 125u8, 179u8,
        157u8, 211u8, 7u8, 0u8, 0u8, 0u8, 0u8, 0u8, 0u8, 0u8, 0u8, 0u8, 0u8, 0u8, 0u8, 0u8, 0u8,
        0u8, 6u8,
    ]
}

/// The inverse of eight modulo the ed25519 group order, used to store `D`
/// cofactor-divided on the wire.
pub fn inv_eight_bytes() -> (r: [u8; 32])
    ensures
        r@ == spec_inv_eight(),
{
    let r: [u8; 32] = [
        121u8, 47u8, 220u8, 226u8, 41u8, 229u8, 6u8, 97u8, 208u8, 218u8, 28u8, 125u8, 179u8,
        157u8, 211u8, 7u8, 0u8, 0u8, 0u8, 0u8, 0u8, 0u8, 0u8, 0u8, 0u8, 0u8, 0u8, 0u8, 0u8, 0u8,
        0u8, 6u8,
    ];
    proof {
        assert(r@ =~= spec_inv_eight());
    }
    r
}

/// The keys of the ring, concatenated in order.
pub open spec fn cat_keys(ring: Seq<RingMember>) -> Seq<u8>
    decreases ring.len(),
{
    if ring.len() == 0 {
        Seq::empty()
    } else {
        cat_keys(ring.drop_last()) + ring.last().key@
    }
}

/// The commitments of the ring, concatenated in order.
pub open spec fn cat_commitments(ring: Seq<RingMember>) -> Seq<u8>
    decreases ring.len(),
{
    if ring.len() == 0 {
        Seq::empty()
    } else {
        cat_commitments(ring.drop_last()) + ring.last().commitment@
    }
}

/// The aggregation domain tag: `CLSAG_agg_` with a trailing tag byte,
/// zero-padded to 32 bytes.
pub open spec fn agg_domain(tag: u8) -> Seq<u8> {
    seq![67u8, 76u8, 83u8, 65u8, 71u8, 95u8, 97u8, 103u8, 103u8, 95u8, tag] + Seq::new(
        21,
        |i: int| 0u8,
    )
}

/// The round domain tag: `CLSAG_round`, zero-padded to 32 bytes.
pub open spec fn round_domain() -> Seq<u8> {
    seq![67u8, 76u8, 83u8, 65u8, 71u8, 95u8, 114u8, 111u8, 117u8, 110u8, 100u8] + Seq::new(
        21,
        |i: int| 0u8,
    )
}

/// One of the two aggregation scalars: the hash-to-scalar of the domain
/// tag, the ring's keys and commitments, the key image, the cofactor-divided
/// `D` and the pseudo-output commitment.
pub open spec fn spec_mu(
    tag: u8,
    ring: Seq<RingMember>,
    key_image: Seq<u8>,
    d_inv8: Seq<u8>,
    pseudo_out: Seq<u8>,
) -> Seq<u8> {
    spec_scalar_reduce(
        spec_keccak256(
            agg_domain(tag) + cat_keys(ring) + cat_commitments(ring) + key_image + d_inv8
                + pseudo_out,
        ),
    )
}

/// The round transcript prefix: the round domain tag, the ring's keys and
/// commitments, the pseudo-output commitment and the message.
pub open spec fn spec_round_prefix(
    ring: Seq<RingMember>,
    pseudo_out: Seq<u8>,
    msg: Seq<u8>,
) -> Seq<u8> {
    round_domain() + cat_keys(ring) + cat_commitments(ring) + pseudo_out + msg
}

/// The left point of one round: the response times the basepoint, plus the
/// aggregated challenges times the member's key and offset commitment.
pub open spec fn spec_l(
    ring: Seq<RingMember>,
    pseudo_out: Seq<u8>,
    s_i: Seq<u8>,
    mu_p: Seq<u8>,
    mu_c: Seq<u8>,
    c: Seq<u8>,
    i: int,
) -> Seq<u8> {
    spec_point_add(
        spec_point_add(
            spec_point_mul(s_i, spec_base_point()),
            spec_point_mul(spec_scalar_mul(mu_p, c), ring[i].key@),
        ),
        spec_point_mul(
            spec_scalar_mul(mu_c, c),
            spec_point_sub(ring[i].commitment@, pseudo_out),
        ),
    )
}

/// The right point of one round: the aggregated challenges times the key
/// image and `D`, plus the response times the member's key hash.
pub open spec fn spec_r(
    ring: Seq<RingMember>,
    key_image: Seq<u8>,
    d_big: Seq<u8>,
    s_i: Seq<u8>,
    mu_p: Seq<u8>,
    mu_c: Seq<u8>,
    c: Seq<u8>,
    i: int,
) -> Seq<u8> {
    spec_point_add(
        spec_point_add(
            spec_point_mul(spec_scalar_mul(mu_p, c), key_image),
            spec_point_mul(spec_scalar_mul(mu_c, c), d_big),
        ),
        spec_point_mul(s_i, ring[i].key_hash@),
    )
}

/// The challenge after one round at member `i`.
pub open spec fn spec_step(
    ring: Seq<RingMember>,
    key_image: Seq<u8>,
    d_big: Seq<u8>,
    pseudo_out: Seq<u8>,
    msg: Seq<u8>,
    mu_p: Seq<u8>,
    mu_c: Seq<u8>,
    s: Seq<Seq<u8>>,
    c: Seq<u8>,
    i: int,
) -> Seq<u8> {
    spec_scalar_reduce(
        spec_keccak256(
            spec_round_prefix(ring, pseudo_out, msg) + spec_l(
                ring,
                pseudo_out,
                s[i],
                mu_p,
                mu_c,
                c,
                i,
            ) + spec_r(ring, key_image, d_big, s[i], mu_p, mu_c, c, i),
        ),
    )
}

/// The ring index visited at a given one-based step from a start index:
/// the walk wraps once past the end of the ring.
pub open spec fn wrap_index(start: int, step: int, n: int) -> int {
    if start + step - 1 < n {
        start + step - 1
    } else {
        start + step - 1 - n
    }
}

/// The challenge after some number of rounds, walking the ring from a start
/// index, wrapping modulo the ring size.
pub open spec fn spec_chain(
    ring: Seq<RingMember>,
    key_image: Seq<u8>,
    d_big: Seq<u8>,
    pseudo_out: Seq<u8>,
    msg: Seq<u8>,
    mu_p: Seq<u8>,
    mu_c: Seq<u8>,
    s: Seq<Seq<u8>>,
    c0: Seq<u8>,
    start: int,
    steps: nat,
) -> Seq<u8>
    decreases steps,
{
    if steps == 0 {
        c0
    } else {
        let prev = spec_chain(
            ring,
            key_image,
            d_big,
            pseudo_out,
            msg,
            mu_p,
            mu_c,
            s,
            c0,
            start,
            (steps - 1) as nat,
        );
        let i = wrap_index(start, steps as int, ring.len() as int);
        spec_step(ring, key_image, d_big, pseudo_out, msg, mu_p, mu_c, s, prev, i)
    }
}

/// The views of a vector of 32-byte strings.
pub open spec fn views_of(s: Seq<[u8; 32]>) -> Seq<Seq<u8>> {
    Seq::new(s.len(), |i: int| s[i]@)
}

/// Build the aggregation domain tag bytes.
fn agg_domain_bytes(tag: u8) -> (r: Vec<u8>)
    ensures
        r@ == agg_domain(tag),
{
    let mut r: Vec<u8> = Vec::new();
    r.push(67);
    r.push(76);
    r.push(83);
    r.push(65);
    r.push(71);
    r.push(95);
    r.push(97);
    r.push(103);
    r.push(103);
    r.push(95);
    r.push(tag);
    let mut k: usize = 0;
    while k < 21
        invariant
            k <= 21,
            r@.len() == 11 + k,
            r@ == agg_domain(tag).take(11 + k as int),
        decreases 21 - k,
    {
        r.push(0);
        proof {
            assert(r@ =~= agg_domain(tag).take(11 + k + 1 as int));
        }
        k += 1;
    }
    proof {
        assert(agg_domain(tag).take(32) =~= agg_domain(tag));
    }
    r
}

/// Build the round domain tag bytes.
fn round_domain_bytes() -> (r: Vec<u8>)
    ensures
        r@ == round_domain(),
{
    let mut r: Vec<u8> = Vec::new();
    r.push(67);
    r.push(76);
    r.push(83);
    r.push(65);
    r.push(71);
    r.push(95);
    r.push(114);
    r.push(111);
    r.push(117);
    r.push(110);
    r.push(100);
    let mut k: usize = 0;
    while k < 21
        invariant
            k <= 21,
            r@.len() == 11 + k,
            r@ == round_domain().take(11 + k as int),
        decreases 21 - k,
    {
        r.push(0);
        proof {
            assert(r@ =~= round_domain().take(11 + k + 1 as int));
        }
        k += 1;
    }
    proof {
        assert(round_domain().take(32) =~= round_domain());
    }
    r
}

/// Append the ring's keys, then its commitments, to a transcript.
fn append_ring(to: &mut Vec<u8>, ring: &Vec<RingMember>)
    ensures
        final(to)@ == old(to)@ + cat_keys(ring@) + cat_commitments(ring@),
{
    let mut i: usize = 0;
    let n = ring.len();
    while i < n
        invariant
            n == ring@.len(),
            i <= n,
            to@ == old(to)@ + cat_keys(ring@.take(i as int)),
        decreases n - i,
    {
        let mut k = vstd::slice::slice_to_vec(vstd::array::array_as_slice(&ring[i].key));
        to.append(&mut k);
        proof {
            assert(ring@.take(i + 1 as int).drop_last() =~= ring@.take(i as int));
            assert(ring@.take(i + 1 as int).last() == ring@[i as int]);
            assert(to@ =~= old(to)@ + cat_keys(ring@.take(i + 1 as int)));
        }
        i += 1;
    }
    proof {
        assert(ring@.take(n as int) =~= ring@);
    }
    let ghost mid = to@;
    let mut j: usize = 0;
    while j < n
        invariant
            n == ring@.len(),
            j <= n,
            to@ == mid + cat_commitments(ring@.take(j as int)),
        decreases n - j,
    {
        let mut cbytes = vstd::slice::slice_to_vec(
            vstd::array::array_as_slice(&ring[j].commitment),
        );
        to.append(&mut cbytes);
        proof {
            assert(ring@.take(j + 1 as int).drop_last() =~= ring@.take(j as int));
            assert(ring@.take(j + 1 as int).last() == ring@[j as int]);
            assert(to@ =~= mid + cat_commitments(ring@.take(j + 1 as int)));
        }
        j += 1;
    }
    proof {
        assert(ring@.take(n as int) =~= ring@);
        assert(to@ =~= old(to)@ + cat_keys(ring@) + cat_commitments(ring@));
    }
}

/// Append 32 bytes to a transcript.
fn append32(to: &mut Vec<u8>, b: &[u8; 32])
    ensures
        final(to)@ == old(to)@ + b@,
{
    let mut v = vstd::slice::slice_to_vec(vstd::array::array_as_slice(b));
    to.append(&mut v);
}

/// How the challenge chain is seeded and walked: signing starts past the
/// signer and seeds the chain from the nonce commitments; verification
/// starts at member zero, seeded by the stored challenge.
pub enum Mode {
    Sign { signer_index: usize, nonce_commit: [u8; 32], nonce_commit_hash: [u8; 32] },
    Verify { c1: [u8; 32] },
}

impl Mode {
    /// Where the walk starts.
    pub open spec fn spec_start(self, n: int) -> int {
        match self {
            Mode::Sign { signer_index, .. } => signer_index + 1,
            Mode::Verify { .. } => 0,
        }
    }

    /// The seed challenge.
    pub open spec fn spec_c0(self, ring: Seq<RingMember>, pseudo_out: Seq<u8>, msg: Seq<u8>)
        -> Seq<u8> {
        match self {
            Mode::Sign { nonce_commit, nonce_commit_hash, .. } => spec_scalar_reduce(
                spec_keccak256(
                    spec_round_prefix(ring, pseudo_out, msg) + nonce_commit@ + nonce_commit_hash@,
                ),
            ),
            Mode::Verify { c1 } => c1@,
        }
    }
}

/// The challenge captured as the ring's closer: the chain value right
/// after the round at the last ring index, or the seed itself when the walk
/// starts past the end and the seed already is the closing challenge.
pub open spec fn spec_closer_steps(start: int, n: int) -> int {
    if start < n {
        n - start
    } else {
        0
    }
}

/// How many rounds a walk runs: verification walks the whole ring; signing
/// walks every member but the signer, whose response is filled in after.
pub open spec fn spec_walk_steps(mode: Mode, n: int) -> int {
    match mode {
        Mode::Sign { .. } => n - 1,
        Mode::Verify { .. } => n,
    }
}

/// The transcript scalars and the chain results of one full walk of the
/// ring, as produced by the shared core of signing and verification.
pub open spec fn spec_core_ok(
    ring: Seq<RingMember>,
    key_image: Seq<u8>,
    pseudo_out: Seq<u8>,
    msg: Seq<u8>,
    d_big: Seq<u8>,
    s: Seq<Seq<u8>>,
    mode: Mode,
    r: (([u8; 32], [u8; 32], [u8; 32]), [u8; 32]),
) -> bool {
    let n = ring.len() as int;
    let d_inv8 = spec_point_mul(spec_inv_eight(), d_big);
    let mu_p = spec_mu(48, ring, key_image, d_inv8, pseudo_out);
    let mu_c = spec_mu(49, ring, key_image, d_inv8, pseudo_out);
    let c0 = mode.spec_c0(ring, pseudo_out, msg);
    let start = mode.spec_start(n);
    let c_fin = spec_chain(
        ring,
        key_image,
        d_big,
        pseudo_out,
        msg,
        mu_p,
        mu_c,
        s,
        c0,
        start,
        spec_walk_steps(mode, n) as nat,
    );
    &&& r.0.0@ == d_inv8
    &&& r.0.1@ == spec_scalar_mul(c_fin, mu_p)
    &&& r.0.2@ == spec_scalar_mul(c_fin, mu_c)
    &&& r.1@ == spec_chain(
        ring,
        key_image,
        d_big,
        pseudo_out,
        msg,
        mu_p,
        mu_c,
        s,
        c0,
        start,
        spec_closer_steps(start, n) as nat,
    )
}

/// Core of the CLSAG algorithm, shared between signing and verification:
/// derive the aggregation scalars, then walk the whole ring once deriving
/// each member's challenge, capturing the closer's output as `c1`.
pub(crate) fn clsag_core(
    ring: &Vec<RingMember>,
    key_image: &[u8; 32],
    pseudo_out: &[u8; 32],
    msg: &[u8; 32],
    d_big: &[u8; 32],
    s: &Vec<[u8; 32]>,
    mode: &Mode,
) -> (r: (([u8; 32], [u8; 32], [u8; 32]), [u8; 32]))
    requires
        ring_wf(ring@),
        1 <= ring@.len() <= 255,
        s@.len() == ring@.len(),
        spec_point_valid(key_image@),
        spec_point_valid(pseudo_out@),
        spec_point_valid(d_big@),
        mode matches Mode::Sign { signer_index, .. } ==> signer_index < ring@.len(),
    ensures
        spec_core_ok(ring@, key_image@, pseudo_out@, msg@, d_big@, views_of(s@), *mode, r),
{
    let n = ring.len();
    let ghost nn = n as int;
    let inv8 = inv_eight_bytes();
    let d_inv8 = point_mul(&inv8, d_big);

    // The aggregation transcript, hashed once per domain tag.
    let mut to_hash = agg_domain_bytes(48);
    append_ring(&mut to_hash, ring);
    append32(&mut to_hash, key_image);
    append32(&mut to_hash, &d_inv8);
    append32(&mut to_hash, pseudo_out);
    let digest0 = keccak256(&to_hash);
    let mu_p = scalar_reduce(&digest0);
    proof {
        assert(mu_p@ == spec_mu(48, ring@, key_image@, d_inv8@, pseudo_out@));
    }
    // Only the domain tag's last byte distinguishes the two scalars.
    to_hash[10] = 49;
    proof {
        assert(to_hash@ =~= agg_domain(49) + cat_keys(ring@) + cat_commitments(ring@)
            + key_image@ + d_inv8@ + pseudo_out@);
    }
    let digest1 = keccak256(&to_hash);
    let mu_c = scalar_reduce(&digest1);

    // The round transcript prefix, extended and re-truncated per round.
    let mut th = round_domain_bytes();
    append_ring(&mut th, ring);
    append32(&mut th, pseudo_out);
    append32(&mut th, msg);
    let ghost t0v = th@;
    let base_len = th.len();
    proof {
        assert(t0v == spec_round_prefix(ring@, pseudo_out@, msg@));
    }

    let mut start: usize = 0;
    let mut c: [u8; 32] = [0u8; 32];
    match mode {
        Mode::Sign { signer_index, nonce_commit, nonce_commit_hash } => {
            start = *signer_index + 1;
            append32(&mut th, nonce_commit);
            append32(&mut th, nonce_commit_hash);
            let d = keccak256(&th);
            c = scalar_reduce(&d);
            th.truncate(base_len);
            proof {
                assert(th@ =~= t0v);
            }
        }
        Mode::Verify { c1 } => {
            c = *c1;
        }
    }
    let ghost c0v = c@;
    let ghost mu_pv = mu_p@;
    let ghost mu_cv = mu_c@;
    let ghost jstar = spec_closer_steps(start as int, nn) - 1;

    let steps: usize = match mode {
        Mode::Sign { .. } => n - 1,
        Mode::Verify { .. } => n,
    };
    let mut c1_out = c;
    let mut j: usize = 0;
    while j < steps
        invariant
            ring_wf(ring@),
            1 <= nn <= 255,
            n == ring@.len(),
            nn == n as int,
            s@.len() == ring@.len(),
            spec_point_valid(key_image@),
            spec_point_valid(pseudo_out@),
            spec_point_valid(d_big@),
            start <= n,
            steps == spec_walk_steps(*mode, nn),
            (mode matches Mode::Verify { .. }) ==> start == 0,
            j <= steps <= n,
            th@ == t0v,
            base_len == t0v.len(),
            t0v == spec_round_prefix(ring@, pseudo_out@, msg@),
            mu_p@ == mu_pv,
            mu_c@ == mu_cv,
            jstar == spec_closer_steps(start as int, nn) - 1,
            -1 <= jstar < steps,
            c@ == spec_chain(
                ring@,
                key_image@,
                d_big@,
                pseudo_out@,
                msg@,
                mu_pv,
                mu_cv,
                views_of(s@),
                c0v,
                start as int,
                j as nat,
            ),
            c1_out@ == if j > jstar {
                spec_chain(
                    ring@,
                    key_image@,
                    d_big@,
                    pseudo_out@,
                    msg@,
                    mu_pv,
                    mu_cv,
                    views_of(s@),
                    c0v,
                    start as int,
                    (jstar + 1) as nat,
                )
            } else {
                c0v
            },
        decreases steps - j,
    {
        let i = if start + j >= n {
            start + j - n
        } else {
            start + j
        };
        proof {
            assert(i < n);
            assert(i as int == wrap_index(start as int, j + 1 as int, nn));
            assert(ring@[i as int].wf());
        }
        let c_p = scalar_mul(&mu_p, &c);
        let c_c = scalar_mul(&mu_c, &c);
        let l_base = point_mul_base(&s[i]);
        let l_key = point_mul(&c_p, &ring[i].key);
        let commitment_offset = point_sub(&ring[i].commitment, pseudo_out);
        let l_commitment = point_mul(&c_c, &commitment_offset);
        let l = point_add(&point_add(&l_base, &l_key), &l_commitment);
        let r_image = point_mul(&c_p, key_image);
        let r_d = point_mul(&c_c, d_big);
        let r_hash = point_mul(&s[i], &ring[i].key_hash);
        let rr = point_add(&point_add(&r_image, &r_d), &r_hash);
        append32(&mut th, &l);
        append32(&mut th, &rr);
        let d = keccak256(&th);
        let c_next = scalar_reduce(&d);
        th.truncate(base_len);
        proof {
            assert(th@ =~= t0v);
            assert(views_of(s@)[i as int] == s@[i as int]@);
            assert(l@ == spec_l(
                ring@,
                pseudo_out@,
                views_of(s@)[i as int],
                mu_pv,
                mu_cv,
                c@,
                i as int,
            ));
            assert(rr@ == spec_r(
                ring@,
                key_image@,
                d_big@,
                views_of(s@)[i as int],
                mu_pv,
                mu_cv,
                c@,
                i as int,
            ));
            assert(c_next@ == spec_chain(
                ring@,
                key_image@,
                d_big@,
                pseudo_out@,
                msg@,
                mu_pv,
                mu_cv,
                views_of(s@),
                c0v,
                start as int,
                (j + 1) as nat,
            ));
        }
        c = c_next;
        if i == n - 1 {
            proof {
                assert(j == jstar);
            }
            c1_out = c_next;
        } else {
            proof {
                assert(j != jstar);
            }
        }
        j += 1;
    }
    let cp_fin = scalar_mul(&c, &mu_p);
    let cc_fin = scalar_mul(&c, &mu_c);
    ((d_inv8, cp_fin, cc_fin), c1_out)
}

/// A u64 amount as a 32-byte scalar encoding.
pub open spec fn spec_amount_scalar(amount: u64) -> Seq<u8> {
    vstd::bytes::spec_u64_to_le_bytes(amount) + Seq::new(24, |i: int| 0u8)
}

/// A Pedersen commitment opening: the mask scalar and the amount.
#[derive(Clone, Copy, PartialEq, Eq, Debug)]
pub struct Commitment {
    pub mask: [u8; 32],
    pub amount: u64,
}

/// The point committing to an amount under a mask: the mask times the
/// basepoint plus the amount times the second generator.
pub open spec fn spec_commit_point(mask: Seq<u8>, amount: u64) -> Seq<u8> {
    spec_point_add(
        spec_point_mul(mask, spec_base_point()),
        spec_point_mul(spec_amount_scalar(amount), spec_h_point()),
    )
}

impl Commitment {
    /// The committed point: the mask times the basepoint plus the amount
    /// times the second generator.
    pub open spec fn spec_calculate(self) -> Seq<u8> {
        spec_commit_point(self.mask@, self.amount)
    }

    /// Compute the committed point.
    pub fn calculate(&self) -> (r: [u8; 32])
        ensures
            r@ == self.spec_calculate(),
            spec_point_valid(r@),
    {
        let mut amount_bytes = [0u8; 32];
        let le = vstd::bytes::u64_to_le_bytes(self.amount);
        let mut k: usize = 0;
        while k < 8
            invariant
                k <= 8,
                le@ == vstd::bytes::spec_u64_to_le_bytes(self.amount),
                le@.len() == 8,
                forall|j: int| 0 <= j < k ==> amount_bytes@[j] == le@[j],
                forall|j: int| k <= j < 32 ==> amount_bytes@[j] == 0u8,
            decreases 8 - k,
        {
            amount_bytes[k] = le[k];
            k += 1;
        }
        proof {
            assert(amount_bytes@ =~= spec_amount_scalar(self.amount));
        }
        let masked = point_mul_base(&self.mask);
        let valued = point_mul_h(&amount_bytes);
        point_add(&masked, &valued)
    }
}

/// The true spend index together with its ring.
#[derive(Clone, PartialEq, Eq, Debug)]
pub struct Decoys {
    pub ring: Vec<RingMember>,
    pub signer_index: u8,
}

/// Context on the ring member being signed for: the true spend's commitment
/// opening and the ring around it. Constructed only through `new`, which
/// pins its invariant: a ring of one to 255 well-formed members, the signer
/// inside it, and the signer's ring slot carrying exactly the opened
/// commitment.
#[derive(PartialEq, Eq, Debug)]
pub struct ClsagInput {
    commitment: Commitment,
    decoys: Decoys,
}

impl ClsagInput {
    /// The input's invariant, established at construction and kept by the
    /// absence of any field access from outside.
    #[verifier::type_invariant]
    closed spec fn wf(self) -> bool {
        &&& 1 <= self.decoys.ring@.len() <= 255
        &&& (self.decoys.signer_index as int) < self.decoys.ring@.len()
        &&& ring_wf(self.decoys.ring@)
        &&& self.decoys.ring@[self.decoys.signer_index as int].commitment@
            == self.commitment.spec_calculate()
    }

    /// The ring.
    pub closed spec fn spec_ring(self) -> Seq<RingMember> {
        self.decoys.ring@
    }

    /// The signer's index in the ring.
    pub closed spec fn spec_signer_index(self) -> u8 {
        self.decoys.signer_index
    }

    /// The commitment opening.
    pub closed spec fn spec_commitment(self) -> Commitment {
        self.commitment
    }

    /// The invariant, over the accessors.
    pub open spec fn inv(self) -> bool {
        &&& 1 <= self.spec_ring().len() <= 255
        &&& (self.spec_signer_index() as int) < self.spec_ring().len()
        &&& ring_wf(self.spec_ring())
        &&& self.spec_ring()[self.spec_signer_index() as int].commitment@
            == self.spec_commitment().spec_calculate()
    }

    /// Validate a commitment opening against its ring: the ring must hold
    /// between one and 255 well-formed members, the signer index must fall
    /// inside it, and the signer's slot must commit to the opening.
    pub fn new(commitment: Commitment, decoys: Decoys) -> (r: Result<ClsagInput, ClsagError>)
        ensures
            match r {
                Ok(input) => {
                    &&& input.inv()
                    &&& input.spec_ring() == decoys.ring@
                    &&& input.spec_signer_index() == decoys.signer_index
                    &&& input.spec_commitment() == commitment
                },
                Err(ClsagError::InvalidRing) => decoys.ring@.len() > 255,
                Err(ClsagError::InvalidRingMember(member, n)) => {
                    &&& decoys.ring@.len() <= 255
                    &&& n as int == decoys.ring@.len()
                    &&& (decoys.signer_index as int >= decoys.ring@.len() || !ring_wf(
                        decoys.ring@,
                    ))
                    // The member named is the out-of-range signer index, or
                    // else the first ring slot that fails to decompress.
                    &&& (if decoys.signer_index as int >= decoys.ring@.len() {
                        member == decoys.signer_index
                    } else {
                        &&& (member as int) < decoys.ring@.len()
                        &&& !decoys.ring@[member as int].wf()
                        &&& forall|k: int|
                            0 <= k < member as int ==> (#[trigger] decoys.ring@[k]).wf()
                    })
                },
                Err(ClsagError::InvalidCommitment) => decoys.ring@.len() <= 255
                    && (decoys.signer_index as int) < decoys.ring@.len() && ring_wf(decoys.ring@)
                    && decoys.ring@[decoys.signer_index as int].commitment@
                    != commitment.spec_calculate(),
                Err(_) => false,
            },
    {
        let n = decoys.ring.len();
        if n > 255 {
            return Err(ClsagError::InvalidRing);
        }
        let n8 = n as u8;
        if decoys.signer_index >= n8 {
            return Err(ClsagError::InvalidRingMember(decoys.signer_index, n8));
        }
        let mut i: usize = 0;
        while i < n
            invariant
                n == decoys.ring@.len(),
                i <= n,
                n <= 255,
                n8 as int == n as int,
                (decoys.signer_index as int) < decoys.ring@.len(),
                forall|k: int| 0 <= k < i ==> (#[trigger] decoys.ring@[k]).wf(),
            decreases n - i,
        {
            let m = &decoys.ring[i];
            if !(point_is_valid(&m.key) && point_is_valid(&m.commitment) && point_is_valid(
                &m.key_hash,
            )) {
                proof {
                    assert(!decoys.ring@[i as int].wf());
                    assert(!ring_wf(decoys.ring@));
                }
                return Err(ClsagError::InvalidRingMember(i as u8, n8));
            }
            i += 1;
        }
        let expected = commitment.calculate();
        let si = decoys.signer_index as usize;
        if !crate::ids::bytes32_eq(&decoys.ring[si].commitment, &expected) {
            proof {
                if decoys.ring@[si as int].commitment@ == expected@ {
                    assert(decoys.ring@[si as int].commitment =~= expected);
                }
            }
            return Err(ClsagError::InvalidCommitment);
        }
        Ok(ClsagInput { commitment, decoys })
    }
}

/// The concatenated wire scalars of a signature.
pub open spec fn cat_s(s: Seq<[u8; 32]>) -> Seq<u8>
    decreases s.len(),
{
    if s.len() == 0 {
        Seq::empty()
    } else {
        cat_s(s.drop_last()) + s.last()@
    }
}

/// CLSAG signature, as used in Monero: the commitment-difference point `D`
/// stored cofactor-divided, the per-member responses and the closing
/// challenge.
#[derive(Clone, PartialEq, Eq, Debug)]
pub struct Clsag {
    pub D: [u8; 32],
    pub s: Vec<[u8; 32]>,
    pub c1: [u8; 32],
}

/// The recomputed closing challenge of a signature over a ring: one full
/// walk from member zero, seeded by the stored challenge, against `D`
/// multiplied back by the cofactor.
pub open spec fn spec_verify_chain(
    ring: Seq<RingMember>,
    key_image: Seq<u8>,
    pseudo_out: Seq<u8>,
    msg: Seq<u8>,
    d_wire: Seq<u8>,
    s: Seq<Seq<u8>>,
    c1: Seq<u8>,
) -> Seq<u8> {
    let d_big = spec_point_mul(spec_eight(), d_wire);
    let d_inv8 = spec_point_mul(spec_inv_eight(), d_big);
    let mu_p = spec_mu(48, ring, key_image, d_inv8, pseudo_out);
    let mu_c = spec_mu(49, ring, key_image, d_inv8, pseudo_out);
    spec_chain(
        ring,
        key_image,
        d_big,
        pseudo_out,
        msg,
        mu_p,
        mu_c,
        s,
        c1,
        0,
        ring.len(),
    )
}

impl Clsag {
    /// Whether the ring bytes, key image and pseudo-output pass every check
    /// but the challenge comparison.
    pub open spec fn spec_inputs_ok(
        self,
        ring: Seq<RingMember>,
        key_image: Seq<u8>,
        pseudo_out: Seq<u8>,
    ) -> bool {
        &&& 1 <= ring.len() <= 255
        &&& ring_wf(ring)
        &&& self.s@.len() == ring.len()
        &&& spec_point_valid(pseudo_out)
        &&& spec_point_valid(key_image)
        &&& !spec_point_is_identity(key_image)
        &&& spec_point_torsion_free(key_image)
        &&& spec_point_valid(self.D@)
        &&& !spec_point_is_identity(spec_point_mul(spec_eight(), self.D@))
    }

    /// Verify the CLSAG signature against the given transaction data.
    ///
    /// Success demands, in order: a well-formed ring of one to 255 members,
    /// a response per member, a valid pseudo-output commitment, a valid
    /// non-identity torsion-free key image, a valid `D` whose cofactor
    /// multiple is not the identity, and the recomputed closing challenge
    /// matching the stored one. Each failure names the first check missed.
    pub fn verify(
        &self,
        ring: &Vec<RingMember>,
        key_image: &[u8; 32],
        pseudo_out: &[u8; 32],
        msg: &[u8; 32],
    ) -> (r: Result<(), ClsagError>)
        ensures
            ({
                let size_ok = 1 <= ring@.len() <= 255 && ring_wf(ring@);
                let len_ok = self.s@.len() == ring@.len();
                let pseudo_ok = spec_point_valid(pseudo_out@);
                let image_ok = spec_point_valid(key_image@) && !spec_point_is_identity(
                    key_image@,
                ) && spec_point_torsion_free(key_image@);
                let d_ok = spec_point_valid(self.D@) && !spec_point_is_identity(
                    spec_point_mul(spec_eight(), self.D@),
                );
                let c_ok = spec_verify_chain(
                    ring@,
                    key_image@,
                    pseudo_out@,
                    msg@,
                    self.D@,
                    views_of(self.s@),
                    self.c1@,
                ) == self.c1@;
                match r {
                    Ok(_) => size_ok && len_ok && pseudo_ok && image_ok && d_ok && c_ok,
                    Err(ClsagError::InvalidRing) => !size_ok,
                    Err(ClsagError::InvalidS) => size_ok && !len_ok,
                    Err(ClsagError::InvalidCommitment) => size_ok && len_ok && !pseudo_ok,
                    Err(ClsagError::InvalidImage) => size_ok && len_ok && pseudo_ok && !image_ok,
                    Err(ClsagError::InvalidD) => size_ok && len_ok && pseudo_ok && image_ok
                        && !d_ok,
                    Err(ClsagError::InvalidC1) => size_ok && len_ok && pseudo_ok && image_ok
                        && d_ok && !c_ok,
                    Err(_) => false,
                }
            }),
    {
        let n = ring.len();
        if n == 0 || n > 255 {
            return Err(ClsagError::InvalidRing);
        }
        let mut i: usize = 0;
        while i < n
            invariant
                n == ring@.len(),
                i <= n,
                forall|k: int| 0 <= k < i ==> (#[trigger] ring@[k]).wf(),
            decreases n - i,
        {
            let m = &ring[i];
            if !(point_is_valid(&m.key) && point_is_valid(&m.commitment) && point_is_valid(
                &m.key_hash,
            )) {
                return Err(ClsagError::InvalidRing);
            }
            i += 1;
        }
        if self.s.len() != n {
            return Err(ClsagError::InvalidS);
        }
        if !point_is_valid(pseudo_out) {
            return Err(ClsagError::InvalidCommitment);
        }
        if !point_is_valid(key_image) {
            return Err(ClsagError::InvalidImage);
        }
        if point_is_identity(key_image) || !point_is_torsion_free(key_image) {
            return Err(ClsagError::InvalidImage);
        }
        if !point_is_valid(&self.D) {
            return Err(ClsagError::InvalidD);
        }
        let eight = eight_bytes();
        let d_big = point_mul(&eight, &self.D);
        if point_is_identity(&d_big) {
            return Err(ClsagError::InvalidD);
        }
        let (_parts, c1_out) = clsag_core(
            ring,
            key_image,
            pseudo_out,
            msg,
            &d_big,
            &self.s,
            &Mode::Verify { c1: self.c1 },
        );
        proof {
            assert(spec_closer_steps(0, ring@.len() as int) == ring@.len() as int);
        }
        if !crate::ids::bytes32_eq(&c1_out, &self.c1) {
            proof {
                if c1_out@ == self.c1@ {
                    assert(c1_out =~= self.c1);
                }
            }
            return Err(ClsagError::InvalidC1);
        }
        Ok(())
    }

    /// The byte weight a signature adds to a transaction, per ring size.
    pub fn fee_weight(ring_len: usize) -> (r: usize)
        requires
            ring_len <= 0x0100_0000,
        ensures
            r == ring_len * 32 + 64,
    {
        (ring_len * 32) + 32 + 32
    }

    /// The wire form: each response, then the closing challenge, then the
    /// cofactor-divided `D`, all 32-byte little-endian.
    pub open spec fn spec_wire(self) -> Seq<u8> {
        cat_s(self.s@) + self.c1@ + self.D@
    }

    /// Serialize the signature to its wire form.
    pub fn write(&self) -> (r: Vec<u8>)
        ensures
            r@ == self.spec_wire(),
    {
        let mut r: Vec<u8> = Vec::new();
        let n = self.s.len();
        let mut i: usize = 0;
        while i < n
            invariant
                n == self.s@.len(),
                i <= n,
                r@ == cat_s(self.s@.take(i as int)),
            decreases n - i,
        {
            append32(&mut r, &self.s[i]);
            proof {
                assert(self.s@.take(i + 1 as int).drop_last() =~= self.s@.take(i as int));
                assert(self.s@.take(i + 1 as int).last() == self.s@[i as int]);
            }
            i += 1;
        }
        proof {
            assert(self.s@.take(n as int) =~= self.s@);
        }
        append32(&mut r, &self.c1);
        append32(&mut r, &self.D);
        r
    }

    /// Read a signature from its wire form: a response per expected ring
    /// member, then the challenge, then `D`. Every scalar must be canonical
    /// and `D` must decompress; the buffer must hold enough bytes. Reading
    /// fails exactly when the buffer is short, a scalar is not canonical,
    /// or `D` does not decompress, so what `write` produced always reads
    /// back.
    pub fn read(decoys: usize, bytes: &[u8]) -> (r: Option<Clsag>)
        requires
            decoys <= 0x0100_0000,
        ensures
            match r {
                Some(clsag) => {
                    &&& bytes@.len() >= (decoys * 32 + 64) as int
                    &&& clsag.s@.len() == decoys
                    &&& forall|i: int|
                        0 <= i < decoys ==> (#[trigger] clsag.s@[i])@ == bytes@.subrange(
                            32 * i,
                            32 * i + 32,
                        ) && spec_scalar_canonical(clsag.s@[i]@)
                    &&& clsag.c1@ == bytes@.subrange(
                        (decoys * 32) as int,
                        (decoys * 32 + 32) as int,
                    )
                    &&& spec_scalar_canonical(clsag.c1@)
                    &&& clsag.D@ == bytes@.subrange(
                        (decoys * 32 + 32) as int,
                        (decoys * 32 + 64) as int,
                    )
                    &&& spec_point_valid(clsag.D@)
                },
                None => {
                    ||| bytes@.len() < (decoys * 32 + 64) as int
                    ||| exists|i: int|
                        0 <= i < decoys && !spec_scalar_canonical(
                            #[trigger] bytes@.subrange(32 * i, 32 * i + 32),
                        )
                    ||| !spec_scalar_canonical(
                        bytes@.subrange((decoys * 32) as int, (decoys * 32 + 32) as int),
                    )
                    ||| !spec_point_valid(
                        bytes@.subrange((decoys * 32 + 32) as int, (decoys * 32 + 64) as int),
                    )
                },
            },
    {
        if bytes.len() < decoys * 32 + 64 {
            return None;
        }
        let mut s: Vec<[u8; 32]> = Vec::new();
        let mut i: usize = 0;
        while i < decoys
            invariant
                decoys <= 0x0100_0000,
                bytes@.len() >= (decoys * 32 + 64) as int,
                i <= decoys,
                s@.len() == i,
                forall|k: int|
                    0 <= k < i ==> (#[trigger] s@[k])@ == bytes@.subrange(32 * k, 32 * k + 32)
                        && spec_scalar_canonical(s@[k]@),
            decreases decoys - i,
        {
            let sc = read32(bytes, i * 32);
            if !scalar_is_canonical(&sc) {
                proof {
                    assert(!spec_scalar_canonical(
                        bytes@.subrange(32 * (i as int), 32 * (i as int) + 32),
                    ));
                }
                return None;
            }
            s.push(sc);
            i += 1;
        }
        let c1 = read32(bytes, decoys * 32);
        if !scalar_is_canonical(&c1) {
            proof {
                assert(!spec_scalar_canonical(
                    bytes@.subrange((decoys * 32) as int, (decoys * 32 + 32) as int),
                ));
            }
            return None;
        }
        let d = read32(bytes, decoys * 32 + 32);
        if !point_is_valid(&d) {
            proof {
                assert(!spec_point_valid(
                    bytes@.subrange((decoys * 32 + 32) as int, (decoys * 32 + 64) as int),
                ));
            }
            return None;
        }
        Some(Clsag { D: d, s, c1 })
    }
}

/// Copy 32 bytes out of a buffer.
fn read32(bytes: &[u8], pos: usize) -> (r: [u8; 32])
    requires
        pos + 32 <= bytes@.len(),
    ensures
        r@ == bytes@.subrange(pos as int, pos + 32),
{
    let blen = bytes.len();
    let mut r = [0u8; 32];
    let mut k: usize = 0;
    while k < 32
        invariant
            pos + 32 <= blen,
            blen == bytes@.len(),
            k <= 32,
            forall|j: int| 0 <= j < k ==> r@[j] == bytes@[pos + j],
        decreases 32 - k,
    {
        r[k] = bytes[pos + k];
        k += 1;
    }
    proof {
        assert(r@ =~= bytes@.subrange(pos as int, pos + 32));
    }
    r
}

/// The randomness one signed input consumes: the fresh pseudo-output mask,
/// the nonce, and one decoy response per ring member, all as 32-byte seeds
/// read reduced.
#[derive(Clone, PartialEq, Eq, Debug)]
pub struct SignRandomness {
    pub mask_seed: [u8; 32],
    pub nonce_seed: [u8; 32],
    pub s_seeds: Vec<[u8; 32]>,
}

/// One input to sign: the private key, its key image, and the validated
/// ring context. Constructed only through `new`, which pins the key image
/// to a curve point.
#[derive(PartialEq, Eq, Debug)]
pub struct ClsagSignInput {
    key: [u8; 32],
    key_image: [u8; 32],
    input: ClsagInput,
}

impl ClsagSignInput {
    /// The key image decompresses.
    #[verifier::type_invariant]
    closed spec fn wf(self) -> bool {
        spec_point_valid(self.key_image@)
    }

    /// The private key bytes.
    pub closed spec fn spec_key(self) -> Seq<u8> {
        self.key@
    }

    /// The key image bytes.
    pub closed spec fn spec_key_image(self) -> Seq<u8> {
        self.key_image@
    }

    /// The validated ring context.
    pub closed spec fn spec_input(self) -> ClsagInput {
        self.input
    }

    /// Bundle a private key, its key image and a validated input; the key
    /// image must decompress.
    pub fn new(key: [u8; 32], key_image: [u8; 32], input: ClsagInput) -> (r: Option<
        ClsagSignInput,
    >)
        ensures
            match r {
                Some(v) => {
                    &&& spec_point_valid(key_image@)
                    &&& v.spec_key() == key@
                    &&& v.spec_key_image() == key_image@
                    &&& v.spec_input() == input
                },
                None => !spec_point_valid(key_image@),
            },
    {
        if point_is_valid(&key_image) {
            Some(ClsagSignInput { key, key_image, input })
        } else {
            None
        }
    }
}

/// The zero scalar.
pub open spec fn spec_zero_scalar() -> Seq<u8> {
    Seq::new(32, |i: int| 0u8)
}

/// The running sum of the first `k` pseudo-output masks, each read reduced
/// from its seed.
pub open spec fn spec_masks_prefix_sum(rand: Seq<SignRandomness>, k: int) -> Seq<u8>
    decreases k,
{
    if k <= 0 {
        spec_zero_scalar()
    } else {
        spec_scalar_add(
            spec_masks_prefix_sum(rand, k - 1),
            spec_scalar_reduce(rand[k - 1].mask_seed@),
        )
    }
}

/// The pseudo-output mask of the input at an index: a fresh scalar for all
/// but the last input, whose mask closes the sum to the outputs' masks.
pub open spec fn spec_mask_at(
    rand: Seq<SignRandomness>,
    sum_outputs: Seq<u8>,
    i: int,
    n: int,
) -> Seq<u8> {
    if i < n - 1 {
        spec_scalar_reduce(rand[i].mask_seed@)
    } else {
        spec_scalar_sub(sum_outputs, spec_masks_prefix_sum(rand, n - 1))
    }
}

/// Each seed read reduced.
pub open spec fn spec_reduced_views(seeds: Seq<[u8; 32]>) -> Seq<Seq<u8>> {
    Seq::new(seeds.len(), |i: int| spec_scalar_reduce(seeds[i]@))
}

/// What the shared signing core produces for one input, before the signer's
/// own response is filled in: the pseudo-output commitment, the incomplete
/// signature whose responses are all still the reduced seeds, and the two
/// challenge scalars the caller folds the private key and mask into.
pub open spec fn spec_sign_core_ok(
    ring: Seq<RingMember>,
    r_idx: int,
    commitment: Commitment,
    key_image: Seq<u8>,
    mask: Seq<u8>,
    msg: Seq<u8>,
    nonce_commit: Seq<u8>,
    nonce_commit_hash: Seq<u8>,
    s_seeds: Seq<[u8; 32]>,
    out: ClsagSignCore,
) -> bool {
    let n = ring.len() as int;
    let pseudo = spec_commit_point(mask, commitment.amount);
    let mask_delta = spec_scalar_sub(commitment.mask@, mask);
    let d_big = spec_point_mul(mask_delta, ring[r_idx].key_hash@);
    let d_inv8 = spec_point_mul(spec_inv_eight(), d_big);
    let mu_p = spec_mu(48, ring, key_image, d_inv8, pseudo);
    let mu_c = spec_mu(49, ring, key_image, d_inv8, pseudo);
    let c0 = spec_scalar_reduce(
        spec_keccak256(spec_round_prefix(ring, pseudo, msg) + nonce_commit + nonce_commit_hash),
    );
    let s_views = spec_reduced_views(s_seeds);
    let c_fin = spec_chain(
        ring,
        key_image,
        d_big,
        pseudo,
        msg,
        mu_p,
        mu_c,
        s_views,
        c0,
        r_idx + 1,
        (n - 1) as nat,
    );
    &&& out.pseudo_out@ == pseudo
    &&& out.incomplete_clsag.D@ == d_inv8
    &&& out.incomplete_clsag.c1@ == spec_chain(
        ring,
        key_image,
        d_big,
        pseudo,
        msg,
        mu_p,
        mu_c,
        s_views,
        c0,
        r_idx + 1,
        spec_closer_steps(r_idx + 1, n) as nat,
    )
    &&& out.incomplete_clsag.s@.len() == n
    &&& forall|j: int|
        0 <= j < n ==> (#[trigger] out.incomplete_clsag.s@[j])@ == spec_scalar_reduce(
            s_seeds[j]@,
        )
    &&& out.key_challenge@ == spec_scalar_mul(c_fin, mu_p)
    &&& out.challenged_mask@ == spec_scalar_mul(spec_scalar_mul(c_fin, mu_c), mask_delta)
}

/// The output of the signing core: what single-signer and threshold signing
/// share before the signer's response closes the signature.
pub struct ClsagSignCore {
    pub incomplete_clsag: Clsag,
    pub pseudo_out: [u8; 32],
    pub key_challenge: [u8; 32],
    pub challenged_mask: [u8; 32],
}

/// The extension of the core as needed for signing, shared between the
/// single signer and multisig: commit to the pseudo-output, derive `D` from
/// the mask delta, seed every response from its seed and walk the ring.
pub(crate) fn sign_core(
    key_image: &[u8; 32],
    input: &ClsagInput,
    mask: &[u8; 32],
    msg: &[u8; 32],
    nonce_commit: &[u8; 32],
    nonce_commit_hash: &[u8; 32],
    s_seeds: &Vec<[u8; 32]>,
) -> (out: ClsagSignCore)
    requires
        spec_point_valid(key_image@),
        s_seeds@.len() == input.spec_ring().len(),
    ensures
        spec_sign_core_ok(
            input.spec_ring(),
            input.spec_signer_index() as int,
            input.spec_commitment(),
            key_image@,
            mask@,
            msg@,
            nonce_commit@,
            nonce_commit_hash@,
            s_seeds@,
            out,
        ),
{
    proof {
        use_type_invariant(input);
    }
    let r_idx = input.decoys.signer_index as usize;
    let pseudo_out = Commitment { mask: *mask, amount: input.commitment.amount }.calculate();
    let mask_delta = scalar_sub(&input.commitment.mask, mask);
    let d_big = point_mul(&mask_delta, &input.decoys.ring[r_idx].key_hash);
    let n = s_seeds.len();
    let mut s: Vec<[u8; 32]> = Vec::new();
    let mut i: usize = 0;
    while i < n
        invariant
            n == s_seeds@.len(),
            i <= n,
            s@.len() == i,
            forall|k: int|
                0 <= k < i ==> (#[trigger] s@[k])@ == spec_scalar_reduce(s_seeds@[k]@),
        decreases n - i,
    {
        let reduced = scalar_reduce(&s_seeds[i]);
        s.push(reduced);
        i += 1;
    }
    proof {
        assert(views_of(s@) =~= spec_reduced_views(s_seeds@));
    }
    let (parts, c1) = clsag_core(
        &input.decoys.ring,
        key_image,
        &pseudo_out,
        msg,
        &d_big,
        &s,
        &Mode::Sign {
            signer_index: r_idx,
            nonce_commit: *nonce_commit,
            nonce_commit_hash: *nonce_commit_hash,
        },
    );
    let challenged_mask = scalar_mul(&parts.2, &mask_delta);
    ClsagSignCore {
        incomplete_clsag: Clsag { D: parts.0, s, c1 },
        pseudo_out,
        key_challenge: parts.1,
        challenged_mask,
    }
}

/// One produced signature: every field pinned as a function of the ring,
/// the opening, the randomness and the message.
pub open spec fn spec_signed_for(
    ring: Seq<RingMember>,
    r_idx: int,
    commitment: Commitment,
    key: Seq<u8>,
    key_image: Seq<u8>,
    rand: SignRandomness,
    mask: Seq<u8>,
    msg: Seq<u8>,
    out_clsag: Clsag,
    out_pseudo: Seq<u8>,
) -> bool {
    let n = ring.len() as int;
    let nonce = spec_scalar_reduce(rand.nonce_seed@);
    let nonce_commit = spec_point_mul(nonce, spec_base_point());
    let nonce_commit_hash = spec_point_mul(nonce, ring[r_idx].key_hash@);
    let pseudo = spec_commit_point(mask, commitment.amount);
    let mask_delta = spec_scalar_sub(commitment.mask@, mask);
    let d_big = spec_point_mul(mask_delta, ring[r_idx].key_hash@);
    let d_inv8 = spec_point_mul(spec_inv_eight(), d_big);
    let mu_p = spec_mu(48, ring, key_image, d_inv8, pseudo);
    let mu_c = spec_mu(49, ring, key_image, d_inv8, pseudo);
    let c0 = spec_scalar_reduce(
        spec_keccak256(
            spec_round_prefix(ring, pseudo, msg) + nonce_commit + nonce_commit_hash,
        ),
    );
    let s_views = spec_reduced_views(rand.s_seeds@);
    let c_fin = spec_chain(
        ring,
        key_image,
        d_big,
        pseudo,
        msg,
        mu_p,
        mu_c,
        s_views,
        c0,
        r_idx + 1,
        (n - 1) as nat,
    );
    let key_challenge = spec_scalar_mul(c_fin, mu_p);
    let challenged_mask = spec_scalar_mul(spec_scalar_mul(c_fin, mu_c), mask_delta);
    let s_r = spec_scalar_sub(
        nonce,
        spec_scalar_add(spec_scalar_mul(key_challenge, key), challenged_mask),
    );
    &&& out_pseudo == pseudo
    &&& out_clsag.D@ == d_inv8
    &&& out_clsag.c1@ == spec_chain(
        ring,
        key_image,
        d_big,
        pseudo,
        msg,
        mu_p,
        mu_c,
        s_views,
        c0,
        r_idx + 1,
        spec_closer_steps(r_idx + 1, n) as nat,
    )
    &&& out_clsag.s@.len() == n
    &&& forall|j: int|
        0 <= j < n && j != r_idx ==> (#[trigger] out_clsag.s@[j])@ == spec_scalar_reduce(
            rand.s_seeds@[j]@,
        )
    &&& out_clsag.s@[r_idx]@ == s_r
}

impl Clsag {
    /// Generate CLSAG signatures for the given inputs.
    ///
    /// The pseudo-output masks of all but the last input come fresh from
    /// their seeds; the last mask closes their sum to the outputs' masks,
    /// binding the pseudo-outputs to the transaction's balance. Each
    /// signature's fields are pinned exactly by the input, its randomness
    /// and the message.
    ///
    /// The private keys and seeds are plain values: wiping their memory
    /// once the signatures exist is the caller's duty.
    pub fn sign(
        inputs: Vec<ClsagSignInput>,
        randomness: Vec<SignRandomness>,
        sum_outputs: [u8; 32],
        msg: [u8; 32],
    ) -> (r: Vec<(Clsag, [u8; 32])>)
        requires
            inputs@.len() == randomness@.len(),
            forall|i: int|
                0 <= i < inputs@.len() ==> (#[trigger] randomness@[i]).s_seeds@.len()
                    == inputs@[i].spec_input().spec_ring().len(),
        ensures
            r@.len() == inputs@.len(),
            forall|i: int|
                0 <= i < inputs@.len() ==> spec_signed_for(
                    (#[trigger] inputs@[i]).spec_input().spec_ring(),
                    inputs@[i].spec_input().spec_signer_index() as int,
                    inputs@[i].spec_input().spec_commitment(),
                    inputs@[i].spec_key(),
                    inputs@[i].spec_key_image(),
                    randomness@[i],
                    spec_mask_at(randomness@, sum_outputs@, i, inputs@.len() as int),
                    msg@,
                    r@[i].0,
                    r@[i].1@,
                ),
    {
        let n = inputs.len();
        let mut res: Vec<(Clsag, [u8; 32])> = Vec::new();
        let mut sum: [u8; 32] = [0u8; 32];
        proof {
            assert(sum@ =~= spec_zero_scalar());
        }
        let mut i: usize = 0;
        while i < n
            invariant
                n == inputs@.len(),
                inputs@.len() == randomness@.len(),
                forall|k: int|
                    0 <= k < inputs@.len() ==> (#[trigger] randomness@[k]).s_seeds@.len()
                        == inputs@[k].spec_input().spec_ring().len(),
                i <= n,
                res@.len() == i,
                sum@ == spec_masks_prefix_sum(
                    randomness@,
                    if i as int <= n - 1 {
                        i as int
                    } else {
                        n - 1
                    },
                ),
                forall|k: int|
                    0 <= k < i ==> spec_signed_for(
                        (#[trigger] inputs@[k]).spec_input().spec_ring(),
                        inputs@[k].spec_input().spec_signer_index() as int,
                        inputs@[k].spec_input().spec_commitment(),
                        inputs@[k].spec_key(),
                        inputs@[k].spec_key_image(),
                        randomness@[k],
                        spec_mask_at(randomness@, sum_outputs@, k, inputs@.len() as int),
                        msg@,
                        res@[k].0,
                        res@[k].1@,
                    ),
            decreases n - i,
        {
            let inp = &inputs[i];
            proof {
                use_type_invariant(inp);
                use_type_invariant(&inp.input);
            }
            let mask: [u8; 32] = if i == n - 1 {
                scalar_sub(&sum_outputs, &sum)
            } else {
                let fresh = scalar_reduce(&randomness[i].mask_seed);
                sum = scalar_add(&sum, &fresh);
                fresh
            };
            let r_idx = inp.input.decoys.signer_index as usize;
            let nonce = scalar_reduce(&randomness[i].nonce_seed);
            let nonce_commit = point_mul_base(&nonce);
            let nonce_commit_hash = point_mul(&nonce, &inp.input.decoys.ring[r_idx].key_hash);
            let core_out = sign_core(
                &inp.key_image,
                &inp.input,
                &mask,
                &msg,
                &nonce_commit,
                &nonce_commit_hash,
                &randomness[i].s_seeds,
            );
            let folded = scalar_mul(&core_out.key_challenge, &inp.key);
            let s_r = scalar_sub(&nonce, &scalar_add(&folded, &core_out.challenged_mask));
            let mut clsag = core_out.incomplete_clsag;
            clsag.s[r_idx] = s_r;
            res.push((clsag, core_out.pseudo_out));
            i += 1;
        }
        res
    }
}

} // verus!
