use curve25519_dalek::constants::{ED25519_BASEPOINT_POINT, EIGHT_TORSION};
use curve25519_dalek::edwards::CompressedEdwardsY;
use curve25519_dalek::scalar::Scalar;
use sha3::{Digest, Keccak256};

use serai_signing::clsag::{
    Clsag, ClsagError, ClsagInput, ClsagSignInput, Commitment, Decoys, RingMember, SignRandomness,
};

fn scalar_from(seed: u8) -> Scalar {
    let mut b = [0u8; 32];
    b[0] = seed;
    b[1] = 0x5a;
    Scalar::from_bytes_mod_order(b)
}

// A stand-in hash-to-point map for tests: a keccak-derived scalar times the
// basepoint. Any fixed map works for the protocol's round trip.
fn hash_to_point_bytes(key: &[u8; 32]) -> [u8; 32] {
    let digest = Keccak256::digest(key);
    let mut b = [0u8; 32];
    b.copy_from_slice(&digest);
    let s = Scalar::from_bytes_mod_order(b);
    (s * ED25519_BASEPOINT_POINT).compress().to_bytes()
}

struct TestRing {
    ring: Vec<RingMember>,
    key: [u8; 32],
    key_image: [u8; 32],
    pseudo_out_mask: [u8; 32],
    msg: [u8; 32],
}

fn build_ring(n: usize, r: usize) -> TestRing {
    assert!(r < n);
    let mut ring = Vec::new();
    for i in 0..n {
        let x = scalar_from(10 + i as u8);
        let key = (x * ED25519_BASEPOINT_POINT).compress().to_bytes();
        let mask = scalar_from(100 + i as u8).to_bytes();
        let commitment = Commitment { mask, amount: 0 }.calculate();
        let key_hash = hash_to_point_bytes(&key);
        ring.push(RingMember { key, commitment, key_hash });
    }
    // The signer's slot commits to 1000 under its own mask.
    let signer_mask = scalar_from(200).to_bytes();
    let signer_commitment = Commitment { mask: signer_mask, amount: 1000 };
    ring[r].commitment = signer_commitment.calculate();

    let x = scalar_from(10 + r as u8);
    let key = x.to_bytes();
    let hp = CompressedEdwardsY(ring[r].key_hash).decompress().unwrap();
    let key_image = (x * hp).compress().to_bytes();

    // One input: its pseudo-output mask closes the sum, so it equals the
    // sum-of-output-masks scalar handed to sign.
    let pseudo_out_mask = scalar_from(77).to_bytes();

    TestRing { ring, key, key_image, pseudo_out_mask, msg: [0x42; 32] }
}

fn randomness(n: usize) -> SignRandomness {
    let mut s_seeds = Vec::new();
    for i in 0..n {
        let mut b = [0u8; 32];
        b[0] = 50 + i as u8;
        b[2] = 7;
        s_seeds.push(b);
    }
    let mut mask_seed = [0u8; 32];
    mask_seed[0] = 91;
    let mut nonce_seed = [0u8; 32];
    nonce_seed[0] = 92;
    SignRandomness { mask_seed, nonce_seed, s_seeds }
}

fn sign_once_at(t: &TestRing, n: usize, r: usize) -> (Clsag, [u8; 32]) {
    let sign_input =
        ClsagSignInput::new(t.key, t.key_image, ClsagInput::new(
            Commitment { mask: scalar_from(200).to_bytes(), amount: 1000 },
            Decoys { ring: t.ring.clone(), signer_index: r as u8 },
        ).unwrap())
        .unwrap();
    let mut sigs = Clsag::sign(
        vec![sign_input],
        vec![randomness(n)],
        t.pseudo_out_mask,
        t.msg,
    );
    assert_eq!(sigs.len(), 1);
    sigs.remove(0)
}

fn sign_once(t: &TestRing, n: usize) -> (Clsag, [u8; 32]) {
    sign_once_at(t, n, 3)
}

#[test]
fn clsag_round_trip_n11() {
    let n = 11;
    let t = build_ring(n, 3);
    let (clsag, pseudo_out) = sign_once(&t, n);
    assert_eq!(clsag.verify(&t.ring, &t.key_image, &pseudo_out, &t.msg), Ok(()));

    // Flipping a bit of the closing challenge must be detected.
    let mut bad = clsag.clone();
    bad.c1[0] ^= 1;
    assert_eq!(
        bad.verify(&t.ring, &t.key_image, &pseudo_out, &t.msg),
        Err(ClsagError::InvalidC1)
    );
}

#[test]
fn clsag_round_trip_edge_signer_positions() {
    // The first and the last ring slots exercise both ends of the
    // challenge walk, including the seed itself closing the ring.
    let n = 4;
    for r in [0usize, n - 1] {
        let t = build_ring(n, r);
        let (clsag, pseudo_out) = sign_once_at(&t, n, r);
        assert_eq!(clsag.verify(&t.ring, &t.key_image, &pseudo_out, &t.msg), Ok(()));
    }
}

#[test]
fn clsag_torsion_rejection() {
    let n = 11;
    let t = build_ring(n, 3);
    let (clsag, pseudo_out) = sign_once(&t, n);

    // Adding an eight-torsion component to the key image must be rejected.
    let i_point = CompressedEdwardsY(t.key_image).decompress().unwrap();
    let torsioned = (i_point + EIGHT_TORSION[1]).compress().to_bytes();
    assert_eq!(
        clsag.verify(&t.ring, &torsioned, &pseudo_out, &t.msg),
        Err(ClsagError::InvalidImage)
    );

    // The identity key image is likewise rejected.
    let mut identity = [0u8; 32];
    identity[0] = 1;
    assert_eq!(
        clsag.verify(&t.ring, &identity, &pseudo_out, &t.msg),
        Err(ClsagError::InvalidImage)
    );
}

#[test]
fn clsag_structural_rejection() {
    let n = 5;
    let t = build_ring(n, 3);
    let (clsag, pseudo_out) = sign_once(&t, n);

    // A response vector of the wrong length is rejected.
    let mut short = clsag.clone();
    short.s.pop();
    assert_eq!(
        short.verify(&t.ring, &t.key_image, &pseudo_out, &t.msg),
        Err(ClsagError::InvalidS)
    );

    // A D whose cofactor multiple is the identity is rejected.
    let mut zero_d = clsag.clone();
    zero_d.D = {
        let mut identity = [0u8; 32];
        identity[0] = 1;
        identity
    };
    assert_eq!(
        zero_d.verify(&t.ring, &t.key_image, &pseudo_out, &t.msg),
        Err(ClsagError::InvalidD)
    );

    // Tampering with a response changes the closing challenge.
    let mut bad_s = clsag.clone();
    bad_s.s[0][0] ^= 1;
    assert!(bad_s.verify(&t.ring, &t.key_image, &pseudo_out, &t.msg).is_err());

    // A different message likewise.
    let mut other_msg = [0x42; 32];
    other_msg[0] = 0x43;
    assert_eq!(
        clsag.verify(&t.ring, &t.key_image, &pseudo_out, &other_msg),
        Err(ClsagError::InvalidC1)
    );
}

#[test]
fn clsag_commitment_binding() {
    let n = 5;
    let t = build_ring(n, 3);
    let (clsag, _pseudo_out) = sign_once(&t, n);

    // A pseudo-output under a different mask fails verification.
    let other_mask = scalar_from(78).to_bytes();
    let other_pseudo = Commitment { mask: other_mask, amount: 1000 }.calculate();
    assert!(clsag.verify(&t.ring, &t.key_image, &other_pseudo, &t.msg).is_err());
}

#[test]
fn clsag_wire_round_trip() {
    let n = 4;
    let t = build_ring(n, 3);
    let (clsag, _) = sign_once(&t, n);
    let wire = clsag.write();
    assert_eq!(wire.len(), Clsag::fee_weight(n));
    let parsed = Clsag::read(n, wire.as_slice()).unwrap();
    assert_eq!(parsed, clsag);

    // Truncated wire data is rejected.
    assert!(Clsag::read(n, &wire.as_slice()[..wire.len() - 1]).is_none());
}

#[test]
fn clsag_input_validation() {
    let n = 4;
    let t = build_ring(n, 3);

    // A signer index outside the ring is rejected.
    let r = ClsagInput::new(
        Commitment { mask: scalar_from(200).to_bytes(), amount: 1000 },
        Decoys { ring: t.ring.clone(), signer_index: 4 },
    );
    assert_eq!(r.unwrap_err(), ClsagError::InvalidRingMember(4, 4));

    // A commitment not matching the signer's slot is rejected.
    let r = ClsagInput::new(
        Commitment { mask: scalar_from(201).to_bytes(), amount: 1000 },
        Decoys { ring: t.ring.clone(), signer_index: 3 },
    );
    assert_eq!(r.unwrap_err(), ClsagError::InvalidCommitment);

    // An oversized ring is rejected.
    let mut big = Vec::new();
    for _ in 0..256 {
        big.push(t.ring[0]);
    }
    let r = ClsagInput::new(
        Commitment { mask: scalar_from(200).to_bytes(), amount: 1000 },
        Decoys { ring: big, signer_index: 0 },
    );
    assert_eq!(r.unwrap_err(), ClsagError::InvalidRing);
}

#[test]
fn commitment_matches_direct_curve_arithmetic() {
    // The library's commitment arithmetic agrees with computing
    // mask * G + amount * H directly on the curve.
    let mask = scalar_from(33);
    let amount = 987_654u64;
    let h = CompressedEdwardsY(serai_signing::curve::h_point_bytes()).decompress().unwrap();
    let expected = (mask * ED25519_BASEPOINT_POINT + Scalar::from(amount) * h)
        .compress()
        .to_bytes();
    let got = Commitment { mask: mask.to_bytes(), amount }.calculate();
    assert_eq!(got, expected);
}

#[test]
fn h_generator_matches_known_constant() {
    // The second generator is Monero's: it must at least be a valid point
    // distinct from the basepoint.
    let h = serai_signing::curve::h_point_bytes();
    assert!(CompressedEdwardsY(h).decompress().is_some());
    assert_ne!(h, ED25519_BASEPOINT_POINT.compress().to_bytes());
    assert_eq!(
        hex::encode(h),
        "8b655970153799af2aeadc9ff1add0ea6c7251d54154cfa92c173a0dd39c1f94"
    );
}
