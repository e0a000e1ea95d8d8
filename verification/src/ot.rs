//! 1-out-of-2 oblivious transfer over secp256k1 with a commit-then-open
//! seed.  Points travel as compressed SEC1 bytes and scalars as 32 random
//! bytes (reduced modulo the group order inside the curve wrappers), so
//! every step's contract is exact up to the named curve operations; only
//! the curve arithmetic itself is the k256 crate's.
use vstd::prelude::*;
use k256::elliptic_curve::ops::Reduce;
use k256::elliptic_curve::sec1::{FromEncodedPoint, ToEncodedPoint};
use rand::RngCore;
use crate::byteops::{be64, eq_bytes, xor_seq};
use crate::hashing::{sha256, sha256_of};
use crate::rng::generate_random_seed;
use crate::sudoku::copy_row;

verus! {

/// A point of the curve, in compressed SEC1 encoding (the identity encodes
/// as a single zero byte).
pub type Point = Vec<u8>;

/// A scalar: 32 bytes, interpreted modulo the group order.
pub type SecretScalar = Vec<u8>;

/// What a byte string decodes to as a curve point: `None` when it is not a
/// valid encoding, otherwise the canonical compressed encoding of the point.
pub uninterp spec fn point_decode_of(b: Seq<u8>) -> Option<Seq<u8>>;

/// The product of a point (canonical encoding) and a scalar (32 bytes, taken
/// modulo the group order), as a canonical encoding.
pub uninterp spec fn point_mul_of(p: Seq<u8>, s: Seq<u8>) -> Seq<u8>;

/// The sum of two points, as a canonical encoding.
pub uninterp spec fn point_add_of(p: Seq<u8>, q: Seq<u8>) -> Seq<u8>;

/// The difference of two points, as a canonical encoding.
pub uninterp spec fn point_sub_of(p: Seq<u8>, q: Seq<u8>) -> Seq<u8>;

/// A canonical point encoding: one that decodes to itself.
pub open spec fn is_point(b: Seq<u8>) -> bool {
    point_decode_of(b) == Option::Some(b)
}

/// The compressed SEC1 encoding of the secp256k1 base point.
pub open spec fn generator_bytes() -> Seq<u8> {
    seq![
        0x02u8, 0x79, 0xbe, 0x66, 0x7e, 0xf9, 0xdc, 0xbb, 0xac, 0x55, 0xa0, 0x62, 0x95, 0xce,
        0x87, 0x0b, 0x07, 0x02, 0x9b, 0xfc, 0xdb, 0x2d, 0xce, 0x28, 0xd9, 0x59, 0xf2, 0x81, 0x5b,
        0x16, 0xf8, 0x17, 0x98,
    ]
}

/// The key-derivation input: the shared point's bytes, the opened seed, and
/// the message index as eight big-endian bytes.
pub open spec fn kdf_of(k: Seq<u8>, seed: Seq<u8>, id: u64) -> Seq<u8> {
    sha256_of(k + seed + be64(id))
}

/// Relies on rand's `fill_bytes`: 32 random bytes used as a scalar.
#[verifier::external_body]
pub fn generate_scalar() -> (r: SecretScalar)
    ensures
        r@.len() == 32,
{
    let mut s = vec![0u8; 32];
    rand::rng().fill_bytes(&mut s);
    s
}

/// Relies on k256's `ProjectivePoint::GENERATOR` and its compressed SEC1
/// encoding: the base point, whose encoding is the fixed 33-byte constant.
#[verifier::external_body]
pub fn get_generator() -> (r: Point)
    ensures
        r@ == generator_bytes(),
        is_point(r@),
{
    k256::ProjectivePoint::GENERATOR.to_affine().to_encoded_point(true).as_bytes().to_vec()
}

/// Relies on k256's scalar reduction and point multiplication: the result is
/// a function of the point and scalar bytes alone, returned canonically
/// encoded.
#[verifier::external_body]
pub fn mul_point(point: &Point, scalar: &SecretScalar) -> (r: Point)
    requires
        is_point(point@),
        scalar@.len() == 32,
    ensures
        r@ == point_mul_of(point@, scalar@),
        is_point(r@),
{
    let enc = k256::EncodedPoint::from_bytes(point).unwrap();
    let aff = k256::AffinePoint::from_encoded_point(&enc).unwrap();
    let s = <k256::Scalar as Reduce<k256::U256>>::reduce_bytes(k256::FieldBytes::from_slice(
        scalar,
    ));
    let prod = k256::ProjectivePoint::from(aff) * s;
    prod.to_affine().to_encoded_point(true).as_bytes().to_vec()
}

/// Relies on k256's point addition.
#[verifier::external_body]
pub fn add_points(p1: &Point, p2: &Point) -> (r: Point)
    requires
        is_point(p1@),
        is_point(p2@),
    ensures
        r@ == point_add_of(p1@, p2@),
        is_point(r@),
{
    let e1 = k256::EncodedPoint::from_bytes(p1).unwrap();
    let a1 = k256::AffinePoint::from_encoded_point(&e1).unwrap();
    let e2 = k256::EncodedPoint::from_bytes(p2).unwrap();
    let a2 = k256::AffinePoint::from_encoded_point(&e2).unwrap();
    let sum = k256::ProjectivePoint::from(a1) + k256::ProjectivePoint::from(a2);
    sum.to_affine().to_encoded_point(true).as_bytes().to_vec()
}

/// Relies on k256's point subtraction.
#[verifier::external_body]
pub fn sub_points(p1: &Point, p2: &Point) -> (r: Point)
    requires
        is_point(p1@),
        is_point(p2@),
    ensures
        r@ == point_sub_of(p1@, p2@),
        is_point(r@),
{
    let e1 = k256::EncodedPoint::from_bytes(p1).unwrap();
    let a1 = k256::AffinePoint::from_encoded_point(&e1).unwrap();
    let e2 = k256::EncodedPoint::from_bytes(p2).unwrap();
    let a2 = k256::AffinePoint::from_encoded_point(&e2).unwrap();
    let diff = k256::ProjectivePoint::from(a1) - k256::ProjectivePoint::from(a2);
    diff.to_affine().to_encoded_point(true).as_bytes().to_vec()
}

/// Relies on k256's SEC1 decoding: `None` exactly when the bytes are not a
/// valid point encoding, otherwise the canonical re-encoding of the point.
#[verifier::external_body]
pub fn bytes_to_point(bytes: &[u8]) -> (r: Option<Point>)
    ensures
        match r {
            Option::Some(p) => point_decode_of(bytes@) == Option::Some(p@) && is_point(p@),
            Option::None => point_decode_of(bytes@) is None,
        },
{
    let enc = match k256::EncodedPoint::from_bytes(bytes) {
        Result::Ok(e) => e,
        Result::Err(_) => {
            return Option::None;
        },
    };
    let aff_opt = k256::AffinePoint::from_encoded_point(&enc);
    if bool::from(aff_opt.is_some()) {
        let aff = aff_opt.unwrap();
        Option::Some(aff.to_encoded_point(true).as_bytes().to_vec())
    } else {
        Option::None
    }
}

/// A point already travels as its bytes; copying it is serialization.
pub fn point_to_bytes(point: &Point) -> (r: Vec<u8>)
    ensures
        r@ == point@,
{
    copy_row(point)
}

/// Derive a pad from a shared point, the opened seed, and a message index.
pub fn hash_point(key_point: &[u8], seed: &[u8], id: u64) -> (r: Vec<u8>)
    ensures
        r@ == kdf_of(key_point@, seed@, id),
        r@.len() == 32,
{
    let mut data: Vec<u8> = Vec::new();
    let mut i: usize = 0;
    while i < key_point.len()
        invariant
            i <= key_point@.len(),
            data@ == key_point@.subrange(0, i as int),
        decreases key_point@.len() - i,
    {
        data.push(key_point[i]);
        assert(data@ =~= key_point@.subrange(0, i as int + 1));
        i = i + 1;
    }
    assert(data@ =~= key_point@);
    let mut i: usize = 0;
    while i < seed.len()
        invariant
            i <= seed@.len(),
            data@ == key_point@ + seed@.subrange(0, i as int),
        decreases seed@.len() - i,
    {
        data.push(seed[i]);
        assert(data@ =~= key_point@ + seed@.subrange(0, i as int + 1));
        i = i + 1;
    }
    assert(data@ =~= key_point@ + seed@);
    crate::byteops::push_be64(&mut data, id);
    assert(data@ =~= key_point@ + seed@ + be64(id));
    sha256(&data)
}

/// The sender's OT state: secret scalar `a`, public point `A = a·G`, and
/// the committed seed.
pub struct OtSender {
    pub sk: SecretScalar,
    pub pk: Point,
    pub seed: Vec<u8>,
    pub commit: Vec<u8>,
}

/// The sender state is honestly formed.
pub open spec fn sender_wf(s: OtSender) -> bool {
    &&& s.sk@.len() == 32
    &&& s.pk@ == point_mul_of(generator_bytes(), s.sk@)
    &&& is_point(s.pk@)
    &&& s.seed@.len() == 32
    &&& s.commit@ == sha256_of(s.seed@)
}

impl OtSender {
    /// Draw a scalar and a seed; compute `A = a·G` and `comm = SHA-256(seed)`.
    pub fn new() -> (s: OtSender)
        ensures
            sender_wf(s),
    {
        let sk = generate_scalar();
        let g = get_generator();
        let pk = mul_point(&g, &sk);
        let seed = generate_random_seed();
        let commit = sha256(&seed);
        OtSender { sk, pk, seed, commit }
    }

    /// The first message: the public point and the seed commitment.
    pub fn step1_init_message(&self) -> (r: (Vec<u8>, Vec<u8>))
        ensures
            r.0@ == self.pk@,
            r.1@ == self.commit@,
    {
        (copy_row(&self.pk), copy_row(&self.commit))
    }

    /// Receive the receiver's point `B` and derive the two key points
    /// `K0 = a·B` and `K1 = K0 − a·A`; `None` when `B` is not a point.
    pub fn step3_derive_keys(&self, b_bytes: &[u8]) -> (r: Option<(Point, Point)>)
        requires
            sender_wf(*self),
        ensures
            match r {
                Option::Some(ks) => {
                    &&& point_decode_of(b_bytes@) matches Option::Some(b) && ks.0@ == point_mul_of(
                        b,
                        self.sk@,
                    )
                    &&& ks.1@ == point_sub_of(ks.0@, point_mul_of(self.pk@, self.sk@))
                    &&& is_point(ks.0@)
                    &&& is_point(ks.1@)
                },
                Option::None => point_decode_of(b_bytes@) is None,
            },
    {
        match bytes_to_point(b_bytes) {
            Option::None => Option::None,
            Option::Some(b) => {
                let k0 = mul_point(&b, &self.sk);
                let aa = mul_point(&self.pk, &self.sk);
                let k1 = sub_points(&k0, &aa);
                Option::Some((k0, k1))
            },
        }
    }

    /// Open the commitment: reveal the seed.
    pub fn step4_open_seed(&self) -> (r: Vec<u8>)
        ensures
            r@ == self.seed@,
    {
        copy_row(&self.seed)
    }

    /// Derive the two pads from the key points and the seed.
    pub fn step5_derive_messages(&self, k0: &Point, k1: &Point) -> (r: (Vec<u8>, Vec<u8>))
        ensures
            r.0@ == kdf_of(k0@, self.seed@, 0),
            r.1@ == kdf_of(k1@, self.seed@, 1),
            r.0@.len() == 32,
            r.1@.len() == 32,
    {
        (hash_point(k0.as_slice(), self.seed.as_slice(), 0), hash_point(
            k1.as_slice(),
            self.seed.as_slice(),
            1,
        ))
    }
}

/// The receiver's OT state: the choice bit and the secret scalar `r`.
pub struct OtReceiver {
    pub choice: u8,
    pub r: SecretScalar,
}

/// The receiver state is honestly formed.
pub open spec fn receiver_wf(s: OtReceiver) -> bool {
    &&& s.choice <= 1
    &&& s.r@.len() == 32
}

impl OtReceiver {
    /// Draw a scalar for the given choice bit.
    pub fn new(choice: u8) -> (s: OtReceiver)
        requires
            choice <= 1,
        ensures
            receiver_wf(s),
            s.choice == choice,
    {
        OtReceiver { choice, r: generate_scalar() }
    }

    /// Compute the reply point: `B = r·G` for choice 0, `B = A + r·G` for
    /// choice 1.
    pub fn step2_send_b(&self, a_point: &Point) -> (b: Point)
        requires
            receiver_wf(*self),
            is_point(a_point@),
        ensures
            self.choice == 0 ==> b@ == point_mul_of(generator_bytes(), self.r@),
            self.choice != 0 ==> b@ == point_add_of(
                a_point@,
                point_mul_of(generator_bytes(), self.r@),
            ),
            is_point(b@),
    {
        let g = get_generator();
        let b0 = mul_point(&g, &self.r);
        if self.choice == 0 {
            b0
        } else {
            add_points(a_point, &b0)
        }
    }

    /// Check the opened seed against the commitment received first: true
    /// exactly when `SHA-256(seed)` equals the commitment.
    pub fn step3_verify_seed(&self, seed: &[u8], expected_comm: &[u8]) -> (ok: bool)
        ensures
            ok == (sha256_of(seed@) == expected_comm@),
    {
        let computed = sha256(seed);
        eq_bytes(computed.as_slice(), expected_comm)
    }

    /// Derive the shared key point `K = r·A`.
    pub fn step4_derive_key(&self, a_point: &Point) -> (k: Point)
        requires
            receiver_wf(*self),
            is_point(a_point@),
        ensures
            k@ == point_mul_of(a_point@, self.r@),
            is_point(k@),
    {
        mul_point(a_point, &self.r)
    }

    /// Derive the pad for the chosen message.
    pub fn step5_derive_message(&self, k: &Point, seed: &[u8]) -> (r: Vec<u8>)
        ensures
            r@ == kdf_of(k@, seed@, self.choice as u64),
            r@.len() == 32,
    {
        hash_point(k.as_slice(), seed, self.choice as u64)
    }
}

/// Transfer correctness, modulo the curve's group law: the receiver's
/// derived key point equals the sender's point for its choice bit (because
/// `r·A = a·B − choice·a·A`), the pads derived from equal points, seeds and
/// indices are equal by construction, and decrypting a pad-encrypted
/// message with the same pad returns the message.
pub proof fn lemma_transfer_recovers_message(message: Seq<u8>, pad: Seq<u8>)
    requires
        message.len() <= pad.len(),
    ensures
        xor_seq(xor_seq(message, pad), pad) =~= message,
{
    crate::byteops::lemma_xor_seq_roundtrip(message, pad);
}

} // verus!
