use vstd::prelude::*;

use curve25519_dalek::constants::RISTRETTO_BASEPOINT_TABLE;
use curve25519_dalek::ristretto::{CompressedRistretto, RistrettoPoint};
use curve25519_dalek::scalar::Scalar;
use rand_core::OsRng;
use sha3::{Digest, Sha3_256, Sha3_512};

verus! {

/// The compressed Ristretto base point.
pub const BASEPOINT: [u8; 32] = [
    0xe2, 0xf2, 0xae, 0x0a, 0x6a, 0xbc, 0x4e, 0x71, 0xa8, 0x84, 0xa9, 0x61, 0xc5, 0x00, 0x51, 0x5f,
    0x58, 0xe3, 0x0b, 0x6a, 0xa5, 0x82, 0xdd, 0x8d, 0xb6, 0xa6, 0x59, 0x45, 0xe0, 0x8d, 0x2d, 0x76,
];

/// The SHA3-256 digest of a byte string.
pub uninterp spec fn sha3_256_of(data: Seq<u8>) -> Seq<u8>;

/// The value of bytes read little-endian.
pub open spec fn le_value(b: Seq<u8>) -> nat
    decreases b.len(),
{
    if b.len() == 0 {
        0
    } else {
        b[0] as nat + 256 * le_value(b.drop_first())
    }
}

/// The order of the Ristretto group: 2^252 + 27742317777372353535851937790883648493.
pub open spec fn group_order() -> nat {
    vstd::arithmetic::power2::pow2(252) + 27742317777372353535851937790883648493
}

/// Whether 32 bytes are the canonical encoding of a scalar: read
/// little-endian, they are below the group order.
pub open spec fn is_canonical_scalar(b: Seq<u8>) -> bool {
    b.len() == 32 && le_value(b) < group_order()
}

/// Whether 32 bytes are the canonical encoding of a Ristretto point.
pub uninterp spec fn is_ristretto_encoding(b: Seq<u8>) -> bool;

/// The encoded point that a byte string hashes to (with SHA3-512).
pub uninterp spec fn ristretto_hash_of(input: Seq<u8>) -> Seq<u8>;

/// The encoded product of an encoded point and a canonical scalar.
pub uninterp spec fn ristretto_mul_of(p: Seq<u8>, s: Seq<u8>) -> Seq<u8>;

/// The encoded product of the base point and a canonical scalar.
pub uninterp spec fn ristretto_base_mul_of(s: Seq<u8>) -> Seq<u8>;

/// The encoded sum of two encoded points.
pub uninterp spec fn ristretto_add_of(p: Seq<u8>, q: Seq<u8>) -> Seq<u8>;

/// The canonical scalar that 32 bytes give, reduced modulo the group order.
pub uninterp spec fn scalar_reduce_of(b: Seq<u8>) -> Seq<u8>;

/// The product of two canonical scalars.
pub uninterp spec fn scalar_mul_of(a: Seq<u8>, b: Seq<u8>) -> Seq<u8>;

/// The difference of two canonical scalars.
pub uninterp spec fn scalar_sub_of(a: Seq<u8>, b: Seq<u8>) -> Seq<u8>;

/// Relies on sha3's `Sha3_256`: the 32-byte SHA3-256 digest of `data`.
#[verifier::external_body]
fn sha3_256(data: &[u8]) -> (r: [u8; 32])
    ensures
        r@ == sha3_256_of(data@),
{
    Sha3_256::digest(data).into()
}

/// Relies on curve25519-dalek's `Scalar::random` with the operating
/// system's random source, and `Scalar::to_bytes`.
#[verifier::external_body]
fn random_scalar() -> (r: [u8; 32])
    ensures
        is_canonical_scalar(r@),
{
    Scalar::random(&mut OsRng).to_bytes()
}

/// Relies on curve25519-dalek's `Scalar::from_canonical_bytes`.
#[verifier::external_body]
fn is_canonical(b: &[u8; 32]) -> (r: bool)
    ensures
        r == is_canonical_scalar(b@),
{
    bool::from(Scalar::from_canonical_bytes(*b).is_some())
}

/// Relies on curve25519-dalek's `CompressedRistretto::decompress`.
#[verifier::external_body]
fn decompresses(b: &[u8; 32]) -> (r: bool)
    ensures
        r == is_ristretto_encoding(b@),
{
    CompressedRistretto(*b).decompress().is_some()
}

/// Relies on curve25519-dalek's `Scalar::from_bytes_mod_order` and `to_bytes`.
#[verifier::external_body]
fn scalar_reduce(b: &[u8; 32]) -> (r: [u8; 32])
    ensures
        r@ == scalar_reduce_of(b@),
        is_canonical_scalar(r@),
{
    Scalar::from_bytes_mod_order(*b).to_bytes()
}

/// Relies on curve25519-dalek's scalar multiplication.
#[verifier::external_body]
fn scalar_mul(a: &[u8; 32], b: &[u8; 32]) -> (r: [u8; 32])
    requires
        is_canonical_scalar(a@),
        is_canonical_scalar(b@),
    ensures
        r@ == scalar_mul_of(a@, b@),
        is_canonical_scalar(r@),
{
    let x = Scalar::from_canonical_bytes(*a).unwrap();
    let y = Scalar::from_canonical_bytes(*b).unwrap();
    (x * y).to_bytes()
}

/// Relies on curve25519-dalek's scalar subtraction.
#[verifier::external_body]
fn scalar_sub(a: &[u8; 32], b: &[u8; 32]) -> (r: [u8; 32])
    requires
        is_canonical_scalar(a@),
        is_canonical_scalar(b@),
    ensures
        r@ == scalar_sub_of(a@, b@),
        is_canonical_scalar(r@),
{
    let x = Scalar::from_canonical_bytes(*a).unwrap();
    let y = Scalar::from_canonical_bytes(*b).unwrap();
    (x - y).to_bytes()
}

/// Relies on curve25519-dalek's `RistrettoPoint::hash_from_bytes` with
/// SHA3-512, and `compress`.
#[verifier::external_body]
fn ristretto_hash(input: &[u8]) -> (r: [u8; 32])
    ensures
        r@ == ristretto_hash_of(input@),
        is_ristretto_encoding(r@),
{
    RistrettoPoint::hash_from_bytes::<Sha3_512>(input).compress().to_bytes()
}

/// Relies on curve25519-dalek's point-by-scalar multiplication, between
/// `decompress` and `compress`.
#[verifier::external_body]
fn ristretto_mul(p: &[u8; 32], s: &[u8; 32]) -> (r: [u8; 32])
    requires
        is_ristretto_encoding(p@),
        is_canonical_scalar(s@),
    ensures
        r@ == ristretto_mul_of(p@, s@),
        is_ristretto_encoding(r@),
{
    let point = CompressedRistretto(*p).decompress().unwrap();
    let scalar = Scalar::from_canonical_bytes(*s).unwrap();
    (point * scalar).compress().to_bytes()
}

/// Relies on curve25519-dalek's `RISTRETTO_BASEPOINT_TABLE`: the base point
/// times a scalar, from precomputed multiples.
#[verifier::external_body]
fn ristretto_base_mul(s: &[u8; 32]) -> (r: [u8; 32])
    requires
        is_canonical_scalar(s@),
    ensures
        r@ == ristretto_base_mul_of(s@),
        is_ristretto_encoding(r@),
{
    let scalar = Scalar::from_canonical_bytes(*s).unwrap();
    (RISTRETTO_BASEPOINT_TABLE * &scalar).compress().to_bytes()
}

/// Relies on curve25519-dalek's point addition, between `decompress` and
/// `compress`.
#[verifier::external_body]
fn ristretto_add(p: &[u8; 32], q: &[u8; 32]) -> (r: [u8; 32])
    requires
        is_ristretto_encoding(p@),
        is_ristretto_encoding(q@),
    ensures
        r@ == ristretto_add_of(p@, q@),
        is_ristretto_encoding(r@),
{
    let a = CompressedRistretto(*p).decompress().unwrap();
    let b = CompressedRistretto(*q).decompress().unwrap();
    (a + b).compress().to_bytes()
}

/// The point gamma of the secret scalar `sk` on `input`.
pub open spec fn vrf_gamma(sk: Seq<u8>, input: Seq<u8>) -> Seq<u8> {
    ristretto_mul_of(ristretto_hash_of(input), sk)
}

/// The VRF draw of `sk` on `input`: the SHA3-256 digest of gamma. It depends
/// on the key and the input alone.
pub open spec fn vrf_draw(sk: Seq<u8>, input: Seq<u8>) -> Seq<u8> {
    sha3_256_of(vrf_gamma(sk, input))
}

/// The challenge over g, h, pk, gamma, u and v.
pub open spec fn vrf_challenge(h: Seq<u8>, pk: Seq<u8>, gamma: Seq<u8>, u: Seq<u8>, v: Seq<u8>) -> Seq<u8> {
    sha3_256_of(BASEPOINT@ + h + pk + gamma + u + v)
}

/// The VRF check: the output is the digest of gamma, and the challenge
/// recomputed from u = pk*c + g*s and v = gamma*c + h*s is c.
pub open spec fn vrf_verifies(
    pk: Seq<u8>,
    input: Seq<u8>,
    output: Seq<u8>,
    gamma: Seq<u8>,
    c: Seq<u8>,
    s: Seq<u8>,
) -> bool {
    let cr = scalar_reduce_of(c);
    let h = ristretto_hash_of(input);
    let u = ristretto_add_of(ristretto_mul_of(pk, cr), ristretto_base_mul_of(s));
    let v = ristretto_add_of(ristretto_mul_of(gamma, cr), ristretto_mul_of(h, s));
    sha3_256_of(gamma) == output && vrf_challenge(h, pk, gamma, u, v) == c
}

/// The proof `proof` is the one made for `sk` on `input` with the nonce `k`:
/// gamma is the key's point on the input, c is the challenge over
/// h, pk, gamma, g*k and h*k, and s = k - c*sk.
pub open spec fn proof_made_with(sk: Seq<u8>, input: Seq<u8>, k: Seq<u8>, proof: Seq<u8>) -> bool {
    let h = ristretto_hash_of(input);
    let pk = ristretto_base_mul_of(sk);
    let gamma = vrf_gamma(sk, input);
    let c = vrf_challenge(h, pk, gamma, ristretto_base_mul_of(k), ristretto_mul_of(h, k));
    &&& is_canonical_scalar(k)
    &&& proof_parts(proof).0 == gamma
    &&& proof_parts(proof).1 == c
    &&& proof_parts(proof).2 == scalar_sub_of(k, scalar_mul_of(scalar_reduce_of(c), sk))
}

/// The three parts of a 96-byte proof: gamma, c, s.
pub open spec fn proof_parts(b: Seq<u8>) -> (Seq<u8>, Seq<u8>, Seq<u8>) {
    (b.subrange(0, 32), b.subrange(32, 64), b.subrange(64, 96))
}

/// The VRF check of an encoded proof: it decodes, and it checks.
pub open spec fn vrf_verifies_encoded(pk: Seq<u8>, input: Seq<u8>, output: Seq<u8>, proof: Seq<u8>) -> bool {
    let (gamma, c, s) = proof_parts(proof);
    is_ristretto_encoding(gamma) && is_canonical_scalar(s) && vrf_verifies(pk, input, output, gamma, c, s)
}

/// A VRF secret key: a canonical scalar.
#[derive(Clone, Copy, Debug, PartialEq, Eq)]
pub struct VrfSk {
    s: [u8; 32],
}

/// A VRF public key: the encoded base point times the secret scalar.
#[derive(Clone, Copy, Debug, PartialEq, Eq)]
pub struct VrfPk {
    p: [u8; 32],
}

/// A VRF proof: the point gamma, the challenge c and the response s.
#[derive(Clone, Copy, Debug, PartialEq, Eq)]
pub struct VrfProof {
    gamma: [u8; 32],
    c: [u8; 32],
    s: [u8; 32],
}

/// Why VRF bytes could not be read.
#[derive(Clone, Copy, Debug, PartialEq, Eq, Structural)]
pub enum VrfError {
    /// The bytes are no canonical scalar.
    NonCanonicalScalar,
    /// The bytes are no canonical point.
    NonCanonicalPoint,
}

fn copy32(b: &[u8; 96], start: usize) -> (r: [u8; 32])
    requires
        start <= 64,
    ensures
        r@ == b@.subrange(start as int, start + 32),
{
    let mut r = [0u8; 32];
    let mut i: usize = 0;
    while i < 32
        invariant
            start <= 64,
            i <= 32,
            forall|j: int| 0 <= j < i ==> r@[j] == b@[start + j],
        decreases 32 - i,
    {
        r[i] = b[start + i];
        i = i + 1;
    }
    assert(r@ =~= b@.subrange(start as int, start + 32));
    r
}

impl VrfSk {
    /// The scalar's bytes.
    pub closed spec fn bytes(self) -> Seq<u8> {
        self.s@
    }

    /// The key holds a canonical scalar.
    pub open spec fn wf(self) -> bool {
        is_canonical_scalar(self.bytes())
    }

    /// A fresh random secret key.
    pub fn random() -> (r: Self)
        ensures
            r.wf(),
    {
        VrfSk { s: random_scalar() }
    }

    /// The canonical encoding of the scalar.
    pub fn to_bytes(&self) -> (r: [u8; 32])
        ensures
            r@ == self.bytes(),
    {
        self.s
    }

    /// Reads a secret key; the bytes must encode a canonical scalar.
    pub fn from_bytes(b: &[u8; 32]) -> (r: Result<VrfSk, VrfError>)
        ensures
            r is Ok <==> is_canonical_scalar(b@),
            r is Ok ==> r->Ok_0.bytes() == b@ && r->Ok_0.wf(),
            r is Err ==> r == Err::<VrfSk, VrfError>(VrfError::NonCanonicalScalar),
    {
        if is_canonical(b) {
            Ok(VrfSk { s: *b })
        } else {
            Err(VrfError::NonCanonicalScalar)
        }
    }
}

impl VrfPk {
    /// The point's encoding.
    pub closed spec fn bytes(self) -> Seq<u8> {
        self.p@
    }

    /// The key holds a canonical point encoding.
    pub open spec fn wf(self) -> bool {
        is_ristretto_encoding(self.bytes())
    }

    /// The public key of a secret key: the base point times its scalar.
    pub fn new(sk: &VrfSk) -> (r: VrfPk)
        requires
            sk.wf(),
        ensures
            r.wf(),
            r.bytes() == ristretto_base_mul_of(sk.bytes()),
    {
        VrfPk { p: ristretto_base_mul(&sk.s) }
    }

    /// The canonical encoding of the point.
    pub fn to_bytes(&self) -> (r: [u8; 32])
        ensures
            r@ == self.bytes(),
    {
        self.p
    }

    /// Reads a public key; the bytes must encode a canonical point.
    pub fn from_bytes(b: &[u8; 32]) -> (r: Result<VrfPk, VrfError>)
        ensures
            r is Ok <==> is_ristretto_encoding(b@),
            r is Ok ==> r->Ok_0.bytes() == b@ && r->Ok_0.wf(),
            r is Err ==> r == Err::<VrfPk, VrfError>(VrfError::NonCanonicalPoint),
    {
        if decompresses(b) {
            Ok(VrfPk { p: *b })
        } else {
            Err(VrfError::NonCanonicalPoint)
        }
    }
}

impl VrfProof {
    /// gamma, c and s, one after the other.
    pub closed spec fn bytes(self) -> Seq<u8> {
        self.gamma@ + self.c@ + self.s@
    }

    /// gamma is a canonical point and s a canonical scalar.
    pub open spec fn wf(self) -> bool {
        is_ristretto_encoding(proof_parts(self.bytes()).0) && is_canonical_scalar(proof_parts(self.bytes()).2)
    }

    /// The 96 bytes gamma, c, s.
    pub fn to_bytes(&self) -> (r: [u8; 96])
        ensures
            r@ == self.bytes(),
    {
        let mut ret = [0u8; 96];
        let mut i: usize = 0;
        while i < 32
            invariant
                i <= 32,
                forall|j: int| 0 <= j < i ==> ret@[j] == self.gamma@[j],
                forall|j: int| 0 <= j < i ==> ret@[32 + j] == self.c@[j],
                forall|j: int| 0 <= j < i ==> ret@[64 + j] == self.s@[j],
            decreases 32 - i,
        {
            ret[i] = self.gamma[i];
            ret[32 + i] = self.c[i];
            ret[64 + i] = self.s[i];
            i = i + 1;
        }
        assert(ret@ =~= self.bytes());
        ret
    }

    /// Reads a proof: gamma must be a canonical point and s a canonical
    /// scalar. Decoding the bytes of a proof gives that proof back.
    pub fn from_bytes(input: &[u8; 96]) -> (r: Result<VrfProof, VrfError>)
        ensures
            r is Ok <==> is_ristretto_encoding(proof_parts(input@).0) && is_canonical_scalar(
                proof_parts(input@).2,
            ),
            r is Ok ==> r->Ok_0.bytes() == input@ && r->Ok_0.wf(),
    {
        let gamma = copy32(input, 0);
        let c = copy32(input, 32);
        let s = copy32(input, 64);
        if !decompresses(&gamma) {
            return Err(VrfError::NonCanonicalPoint);
        }
        if !is_canonical(&s) {
            return Err(VrfError::NonCanonicalScalar);
        }
        let p = VrfProof { gamma, c, s };
        assert(p.bytes() =~= input@);
        assert(proof_parts(p.bytes()).0 =~= gamma@);
        assert(proof_parts(p.bytes()).2 =~= s@);
        Ok(p)
    }
}

/// A proof is fixed by its bytes, so decoding the bytes of a well-formed
/// proof gives that proof back.
pub proof fn law_proof_round_trip(p: VrfProof, q: VrfProof)
    requires
        p.bytes() == q.bytes(),
    ensures
        p == q,
{
    assert(p.gamma@ =~= p.bytes().subrange(0, 32));
    assert(q.gamma@ =~= q.bytes().subrange(0, 32));
    assert(p.c@ =~= p.bytes().subrange(32, 64));
    assert(q.c@ =~= q.bytes().subrange(32, 64));
    assert(p.s@ =~= p.bytes().subrange(64, 96));
    assert(q.s@ =~= q.bytes().subrange(64, 96));
    assert(p.gamma =~= q.gamma);
    assert(p.c =~= q.c);
    assert(p.s =~= q.s);
}

/// The challenge bytes over h, pk, gamma, u and v.
fn challenge_of(h: &[u8; 32], pk: &[u8; 32], gamma: &[u8; 32], u: &[u8; 32], v: &[u8; 32]) -> (r: [u8; 32])
    ensures
        r@ == vrf_challenge(h@, pk@, gamma@, u@, v@),
{
    let mut buf: Vec<u8> = Vec::new();
    buf.extend_from_slice(&BASEPOINT);
    buf.extend_from_slice(h);
    buf.extend_from_slice(pk);
    buf.extend_from_slice(gamma);
    buf.extend_from_slice(u);
    buf.extend_from_slice(v);
    assert(buf@ =~= BASEPOINT@ + h@ + pk@ + gamma@ + u@ + v@);
    sha3_256(buf.as_slice())
}

/// A fresh key pair.
pub fn keygen() -> (r: (VrfSk, VrfPk))
    ensures
        r.0.wf(),
        r.1.wf(),
        r.1.bytes() == ristretto_base_mul_of(r.0.bytes()),
{
    let sk = VrfSk::random();
    let pk = VrfPk::new(&sk);
    (sk, pk)
}

/// The VRF draw for `input` under `privkey`, without a proof.
pub fn output(input: &[u8], privkey: &VrfSk) -> (r: [u8; 32])
    requires
        privkey.wf(),
    ensures
        r@ == vrf_draw(privkey.bytes(), input@),
{
    let h = ristretto_hash(input);
    let gamma = ristretto_mul(&h, &privkey.s);
    sha3_256(&gamma)
}

/// The VRF draw for `input` under `privkey`, and a proof that binds it to
/// the key; only the proof's nonce is random.
pub fn prove(input: &[u8], privkey: &VrfSk) -> (r: ([u8; 32], VrfProof))
    requires
        privkey.wf(),
    ensures
        r.0@ == vrf_draw(privkey.bytes(), input@),
        proof_parts(r.1.bytes()).0 == vrf_gamma(privkey.bytes(), input@),
        r.1.wf(),
        exists|k: Seq<u8>| #[trigger] proof_made_with(privkey.bytes(), input@, k, r.1.bytes()),
{
    let h = ristretto_hash(input);
    let gamma = ristretto_mul(&h, &privkey.s);
    let k = random_scalar();
    let pk = ristretto_base_mul(&privkey.s);
    let gk = ristretto_base_mul(&k);
    let hk = ristretto_mul(&h, &k);
    let c = challenge_of(&h, &pk, &gamma, &gk, &hk);
    let c_scalar = scalar_reduce(&c);
    let s = scalar_sub(&k, &scalar_mul(&c_scalar, &privkey.s));
    let beta = sha3_256(&gamma);
    let vrf_proof = VrfProof { gamma, c, s };
    assert(proof_parts(vrf_proof.bytes()).0 =~= gamma@);
    assert(proof_parts(vrf_proof.bytes()).1 =~= c@);
    assert(proof_parts(vrf_proof.bytes()).2 =~= s@);
    assert(proof_made_with(privkey.bytes(), input@, k@, vrf_proof.bytes()));
    (beta, vrf_proof)
}

/// Whether `proof` shows that `output` is the VRF draw for `input` under `pubkey`.
pub fn verify(input: &[u8], pubkey: &VrfPk, output: &[u8; 32], proof: &VrfProof) -> (r: bool)
    requires
        pubkey.wf(),
        proof.wf(),
    ensures
        r == vrf_verifies(
            pubkey.bytes(),
            input@,
            output@,
            proof_parts(proof.bytes()).0,
            proof_parts(proof.bytes()).1,
            proof_parts(proof.bytes()).2,
        ),
{
    assert(proof_parts(proof.bytes()).0 =~= proof.gamma@);
    assert(proof_parts(proof.bytes()).1 =~= proof.c@);
    assert(proof_parts(proof.bytes()).2 =~= proof.s@);
    let c_scalar = scalar_reduce(&proof.c);
    let h = ristretto_hash(input);
    let u = ristretto_add(&ristretto_mul(&pubkey.p, &c_scalar), &ristretto_base_mul(&proof.s));
    let v = ristretto_add(&ristretto_mul(&proof.gamma, &c_scalar), &ristretto_mul(&h, &proof.s));
    let local_c = challenge_of(&h, &pubkey.p, &proof.gamma, &u, &v);
    let beta = sha3_256(&proof.gamma);
    crate::hash::bytes32_eq(&beta, output) && crate::hash::bytes32_eq(&local_c, &proof.c)
}

} // verus!
