use vstd::prelude::*;

use p256::ecdsa::signature::{Signer, Verifier};
use p256::ecdsa::{Signature, SigningKey, VerifyingKey};
use rand_core::OsRng;

verus! {

/// Whether `sig` is a valid P-256 ECDSA signature of `msg` under the SEC1
/// encoded public key `pk` (false where either cannot be decoded).
pub uninterp spec fn ecdsa_accepts(pk: Seq<u8>, msg: Seq<u8>, sig: Seq<u8>) -> bool;

/// The deterministic (RFC 6979) P-256 ECDSA signature of `msg` under the
/// secret scalar `sk`, or `None` where `sk` is no valid secret key.
pub uninterp spec fn ecdsa_signature_of(sk: Seq<u8>, msg: Seq<u8>) -> Option<Seq<u8>>;

/// The SEC1 encoding of the P-256 public key that belongs to the secret
/// scalar whose big-endian bytes are `sk`.
pub uninterp spec fn ecdsa_public_of(sk: Seq<u8>) -> Seq<u8>;

/// Relies on p256's `VerifyingKey::from_sec1_bytes`, `Signature::from_slice`
/// and `Verifier::verify`: decoding the key and the signature, then checking it.
#[verifier::external_body]
fn ecdsa_verify(pk: &[u8], msg: &[u8], sig: &[u8]) -> (r: bool)
    ensures
        r == ecdsa_accepts(pk@, msg@, sig@),
{
    match (VerifyingKey::from_sec1_bytes(pk), Signature::from_slice(sig)) {
        (Ok(vk), Ok(s)) => vk.verify(msg, &s).is_ok(),
        _ => false,
    }
}

/// Relies on p256's `SigningKey::from_slice` and its `Signer::sign`, which
/// signs with a deterministic nonce (RFC 6979), as 64 bytes `r || s`.
#[verifier::external_body]
fn ecdsa_sign(sk: &[u8], msg: &[u8]) -> (r: Option<Vec<u8>>)
    ensures
        match r {
            Some(s) => ecdsa_signature_of(sk@, msg@) == Some(s@),
            None => ecdsa_signature_of(sk@, msg@) is None,
        },
{
    match SigningKey::from_slice(sk) {
        Ok(key) => {
            let s: Signature = key.sign(msg);
            Some(s.to_bytes().to_vec())
        },
        Err(_) => None,
    }
}

/// Relies on p256's `SigningKey::random` with the operating system's random
/// source, `SigningKey::to_bytes`, and `VerifyingKey::from` with its SEC1
/// encoding: (public key, secret key), the first belonging to the second.
#[verifier::external_body]
fn ecdsa_keypair() -> (r: (Vec<u8>, Vec<u8>))
    ensures
        r.0@ == ecdsa_public_of(r.1@),
{
    let sk = SigningKey::random(&mut OsRng);
    let vk = VerifyingKey::from(&sk);
    (vk.to_sec1_bytes().to_vec(), sk.to_bytes().to_vec())
}

/// Why a signature operation failed.
#[derive(Clone, Copy, Debug, PartialEq, Eq, Structural)]
pub enum PublicKeyError {
    /// The secret key is no valid P-256 scalar.
    InvalidSecretKey,
    /// The signature does not check under the public key.
    SignatureMismatch,
}

/// The signature scheme of transaction inputs: P-256 ECDSA.
pub struct PublicKeyAlgorithm;

impl PublicKeyAlgorithm {
    /// A fresh key pair: (public key, secret key).
    pub fn gen_keypair() -> (r: (Vec<u8>, Vec<u8>))
        ensures
            r.0@ == ecdsa_public_of(r.1@),
    {
        ecdsa_keypair()
    }

    /// Signs `data` with the secret key `key`.
    pub fn sign(key: &[u8], data: &[u8]) -> (r: Result<Vec<u8>, PublicKeyError>)
        ensures
            match r {
                Ok(s) => ecdsa_signature_of(key@, data@) == Some(s@),
                Err(e) => e == PublicKeyError::InvalidSecretKey && ecdsa_signature_of(
                    key@,
                    data@,
                ) is None,
            },
    {
        match ecdsa_sign(key, data) {
            Some(s) => Ok(s),
            None => Err(PublicKeyError::InvalidSecretKey),
        }
    }

    /// Checks `signature` on `data` under the public key `key`.
    pub fn verify(key: &[u8], data: &[u8], signature: &[u8]) -> (r: Result<(), PublicKeyError>)
        ensures
            r is Ok <==> ecdsa_accepts(key@, data@, signature@),
            r is Err ==> r == Err::<(), _>(PublicKeyError::SignatureMismatch),
    {
        if ecdsa_verify(key, data, signature) {
            Ok(())
        } else {
            Err(PublicKeyError::SignatureMismatch)
        }
    }
}

} // verus!
