use vstd::prelude::*;
use vstd::string::{StrSliceExecFns, StringExecFns};

use crate::hash::{blake3_of, hash};
use crate::public_key::{ecdsa_public_of, PublicKeyAlgorithm};

use base58::{FromBase58, FromBase58Error, ToBase58};

verus! {

/// What base58 encodes a byte string to.
pub uninterp spec fn base58_encode_of(b: Seq<u8>) -> Seq<char>;

/// What base58 decodes a string to, or `None` where the string is no base58.
pub uninterp spec fn base58_decode_of(s: Seq<char>) -> Option<Seq<u8>>;

#[verifier::external_type_specification]
#[verifier::external_body]
pub struct ExFromBase58Error(FromBase58Error);

/// Relies on base58's `ToBase58` for byte slices: the base58 text of the bytes.
#[verifier::external_body]
fn to_base58(b: &[u8]) -> (r: String)
    ensures
        r@ == base58_encode_of(b@),
{
    b.to_base58()
}

/// Relies on base58's `FromBase58` for `str`: the bytes that the text encodes,
/// or an error where it is no base58. It panics where the text has more leading
/// '1's than its 132-byte buffer has room for; a text of at most 100
/// characters stays clear of that.
#[verifier::external_body]
fn from_base58(s: &str) -> (r: Result<Vec<u8>, FromBase58Error>)
    requires
        s@.len() <= MAX_ADDRESS_TEXT,
    ensures
        match r {
            Ok(v) => base58_decode_of(s@) == Some(v@),
            Err(_) => base58_decode_of(s@) is None,
        },
{
    s.from_base58()
}

/// The longest base58 text that is decoded; a longer one cannot encode 32
/// bytes, each base58 digit carrying more than five bits.
pub const MAX_ADDRESS_TEXT: usize = 100;

/// The text that starts the human form of an address.
pub open spec fn address_prefix() -> Seq<char> {
    seq!['T', 'N', 'S', ':']
}

/// The address that a public key pays to: the digest of the key.
pub open spec fn address_of(pk: Seq<u8>) -> Seq<u8> {
    blake3_of(pk)
}

/// A pay-to-public-key-hash address: the 32-byte digest of a public key.
#[derive(Clone, Copy, Debug, Hash, PartialEq, Eq)]
pub struct P2PKHAddress {
    pub address: [u8; 32],
}

/// Why a text is no address.
#[derive(Clone, Copy, Debug, PartialEq, Eq, Structural)]
pub enum AddressError {
    /// The text is no base58.
    InvalidBase58,
    /// The text decodes to a number of bytes other than 32.
    InvalidLength,
}

/// The address that the human form `s` stands for, if any.
pub open spec fn parse_address(s: Seq<char>) -> Result<Seq<u8>, AddressError> {
    let body = if s.len() >= 4 && s.subrange(0, 4) == address_prefix() {
        s.subrange(4, s.len() as int)
    } else {
        s
    };
    if body.len() > MAX_ADDRESS_TEXT {
        Err(AddressError::InvalidLength)
    } else {
        match base58_decode_of(body) {
            None => Err(AddressError::InvalidBase58),
            Some(b) => if b.len() == 32 {
                Ok(b)
            } else {
                Err(AddressError::InvalidLength)
            },
        }
    }
}

impl P2PKHAddress {
    /// A fresh key pair and the address of its public key:
    /// (address, secret key, public key).
    pub fn random() -> (r: (Self, Vec<u8>, Vec<u8>))
        ensures
            r.0.address@ == address_of(r.2@),
            r.2@ == ecdsa_public_of(r.1@),
    {
        let (public_key, private_key) = PublicKeyAlgorithm::gen_keypair();
        let addr = P2PKHAddress::from(public_key.as_slice());
        (addr, private_key, public_key)
    }

    /// The all-zero address, which no key pays to by convention.
    pub fn null() -> (r: Self)
        ensures
            r.address@ == Seq::new(32, |i: int| 0u8),
    {
        let r = P2PKHAddress { address: [0u8; 32] };
        assert(r.address@ =~= Seq::new(32, |i: int| 0u8));
        r
    }

    /// Reads the human form `TNS:<base58>`; the prefix may be left out.
    pub fn from_string(string: String) -> (r: Result<Self, AddressError>)
        ensures
            match (r, parse_address(string@)) {
                (Ok(a), Ok(b)) => a.address@ == b,
                (Err(e), Err(f)) => e == f,
                _ => false,
            },
    {
        let n = string.unicode_len();
        let mut has_prefix = n >= 4;
        if has_prefix {
            proof {
                reveal_strlit("TNS");
            }
            has_prefix = string.get_char(0) == 'T' && string.get_char(1) == 'N'
                && string.get_char(2) == 'S' && string.get_char(3) == ':';
            assert(has_prefix == (string@.subrange(0, 4) == address_prefix())) by {
                if string@.subrange(0, 4) == address_prefix() {
                    assert(string@[0] == string@.subrange(0, 4)[0]);
                    assert(string@[1] == string@.subrange(0, 4)[1]);
                    assert(string@[2] == string@.subrange(0, 4)[2]);
                    assert(string@[3] == string@.subrange(0, 4)[3]);
                }
                if has_prefix {
                    assert(string@.subrange(0, 4) =~= address_prefix());
                }
            }
        }
        let body_len = if has_prefix {
            n - 4
        } else {
            n
        };
        if body_len > MAX_ADDRESS_TEXT {
            return Err(AddressError::InvalidLength);
        }
        let decoded = if has_prefix {
            from_base58(string.as_str().substring_char(4, n))
        } else {
            from_base58(string.as_str())
        };
        match decoded {
            Err(_) => Err(AddressError::InvalidBase58),
            Ok(bytes) => {
                if bytes.len() != 32 {
                    return Err(AddressError::InvalidLength);
                }
                let mut result = [0u8; 32];
                let mut i: usize = 0;
                while i < 32
                    invariant
                        bytes.len() == 32,
                        i <= 32,
                        forall|j: int| 0 <= j < i ==> result@[j] == bytes@[j],
                    decreases 32 - i,
                {
                    result[i] = bytes[i];
                    i = i + 1;
                }
                assert(result@ =~= bytes@);
                Ok(P2PKHAddress { address: result })
            },
        }
    }

    /// The address of a public key.
    pub fn from(pk: &[u8]) -> (r: Self)
        ensures
            r.address@ == address_of(pk@),
    {
        P2PKHAddress { address: hash(pk) }
    }

    /// The human form: `TNS:` and the base58 text of the address bytes.
    pub fn to_string(&self) -> (r: String)
        ensures
            r@ == address_prefix() + base58_encode_of(self.address@),
    {
        let body = to_base58(&self.address);
        proof {
            reveal_strlit("TNS:");
        }
        let r = String::from_str("TNS:").concat(body.as_str());
        assert(r@ =~= address_prefix() + base58_encode_of(self.address@));
        r
    }
}

} // verus!
