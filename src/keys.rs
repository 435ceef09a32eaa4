use vstd::prelude::*;

use crate::address::{address_of, P2PKHAddress};

verus! {

/// The node's keys: its wallet address with the secret and public keys that
/// own it, where forged rewards are paid.
#[derive(Debug)]
pub struct NodeKeyChain {
    /// (address, secret key, public key).
    pub wallet_key_pair: (P2PKHAddress, Vec<u8>, Vec<u8>),
}

impl NodeKeyChain {
    /// A key chain with a fresh wallet key pair.
    pub fn random() -> (r: Self)
        ensures
            r.wallet_key_pair.0.address@ == address_of(r.wallet_key_pair.2@),
            r.wallet_key_pair.2@ == crate::public_key::ecdsa_public_of(r.wallet_key_pair.1@),
    {
        NodeKeyChain { wallet_key_pair: P2PKHAddress::random() }
    }
}

} // verus!
