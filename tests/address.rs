use blockchain::address::{AddressError, P2PKHAddress};
use blockchain::hash::hash;

#[test]
fn address_test() {
    let addr = P2PKHAddress::random().0;
    println!("{}", addr.to_string());
    let new_addr = P2PKHAddress::from_string(addr.to_string()).expect("Unable serialize key");
    assert_eq!(new_addr, addr);
    assert_eq!(new_addr.to_string(), addr.to_string());
}

#[test]
fn address_is_digest_of_public_key() {
    let (addr, _sk, pk) = P2PKHAddress::random();
    assert_eq!(addr.address, hash(&pk));
    assert_eq!(P2PKHAddress::from(&pk), addr);
}

#[test]
fn address_human_form_has_prefix_and_base58() {
    let addr = P2PKHAddress { address: [7u8; 32] };
    let s = addr.to_string();
    assert!(s.starts_with("TNS:"));
    assert_eq!(&s[4..], base58::ToBase58::to_base58(&[7u8; 32][..]));
}

#[test]
fn address_without_prefix_is_read() {
    let addr = P2PKHAddress { address: [9u8; 32] };
    let body = base58::ToBase58::to_base58(&[9u8; 32][..]);
    assert_eq!(P2PKHAddress::from_string(body).unwrap(), addr);
}

#[test]
fn address_errors() {
    assert_eq!(P2PKHAddress::from_string("TNS:0OIl".to_string()), Err(AddressError::InvalidBase58));
    let short = base58::ToBase58::to_base58(&[1u8; 16][..]);
    assert_eq!(P2PKHAddress::from_string(short), Err(AddressError::InvalidLength));
}

#[test]
fn null_address_is_zero() {
    assert_eq!(P2PKHAddress::null().address, [0u8; 32]);
}

#[test]
fn long_texts_are_refused_without_decoding() {
    let ones = "1".repeat(133);
    assert_eq!(P2PKHAddress::from_string(ones), Err(AddressError::InvalidLength));
    let prefixed = format!("TNS:{}", "1".repeat(101));
    assert_eq!(P2PKHAddress::from_string(prefixed), Err(AddressError::InvalidLength));
}
