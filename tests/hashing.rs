use blockchain::block::Block;
use blockchain::hash::{blake, hash};
use blockchain::merkle::calculate_merkle_root;
use blockchain::public_key::{PublicKeyAlgorithm, PublicKeyError};
use blockchain::utxo::{CoinbaseTransaction, Input, Output, Transaction};
use blockchain::address::P2PKHAddress;
use blockchain::pow::leading_zeros_vec_u8;

fn concat(a: &[u8; 32], b: &[u8; 32]) -> Vec<u8> {
    let mut v = a.to_vec();
    v.extend_from_slice(b);
    v
}

#[test]
fn hash_is_blake3() {
    assert_eq!(hash(b"abc"), *blake3::hash(b"abc").as_bytes());
    assert_eq!(blake(b""), *blake3::hash(b"").as_bytes());
    assert_ne!(hash(b"abc").to_vec(), b"abc".to_vec());
}

#[test]
fn merkle_roots() {
    let a = [1u8; 32];
    let b = [2u8; 32];
    let c = [3u8; 32];
    assert_eq!(calculate_merkle_root(vec![]), [0u8; 32]);
    assert_eq!(calculate_merkle_root(vec![a]), a);
    let ab = hash(&concat(&a, &b));
    assert_eq!(calculate_merkle_root(vec![a, b]), ab);
    let cc = hash(&c);
    assert_eq!(calculate_merkle_root(vec![a, b, c]), hash(&concat(&ab, &cc)));
}

#[test]
fn output_and_input_hash_preimages() {
    let out = Output { amount: 42, address: P2PKHAddress { address: [0xab; 32] } };
    let expected = format!("{}.{}", hex::encode([0xab; 32]), 42);
    assert_eq!(out.calculate_hash(), hash(expected.as_bytes()));

    let input = Input { prev_txid: [0x01; 32], output_index: 7, signature: vec![9, 9], public_key: vec![0xcd, 0xef] };
    let expected = format!("{}.{}.{}", hex::encode([0x01; 32]), 7, "cdef");
    assert_eq!(input.calculate_hash(), hash(expected.as_bytes()));
}

#[test]
fn transaction_id_preimage() {
    let out = Output { amount: 5, address: P2PKHAddress::null() };
    let tx = Transaction::create_transaction(vec![], vec![out], 0);
    let outputs_root = calculate_merkle_root(vec![out.calculate_hash()]);
    let expected = format!("{}.{}", hex::encode([0u8; 32]), hex::encode(outputs_root));
    assert_eq!(tx.id, hash(expected.as_bytes()));
    assert_eq!(tx.calculate_hash(), tx.id);
}

#[test]
fn coinbase_and_block_hashes() {
    let addr = P2PKHAddress { address: [4u8; 32] };
    let cb = CoinbaseTransaction::create(addr, 77);
    let expected = format!("{}.{}.{}", hex::encode([4u8; 32]), 77, 0);
    assert_eq!(cb.id, hash(expected.as_bytes()));
    let g = Block::genesis();
    assert_eq!(g.header.height, 0);
    assert!(g.transactions.is_empty());
    assert_eq!(g.header.merkle_root, [0u8; 32]);
    let expected = format!(
        "{}.{}.{}.{}.{}",
        hex::encode(g.header.previous_hash),
        hex::encode([0u8; 32]),
        0,
        0,
        hex::encode([0u8; 32])
    );
    assert_eq!(g.header.hash, hash(expected.as_bytes()));
    assert_eq!(CoinbaseTransaction::genesis().output.amount, 10);
}

#[test]
fn signatures() {
    let (pk, sk) = PublicKeyAlgorithm::gen_keypair();
    let sig = PublicKeyAlgorithm::sign(&sk, b"message").unwrap();
    assert_eq!(PublicKeyAlgorithm::verify(&pk, b"message", &sig), Ok(()));
    assert_eq!(PublicKeyAlgorithm::verify(&pk, b"massage", &sig), Err(PublicKeyError::SignatureMismatch));
    assert_eq!(PublicKeyAlgorithm::sign(&[0u8; 32], b"message"), Err(PublicKeyError::InvalidSecretKey));
    assert_eq!(PublicKeyAlgorithm::sign(&sk, b"message").unwrap(), sig);
}

#[test]
fn input_signature_is_on_transaction_id() {
    let (addr, sk, pk) = P2PKHAddress::random();
    let input = Input { prev_txid: [1u8; 32], output_index: 0, signature: vec![], public_key: pk };
    let mut tx = Transaction::create_transaction(vec![input], vec![Output { amount: 1, address: addr }], 0);
    assert!(!tx.verify_input_signatures());
    tx.sign_inputs(&sk).unwrap();
    assert!(tx.verify_input_signatures());
    assert!(tx.input_list[0].verify_signature(&tx.id));
    assert!(!tx.input_list[0].verify_signature(&[0u8; 32]));
}

#[test]
fn leading_zeros() {
    assert_eq!(leading_zeros_vec_u8(&[0, 0, 1]), 23);
    assert_eq!(leading_zeros_vec_u8(&[0x80]), 0);
    assert_eq!(leading_zeros_vec_u8(&[0, 0]), 16);
    assert_eq!(leading_zeros_vec_u8(&[]), 0);
}

#[test]
fn key_pairs_match() {
    let (pk, sk) = PublicKeyAlgorithm::gen_keypair();
    let signing = p256::ecdsa::SigningKey::from_slice(&sk).unwrap();
    assert_eq!(p256::ecdsa::VerifyingKey::from(&signing).to_sec1_bytes().to_vec(), pk);
    let (addr, sk, pk) = P2PKHAddress::random();
    let signing = p256::ecdsa::SigningKey::from_slice(&sk).unwrap();
    assert_eq!(p256::ecdsa::VerifyingKey::from(&signing).to_sec1_bytes().to_vec(), pk);
    assert_eq!(addr.address, hash(&pk));
}
