use blockchain::vrf::{keygen, prove, verify, VrfPk, VrfProof, VrfSk};

#[test]
fn correct_proof() {
    let (privkey, pubkey) = keygen();
    let input = vec![0xde, 0xad, 0xbe, 0xef];
    let (output, proof) = prove(&input, &privkey);

    assert!(verify(&input, &pubkey, &output, &proof));
}

#[test]
fn serialize() {
    let (privkey, pubkey) = keygen();
    let input = vec![0xde, 0xad, 0xbe, 0xef];
    let (_, proof) = prove(&input, &privkey);
    let sk_serialized = privkey.to_bytes();
    let pk_serialized = pubkey.to_bytes();
    let proof_serialized = proof.to_bytes();
    assert_eq!(VrfSk::from_bytes(&sk_serialized).unwrap(), privkey);
    assert_eq!(VrfPk::from_bytes(&pk_serialized).unwrap(), pubkey);
    assert_eq!(VrfProof::from_bytes(&proof_serialized).unwrap(), proof);
}

#[test]
fn forgery() {
    let (privkey, pubkey) = keygen();
    let (forge_privkey, forge_pubkey) = keygen();
    let input = vec![0xde, 0xad, 0xbe, 0xef];
    let input_forged = vec![0xde, 0xad, 0xbe, 0xed];
    let (output, proof) = prove(&input, &privkey);
    let (forge_output, forge_proof) = prove(&input, &forge_privkey);
    let mut output_forged = output;
    output_forged[0] = output_forged[0].wrapping_add(0x01);

    assert!(!verify(&input_forged, &pubkey, &output, &proof));
    assert!(!verify(&input, &pubkey, &output_forged, &proof));
    assert!(!verify(&input, &pubkey, &forge_output, &proof));
    assert!(!verify(&input, &pubkey, &output, &forge_proof));
    assert!(!verify(&input, &forge_pubkey, &output, &proof));
}

#[test]
fn vrf_output_is_deterministic_per_key_and_input() {
    let (privkey, _) = keygen();
    let input = vec![1, 2, 3];
    let (a, _) = prove(&input, &privkey);
    let (b, _) = prove(&input, &privkey);
    assert_eq!(a, b);
}

#[test]
fn non_canonical_keys_are_refused() {
    assert!(VrfSk::from_bytes(&[0xff; 32]).is_err());
    assert!(VrfPk::from_bytes(&[0xff; 32]).is_err());
    assert!(VrfProof::from_bytes(&[0xff; 96]).is_err());
}
