use cyberfly_mobile::crypto::generate_keypair;
use cyberfly_mobile::envelope::{encode_signed_discovery, sign_discovery_data};

#[test]
fn envelope_layout_is_length_prefixed() {
    let sig = vec![7u8; 200];
    let bytes = encode_signed_discovery(&[1, 2], &[], &sig);
    assert_eq!(&bytes[..6], &[2, 1, 2, 0, 0xC8, 0x01]);
    assert_eq!(bytes.len(), 6 + 200);
    assert!(bytes[6..].iter().all(|b| *b == 7));
}

#[test]
fn signed_envelope_carries_key_payload_and_signature() {
    let (secret, pk) = generate_keypair();
    let data = b"payload".to_vec();
    let bytes = sign_discovery_data(&secret, &data);
    assert_eq!(bytes.len(), 1 + 32 + 1 + 7 + 1 + 64);
    assert_eq!(bytes[0], 32);
    assert_eq!(hex::encode(&bytes[1..33]), pk);
    assert_eq!(bytes[33], 7);
    assert_eq!(&bytes[34..41], b"payload");
    assert_eq!(bytes[41], 64);
    let sig_hex = hex::encode(&bytes[42..]);
    assert_eq!(cyberfly_mobile::crypto::verify_signature(&pk, &data, &sig_hex), Ok(true));
}
