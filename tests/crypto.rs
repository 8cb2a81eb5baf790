use cyberfly_mobile::crypto::{
    extract_name_from_db, generate_db_name, generate_keypair, secure_hex_decode, sign_message,
    validate_timestamp, validate_timestamp_at, verify_db_name, verify_db_name_secure,
    verify_signature, verify_signature_bytes, CryptoError, DbNameError, TimestampError,
};

#[test]
fn test_sign_and_verify() {
    let (secret, public_key_hex) = generate_keypair();
    let message = b"test message";
    let signature = sign_message(&secret, message);
    let is_valid = verify_signature(&public_key_hex, message, &signature).unwrap();
    assert!(is_valid, "Signature should be valid");
}

#[test]
fn test_invalid_signature() {
    let (secret, public_key_hex) = generate_keypair();
    let message = b"test message";
    let wrong_message = b"wrong message";
    let signature = sign_message(&secret, message);
    let is_valid = verify_signature(&public_key_hex, wrong_message, &signature).unwrap();
    assert!(!is_valid, "Signature should be invalid for wrong message");
}

#[test]
fn test_invalid_key_length() {
    let message = b"test message";
    let invalid_key = vec![0u8; 16];
    let signature = vec![0u8; 64];
    let result = verify_signature_bytes(&invalid_key, message, &signature);
    assert!(result.is_err());
    assert!(result.unwrap_err().message().contains("32 bytes"));
}

#[test]
fn test_invalid_signature_length() {
    let (_, public_key_hex) = generate_keypair();
    let public_key_bytes = hex::decode(&public_key_hex).unwrap();
    let message = b"test message";
    let invalid_sig = vec![0u8; 32];
    let result = verify_signature_bytes(&public_key_bytes, message, &invalid_sig);
    assert!(result.is_err());
    assert!(result.unwrap_err().message().contains("64 bytes"));
}

#[test]
fn test_secure_hex_decode() {
    let result = secure_hex_decode("abcd1234").unwrap();
    assert_eq!(result, vec![0xab, 0xcd, 0x12, 0x34]);
    let result = secure_hex_decode("").unwrap();
    assert!(result.is_empty());
    let result = secure_hex_decode("xyz");
    assert!(result.is_err());
}

#[test]
fn test_db_name_generation_and_verification() {
    let (_, public_key) = generate_keypair();
    let name = "testdb";
    let db_name = generate_db_name(name, &public_key);
    assert!(db_name.starts_with("testdb-"));
    assert!(db_name.ends_with(&public_key));
    assert!(verify_db_name(&db_name, &public_key).is_ok());
    assert!(verify_db_name_secure(&db_name, &public_key).is_ok());
    let (_, other_key) = generate_keypair();
    assert!(verify_db_name(&db_name, &other_key).is_err());
}

#[test]
fn test_extract_name_from_db() {
    let db_name = "myapp-abc123";
    assert_eq!(extract_name_from_db(db_name), Some("myapp".to_string()));
    let simple = "simple";
    assert_eq!(extract_name_from_db(simple), None);
}

#[test]
fn hex_decode_upper_case_and_odd_length() {
    assert_eq!(secure_hex_decode("ABff").unwrap(), vec![0xab, 0xff]);
    assert_eq!(secure_hex_decode("abc"), Err(CryptoError::MalformedHex));
    assert_eq!(secure_hex_decode("zz"), Err(CryptoError::MalformedHex));
    assert_eq!(CryptoError::MalformedHex.message(), "Malformed hexadecimal encoding");
    assert!(CryptoError::BadSignatureLength.message().contains("64 bytes"));
}

#[test]
fn signature_errors_by_kind() {
    let (_, pk) = generate_keypair();
    assert_eq!(verify_signature("xyz", b"m", "00"), Err(CryptoError::MalformedHex));
    assert_eq!(verify_signature(&pk, b"m", "0"), Err(CryptoError::MalformedHex));
    assert_eq!(verify_signature("abcd", b"m", &"00".repeat(64)), Err(CryptoError::BadPublicKeyLength));
    assert_eq!(verify_signature(&pk, b"m", "abcd"), Err(CryptoError::BadSignatureLength));
    let big = vec![0u8; 1024 * 1024 + 1];
    assert_eq!(verify_signature(&pk, &big, &"00".repeat(64)), Err(CryptoError::MessageTooLarge));
    // about half of all y-coordinates lie on no curve point
    let undecodable = (2u8..40).any(|y| {
        let key = format!("{:02x}{}", y, "00".repeat(31));
        verify_signature(&key, b"m", &"00".repeat(64)) == Err(CryptoError::InvalidPublicKey)
    });
    assert!(undecodable);
}

#[test]
fn signature_is_lower_case_hex_of_64_bytes() {
    let (secret, pk) = generate_keypair();
    let sig = sign_message(&secret, b"hello");
    assert_eq!(sig.len(), 128);
    assert!(sig.chars().all(|c| c.is_ascii_digit() || ('a'..='f').contains(&c)));
    assert_eq!(pk.len(), 64);
    assert_ne!(sig, "hello");
}

#[test]
fn db_name_secure_errors() {
    let (_, pk) = generate_keypair();
    let (_, other) = generate_keypair();
    let db = generate_db_name("notes", &pk);
    assert_eq!(db, format!("notes-{}", pk));
    assert_eq!(verify_db_name_secure(&db, &other), Err(DbNameError::Mismatch));
    assert_eq!(verify_db_name_secure("", &pk), Err(DbNameError::Empty));
    assert_eq!(verify_db_name_secure(&db, "abcd"), Err(DbNameError::BadKeyLength));
    assert_eq!(verify_db_name_secure(&db, &"zz".repeat(32)), Err(DbNameError::MalformedHex));
    assert_eq!(verify_db_name_secure(&format!("-{}", pk), &pk), Err(DbNameError::InvalidName));
    assert_eq!(verify_db_name_secure(&format!("a\u{7}b-{}", pk), &pk), Err(DbNameError::InvalidName));
    assert_eq!(verify_db_name_secure(&format!("my-app-{}", pk), &pk), Ok(()));
}

#[test]
fn timestamp_window() {
    let now = 1_700_000_000_000i64;
    assert_eq!(validate_timestamp_at(now, None, now), Ok(()));
    assert_eq!(validate_timestamp_at(now - 300_000, None, now), Ok(()));
    assert_eq!(validate_timestamp_at(now - 300_001, None, now), Err(TimestampError::TooOld));
    assert_eq!(validate_timestamp_at(now + 300_001, None, now), Err(TimestampError::TooFuture));
    assert_eq!(validate_timestamp_at(now + 3_600_000, Some(3600), now), Ok(()));
    assert_eq!(validate_timestamp(0, Some(3600)), Err(TimestampError::TooOld));
}
