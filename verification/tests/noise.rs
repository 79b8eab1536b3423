use snowpack::{TransportKeypair, TransportPrivateKey, TransportPublicKey};


// -----------------------------------------------------------------------
// TransportKeypair
// -----------------------------------------------------------------------

#[test]
fn noise_generate_produces_distinct_keypairs() {
    let a = TransportKeypair::generate().unwrap();
    let b = TransportKeypair::generate().unwrap();
    assert_ne!(a.public.0, b.public.0);
}

#[test]
fn generate_produces_non_zero_keys() {
    let kp = TransportKeypair::generate().unwrap();
    assert_ne!(kp.public.0, [0u8; 32]);
    assert_ne!(*kp.private.expose(), [0u8; 32]);
}

// -----------------------------------------------------------------------
// TransportPublicKey
// -----------------------------------------------------------------------

#[test]
fn public_key_from_array_round_trips_via_as_bytes() {
    let bytes = [0x42u8; 32];
    let key = TransportPublicKey::from(bytes);
    assert_eq!(key.as_bytes(), &bytes);
}

#[test]
fn public_key_display_is_lowercase_hex() {
    let key = TransportPublicKey::from([0xABu8; 32]);
    let s = key.to_string();
    assert_eq!(s.len(), 64);
    assert_eq!(s, "ab".repeat(32));
}

#[test]
fn public_key_debug_includes_hex() {
    let key = TransportPublicKey::from([0x01u8; 32]);
    let debug = format!("{key:?}");
    assert!(debug.contains("TransportPublicKey("));
    assert!(debug.contains("0101"));
}

#[test]
fn public_key_try_from_str_round_trip() {
    let key = TransportPublicKey::from([0x12u8; 32]);
    let restored = TransportPublicKey::try_from(key.to_string().as_str()).unwrap();
    assert_eq!(restored, key);
}

#[test]
fn public_key_try_from_str_rejects_bad_hex() {
    assert!(TransportPublicKey::try_from("not-hex").is_err());
}

#[test]
fn public_key_try_from_str_rejects_wrong_length() {
    assert!(TransportPublicKey::try_from("ab".repeat(31).as_str()).is_err());
}

#[test]
fn public_key_json_round_trip() {
    let key = TransportPublicKey::from([0x99u8; 32]);
    let json = serde_json::to_string(&key.to_string()).unwrap();
    let hex_str: String = serde_json::from_str(&json).unwrap();
    assert_eq!(hex_str, "99".repeat(32));
    let restored = TransportPublicKey::try_from(hex_str.as_str()).unwrap();
    assert_eq!(restored, key);
}

// -----------------------------------------------------------------------
// TransportPrivateKey
// -----------------------------------------------------------------------

#[test]
fn private_key_expose_returns_original_bytes() {
    let bytes = [0x77u8; 32];
    let key = TransportPrivateKey::from(bytes);
    assert_eq!(key.expose(), &bytes);
}

#[test]
fn private_key_expose_to_human_string_is_lowercase_hex() {
    let key = TransportPrivateKey::from([0xFFu8; 32]);
    assert_eq!(key.expose_to_human_string(), "ff".repeat(32));
}

#[test]
fn private_key_debug_redacts_key_material() {
    let key = TransportPrivateKey::from([0x55u8; 32]);
    let debug = format!("{key:?}");
    assert!(debug.contains("[redacted]"));
    assert!(!debug.contains("55"));
}

#[test]
fn private_key_try_from_str_round_trip() {
    let bytes = [0xCCu8; 32];
    let key = TransportPrivateKey::from(bytes);
    let restored = TransportPrivateKey::try_from(key.expose_to_human_string().as_str()).unwrap();
    assert_eq!(restored.expose(), &bytes);
}

#[test]
fn private_key_try_from_str_rejects_bad_hex() {
    assert!(TransportPrivateKey::try_from("gg").is_err());
}

#[test]
fn private_key_try_from_str_rejects_wrong_length() {
    assert!(TransportPrivateKey::try_from("aa".repeat(31).as_str()).is_err());
}

#[test]
fn private_key_json_round_trip() {
    let bytes = [0x11u8; 32];
    let key = TransportPrivateKey::from(bytes);
    let json = serde_json::to_string(&key.expose_to_human_string()).unwrap();
    let hex_str: String = serde_json::from_str(&json).unwrap();
    let restored = TransportPrivateKey::try_from(hex_str.as_str()).unwrap();
    assert_eq!(restored.expose(), &bytes);
}

#[test]
fn generated_keypair_of_any_lengths_is_checked() {
    let made = TransportKeypair::from_generated(Ok((vec![1; 32], vec![2; 32]))).ok().unwrap();
    assert_eq!(made.public.as_bytes(), &[1u8; 32]);
    assert_eq!(made.private.expose(), &[2u8; 32]);

    let short_public = TransportKeypair::from_generated(Ok((vec![1; 31], vec![2; 31])));
    assert_eq!(short_public.err().unwrap().0, "unexpected public key length");

    let long_private = TransportKeypair::from_generated(Ok((vec![1; 32], vec![2; 33])));
    assert_eq!(long_private.err().unwrap().0, "unexpected private key length");

    let failed = TransportKeypair::from_generated(Err(snow::Error::Dh));
    assert_eq!(
        failed.err().unwrap().0,
        format!("failed to generate X25519 keypair: {}", snow::Error::Dh)
    );
}

#[test]
fn keys_are_read_from_upper_case_hex() {
    let key = TransportPublicKey::try_from("AB".repeat(32).as_str()).unwrap();
    assert_eq!(key.as_bytes(), &[0xABu8; 32]);
}

#[test]
fn default_public_key_is_zero() {
    assert_eq!(TransportPublicKey::default().as_bytes(), &[0u8; 32]);
}

#[test]
fn cloned_private_key_exposes_the_same_bytes() {
    let key = TransportPrivateKey::from([0x31u8; 32]);
    assert_eq!(key.clone().expose(), key.expose());
}
