use snowpack::sign::SignatureValidationErr;
use snowpack::{
    AuthDetails, AuthHeader, BadAuth, MalformedAuthHeader, NodeId, SignatureKeypair,
    SignedAuthHeader, TransportPublicKey,
};

// -----------------------------------------------------------------------
// Fixtures
// -----------------------------------------------------------------------

fn cluster_keypair() -> SignatureKeypair {
    SignatureKeypair::generate().unwrap()
}

fn transport_public_key() -> TransportPublicKey {
    TransportPublicKey::from([1u8; 32])
}

fn auth_header(node_id: u32) -> AuthHeader {
    AuthHeader::new(node_id, None, &transport_public_key())
}

fn auth_header_with_role(node_id: u32, role: &[u8]) -> AuthHeader {
    AuthHeader::new(node_id, Some(role), &transport_public_key())
}

fn signed(node_id: u32) -> (SignatureKeypair, SignedAuthHeader) {
    let kp = cluster_keypair();
    let header = auth_header(node_id);
    let signed = header.sign(&kp.private);
    (kp, signed)
}

// -----------------------------------------------------------------------
// AuthHeader::validate_public_key
// -----------------------------------------------------------------------

#[test]
fn validate_public_key_accepts_matching_key() {
    let key = transport_public_key();
    let header = auth_header(1);
    assert!(header.validate_public_key(&key).is_ok());
}

#[test]
fn validate_public_key_rejects_wrong_key() {
    let header = auth_header(1);
    let wrong = TransportPublicKey::from([2u8; 32]);

    let err = header.validate_public_key(&wrong).unwrap_err();
    assert!(
        matches!(err, BadAuth::PublicKeyMismatch { .. }),
        "expected PublicKeyMismatch, got: {err:?}"
    );
}

#[test]
fn validate_public_key_mismatch_contains_both_keys() {
    let header = auth_header(1);
    let wrong = TransportPublicKey::from([2u8; 32]);

    let BadAuth::PublicKeyMismatch { expected, actual } =
        header.validate_public_key(&wrong).unwrap_err()
    else {
        panic!("expected PublicKeyMismatch variant");
    };

    assert_eq!(expected, transport_public_key());
    assert_eq!(actual, wrong);
}

// -----------------------------------------------------------------------
// AuthHeader::node_id
// -----------------------------------------------------------------------

#[test]
fn node_id_returns_correct_value() {
    let header = auth_header(7u32);
    let details: AuthDetails = header.into();
    assert_eq!(details.node_id, NodeId::from(7u32));
}


#[test]
fn role_returns_correct_value_when_empty() {
    let header = auth_header(7u32);
    let details: AuthDetails = header.into();
    assert_eq!(details.role, None);
}

#[test]
fn role_returns_correct_value_when_set() {
    let header = auth_header_with_role(7u32, &[9u8]);
    let details: AuthDetails = header.into();
    assert_eq!(details.role, Some(vec![9u8]));
}


// -----------------------------------------------------------------------
// AuthHeader::sign + SignedAuthHeader::verify — happy path
// -----------------------------------------------------------------------

#[test]
fn sign_and_verify_round_trip() {
    let (kp, signed) = signed(1);
    let recovered = signed.verify(&kp.public).expect("verify failed");
    
    assert!(
        recovered
            .validate_public_key(&transport_public_key())
            .is_ok()
    );

    let details: AuthDetails = recovered.into();
    assert_eq!(details.node_id, NodeId::from(1u32));
}

#[test]
fn verify_raw_round_trip() {
    let (kp, signed) = signed(2);
    let raw = signed.expose().to_vec();

    let recovered = SignedAuthHeader::verify_raw(&kp.public, &raw).expect("verify_raw failed");

    let details: AuthDetails = recovered.into();
    assert_eq!(details.node_id, NodeId::from(2u32));
}

// -----------------------------------------------------------------------
// SignedAuthHeader::verify — rejection cases
// -----------------------------------------------------------------------

#[test]
fn verify_rejects_wrong_cluster_key() {
    let (_, signed) = signed(1);
    let other_kp = cluster_keypair();

    let err = signed.verify(&other_kp.public).unwrap_err();
    assert!(
        matches!(
            err,
            BadAuth::Signature(SignatureValidationErr::BadSignature)
        ),
        "wrong key must produce BadSignature, got: {err:?}"
    );
}

#[test]
fn verify_raw_rejects_empty_input() {
    let (kp, _) = signed(1);
    let err = SignedAuthHeader::verify_raw(&kp.public, &[]).unwrap_err();
    assert!(
        matches!(
            err,
            BadAuth::Signature(SignatureValidationErr::MalformedRecord)
        ),
        "empty input must produce MalformedRecord, got: {err:?}"
    );
}

#[test]
fn verify_raw_rejects_payload_bit_flip() {
    let (kp, signed) = signed(1);
    let mut raw = signed.expose().to_vec();
    raw[0] ^= 0xFF;

    let err = SignedAuthHeader::verify_raw(&kp.public, &raw).unwrap_err();
    assert!(
        matches!(
            err,
            BadAuth::Signature(SignatureValidationErr::BadSignature)
        ),
        "tampered payload must produce BadSignature, got: {err:?}"
    );
}

#[test]
fn verify_raw_rejects_signature_bit_flip() {
    let (kp, signed) = signed(1);
    let mut raw = signed.expose().to_vec();
    *raw.last_mut().unwrap() ^= 0xFF;

    let err = SignedAuthHeader::verify_raw(&kp.public, &raw).unwrap_err();
    assert!(
        matches!(
            err,
            BadAuth::Signature(SignatureValidationErr::BadSignature)
        ),
        "tampered signature must produce BadSignature, got: {err:?}"
    );
}

// -----------------------------------------------------------------------
// SignedAuthHeader::expose
// -----------------------------------------------------------------------

#[test]
fn expose_returns_non_empty_bytes() {
    let (_, signed) = signed(1);
    assert!(!signed.expose().is_empty());
}

#[test]
fn expose_bytes_are_stable_across_calls() {
    let (_, signed) = signed(1);
    assert_eq!(signed.expose(), signed.expose());
}

// -----------------------------------------------------------------------
// SignedAuthHeader::Debug redaction
// -----------------------------------------------------------------------

#[test]
fn debug_redacts_credential_bytes() {
    let (_, signed) = signed(1);
    let debug = format!("{signed:?}");

    assert!(
        debug.contains("[redacted]"),
        "debug must not expose credential bytes, got: {debug}"
    );
    assert!(
        !debug.contains(&hex::encode(signed.expose())),
        "hex of credential bytes must not appear in debug output"
    );
}

// -----------------------------------------------------------------------
// SignedAuthHeader serde round-trips
// -----------------------------------------------------------------------

#[test]
fn signed_auth_header_json_round_trip() {
    let (kp, signed) = signed(1);
    let original_bytes = signed.expose().to_vec();

    let json =
        serde_json::to_string(&signed.expose_to_human_string()).expect("serialize failed");

    // Human-readable form must be a lowercase hex string.
    let hex_str: String = serde_json::from_str(&json).unwrap();
    assert!(
        hex_str.chars().all(|c| c.is_ascii_hexdigit()),
        "JSON form must be hex, got: {hex_str}"
    );

    let restored =
        SignedAuthHeader::try_from(hex_str.as_str()).expect("deserialize failed");
    assert_eq!(restored.expose(), original_bytes);

    // Restored credential must still verify correctly.
    restored
        .verify(&kp.public)
        .expect("restored credential failed to verify");
}

// -----------------------------------------------------------------------
// TryFrom<&str>
// -----------------------------------------------------------------------

#[test]
fn try_from_str_round_trip() {
    let (kp, signed) = signed(1);
    let hex = hex::encode(signed.expose());

    let restored =
        SignedAuthHeader::try_from(hex.as_str()).expect("TryFrom<&str> failed on valid hex");

    restored
        .verify(&kp.public)
        .expect("restored credential failed to verify");
}

#[test]
fn try_from_str_rejects_bad_hex() {
    let err = SignedAuthHeader::try_from("not-valid-hex").err().unwrap();
    assert_eq!(err, MalformedAuthHeader);
}

#[test]
fn try_from_str_rejects_empty_string() {
    // Empty hex decodes to empty bytes — valid hex but will fail at verify
    // time, not construction time. Construction itself should succeed.
    let result = SignedAuthHeader::try_from("");
    assert!(
        result.is_ok(),
        "empty string is valid hex (decodes to empty vec)"
    );
}

// -----------------------------------------------------------------------
// Cross-node scenario: different node IDs in same cluster
// -----------------------------------------------------------------------

#[test]
fn different_node_ids_produce_distinct_credentials() {
    let kp = cluster_keypair();
    let key = transport_public_key();

    let header_a = AuthHeader::new(NodeId::from(1u32), None, &key);
    let header_b = AuthHeader::new(NodeId::from(2u32), None, &key);

    let signed_a = header_a.sign(&kp.private);
    let signed_b = header_b.sign(&kp.private);

    // Credentials must differ even with the same transport key.
    assert_ne!(signed_a.expose(), signed_b.expose());

    let auth_a: AuthDetails = signed_a.verify(&kp.public).unwrap().into();
    let auth_b: AuthDetails = signed_b.verify(&kp.public).unwrap().into();

    // Each verifies to the correct node id.
    assert_eq!(
        auth_a.node_id,
        NodeId::from(1u32)
    );
    assert_eq!(
        auth_b.node_id,
        NodeId::from(2u32)
    );
}

#[test]
fn check_node_id_rejects_wrong_peer() {
    let kp = cluster_keypair();
    let key = transport_public_key();

    let signed_a = AuthHeader::new(NodeId::from(1u32), None, &key)
        .sign(&kp.private);
    let details: AuthDetails = signed_a.verify(&kp.public).unwrap().into();

    assert_eq!(
        details.check_node_id(NodeId::from(2u32)),
        Err(BadAuth::NodeIdMismatch {
            expected: 2u32.into(),
            actual: 1u32.into(),
        })
    );
}

#[test]
fn check_node_id_accepts_correct_peer() {
    let kp = cluster_keypair();
    let key = transport_public_key();

    let signed_a = AuthHeader::new(NodeId::from(1u32),  None, &key)
        .sign(&kp.private);
    let details: AuthDetails = signed_a.verify(&kp.public).unwrap().into();

    assert!(details.check_node_id(NodeId::from(1u32)).is_ok());
}

// -----------------------------------------------------------------------
// The header on the wire
// -----------------------------------------------------------------------

#[test]
fn header_is_written_as_tagged_fields() {
    let header = auth_header_with_role(7, b"db");
    let mut expected = vec![1, 0, 0, 0, 3];
    expected.extend_from_slice(&[0, 1, 0, 0, 0, 4, 0, 0, 0, 7]);
    expected.extend_from_slice(&[0, 2, 0, 0, 0, 32]);
    expected.extend_from_slice(&[1u8; 32]);
    expected.extend_from_slice(&[0, 3, 0, 0, 0, 2, b'd', b'b']);
    assert_eq!(header.to_yatlv(), expected);

    let without_role = auth_header(7).to_yatlv();
    assert_eq!(without_role[..5], [1, 0, 0, 0, 2]);
    assert_eq!(without_role.len(), 5 + 10 + 38);
}

#[test]
fn header_reads_back_with_its_role() {
    for role in [None, Some(&b""[..]), Some(&b"voter"[..])] {
        let header = AuthHeader::new(9u64, role, &transport_public_key());
        let restored = AuthHeader::from_yatlv(&header.to_yatlv()).unwrap();
        assert_eq!(restored, header);
    }
}

#[test]
fn unknown_tags_are_ignored_and_first_fields_win() {
    let mut data = vec![1, 0, 0, 0, 4];
    data.extend_from_slice(&[0, 9, 0, 0, 0, 1, 0xEE]);
    data.extend_from_slice(&[0, 1, 0, 0, 0, 1, 5]);
    data.extend_from_slice(&[0, 2, 0, 0, 0, 32]);
    data.extend_from_slice(&[1u8; 32]);
    data.extend_from_slice(&[0, 1, 0, 0, 0, 1, 6]);
    let header = AuthHeader::from_yatlv(&data).unwrap();
    let details: AuthDetails = header.into();
    assert_eq!(details.node_id.as_bytes(), &[5]);
}

#[test]
fn malformed_headers_are_refused() {
    let good = auth_header(1).to_yatlv();
    let mut trailing = good.clone();
    trailing.push(0);
    let mut wrong_format = good.clone();
    wrong_format[0] = 2;
    let missing_key = vec![1, 0, 0, 0, 1, 0, 1, 0, 0, 0, 0];
    let mut missing_id = vec![1, 0, 0, 0, 1, 0, 2, 0, 0, 0, 32];
    missing_id.extend_from_slice(&[1u8; 32]);
    let short_key = vec![1, 0, 0, 0, 2, 0, 1, 0, 0, 0, 0, 0, 2, 0, 0, 0, 1, 7];
    let mut long_id = vec![1, 0, 0, 0, 2, 0, 1, 0, 0, 2, 1];
    long_id.extend_from_slice(&[0u8; 513]);
    long_id.extend_from_slice(&[0, 2, 0, 0, 0, 32]);
    long_id.extend_from_slice(&[1u8; 32]);
    for data in [
        Vec::new(),
        good[..good.len() - 1].to_vec(),
        trailing,
        wrong_format,
        missing_key,
        missing_id,
        short_key,
        long_id,
    ] {
        assert_eq!(AuthHeader::from_yatlv(&data), Err(MalformedAuthHeader));
    }
}

#[test]
fn signed_payload_that_is_no_header_is_malformed() {
    let kp = cluster_keypair();
    let record = kp.private.sign_raw(b"not a header");
    assert_eq!(
        SignedAuthHeader::verify_raw(&kp.public, &record),
        Err(BadAuth::Signature(SignatureValidationErr::MalformedRecord))
    );
}

#[test]
fn signed_header_is_the_header_and_its_signature() {
    let kp = cluster_keypair();
    let header = auth_header(3);
    let signed = header.sign(&kp.private);
    assert_eq!(signed.expose(), kp.private.sign_raw(&header.to_yatlv()).as_slice());
    assert_eq!(signed.clone().expose(), signed.expose());
    assert_eq!(signed.expose_to_human_string(), hex::encode(signed.expose()));
}

#[test]
fn node_ids_can_be_given_as_integers() {
    let details: AuthDetails = auth_header(2).into();
    assert!(details.check_node_id(2u32).is_ok());
    assert_eq!(
        details.check_node_id(2u64),
        Err(BadAuth::NodeIdMismatch { expected: 2u64.into(), actual: 2u32.into() })
    );
}
