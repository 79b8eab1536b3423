use snowpack::sign::{SignatureValidationErr, SigningErr, SIGNATURE_LEN};
use snowpack::{
    MalformedKeyError, SignatureKeypair, SignatureSigningKey, SignatureVerificationKey,
};

type Record = (u32, String);

fn record(id: u32, label: &str) -> Record {
    (id, label.to_string())
}

fn sign<R: serde::Serialize>(
    key: &SignatureSigningKey,
    record: &R,
) -> Result<Vec<u8>, SigningErr> {
    key.sign(postcard::to_allocvec(record))
}

fn verify(
    key: &SignatureVerificationKey,
    signed: &[u8],
) -> Result<Record, SignatureValidationErr> {
    key.verify(signed, |payload| postcard::from_bytes(payload))
}

fn keypair() -> SignatureKeypair {
    SignatureKeypair::generate().expect("keypair generation failed")
}

// -----------------------------------------------------------------------
// SignatureKeypair::generate
// -----------------------------------------------------------------------

#[test]
fn sign_generate_produces_distinct_keypairs() {
    let a = keypair();
    let b = keypair();
    assert_ne!(
        a.public.as_bytes(),
        b.public.as_bytes(),
        "freshly generated keypairs must have distinct public keys"
    );
}

#[test]
fn generated_public_key_matches_private() {
    // expose() returns the 32-byte secret seed. Derive the verifying key
    // from it and confirm it matches the stored public key.
    let kp = keypair();
    let derived = ed25519_dalek::SigningKey::from_bytes(kp.private.expose());
    assert_eq!(
        derived.verifying_key().as_bytes(),
        kp.public.as_bytes(),
        "public key derived from secret seed must match stored verification key"
    );
}

// -----------------------------------------------------------------------
// sign / verify — happy path
// -----------------------------------------------------------------------

#[test]
fn sign_verify_round_trip() {
    let kp = keypair();
    let original = record(1, "hello");

    let signed = sign(&kp.private, &original).expect("sign failed");
    let recovered = verify(&kp.public, &signed).expect("verify failed");

    assert_eq!(original, recovered);
}

#[test]
fn sign_verify_unit_record() {
    // Payload is zero bytes; signed blob should be exactly 64 bytes.
    let kp = keypair();
    let signed = sign(&kp.private, &()).expect("sign failed");
    assert_eq!(
        signed.len(),
        SIGNATURE_LEN,
        "signed unit record must be exactly 64 bytes"
    );

    let _: () = kp
        .public
        .verify(&signed, |payload| postcard::from_bytes(payload))
        .expect("verify of unit record failed");
}

#[test]
fn signed_blob_length_is_payload_plus_signature() {
    let kp = keypair();
    let record = record(99, "len");

    let payload_only = postcard::to_allocvec(&record).unwrap();
    let signed = sign(&kp.private, &record).expect("sign failed");

    assert_eq!(signed.len(), payload_only.len() + SIGNATURE_LEN);
}

// -----------------------------------------------------------------------
// verify — rejection cases
// -----------------------------------------------------------------------

#[test]
fn verify_rejects_wrong_key() {
    let signer = keypair();
    let other = keypair();

    let signed = sign(&signer.private, &record(2, "x")).unwrap();
    let result = verify(&other.public, &signed);

    assert!(
        matches!(result, Err(SignatureValidationErr::BadSignature)),
        "wrong key must return BadSignature, got: {result:?}"
    );
}

#[test]
fn verify_rejects_empty_input() {
    let kp = keypair();
    let result = verify(&kp.public, &[]);
    assert!(matches!(
        result,
        Err(SignatureValidationErr::MalformedRecord)
    ));
}

#[test]
fn verify_rejects_input_shorter_than_signature() {
    let kp = keypair();
    let short = vec![0u8; SIGNATURE_LEN - 1];
    let result = verify(&kp.public, &short);
    assert!(matches!(
        result,
        Err(SignatureValidationErr::MalformedRecord)
    ));
}

#[test]
fn verify_rejects_payload_bit_flip() {
    let kp = keypair();
    let record = record(3, "flip");
    let mut signed = sign(&kp.private, &record).unwrap();

    // Corrupt the first byte of the payload (not the signature trailer).
    signed[0] ^= 0xFF;

    let result = verify(&kp.public, &signed);
    assert!(
        matches!(result, Err(SignatureValidationErr::BadSignature)),
        "tampered payload must return BadSignature"
    );
}

#[test]
fn verify_rejects_signature_bit_flip() {
    let kp = keypair();
    let record = record(4, "flipsig");
    let mut signed = sign(&kp.private, &record).unwrap();

    // Corrupt the last byte of the signature trailer.
    *signed.last_mut().unwrap() ^= 0xFF;

    let result = verify(&kp.public, &signed);
    assert!(matches!(result, Err(SignatureValidationErr::BadSignature)));
}

#[test]
fn verify_rejects_type_mismatch() {
    // A valid signature over a () must not deserialize as Record.
    let kp = keypair();
    let signed = sign(&kp.private, &()).unwrap();
    let result = verify(&kp.public, &signed);
    assert!(
        matches!(
            result,
            Err(SignatureValidationErr::RecordDeserialization(_))
        ),
        "signature-valid but type-mismatched payload must return RecordDeserialization"
    );
}

// -----------------------------------------------------------------------
// SignatureVerificationKey — serde
// -----------------------------------------------------------------------

#[test]
fn verification_key_json_round_trip() {
    let kp = keypair();
    let json = serde_json::to_string(&kp.public.to_string()).unwrap();

    // Human-readable form must be a 64-char lowercase hex string.
    let hex_str: String = serde_json::from_str(&json).unwrap();
    assert_eq!(hex_str.len(), 64);
    assert!(hex_str.chars().all(|c| c.is_ascii_hexdigit()));

    let restored = SignatureVerificationKey::try_from(hex_str.as_str()).unwrap();
    assert_eq!(kp.public, restored);
}

#[test]
fn verification_key_postcard_round_trip() {
    let kp = keypair();
    let bytes = postcard::to_allocvec(kp.public.as_bytes()).unwrap();
    let restored =
        SignatureVerificationKey::try_from(postcard::from_bytes::<[u8; 32]>(&bytes).unwrap())
            .unwrap();
    assert_eq!(kp.public, restored);
}

#[test]
fn verification_key_from_str_round_trip() {
    let kp = keypair();
    let hex = kp.public.to_string();

    let restored = SignatureVerificationKey::try_from(hex.as_str())
        .expect("TryFrom<&str> failed on valid hex");
    assert_eq!(kp.public, restored);
}

#[test]
fn verification_key_from_str_rejects_bad_hex() {
    assert!(SignatureVerificationKey::try_from("not-hex").is_err());
}

#[test]
fn verification_key_from_str_rejects_wrong_length() {
    // 31 bytes → 62 hex chars: valid hex but wrong key length.
    let short = "aa".repeat(31);
    assert!(SignatureVerificationKey::try_from(short.as_str()).is_err());
}

// -----------------------------------------------------------------------
// SignatureSigningKey — serde
// -----------------------------------------------------------------------

#[test]
fn signing_key_json_round_trip() {
    let kp = keypair();
    let json = serde_json::to_string(&kp.private.expose_to_human_string()).unwrap();

    // Human-readable form is 64-char hex (32-byte secret only).
    let hex_str: String = serde_json::from_str(&json).unwrap();
    assert_eq!(hex_str.len(), 64);
    assert!(hex_str.chars().all(|c| c.is_ascii_hexdigit()));

    // Can't compare SignatureSigningKey directly (no PartialEq), so verify
    // the restored key produces a blob the original public key accepts.
    let restored = SignatureSigningKey::try_from(hex_str.as_str()).ok().unwrap();
    let record = record(5, "restoredkey");
    let signed = sign(&restored, &record).unwrap();
    let recovered = verify(&kp.public, &signed).unwrap();
    assert_eq!(record, recovered);
}

#[test]
fn signing_key_postcard_round_trip() {
    let kp = keypair();
    let bytes = postcard::to_allocvec(kp.private.expose()).unwrap();

    let restored = SignatureSigningKey::from(postcard::from_bytes::<[u8; 32]>(&bytes).unwrap());
    let record = record(6, "binarykey");
    let signed = sign(&restored, &record).unwrap();
    let recovered = verify(&kp.public, &signed).unwrap();
    assert_eq!(record, recovered);
}

#[test]
fn signing_key_expose_to_human_string_round_trip() {
    let kp = keypair();
    let hex = kp.private.expose_to_human_string();
    // 32-byte secret → 64-char hex string.
    assert_eq!(hex.len(), 64);

    let restored =
        SignatureSigningKey::try_from(hex.as_str()).expect("TryFrom<&str> failed on valid hex");

    let record = record(7, "expose");
    let signed = sign(&restored, &record).unwrap();
    let _ = verify(&kp.public, &signed).unwrap();
}

#[test]
fn signing_key_debug_redacts_key_material() {
    let kp = keypair();
    let debug = format!("{:?}", kp.private);
    assert!(
        debug.contains("[redacted]"),
        "debug output must not expose key bytes, got: {debug}"
    );
    // Confirm the actual secret bytes don't appear in the output.
    let key_hex = kp.private.expose_to_human_string();
    assert!(!debug.contains(&key_hex));
}

// -----------------------------------------------------------------------
// Cross-struct compatibility (module goal 3)
// -----------------------------------------------------------------------

#[test]
fn compatible_structs_can_exchange_records() {
    // Sender and receiver have separately defined but layout-compatible
    // types. postcard is not self-describing, so field order must match.
    let kp = keypair();
    let sent: (u32, &str) = (42, "compat");
    let signed = kp.private.sign(postcard::to_allocvec(&sent)).unwrap();

    let received: (u32, String) =
        kp.public.verify(&signed, |payload| postcard::from_bytes(payload)).unwrap();
    assert_eq!(received, (42, "compat".to_string()));
}

// -----------------------------------------------------------------------
// Edges
// -----------------------------------------------------------------------

#[test]
fn known_key_and_signature() {
    // The first test vector of RFC 8032, section 7.1: an empty message.
    let secret = "9d61b19deffd5a60ba844af492ec2cc44449c5697b326919703bac031cae7f60";
    let private = SignatureSigningKey::try_from(secret).ok().unwrap();
    let pair = SignatureKeypair::from_secret(*private.expose()).unwrap();
    assert_eq!(
        pair.public.to_string(),
        "d75a980182b10ab7d54bfed3c964073a0ee172f3daa62325af021a68f707511a"
    );
    let record = pair.private.sign_raw(&[]);
    assert_eq!(
        hex::encode(&record),
        "e5564300c360ac729086e2cc806e828a84877f1eb8e5d974d873e065224901555fb8821590a33bacc61e39701cf9b46bd25bf5f0595bbe24655141438e7a100b"
    );
    assert_eq!(pair.public.verify_payload(&record), Ok(&[][..]));
}

#[test]
fn failed_serialization_is_reported() {
    let kp = keypair();
    let result = kp.private.sign(Err(postcard::Error::SerializeBufferFull));
    assert!(matches!(
        result,
        Err(SigningErr::RecordSerialization(postcard::Error::SerializeBufferFull))
    ));
}

#[test]
fn payload_is_not_decoded_before_it_is_verified() {
    let kp = keypair();
    let result: Result<(), _> =
        kp.public.verify(&[0u8; 70], |_| panic!("an unverified payload was decoded"));
    assert_eq!(result, Err(SignatureValidationErr::BadSignature));
}

#[test]
fn signed_record_starts_with_its_payload() {
    let kp = keypair();
    let record = kp.private.sign_raw(b"payload");
    assert_eq!(&record[..7], b"payload");
    assert_eq!(record.len(), 7 + SIGNATURE_LEN);
    assert_eq!(kp.public.verify_payload(&record), Ok(&b"payload"[..]));
}

#[test]
fn bytes_off_the_curve_are_no_key() {
    // No point of the curve has 2 as its y coordinate.
    let mut bytes = [0u8; 32];
    bytes[0] = 2;
    assert_eq!(SignatureVerificationKey::try_from(bytes), Err(MalformedKeyError));
    assert_eq!(
        SignatureVerificationKey::try_from(hex::encode(bytes).as_str()),
        Err(MalformedKeyError)
    );
}

#[test]
fn default_verification_key_is_the_neutral_point() {
    let mut bytes = [0u8; 32];
    bytes[0] = 1;
    let key = SignatureVerificationKey::default();
    assert_eq!(key.as_bytes(), &bytes);
    assert_eq!(key.clone(), key);
    assert_eq!(
        format!("{key:?}"),
        format!("SignatureVerificationKey(01{})", "00".repeat(31))
    );
}
