//! ED25519 keys, and records signed with them.
//!
//! A signed record is a payload followed by a 64-byte signature.

use vstd::prelude::*;
use vstd::std_specs::cmp::{PartialEqSpec, PartialEqSpecImpl};
use vstd::std_specs::convert::{FromSpecImpl, TryFromSpecImpl};

use ed25519_dalek::{Signature, Signer, SigningKey, VerifyingKey};
use rand_core::OsRng;

use crate::bytes::{bytes_equal, copy_of};
use crate::hex_text::{decode_key, encode, hex_bytes, hex_chars, is_hex};
use crate::secret::SecretKey;
use crate::show::{text_written, write_text};
use crate::{KeyGenError, MalformedKeyError};

verus! {

/// `postcard::Error`, carried and not looked into.
#[verifier::external_type_specification]
#[verifier::external_body]
pub struct ExPostcardError(postcard::Error);

/// The byte length of a signature.
pub const SIGNATURE_LEN: usize = 64;

/// An error verifying a signed record.
///
/// A record is only handed out when the signature is valid *and* the payload
/// deserializes; any other outcome is one of these variants.
#[derive(Debug, PartialEq, Eq)]
pub enum SignatureValidationErr {
    /// The input is shorter than a signature, so there is no payload to verify.
    MalformedRecord,
    /// The ED25519 signature did not verify against the provided key.
    BadSignature,
    /// The signature was valid but the payload could not be deserialized into the
    /// requested type.
    RecordDeserialization(postcard::Error),
}

/// An error signing a record: it could not be serialized.
#[derive(Debug)]
pub enum SigningErr {
    RecordSerialization(postcard::Error),
}

/// Whether `ed25519_dalek::VerifyingKey::from_bytes` takes the bytes: whether they are
/// the encoding of a curve point.
pub uninterp spec fn ed25519_is_point(bytes: Seq<u8>) -> bool;

/// The public key of a secret key, as `ed25519_dalek::SigningKey::verifying_key` gives it.
pub uninterp spec fn ed25519_public(secret: Seq<u8>) -> Seq<u8>;

/// The signature of a secret key on a payload, as `ed25519_dalek::SigningKey` makes it.
pub uninterp spec fn ed25519_signature(secret: Seq<u8>, payload: Seq<u8>) -> Seq<u8>;

/// Whether `ed25519_dalek::VerifyingKey::verify_strict` accepts a signature.
pub uninterp spec fn ed25519_verifies(
    public: Seq<u8>,
    payload: Seq<u8>,
    signature: Seq<u8>,
) -> bool;

/// The encoding of the neutral element of the curve.
pub open spec fn neutral_point() -> Seq<u8> {
    Seq::new(32, |i: int| if i == 0 { 1u8 } else { 0u8 })
}

/// `ed25519_dalek::VerifyingKey::from_bytes`: whether it accepts the bytes depends on
/// them alone.
#[verifier::external_body]
fn is_point(bytes: &[u8; 32]) -> (r: bool)
    ensures
        r == ed25519_is_point(bytes@),
{
    VerifyingKey::from_bytes(bytes).is_ok()
}

/// `ed25519_dalek::VerifyingKey::default`: the neutral element, which is a curve point.
#[verifier::external_body]
fn default_point() -> (bytes: [u8; 32])
    ensures
        bytes@ == neutral_point(),
        ed25519_is_point(bytes@),
{
    VerifyingKey::default().to_bytes()
}

/// `ed25519_dalek::SigningKey::verifying_key`: the public key depends on the secret key
/// alone, and is a curve point.
#[verifier::external_body]
fn public_of(secret: &[u8; 32]) -> (bytes: [u8; 32])
    ensures
        bytes@ == ed25519_public(secret@),
        ed25519_is_point(bytes@),
{
    SigningKey::from_bytes(secret).verifying_key().to_bytes()
}

/// `ed25519_dalek::SigningKey::generate`: a fresh secret key. Which one comes is chance,
/// so nothing is said of it; where the operating system has no randomness to give, the
/// call panics.
/// [`drawn_secret`] tells that a secret key came from this call.
#[verifier::external_body]
fn fresh_secret() -> (bytes: [u8; 32]) {
    SigningKey::generate(&mut OsRng).to_bytes()
}

/// Whether `ed25519_dalek::SigningKey::generate` drew a secret key.
pub closed spec fn drawn_secret(secret: Seq<u8>) -> bool {
    exists|drawn: [u8; 32]| #[trigger] call_ensures(fresh_secret, (), drawn) && drawn@ == secret
}

/// `ed25519_dalek::Signer::sign`: the signature depends on the secret key and the
/// payload alone. It is 64 bytes long, and strict verification with the public key of
/// the secret key accepts it, unless its first half is the neutral point, which strict
/// verification refuses.
#[verifier::external_body]
fn signature_of(secret: &[u8; 32], payload: &[u8]) -> (signature: Vec<u8>)
    ensures
        signature@ == ed25519_signature(secret@, payload@),
        signature@.len() == SIGNATURE_LEN,
        signature@.take(32) != neutral_point() ==> ed25519_verifies(
            ed25519_public(secret@),
            payload@,
            signature@,
        ),
{
    SigningKey::from_bytes(secret).sign(payload).to_bytes().to_vec()
}

/// `ed25519_dalek::VerifyingKey::verify_strict`: whether it accepts a signature depends
/// on the key, the payload and the signature alone.
#[verifier::external_body]
fn verify_strict(public: &[u8; 32], payload: &[u8], signature: &[u8]) -> (r: bool)
    requires
        ed25519_is_point(public@),
        signature@.len() == SIGNATURE_LEN,
    ensures
        r == ed25519_verifies(public@, payload@, signature@),
{
    match (VerifyingKey::from_bytes(public), Signature::from_slice(signature)) {
        (Ok(key), Ok(signature)) => key.verify_strict(payload, &signature).is_ok(),
        _ => false,
    }
}

/// The payload of a signed record, where the record is long enough and its signature
/// verifies.
pub open spec fn verified_payload(public: Seq<u8>, record: Seq<u8>) -> Option<Seq<u8>> {
    let split = record.len() - SIGNATURE_LEN;
    if split >= 0 && ed25519_verifies(public, record.take(split), record.skip(split)) {
        Some(record.take(split))
    } else {
        None
    }
}

/// The signed record of a payload.
pub open spec fn signed_record(secret: Seq<u8>, payload: Seq<u8>) -> Seq<u8> {
    payload + ed25519_signature(secret, payload)
}

/// What any key makes of a signed record: the record starts with its payload, and a key
/// that accepts the signature gives the payload back, while a key that does not refuses the
/// record.
pub proof fn lemma_signed_record(public: Seq<u8>, secret: Seq<u8>, payload: Seq<u8>)
    requires
        ed25519_signature(secret, payload).len() == SIGNATURE_LEN,
    ensures
        signed_record(secret, payload).len() == payload.len() + SIGNATURE_LEN,
        signed_record(secret, payload).take(payload.len() as int) == payload,
        signed_record(secret, payload).skip(payload.len() as int) == ed25519_signature(
            secret,
            payload,
        ),
        verified_payload(public, signed_record(secret, payload)) == (if ed25519_verifies(
            public,
            payload,
            ed25519_signature(secret, payload),
        ) {
            Some(payload)
        } else {
            None
        }),
{
    let record = signed_record(secret, payload);
    assert(record.take(payload.len() as int) =~= payload);
    assert(record.skip(payload.len() as int) =~= ed25519_signature(secret, payload));
}

/// What verifying a record and decoding its payload with `decode` answers: what `decode`
/// makes of the payload of a record whose signature is right, and otherwise what is wrong
/// with the record.
pub open spec fn verify_answers<'a, R, F: FnOnce(&'a [u8]) -> Result<R, postcard::Error>>(
    key: Seq<u8>,
    record: Seq<u8>,
    decode: F,
    r: Result<R, SignatureValidationErr>,
) -> bool {
    match verified_payload(key, record) {
        Some(payload) => exists|slice: &'a [u8], out: Result<R, postcard::Error>|
            {
                &&& slice@ == payload
                &&& #[trigger] call_ensures(decode, (slice,), out)
                &&& r == (match out {
                    Ok(value) => Ok::<R, SignatureValidationErr>(value),
                    Err(e) => Err(SignatureValidationErr::RecordDeserialization(e)),
                })
            },
        None => r == Err::<R, SignatureValidationErr>(
            if record.len() < SIGNATURE_LEN {
                SignatureValidationErr::MalformedRecord
            } else {
                SignatureValidationErr::BadSignature
            },
        ),
    }
}

/// A record that was signed verifies to the value that was signed, where the record
/// verifies and decoding undoes serializing: where `decode` makes `value` of the bytes
/// that `value` was serialized to. A record of [`SignatureSigningKey::sign`] verifies
/// wherever it is signed openly.
pub proof fn lemma_sign_then_verify<'a, R, F: FnOnce(&'a [u8]) -> Result<R, postcard::Error>>(
    secret: Seq<u8>,
    serialized: Seq<u8>,
    value: R,
    decode: F,
    r: Result<R, SignatureValidationErr>,
)
    requires
        forall|slice: &'a [u8], out: Result<R, postcard::Error>|
            slice@ == serialized && #[trigger] call_ensures(decode, (slice,), out) ==> out == Ok::<
                R,
                postcard::Error,
            >(value),
        verified_payload(ed25519_public(secret), signed_record(secret, serialized)) == Some(
            serialized,
        ),
        verify_answers(ed25519_public(secret), signed_record(secret, serialized), decode, r),
    ensures
        r == Ok::<R, SignatureValidationErr>(value),
{
}

/// The ED25519 public key used to verify signed records.
pub struct SignatureVerificationKey([u8; 32]);

impl View for SignatureVerificationKey {
    type V = Seq<u8>;

    closed spec fn view(&self) -> Seq<u8> {
        self.0@
    }
}

impl SignatureVerificationKey {
    #[verifier::type_invariant]
    spec fn is_on_curve(self) -> bool {
        ed25519_is_point(self.0@)
    }

    /// The raw key bytes. They always encode a curve point.
    pub fn as_bytes(&self) -> (bytes: &[u8; 32])
        ensures
            bytes@ == self@,
            ed25519_is_point(self@),
    {
        proof {
            use_type_invariant(self);
        }
        &self.0
    }

    /// The key as it is written in diagnostics: its type and its hex string.
    fn debug_text(&self) -> (text: String)
        ensures
            text@ == "SignatureVerificationKey("@ + hex_chars(self@) + ")"@,
    {
        let mut text: String = "SignatureVerificationKey(".to_owned();
        text.append(encode(self.0.as_slice()).as_str());
        text.append(")");
        text
    }

    /// Verify the signature of a record and return the raw payload bytes.
    pub fn verify_payload<'a>(&self, record: &'a [u8]) -> (r: Result<
        &'a [u8],
        SignatureValidationErr,
    >)
        ensures
            match r {
                Ok(payload) => verified_payload(self@, record@) == Some(payload@),
                Err(e) => {
                    &&& verified_payload(self@, record@) is None
                    &&& e == (if record@.len() < SIGNATURE_LEN {
                        SignatureValidationErr::MalformedRecord
                    } else {
                        SignatureValidationErr::BadSignature
                    })
                },
            },
    {
        if record.len() < SIGNATURE_LEN {
            return Err(SignatureValidationErr::MalformedRecord);
        }
        let payload_len: usize = record.len() - SIGNATURE_LEN;
        let (payload, signature) = record.split_at(payload_len);
        proof {
            use_type_invariant(self);
            assert(payload@ =~= record@.take(payload_len as int));
            assert(signature@ =~= record@.skip(payload_len as int));
        }
        if verify_strict(&self.0, payload, signature) {
            Ok(payload)
        } else {
            Err(SignatureValidationErr::BadSignature)
        }
    }

    /// Verify the signature of a record and decode its payload.
    ///
    /// `decode` sees the payload only if the signature is valid.
    pub fn verify<'a, R, F: FnOnce(&'a [u8]) -> Result<R, postcard::Error>>(
        &self,
        record: &'a [u8],
        decode: F,
    ) -> (r: Result<R, SignatureValidationErr>)
        requires
            forall|payload: &'a [u8]|
                verified_payload(self@, record@) == Some(payload@) ==> #[trigger] call_requires(
                    decode,
                    (payload,),
                ),
        ensures
            verify_answers(self@, record@, decode, r),
    {
        let payload = match self.verify_payload(record) {
            Ok(payload) => payload,
            Err(e) => return Err(e),
        };
        match decode(payload) {
            Ok(value) => Ok(value),
            Err(e) => Err(SignatureValidationErr::RecordDeserialization(e)),
        }
    }
}

impl core::fmt::Debug for SignatureVerificationKey {
    /// Writes the type and the hex string of the key.
    fn fmt(&self, f: &mut core::fmt::Formatter<'_>) -> (r: Result<(), core::fmt::Error>)
        ensures
            r is Ok ==> text_written(*final(f)) == text_written(*old(f)) + ("SignatureVerificationKey("@ + hex_chars(self@)
                + ")"@),
    {
        write_text(f, self.debug_text().as_str())
    }
}

impl core::fmt::Display for SignatureVerificationKey {
    /// Writes the key as a lowercase hex string.
    fn fmt(&self, f: &mut core::fmt::Formatter<'_>) -> (r: Result<(), core::fmt::Error>)
        ensures
            r is Ok ==> text_written(*final(f)) == text_written(*old(f)) + hex_chars(self@),
    {
        write_text(f, encode(self.0.as_slice()).as_str())
    }
}

impl Clone for SignatureVerificationKey {
    fn clone(&self) -> (key: Self)
        ensures
            key@ == self@,
    {
        proof {
            use_type_invariant(self);
        }
        SignatureVerificationKey(self.0)
    }
}

impl PartialEq for SignatureVerificationKey {
    fn eq(&self, other: &Self) -> (r: bool) {
        bytes_equal(self.0.as_slice(), other.0.as_slice())
    }
}

impl PartialEqSpecImpl for SignatureVerificationKey {
    open spec fn obeys_eq_spec() -> bool {
        true
    }

    open spec fn eq_spec(&self, other: &Self) -> bool {
        self@ == other@
    }
}

impl Eq for SignatureVerificationKey {

}

impl Default for SignatureVerificationKey {
    fn default() -> (key: Self)
        ensures
            key@ == neutral_point(),
    {
        SignatureVerificationKey(default_point())
    }
}

impl TryFrom<[u8; 32]> for SignatureVerificationKey {
    type Error = MalformedKeyError;

    /// The key with these bytes, where they encode a curve point.
    fn try_from(bytes: [u8; 32]) -> (r: Result<Self, MalformedKeyError>)
        ensures
            match r {
                Ok(key) => ed25519_is_point(bytes@) && key@ == bytes@,
                Err(_) => !ed25519_is_point(bytes@),
            },
    {
        if is_point(&bytes) {
            Ok(SignatureVerificationKey(bytes))
        } else {
            Err(MalformedKeyError)
        }
    }
}

impl TryFromSpecImpl<[u8; 32]> for SignatureVerificationKey {
    open spec fn obeys_try_from_spec() -> bool {
        false
    }

    open spec fn try_from_spec(bytes: [u8; 32]) -> Result<Self, MalformedKeyError> {
        arbitrary()
    }
}

impl TryFrom<&str> for SignatureVerificationKey {
    type Error = MalformedKeyError;

    /// Reads a key from 64 hexadecimal digits that spell a curve point.
    fn try_from(value: &str) -> (r: Result<Self, MalformedKeyError>)
        ensures
            match r {
                Ok(key) => {
                    &&& is_hex(value@) && value@.len() == 64
                    &&& ed25519_is_point(hex_bytes(value@))
                    &&& key@ == hex_bytes(value@)
                },
                Err(_) => !is_hex(value@) || value@.len() != 64 || !ed25519_is_point(
                    hex_bytes(value@),
                ),
            },
    {
        match decode_key(value) {
            Ok(bytes) => Self::try_from(bytes),
            Err(_) => Err(MalformedKeyError),
        }
    }
}

impl TryFromSpecImpl<&str> for SignatureVerificationKey {
    open spec fn obeys_try_from_spec() -> bool {
        false
    }

    open spec fn try_from_spec(value: &str) -> Result<Self, MalformedKeyError> {
        arbitrary()
    }
}

/// The ED25519 signing key used to produce signed records.
///
/// Only the 32-byte secret is stored; the public key is derived from it. The bytes are
/// wiped from memory on drop and never appear in diagnostics. There is no `Clone`: load
/// the key once and pass it by reference.
pub struct SignatureSigningKey(SecretKey);

impl View for SignatureSigningKey {
    type V = Seq<u8>;

    closed spec fn view(&self) -> Seq<u8> {
        self.0@
    }
}

impl SignatureSigningKey {
    /// Access the raw secret key bytes. Use sites should be minimal and obvious.
    pub fn expose(&self) -> (bytes: &[u8; 32])
        ensures
            bytes@ == self@,
    {
        self.0.expose()
    }

    /// Encode the key as a lowercase hex string for writing to config files.
    pub fn expose_to_human_string(&self) -> (text: String)
        ensures
            text@ == hex_chars(self@),
    {
        encode(self.0.expose().as_slice())
    }

    /// Sign a record that has been serialized, or report that it could not be.
    pub fn sign(&self, serialized: Result<Vec<u8>, postcard::Error>) -> (r: Result<
        Vec<u8>,
        SigningErr,
    >)
        ensures
            match serialized {
                Ok(payload) => {
                    &&& r is Ok
                    &&& r->Ok_0@ == signed_record(self@, payload@)
                    &&& r->Ok_0@.len() == payload@.len() + SIGNATURE_LEN
                    &&& signs_openly(self@, payload@) ==> verified_payload(
                        ed25519_public(self@),
                        r->Ok_0@,
                    ) == Some(payload@)
                },
                Err(e) => r == Err::<Vec<u8>, SigningErr>(SigningErr::RecordSerialization(e)),
            },
    {
        match serialized {
            Ok(payload) => Ok(self.sign_raw(payload.as_slice())),
            Err(e) => Err(SigningErr::RecordSerialization(e)),
        }
    }

    /// Sign a payload: the payload followed by its signature.
    ///
    /// The public key of this key verifies the record and gives the payload back.
    pub fn sign_raw(&self, payload: &[u8]) -> (record: Vec<u8>)
        ensures
            record@ == signed_record(self@, payload@),
            record@.len() == payload@.len() + SIGNATURE_LEN,
            ed25519_signature(self@, payload@).len() == SIGNATURE_LEN,
            signs_openly(self@, payload@) ==> verified_payload(ed25519_public(self@), record@)
                == Some(payload@),
    {
        let signature = signature_of(self.0.expose(), payload);
        let mut record: Vec<u8> = copy_of(payload);
        record.extend_from_slice(signature.as_slice());
        proof {
            assert(record@ =~= signed_record(self@, payload@));
            lemma_signed_record(ed25519_public(self@), self@, payload@);
        }
        record
    }
}

/// Whether the signature of a payload is one that strict verification can accept: its
/// first half is not the neutral point. A signature with a neutral first half is as
/// likely as guessing the secret key.
pub open spec fn signs_openly(secret: Seq<u8>, payload: Seq<u8>) -> bool {
    ed25519_signature(secret, payload).take(32) != neutral_point()
}

impl core::fmt::Debug for SignatureSigningKey {
    /// Writes the type, and none of the bytes.
    fn fmt(&self, f: &mut core::fmt::Formatter<'_>) -> (r: Result<(), core::fmt::Error>)
        ensures
            r is Ok ==> text_written(*final(f)) == text_written(*old(f)) + 
                "SignatureSigningKey([redacted])"@,
    {
        write_text(f, "SignatureSigningKey([redacted])")
    }
}

impl From<[u8; 32]> for SignatureSigningKey {
    fn from(bytes: [u8; 32]) -> (key: Self)
        ensures
            key@ == bytes@,
    {
        SignatureSigningKey(SecretKey::new(bytes))
    }
}

impl FromSpecImpl<[u8; 32]> for SignatureSigningKey {
    open spec fn obeys_from_spec() -> bool {
        false
    }

    open spec fn from_spec(bytes: [u8; 32]) -> Self {
        arbitrary()
    }
}

impl TryFrom<&str> for SignatureSigningKey {
    type Error = MalformedKeyError;

    /// Reads a key from 64 hexadecimal digits.
    fn try_from(value: &str) -> (r: Result<Self, MalformedKeyError>)
        ensures
            match r {
                Ok(key) => is_hex(value@) && value@.len() == 64 && key@ == hex_bytes(value@),
                Err(_) => !is_hex(value@) || value@.len() != 64,
            },
    {
        match decode_key(value) {
            Ok(bytes) => Ok(SignatureSigningKey::from(bytes)),
            Err(_) => Err(MalformedKeyError),
        }
    }
}

impl TryFromSpecImpl<&str> for SignatureSigningKey {
    open spec fn obeys_try_from_spec() -> bool {
        false
    }

    open spec fn try_from_spec(value: &str) -> Result<Self, MalformedKeyError> {
        arbitrary()
    }
}

/// An ED25519 keypair for record signing and verification.
pub struct SignatureKeypair {
    pub public: SignatureVerificationKey,
    pub private: SignatureSigningKey,
}

impl SignatureKeypair {
    /// Generate a fresh ED25519 keypair. This is the only way to create new key
    /// material; existing keys are loaded from their hex strings.
    ///
    /// The private key is one that was drawn for this call. Which one is chance; the two
    /// halves belong together.
    pub fn generate() -> (r: Result<Self, KeyGenError>)
        ensures
            r matches Ok(pair) && drawn_secret(pair.private@) && pair.public@ == ed25519_public(
                pair.private@,
            ),
    {
        Self::from_secret(fresh_secret())
    }

    /// The keypair of a secret key.
    pub fn from_secret(secret_bytes: [u8; 32]) -> (r: Result<Self, KeyGenError>)
        ensures
            r matches Ok(pair) && pair.private@ == secret_bytes@ && pair.public@ == ed25519_public(
                secret_bytes@,
            ),
    {
        let public_bytes = public_of(&secret_bytes);
        let public = match SignatureVerificationKey::try_from(public_bytes) {
            Ok(key) => key,
            Err(_) => return Err(KeyGenError("malformed key".to_owned())),
        };
        Ok(SignatureKeypair { public, private: SignatureSigningKey::from(secret_bytes) })
    }
}

/// A payload is only ever what a record holds in front of its last 64 bytes, and only where
/// these are a signature on it that the key accepts; where they are, it is handed out.
pub proof fn lemma_verified_payload(public: Seq<u8>, record: Seq<u8>)
    ensures
        verified_payload(public, record) matches Some(payload) ==> {
            &&& record.len() == payload.len() + 64
            &&& record.take(payload.len() as int) == payload
            &&& ed25519_verifies(public, payload, record.skip(payload.len() as int))
        },
        verified_payload(public, record) is None ==> record.len() < 64 || !ed25519_verifies(
            public,
            record.take(record.len() - 64),
            record.skip(record.len() - 64),
        ),
{
}

/// A signature is one that strict verification can accept unless its first half is the
/// byte 1 and then zeros.
pub proof fn lemma_signs_openly(secret: Seq<u8>, payload: Seq<u8>)
    requires
        ed25519_signature(secret, payload).len() == 64,
    ensures
        signs_openly(secret, payload) <==> exists|i: int|
            0 <= i < 32 && #[trigger] ed25519_signature(secret, payload)[i] != (if i == 0 {
                1u8
            } else {
                0u8
            }),
{
    let half = ed25519_signature(secret, payload).take(32);
    if !signs_openly(secret, payload) {
        assert forall|i: int| 0 <= i < 32 implies #[trigger] ed25519_signature(secret, payload)[i]
            == (if i == 0 {
            1u8
        } else {
            0u8
        }) by {
            assert(half[i] == neutral_point()[i]);
        }
    } else if forall|i: int|
        0 <= i < 32 ==> #[trigger] ed25519_signature(secret, payload)[i] == (if i == 0 {
            1u8
        } else {
            0u8
        }) {
        assert(half =~= neutral_point());
    }
}

/// A value is only handed out where the signature is right and the payload decodes to it;
/// everything else is the error that says why.
pub proof fn lemma_verify_answers<'a, R, F: FnOnce(&'a [u8]) -> Result<R, postcard::Error>>(
    key: Seq<u8>,
    record: Seq<u8>,
    decode: F,
    r: Result<R, SignatureValidationErr>,
)
    requires
        verify_answers(key, record, decode, r),
    ensures
        record.len() < 64 ==> r == Err::<R, SignatureValidationErr>(
            SignatureValidationErr::MalformedRecord,
        ),
        record.len() >= 64 && !ed25519_verifies(
            key,
            record.take(record.len() - 64),
            record.skip(record.len() - 64),
        ) ==> r == Err::<R, SignatureValidationErr>(SignatureValidationErr::BadSignature),
        record.len() >= 64 && ed25519_verifies(
            key,
            record.take(record.len() - 64),
            record.skip(record.len() - 64),
        ) ==> exists|payload: &'a [u8], out: Result<R, postcard::Error>|
            {
                &&& payload@ == record.take(record.len() - 64)
                &&& #[trigger] call_ensures(decode, (payload,), out)
                &&& out matches Ok(value) ==> r == Ok::<R, SignatureValidationErr>(value)
                &&& out matches Err(e) ==> r == Err::<R, SignatureValidationErr>(
                    SignatureValidationErr::RecordDeserialization(e),
                )
            },
{
}

/// Two verification keys are equal exactly if their bytes are.
pub proof fn lemma_verification_key_equality(
    a: SignatureVerificationKey,
    b: SignatureVerificationKey,
)
    ensures
        <SignatureVerificationKey as PartialEqSpec>::obeys_eq_spec(),
        PartialEqSpec::eq_spec(&a, &b) <==> a@ == b@,
{
}

} // verus!
