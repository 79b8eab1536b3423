//! X25519 keys for Noise handshakes.

use vstd::prelude::*;
use vstd::std_specs::cmp::{PartialEqSpec, PartialEqSpecImpl};
use vstd::std_specs::convert::{FromSpecImpl, TryFromSpecImpl};

use crate::bytes::{array32, bytes_equal};
use crate::hex_text::{decode_key, encode, hex_bytes, hex_chars, is_hex, lemma_hex_round_trip};
use crate::secret::SecretKey;
use crate::show::{text_written, write_text};
use crate::snow_state::{
    error_text, generate_keypair, noise_error_text, noise_public_key, NOISE_PARAMS,
};
use crate::{KeyGenError, MalformedKeyError};

verus! {

/// The X25519 public key used to authenticate Noise handshakes between nodes.
pub struct TransportPublicKey(pub [u8; 32]);

impl View for TransportPublicKey {
    type V = Seq<u8>;

    open spec fn view(&self) -> Seq<u8> {
        self.0@
    }
}

impl TransportPublicKey {
    /// The raw key bytes.
    pub fn as_bytes(&self) -> (bytes: &[u8; 32])
        ensures
            bytes@ == self@,
    {
        &self.0
    }

    /// The key as it is written in diagnostics: its type and its hex string.
    fn debug_text(&self) -> (text: String)
        ensures
            text@ == "TransportPublicKey("@ + hex_chars(self@) + ")"@,
    {
        let mut text: String = "TransportPublicKey(".to_owned();
        text.append(encode(self.0.as_slice()).as_str());
        text.append(")");
        text
    }
}

impl core::fmt::Debug for TransportPublicKey {
    /// Writes the type and the hex string of the key.
    fn fmt(&self, f: &mut core::fmt::Formatter<'_>) -> (r: Result<(), core::fmt::Error>)
        ensures
            r is Ok ==> text_written(*final(f)) == text_written(*old(f)) + ("TransportPublicKey("@ + hex_chars(self@)
                + ")"@),
    {
        write_text(f, self.debug_text().as_str())
    }
}

impl core::fmt::Display for TransportPublicKey {
    /// Writes the key as a lowercase hex string.
    fn fmt(&self, f: &mut core::fmt::Formatter<'_>) -> (r: Result<(), core::fmt::Error>)
        ensures
            r is Ok ==> text_written(*final(f)) == text_written(*old(f)) + hex_chars(self@),
    {
        write_text(f, encode(self.0.as_slice()).as_str())
    }
}

impl Clone for TransportPublicKey {
    fn clone(&self) -> (key: Self)
        ensures
            key == *self,
    {
        TransportPublicKey(self.0)
    }
}

impl PartialEq for TransportPublicKey {
    fn eq(&self, other: &Self) -> (r: bool) {
        bytes_equal(self.0.as_slice(), other.0.as_slice())
    }
}

impl PartialEqSpecImpl for TransportPublicKey {
    open spec fn obeys_eq_spec() -> bool {
        true
    }

    open spec fn eq_spec(&self, other: &Self) -> bool {
        self@ == other@
    }
}

impl Eq for TransportPublicKey {

}

impl Default for TransportPublicKey {
    fn default() -> (key: Self)
        ensures
            key@ == Seq::new(32, |i: int| 0u8),
    {
        let key = TransportPublicKey([0u8; 32]);
        assert(key@ =~= Seq::new(32, |i: int| 0u8));
        key
    }
}

impl From<[u8; 32]> for TransportPublicKey {
    fn from(bytes: [u8; 32]) -> (key: Self) {
        TransportPublicKey(bytes)
    }
}

impl FromSpecImpl<[u8; 32]> for TransportPublicKey {
    open spec fn obeys_from_spec() -> bool {
        true
    }

    open spec fn from_spec(bytes: [u8; 32]) -> Self {
        TransportPublicKey(bytes)
    }
}

impl TryFrom<&str> for TransportPublicKey {
    type Error = MalformedKeyError;

    /// Reads a key from 64 hexadecimal digits.
    fn try_from(value: &str) -> (r: Result<Self, MalformedKeyError>)
        ensures
            match r {
                Ok(key) => is_hex(value@) && value@.len() == 64 && key@ == hex_bytes(value@),
                Err(_) => !is_hex(value@) || value@.len() != 64,
            },
    {
        match decode_key(value) {
            Ok(bytes) => Ok(TransportPublicKey::from(bytes)),
            Err(_) => Err(MalformedKeyError),
        }
    }
}

impl TryFromSpecImpl<&str> for TransportPublicKey {
    open spec fn obeys_try_from_spec() -> bool {
        false
    }

    open spec fn try_from_spec(value: &str) -> Result<Self, MalformedKeyError> {
        arbitrary()
    }
}

/// The X25519 private key used in Noise handshakes.
///
/// The bytes are wiped from memory on drop and never appear in diagnostics; reading
/// them takes an explicit [`expose`][Self::expose].
pub struct TransportPrivateKey(SecretKey);

impl View for TransportPrivateKey {
    type V = Seq<u8>;

    closed spec fn view(&self) -> Seq<u8> {
        self.0@
    }
}

impl TransportPrivateKey {
    /// Access the raw key bytes. Use sites should be minimal and obvious.
    pub fn expose(&self) -> (bytes: &[u8; 32])
        ensures
            bytes@ == self@,
    {
        self.0.expose()
    }

    /// Encode the key as a lowercase hex string for writing to config files.
    pub fn expose_to_human_string(&self) -> (text: String)
        ensures
            text@ == hex_chars(self@),
    {
        encode(self.0.expose().as_slice())
    }
}

impl core::fmt::Debug for TransportPrivateKey {
    /// Writes the type, and none of the bytes.
    fn fmt(&self, f: &mut core::fmt::Formatter<'_>) -> (r: Result<(), core::fmt::Error>)
        ensures
            r is Ok ==> text_written(*final(f)) == text_written(*old(f)) + 
                "TransportPrivateKey([redacted])"@,
    {
        write_text(f, "TransportPrivateKey([redacted])")
    }
}

impl Clone for TransportPrivateKey {
    fn clone(&self) -> (key: Self)
        ensures
            key@ == self@,
    {
        TransportPrivateKey(self.0.duplicate())
    }
}

impl From<[u8; 32]> for TransportPrivateKey {
    fn from(bytes: [u8; 32]) -> (key: Self)
        ensures
            key@ == bytes@,
    {
        TransportPrivateKey(SecretKey::new(bytes))
    }
}

impl FromSpecImpl<[u8; 32]> for TransportPrivateKey {
    open spec fn obeys_from_spec() -> bool {
        false
    }

    open spec fn from_spec(bytes: [u8; 32]) -> Self {
        arbitrary()
    }
}

impl TryFrom<&str> for TransportPrivateKey {
    type Error = MalformedKeyError;

    /// Reads a key from 64 hexadecimal digits.
    fn try_from(value: &str) -> (r: Result<Self, MalformedKeyError>)
        ensures
            match r {
                Ok(key) => is_hex(value@) && value@.len() == 64 && key@ == hex_bytes(value@),
                Err(_) => !is_hex(value@) || value@.len() != 64,
            },
    {
        match decode_key(value) {
            Ok(bytes) => Ok(TransportPrivateKey::from(bytes)),
            Err(_) => Err(MalformedKeyError),
        }
    }
}

impl TryFromSpecImpl<&str> for TransportPrivateKey {
    open spec fn obeys_try_from_spec() -> bool {
        false
    }

    open spec fn try_from_spec(value: &str) -> Result<Self, MalformedKeyError> {
        arbitrary()
    }
}

/// Whether `snow::Builder::generate_keypair` drew a pair of keys for this crate's protocol.
pub closed spec fn drawn_keypair(public: Seq<u8>, private: Seq<u8>) -> bool {
    exists|pair: (Vec<u8>, Vec<u8>)| #[trigger]
        call_ensures(generate_keypair, (NOISE_PARAMS,), Ok(pair)) && pair.0@ == public && pair.1@
            == private
}

/// An X25519 keypair for use in Noise handshakes.
pub struct TransportKeypair {
    pub public: TransportPublicKey,
    pub private: TransportPrivateKey,
}

impl TransportKeypair {
    /// Generate a fresh X25519 keypair. This is the only way to create new key
    /// material; existing keys are loaded from their hex strings.
    ///
    /// The keys are ones that were drawn for this call. Which ones is chance; the two
    /// halves belong together.
    pub fn generate() -> (r: Result<Self, KeyGenError>)
        ensures
            r matches Ok(pair) && drawn_keypair(pair.public@, pair.private@) && pair.public@
                == noise_public_key(NOISE_PARAMS@, pair.private@),
    {
        Self::from_generated(generate_keypair(NOISE_PARAMS))
    }

    /// What [`generate`][Self::generate] makes of the Noise layer's answer, given as
    /// `(public, private)`.
    pub fn from_generated(generated: Result<(Vec<u8>, Vec<u8>), snow::Error>) -> (r: Result<
        Self,
        KeyGenError,
    >)
        ensures
            match generated {
                Err(e) => r matches Err(error) && error.0@
                    == "failed to generate X25519 keypair: "@ + noise_error_text(e),
                Ok((public, private)) => if public@.len() != 32 {
                    r matches Err(error) && error.0@ == "unexpected public key length"@
                } else if private@.len() != 32 {
                    r matches Err(error) && error.0@ == "unexpected private key length"@
                } else {
                    r matches Ok(pair) && pair.public@ == public@ && pair.private@ == private@
                },
            },
    {
        let (public, private) = match generated {
            Ok(pair) => pair,
            Err(e) => {
                let mut text: String = "failed to generate X25519 keypair: ".to_owned();
                text.append(error_text(&e).as_str());
                return Err(KeyGenError(text));
            },
        };
        let public_bytes = match array32(public.as_slice()) {
            Some(bytes) => bytes,
            None => return Err(KeyGenError("unexpected public key length".to_owned())),
        };
        let private_bytes = match array32(private.as_slice()) {
            Some(bytes) => bytes,
            None => return Err(KeyGenError("unexpected private key length".to_owned())),
        };
        Ok(
            TransportKeypair {
                public: TransportPublicKey::from(public_bytes),
                private: TransportPrivateKey::from(private_bytes),
            },
        )
    }
}

/// The hex string of any key of 32 bytes reads back as that key.
pub proof fn lemma_key_text_round_trip(key: Seq<u8>)
    requires
        key.len() == 32,
    ensures
        is_hex(hex_chars(key)),
        hex_chars(key).len() == 64,
        hex_bytes(hex_chars(key)) == key,
{
    lemma_hex_round_trip(key);
}

/// Two public keys are equal exactly if their bytes are.
pub proof fn lemma_public_key_equality(a: TransportPublicKey, b: TransportPublicKey)
    ensures
        <TransportPublicKey as PartialEqSpec>::obeys_eq_spec(),
        PartialEqSpec::eq_spec(&a, &b) <==> a@ == b@,
{
}

} // verus!
