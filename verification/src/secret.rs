//! Secret values, held by `secrecy`: wiped from memory when they are dropped, absent
//! from `Debug` output, and reached only by an explicit call.

use std::sync::Arc;

use vstd::prelude::*;

use secrecy::{ExposeSecret, Secret, SecretVec};

verus! {

/// A secret of 32 bytes, in a `secrecy::Secret`.
#[verifier::external_body]
pub struct SecretKey(Secret<[u8; 32]>);

/// A secret of any length, in a `secrecy::SecretVec` that its clones share.
#[verifier::external_body]
pub struct SecretBytes(Arc<SecretVec<u8>>);

/// The bytes inside a [`SecretKey`].
pub uninterp spec fn key_inside(secret: SecretKey) -> Seq<u8>;

/// The bytes inside a [`SecretBytes`].
pub uninterp spec fn bytes_inside(secret: SecretBytes) -> Seq<u8>;

impl View for SecretKey {
    type V = Seq<u8>;

    open spec fn view(&self) -> Seq<u8> {
        key_inside(*self)
    }
}

impl View for SecretBytes {
    type V = Seq<u8>;

    open spec fn view(&self) -> Seq<u8> {
        bytes_inside(*self)
    }
}

impl SecretKey {
    /// `secrecy::Secret::new`: the secret holds the bytes that it was given.
    #[verifier::external_body]
    pub(crate) fn new(bytes: [u8; 32]) -> (secret: Self)
        ensures
            key_inside(secret) == bytes@,
    {
        SecretKey(Secret::new(bytes))
    }

    /// `secrecy::ExposeSecret::expose_secret`: the bytes that the secret holds.
    #[verifier::external_body]
    pub(crate) fn expose(&self) -> (bytes: &[u8; 32])
        ensures
            bytes@ == key_inside(*self),
    {
        self.0.expose_secret()
    }

    /// `Clone` of `secrecy::Secret`: another secret with the same bytes.
    #[verifier::external_body]
    pub(crate) fn duplicate(&self) -> (secret: Self)
        ensures
            key_inside(secret) == key_inside(*self),
    {
        SecretKey(self.0.clone())
    }
}

impl SecretBytes {
    /// `secrecy::Secret::new` on a vector: the secret holds the bytes that it was given.
    #[verifier::external_body]
    pub(crate) fn new(bytes: Vec<u8>) -> (secret: Self)
        ensures
            bytes_inside(secret) == bytes@,
    {
        SecretBytes(Arc::new(SecretVec::new(bytes)))
    }

    /// `secrecy::ExposeSecret::expose_secret`: the bytes that the secret holds.
    #[verifier::external_body]
    pub(crate) fn expose(&self) -> (bytes: &[u8])
        ensures
            bytes@ == bytes_inside(*self),
    {
        self.0.expose_secret()
    }

    /// `Clone` of `std::sync::Arc`: another handle on the same secret.
    #[verifier::external_body]
    pub(crate) fn share(&self) -> (secret: Self)
        ensures
            bytes_inside(secret) == bytes_inside(*self),
    {
        SecretBytes(Arc::clone(&self.0))
    }
}

} // verus!
