//! # snowpack
//!
//! An authenticated, encrypted transport for long-lived connections between known peers,
//! built on the Noise protocol framework (XX pattern, X25519 + AES-GCM + BLAKE2b).
//!
//! It is built for links between the nodes of a cluster or mesh, where every node is both
//! a potential initiator and responder:
//!
//! - **Mutual authentication**: every connection authenticates both ends. Each peer sends
//!   an auth header that the cluster's key has signed, and each checks that the static key
//!   of the handshake is the public key that the header declares, so that a stolen header
//!   is of no use ([`handshake`], [`auth`], [`sign`]).
//! - **Framed messages**: messages of any length are split into packets, each tagged with
//!   a kind and a 12-bit message type ([`packet_state`], [`packets`], [`messages`]). What is
//!   sent is what is received ([`delivery`]).
//! - **A connection pool** that keeps one connection per peer and re-establishes it with
//!   growing waits ([`pool`]).
//!
//! What callers may rely on is said of the calls themselves in [`laws`].
//!
//! The crate performs no input or output. Handshakes, sending and receiving are state
//! machines: they hand out the frames to write, and take the frames that were read.

use vstd::prelude::*;

pub mod auth;
pub mod bytes;
pub mod delivery;
pub mod handshake;
pub mod hex_text;
pub mod laws;
pub mod messages;
pub mod node_id;
pub mod noise;
pub mod packet_state;
pub mod packets;
pub mod pool;
pub mod secret;
pub mod show;
pub mod sign;
pub mod snow_state;
pub mod tlv;
pub mod transport;

pub use auth::{AuthDetails, AuthHeader, BadAuth, MalformedAuthHeader, SignedAuthHeader};
pub use handshake::{accept, connect, Transport};
pub use messages::{Message, MessageBytes, MessagePackets, MessageRx, MessageTx};
pub use node_id::{NodeId, NodeIdTooLong, MAX_NODE_ID_LEN};
pub use noise::{TransportKeypair, TransportPrivateKey, TransportPublicKey};
pub use packet_state::{PacketBuildError, PacketReadError, MAX_PACKET_SIZE};
pub use packets::ConnectionError;
pub use pool::{ConnectionPool, Credentials, Guard, NotReady, TcpConnector};
pub use sign::{SignatureKeypair, SignatureSigningKey, SignatureVerificationKey};

verus! {

/// Returned when a key cannot be parsed: the hex string is invalid, the byte length is
/// wrong, or (for ED25519 public keys) the bytes are not a valid curve point.
#[derive(Debug, Clone, Copy, PartialEq, Eq, Structural)]
pub struct MalformedKeyError;

/// Returned when keypair generation fails. The text says why.
#[derive(Debug)]
pub struct KeyGenError(pub String);

} // verus!
