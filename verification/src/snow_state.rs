//! What the rest of the crate relies on of `snow`, the Noise implementation.
//!
//! `snow` keeps a handshake and a session in opaque state values. Here each gets a
//! name for what it holds, and each call that the crate makes gets a contract over
//! those names: what the call returns, and what it leaves behind.

use vstd::prelude::*;

verus! {

/// Noise overhead of an encrypted message: the authentication tag.
pub open spec fn tag_len() -> nat {
    16
}

/// The longest message that Noise allows.
pub open spec fn max_message_len() -> nat {
    65535
}

/// `snow::Error`, carried and not looked into.
#[verifier::external_type_specification]
#[verifier::external_body]
pub struct ExSnowError(snow::Error);

/// `snow::HandshakeState`; [`handshake_of`] names what it stands for.
#[verifier::external_type_specification]
#[verifier::external_body]
pub struct ExHandshakeState(snow::HandshakeState);

/// `snow::TransportState`; [`session_of`] names what it holds.
#[verifier::external_type_specification]
#[verifier::external_body]
pub struct ExTransportState(snow::TransportState);

/// What an ongoing handshake stands for: how it was set up, and what has passed
/// through it since.
pub ghost struct HandshakeView {
    /// The protocol name, for a handshake in which no call has failed. A failed call
    /// may leave a handshake that no protocol name stands for.
    pub setup: Seq<char>,
    /// Whether this side sends the first message.
    pub initiator: bool,
    /// Whether the pattern lets both sides send once the handshake is done.
    pub two_way: bool,
    /// The static private key.
    pub private: Seq<u8>,
    /// The ephemeral private key; chance decides it when the message that carries
    /// its public half is written.
    pub ephemeral: Seq<u8>,
    /// The messages exchanged so far, in order.
    pub transcript: Seq<Seq<u8>>,
}

impl HandshakeView {
    /// The handshake once `message` has passed.
    pub open spec fn after(self, message: Seq<u8>) -> HandshakeView {
        HandshakeView { transcript: self.transcript.push(message), ..self }
    }

    /// The handshake as it stood before the `i`-th message.
    pub open spec fn before(self, i: int) -> HandshakeView {
        HandshakeView { transcript: self.transcript.take(i), ..self }
    }

    /// Whether it is this side's turn to send: the initiator sends the messages at
    /// even places, the responder those at odd places.
    pub open spec fn sends_at(self, i: int) -> bool {
        self.initiator == (i % 2 == 0)
    }

    /// Whether a handshake of this crate's protocol can send a payload next: on its turn,
    /// while messages are left, and if the payload leaves room for the keys and tags of
    /// the message.
    pub open spec fn can_send(self, payload: Seq<u8>) -> bool {
        &&& self.transcript.len() < 3
        &&& self.sends_at(self.transcript.len() as int)
        &&& payload.len() + key_room(self.transcript.len() as int) <= max_message_len()
    }

    /// Whether this side could have written the `i`-th message that passed.
    pub open spec fn wrote(self, i: int) -> bool {
        exists|payload: Seq<u8>|
            self.transcript[i] == #[trigger] handshake_message(self.before(i), payload)
    }

    /// Whether the pattern has told this side the peer's static key: the second
    /// message carries the responder's, the third the initiator's.
    pub open spec fn knows_remote_static(self) -> bool {
        self.transcript.len() >= (if self.initiator { 2int } else { 3int })
    }
}

/// The bytes that are kept for keys and tags in the `i`-th message of this crate's
/// protocol: an ephemeral key is 32 bytes long, a static key 48 with its tag, and the tag
/// of the payload 16.
pub open spec fn key_room(i: int) -> nat {
    if i == 0 {
        48
    } else if i == 1 {
        96
    } else {
        64
    }
}

/// Two ends of one handshake of this crate's protocol: they have seen the same
/// messages, and each message was written by the end whose turn it was.
pub open spec fn facing(a: HandshakeView, b: HandshakeView) -> bool {
    &&& a.setup == NOISE_PARAMS@
    &&& b.setup == NOISE_PARAMS@
    &&& a.initiator != b.initiator
    &&& a.transcript == b.transcript
    &&& forall|i: int| 0 <= i < a.transcript.len() ==> #[trigger] turn_kept(a, b, i)
}

/// Whether the `i`-th message was written by the end whose turn it was.
pub open spec fn turn_kept(a: HandshakeView, b: HandshakeView, i: int) -> bool {
    if a.sends_at(i) {
        a.wrote(i)
    } else {
        b.wrote(i)
    }
}

/// Two ends of one session: what one sends, the other receives, under the same key
/// and in step.
pub open spec fn linked(tx: SessionView, rx: SessionView) -> bool {
    &&& tx.send_key == rx.recv_key
    &&& tx.send_nonce == rx.recv_nonce
}

/// What an established session holds.
pub ghost struct SessionView {
    /// Whether the pattern lets this side send.
    pub can_send: bool,
    /// Whether the pattern lets this side receive.
    pub can_recv: bool,
    /// The cipher and key of what this side sends.
    pub send_key: Seq<u8>,
    /// The number of the next message that this side sends.
    pub send_nonce: u64,
    /// The cipher and key of what this side receives.
    pub recv_key: Seq<u8>,
    /// The number of the next message that this side receives.
    pub recv_nonce: u64,
}

/// What a `snow::HandshakeState` stands for.
pub uninterp spec fn handshake_of(state: snow::HandshakeState) -> HandshakeView;

/// What a `snow::TransportState` holds.
pub uninterp spec fn session_of(state: snow::TransportState) -> SessionView;

/// The message that `snow::HandshakeState::write_message` makes of `payload`, given
/// the ephemeral key that it works with.
pub uninterp spec fn handshake_message(hs: HandshakeView, payload: Seq<u8>) -> Seq<u8>;

/// The payload that `snow::HandshakeState::read_message` finds in `message`, where
/// it accepts it.
pub uninterp spec fn handshake_payload(hs: HandshakeView, message: Seq<u8>) -> Option<Seq<u8>>;

/// The peer's static public key as `snow::HandshakeState::get_remote_static` reports it.
pub uninterp spec fn handshake_remote_static(hs: HandshakeView) -> Option<Seq<u8>>;

/// The session that `snow::HandshakeState::into_transport_mode` makes of a finished
/// handshake.
pub uninterp spec fn handshake_session(hs: HandshakeView) -> Option<SessionView>;

/// The ciphertext that `snow::TransportState::write_message` makes of `plaintext`
/// under a key and message number.
pub uninterp spec fn noise_seal(key: Seq<u8>, nonce: u64, plaintext: Seq<u8>) -> Seq<u8>;

/// The plaintext that `snow::TransportState::read_message` finds in `ciphertext`
/// under a key and message number, where the tag is right.
pub uninterp spec fn noise_open(key: Seq<u8>, nonce: u64, ciphertext: Seq<u8>) -> Option<Seq<u8>>;

/// The error with which `snow::HandshakeState::write_message` refuses a payload.
pub uninterp spec fn handshake_write_error(hs: HandshakeView, payload: Seq<u8>) -> snow::Error;

/// The error with which `snow::HandshakeState::read_message` refuses a message.
pub uninterp spec fn handshake_read_error(hs: HandshakeView, message: Seq<u8>) -> snow::Error;

/// The error with which `snow::HandshakeState::into_transport_mode` refuses a handshake
/// that is not finished.
pub uninterp spec fn handshake_split_error(hs: HandshakeView) -> snow::Error;

/// The error with which `snow::TransportState::write_message` refuses a payload, where
/// the buffer is not what stops it.
pub uninterp spec fn session_write_error(session: SessionView, payload: Seq<u8>) -> snow::Error;

/// The error with which `snow::TransportState::read_message` refuses a ciphertext, where
/// the buffer is not what stops it.
pub uninterp spec fn session_read_error(session: SessionView, ciphertext: Seq<u8>) -> snow::Error;

/// What `snow::TransportState::read_message` makes of the buffer where it refuses a
/// ciphertext.
pub uninterp spec fn session_residue(
    session: SessionView,
    ciphertext: Seq<u8>,
    buffer: Seq<u8>,
) -> Seq<u8>;

/// The public key that belongs to a private key under a protocol's Diffie-Hellman
/// function, as `snow::Builder::generate_keypair` pairs them.
pub uninterp spec fn noise_public_key(params: Seq<char>, private: Seq<u8>) -> Seq<u8>;

/// The text of a `snow::Error`, as its `Display` writes it.
pub uninterp spec fn noise_error_text(error: snow::Error) -> Seq<char>;

/// The protocol of this crate: pattern XX, X25519, AES-GCM, BLAKE2b.
pub const NOISE_PARAMS: &'static str = "Noise_XX_25519_AESGCM_BLAKE2b";

/// Every handshake is one of pattern XX with X25519, AES-GCM and BLAKE2b, whichever side
/// starts it.
pub proof fn lemma_protocol()
    ensures
        NOISE_PARAMS@ == "Noise_XX_25519_AESGCM_BLAKE2b"@,
        tag_len() == 16,
        max_message_len() == 65535,
{
}

/// `snow::Builder::build_initiator` on a builder with this crate's protocol and a static
/// private key. It succeeds: a handshake in which no message has passed, this side
/// starts, and both sides may send afterwards.
#[verifier::external_body]
pub(crate) fn build_initiator(params: &str, private: &[u8; 32]) -> (r: Result<
    snow::HandshakeState,
    snow::Error,
>)
    requires
        params@ == NOISE_PARAMS@,
    ensures
        r is Ok,
        r matches Ok(state) ==> {
            let hs = handshake_of(state);
            &&& hs.setup == params@
            &&& hs.initiator
            &&& hs.two_way
            &&& hs.private == private@
            &&& hs.transcript == Seq::<Seq<u8>>::empty()
        },
{
    snow::Builder::new(params.parse()?).local_private_key(private).build_initiator()
}

/// `snow::Builder::build_responder` on a builder with this crate's protocol and a static
/// private key. It succeeds: a handshake in which no message has passed, the peer
/// starts, and both sides may send afterwards.
#[verifier::external_body]
pub(crate) fn build_responder(params: &str, private: &[u8; 32]) -> (r: Result<
    snow::HandshakeState,
    snow::Error,
>)
    requires
        params@ == NOISE_PARAMS@,
    ensures
        r is Ok,
        r matches Ok(state) ==> {
            let hs = handshake_of(state);
            &&& hs.setup == params@
            &&& !hs.initiator
            &&& hs.two_way
            &&& hs.private == private@
            &&& hs.transcript == Seq::<Seq<u8>>::empty()
        },
{
    snow::Builder::new(params.parse()?).local_private_key(private).build_responder()
}

/// `snow::Builder::generate_keypair` on a builder with this crate's protocol. It succeeds:
/// a fresh private key and the public key that belongs to it, as `(public, private)`, of
/// 32 bytes each. Which key comes is chance; where the operating system has
/// no randomness to give, the call panics.
/// [`drawn_keypair`][crate::noise::drawn_keypair] tells that keys came from this call.
#[verifier::external_body]
pub(crate) fn generate_keypair(params: &str) -> (r: Result<(Vec<u8>, Vec<u8>), snow::Error>)
    requires
        params@ == NOISE_PARAMS@,
    ensures
        r is Ok,
        r matches Ok(pair) ==> {
            &&& pair.0@ == noise_public_key(params@, pair.1@)
            &&& pair.0@.len() == 32
            &&& pair.1@.len() == 32
        },
{
    let keypair = snow::Builder::new(params.parse()?).generate_keypair()?;
    Ok((keypair.public, keypair.private))
}

/// `Display` of `snow::Error`: its text depends on the error alone.
#[verifier::external_body]
pub(crate) fn error_text(error: &snow::Error) -> (text: String)
    ensures
        text@ == noise_error_text(*error),
{
    format!("{}", error)
}

/// Writes the next handshake message, into a buffer that holds exactly the longest
/// message: into a shorter one the call may panic.
///
/// On success the message is the one that the handshake makes of the payload with
/// the ephemeral key it works with, it is at most 65535 bytes long, the handshake has
/// moved on by it, and the other end of the same handshake finds the payload in it.
/// In this crate's protocol a side picks its ephemeral key with its first message and
/// keeps it, and the call succeeds exactly where it is this side's turn and the payload
/// leaves room for the keys and tags of the message. Which error comes depends on the
/// handshake and the payload alone. After an error nothing is said of the handshake. Where the operating system has no randomness to give for an ephemeral
/// key, the call panics.
pub assume_specification[ snow::HandshakeState::write_message ](
    state: &mut snow::HandshakeState,
    payload: &[u8],
    message: &mut [u8],
) -> (r: Result<usize, snow::Error>)
    requires
        old(message)@.len() == max_message_len(),
    ensures
        final(message)@.len() == old(message)@.len(),
        r matches Ok(n) ==> {
            let before = handshake_of(*old(state));
            let sent = HandshakeView { ephemeral: handshake_of(*final(state)).ephemeral, ..before };
            let written = handshake_message(sent, payload@);
            &&& n <= max_message_len()
            &&& final(message)@.take(n as int) == written
            &&& handshake_of(*final(state)) == sent.after(written)
            &&& before.setup == NOISE_PARAMS@ ==> before.can_send(payload@)
            &&& before.setup == NOISE_PARAMS@ && before.transcript.len() >= 2 ==> sent.ephemeral
                == before.ephemeral
            &&& forall|peer: HandshakeView| #[trigger]
                facing(sent, peer) ==> handshake_payload(peer, written) == Some(payload@)
        },
        r matches Err(e) ==> {
            let before = handshake_of(*old(state));
            &&& e == handshake_write_error(before, payload@)
            &&& before.setup == NOISE_PARAMS@ ==> !before.can_send(payload@)
        },
;

/// Reads the next handshake message into a buffer that holds the longest one.
///
/// It succeeds exactly on the messages in which the handshake finds a payload, and
/// the handshake then moves on by the message. Which error comes depends on the handshake
/// and the message alone. After an error nothing is said of the handshake.
pub assume_specification[ snow::HandshakeState::read_message ](
    state: &mut snow::HandshakeState,
    message: &[u8],
    payload: &mut [u8],
) -> (r: Result<usize, snow::Error>)
    requires
        old(payload)@.len() == max_message_len(),
    ensures
        final(payload)@.len() == old(payload)@.len(),
        match r {
            Ok(n) => {
                &&& n <= max_message_len()
                &&& handshake_payload(handshake_of(*old(state)), message@) == Some(
                    final(payload)@.take(n as int),
                )
                &&& handshake_of(*final(state)) == handshake_of(*old(state)).after(message@)
            },
            Err(e) => {
                &&& handshake_payload(handshake_of(*old(state)), message@) is None
                &&& e == handshake_read_error(handshake_of(*old(state)), message@)
            },
        },
;

/// The peer's static public key, as far as the handshake has come to know it: in this
/// crate's protocol 32 bytes, and the public key of the other end of the handshake
/// once the message that carries it has passed.
pub assume_specification[ snow::HandshakeState::get_remote_static ](
    state: &snow::HandshakeState,
) -> (r: Option<&[u8]>)
    ensures
        match r {
            Some(key) => {
                &&& handshake_remote_static(handshake_of(*state)) == Some(key@)
                &&& handshake_of(*state).setup == NOISE_PARAMS@ ==> key@.len() == 32
            },
            None => handshake_remote_static(handshake_of(*state)) is None,
        },
        forall|peer: HandshakeView| #[trigger]
            facing(handshake_of(*state), peer) && handshake_of(*state).knows_remote_static()
                ==> r is Some && r->0@ == noise_public_key(NOISE_PARAMS@, peer.private),
;

/// Turns a finished handshake into a session whose messages are numbered from zero
/// in both directions. It fails exactly where the handshake is not finished, with an error
/// that depends on it alone; this crate's protocol takes three messages. What the other end of the same handshake
/// receives is sealed under the key that this end sends with, and the other way round.
pub assume_specification[ snow::HandshakeState::into_transport_mode ](
    state: snow::HandshakeState,
) -> (r: Result<snow::TransportState, snow::Error>)
    ensures
        match r {
            Ok(transport) => {
                let session = session_of(transport);
                &&& handshake_session(handshake_of(state)) == Some(session)
                &&& handshake_of(state).two_way ==> session.can_send && session.can_recv
                &&& session.send_nonce == 0
                &&& session.recv_nonce == 0
                &&& handshake_of(state).setup == NOISE_PARAMS@ ==> handshake_of(
                    state,
                ).transcript.len() == 3
                &&& forall|peer: HandshakeView| #[trigger]
                    facing(handshake_of(state), peer) ==> {
                        &&& handshake_session(peer) is Some
                        &&& linked(session, handshake_session(peer)->0)
                        &&& linked(handshake_session(peer)->0, session)
                        &&& handshake_session(peer)->0.can_send && handshake_session(
                            peer,
                        )->0.can_recv
                    }
            },
            Err(e) => {
                &&& e == handshake_split_error(handshake_of(state))
                &&& handshake_session(handshake_of(state)) is None
                &&& handshake_of(state).setup == NOISE_PARAMS@ ==> handshake_of(
                    state,
                ).transcript.len() != 3
            },
        },
;

/// What a session sends for a plaintext, where it can send it: where the pattern lets
/// it, the ciphertext is not too long for Noise, and the message numbers are not used up.
pub open spec fn sealed(session: SessionView, plaintext: Seq<u8>) -> Option<Seq<u8>> {
    if session.can_send && plaintext.len() + tag_len() <= max_message_len() && session.send_nonce
        < u64::MAX {
        Some(noise_seal(session.send_key, session.send_nonce, plaintext))
    } else {
        None
    }
}

/// The session once it has sent a message.
pub open spec fn after_send(session: SessionView) -> SessionView {
    SessionView { send_nonce: (session.send_nonce + 1) as u64, ..session }
}

/// What a session finds in a ciphertext, where it can take it: where the pattern lets it,
/// the ciphertext is of legal length and its tag is right, and the message numbers are
/// not used up.
pub open spec fn opened(session: SessionView, ciphertext: Seq<u8>) -> Option<Seq<u8>> {
    if session.can_recv && tag_len() <= ciphertext.len() <= max_message_len() && session.recv_nonce
        < u64::MAX {
        noise_open(session.recv_key, session.recv_nonce, ciphertext)
    } else {
        None
    }
}

/// The session once it has received a message.
pub open spec fn after_recv(session: SessionView) -> SessionView {
    SessionView { recv_nonce: (session.recv_nonce + 1) as u64, ..session }
}

/// Whether the other end of a session opens `ciphertext`, sent next, to `plaintext`.
pub open spec fn carries(tx: SessionView, ciphertext: Seq<u8>, plaintext: Seq<u8>) -> bool {
    &&& ciphertext.len() == plaintext.len() + tag_len()
    &&& ciphertext.len() <= max_message_len()
    &&& tx.send_nonce < u64::MAX
    &&& noise_open(tx.send_key, tx.send_nonce, ciphertext) == Some(plaintext)
}

/// Encrypts `payload` into `message`.
///
/// It succeeds exactly where the session can send the payload and the buffer holds the
/// ciphertext. The ciphertext is sealed under the sending key and the number of the
/// message, it is 16 bytes longer than the payload, and opens to the payload under the
/// same key and number; the number goes up by one. After an error the session is
/// unchanged; where the ciphertext fits the buffer or is too long for Noise, which error
/// comes depends on the session and the payload alone.
pub assume_specification[ snow::TransportState::write_message ](
    state: &mut snow::TransportState,
    payload: &[u8],
    message: &mut [u8],
) -> (r: Result<usize, snow::Error>)
    ensures
        final(message)@.len() == old(message)@.len(),
        match r {
            Ok(n) => {
                let before = session_of(*old(state));
                let ciphertext = final(message)@.take(n as int);
                &&& n == payload@.len() + tag_len()
                &&& n <= old(message)@.len()
                &&& sealed(before, payload@) is Some
                &&& ciphertext == noise_seal(before.send_key, before.send_nonce, payload@)
                &&& noise_open(before.send_key, before.send_nonce, ciphertext) == Some(payload@)
                &&& session_of(*final(state)) == after_send(before)
            },
            Err(e) => {
                &&& session_of(*final(state)) == session_of(*old(state))
                &&& payload@.len() + tag_len() <= old(message)@.len() || payload@.len() + tag_len()
                    > max_message_len() ==> e == session_write_error(
                    session_of(*old(state)),
                    payload@,
                )
                &&& {
                    ||| sealed(session_of(*old(state)), payload@) is None
                    ||| payload@.len() + tag_len() > old(message)@.len()
                }
            },
        },
;

/// Decrypts `ciphertext` into `plaintext`.
///
/// It succeeds exactly where the session finds a plaintext in the ciphertext and the
/// buffer holds it. The plaintext is 16 bytes shorter than the ciphertext, the buffer keeps
/// what it held behind it, and the number of the message goes up by one. After an error
/// the session is unchanged; what the buffer holds depends on the session, the ciphertext
/// and what it held, and where it has room, which error comes depends on the session and
/// the ciphertext alone.
pub assume_specification[ snow::TransportState::read_message ](
    state: &mut snow::TransportState,
    ciphertext: &[u8],
    plaintext: &mut [u8],
) -> (r: Result<usize, snow::Error>)
    ensures
        final(plaintext)@.len() == old(plaintext)@.len(),
        match r {
            Ok(n) => {
                let before = session_of(*old(state));
                &&& ciphertext@.len() == n + tag_len()
                &&& n <= old(plaintext)@.len()
                &&& opened(before, ciphertext@) is Some
                &&& noise_open(before.recv_key, before.recv_nonce, ciphertext@) == Some(
                    final(plaintext)@.take(n as int),
                )
                &&& final(plaintext)@.skip(n as int) == old(plaintext)@.skip(n as int)
                &&& session_of(*final(state)) == after_recv(before)
            },
            Err(e) => {
                &&& session_of(*final(state)) == session_of(*old(state))
                &&& final(plaintext)@ == session_residue(
                    session_of(*old(state)),
                    ciphertext@,
                    old(plaintext)@,
                )
                &&& ciphertext@.len() <= old(plaintext)@.len() + tag_len() ==> e
                    == session_read_error(session_of(*old(state)), ciphertext@)
                &&& {
                    ||| opened(session_of(*old(state)), ciphertext@) is None
                    ||| ciphertext@.len() > old(plaintext)@.len() + tag_len()
                }
            },
        },
;

} // verus!
