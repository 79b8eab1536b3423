//! The Noise XX handshake, and the authentication that it carries.
//!
//! Three messages pass: the initiator's first, the responder's with its signed auth
//! header, and the initiator's with its own. Each side checks the other's header against
//! the cluster's verification key, and the public key in it against the static key of
//! the handshake. Nothing here does input or output: each step takes the data of a frame
//! that was read, or hands out a frame to write.

use vstd::prelude::*;
use vstd::slice::slice_subrange;

use crate::auth::{
    header_fields, lemma_signed_header, lemma_verified_header, role_view, verified_header,
    AuthDetails, AuthHeader, BadAuth, HeaderView, SignedAuthHeader,
};
use crate::bytes::{array32, copy_of};
use crate::messages::{MessageRx, MessageTx};
use crate::noise::{TransportPrivateKey, TransportPublicKey};
use crate::packet_state::{BuilderState, MAX_CIPHERTEXT_SIZE};
use crate::packets::{
    lemma_frame_layout, wire_frame, write_frame, ConnectionError, PacketRx, PacketTx, RxState,
};
use crate::sign::{
    ed25519_signature, ed25519_verifies, signed_record, SignatureValidationErr,
    SignatureVerificationKey,
};
use crate::snow_state::{
    build_initiator, build_responder, facing, handshake_message, handshake_of, handshake_payload,
    handshake_read_error, handshake_remote_static, handshake_session, handshake_split_error,
    handshake_write_error, linked, noise_public_key, session_of, turn_kept, HandshakeView,
    SessionView, NOISE_PARAMS,
};
use crate::tlv::frame_bytes;

verus! {

/// The header of a peer that can be authenticated: its signature is right, and the
/// static key of the handshake is the public key that it declares.
pub open spec fn authenticated(
    key: Seq<u8>,
    payload: Seq<u8>,
    remote_static: Option<Seq<u8>>,
) -> Option<HeaderView> {
    match verified_header(key, payload) {
        Ok(header) => if remote_static == Some(header.public_key) && header.public_key.len() == 32 {
            Some(header)
        } else {
            None
        },
        Err(_) => None,
    }
}

/// Why a peer cannot be authenticated: its signature, or else a static key that is
/// missing, of the wrong length, or other than declared.
pub open spec fn refused(
    key: Seq<u8>,
    payload: Seq<u8>,
    remote_static: Option<Seq<u8>>,
    error: ConnectionError,
) -> bool {
    match verified_header(key, payload) {
        Err(e) => error == ConnectionError::BadAuth(BadAuth::Signature(e)),
        Ok(header) => match remote_static {
            None => error == ConnectionError::MissingRemoteStatic,
            Some(found) => if found.len() != 32 {
                error == ConnectionError::RemoteStaticKeyLength
            } else {
                &&& found != header.public_key
                &&& error matches ConnectionError::BadAuth(
                    BadAuth::PublicKeyMismatch { expected, actual },
                )
                &&& expected@ == header.public_key
                &&& actual@ == found
            },
        },
    }
}

/// The static key that the Noise layer reports, as a public key.
pub fn remote_key(raw: Option<&[u8]>) -> (r: Result<TransportPublicKey, ConnectionError>)
    ensures
        match raw {
            None => r == Err::<TransportPublicKey, ConnectionError>(
                ConnectionError::MissingRemoteStatic,
            ),
            Some(bytes) => if bytes@.len() == 32 {
                r is Ok && r->Ok_0@ == bytes@
            } else {
                r == Err::<TransportPublicKey, ConnectionError>(
                    ConnectionError::RemoteStaticKeyLength,
                )
            },
        },
{
    match raw {
        None => Err(ConnectionError::MissingRemoteStatic),
        Some(bytes) => match array32(bytes) {
            Some(array) => Ok(TransportPublicKey::from(array)),
            None => Err(ConnectionError::RemoteStaticKeyLength),
        },
    }
}

/// Authenticate a peer by the payload of its handshake message and the static key that
/// the Noise layer reports for it.
pub fn authenticate(
    verification_key: &SignatureVerificationKey,
    payload: &[u8],
    remote_static: Option<&[u8]>,
) -> (r: Result<AuthHeader, ConnectionError>)
    ensures
        ({
            let remote = match remote_static {
                Some(key) => Some(key@),
                None => None,
            };
            match r {
                Ok(header) => {
                    &&& authenticated(verification_key@, payload@, remote) == Some(header@)
                    &&& verified_header(verification_key@, payload@) == Ok::<
                        HeaderView,
                        SignatureValidationErr,
                    >(header@)
                    &&& remote == Some(header@.public_key)
                },
                Err(e) => {
                    &&& authenticated(verification_key@, payload@, remote) is None
                    &&& refused(verification_key@, payload@, remote, e)
                },
            }
        }),
{
    let header = match SignedAuthHeader::verify_raw(verification_key, payload) {
        Ok(header) => header,
        Err(e) => return Err(ConnectionError::BadAuth(e)),
    };
    let remote = match remote_key(remote_static) {
        Ok(remote) => remote,
        Err(e) => return Err(e),
    };
    match header.validate_public_key(&remote) {
        Ok(()) => Ok(header),
        Err(e) => Err(ConnectionError::BadAuth(e)),
    }
}

/// A handshake of this crate's protocol of which nothing has passed.
pub open spec fn fresh(hs: HandshakeView, initiator: bool, private: Seq<u8>) -> bool {
    &&& hs.setup == NOISE_PARAMS@
    &&& hs.initiator == initiator
    &&& hs.two_way
    &&& hs.private == private
    &&& hs.transcript == Seq::<Seq<u8>>::empty()
}

/// Whether any handshake that faces `sent` finds `payload` in `message`.
pub open spec fn is_heard(sent: HandshakeView, message: Seq<u8>, payload: Seq<u8>) -> bool {
    forall|peer: HandshakeView| #[trigger]
        facing(sent, peer) ==> handshake_payload(peer, message) == Some(payload)
}

/// Whether a handshake that knows its peer's static key reports the key of whatever
/// handshake it faces.
pub open spec fn knows_its_peer(hs: HandshakeView) -> bool {
    forall|peer: HandshakeView| #[trigger]
        facing(hs, peer) && hs.knows_remote_static() ==> handshake_remote_static(hs) == Some(
            noise_public_key(NOISE_PARAMS@, peer.private),
        )
}

/// Whether a handshake went on by sending `payload` as `message`, with the ephemeral key
/// that it holds afterwards. A side of this crate's protocol picks that key with its
/// first message and keeps it.
pub open spec fn sent_as(
    before: HandshakeView,
    after: HandshakeView,
    payload: Seq<u8>,
    message: Seq<u8>,
) -> bool {
    let sent = HandshakeView { ephemeral: after.ephemeral, ..before };
    &&& message == handshake_message(sent, payload)
    &&& message.len() <= MAX_CIPHERTEXT_SIZE
    &&& after == sent.after(message)
    &&& is_heard(sent, message, payload)
    &&& before.setup == NOISE_PARAMS@ ==> before.can_send(payload)
    &&& before.setup == NOISE_PARAMS@ && before.transcript.len() >= 2 ==> sent == before
}

/// Whether `frame` is a frame to write for a message that the handshake sent.
pub open spec fn frame_sent(
    before: HandshakeView,
    after: HandshakeView,
    payload: Seq<u8>,
    frame: Seq<u8>,
) -> bool {
    exists|message: Seq<u8>|
        #[trigger] sent_as(before, after, payload, message) && frame == wire_frame(message)
}

/// A handshake in progress.
pub struct HandshakeContext {
    handshake: snow::HandshakeState,
    noise_buf: Vec<u8>,
}

impl View for HandshakeContext {
    type V = HandshakeView;

    closed spec fn view(&self) -> HandshakeView {
        handshake_of(self.handshake)
    }
}

impl HandshakeContext {
    /// The side that sends the first message.
    pub fn new_initiator(local_private: &TransportPrivateKey) -> (r: Result<Self, ConnectionError>)
        ensures
            r is Ok,
            fresh(r->Ok_0@, true, local_private@),
    {
        match build_initiator(NOISE_PARAMS, local_private.expose()) {
            Ok(handshake) => Ok(
                HandshakeContext { handshake, noise_buf: vec![0u8; MAX_CIPHERTEXT_SIZE] },
            ),
            Err(e) => Err(ConnectionError::Noise(e)),
        }
    }

    /// The side that answers.
    pub fn new_responder(local_private: &TransportPrivateKey) -> (r: Result<Self, ConnectionError>)
        ensures
            r is Ok,
            fresh(r->Ok_0@, false, local_private@),
    {
        match build_responder(NOISE_PARAMS, local_private.expose()) {
            Ok(handshake) => Ok(
                HandshakeContext { handshake, noise_buf: vec![0u8; MAX_CIPHERTEXT_SIZE] },
            ),
            Err(e) => Err(ConnectionError::Noise(e)),
        }
    }

    /// Take a handshake message from a frame's data and return its payload.
    pub fn recv(&mut self, message: &[u8]) -> (r: Result<&[u8], ConnectionError>)
        ensures
            match handshake_payload(old(self)@, message@) {
                Some(payload) => {
                    &&& r is Ok
                    &&& r->Ok_0@ == payload
                    &&& final(self)@ == old(self)@.after(message@)
                },
                None => r == Err::<&[u8], ConnectionError>(
                    ConnectionError::Noise(handshake_read_error(old(self)@, message@)),
                ),
            },
    {
        self.noise_buf.resize(MAX_CIPHERTEXT_SIZE, 0);
        match self.handshake.read_message(message, self.noise_buf.as_mut_slice()) {
            Ok(n) => {
                let payload = slice_subrange(self.noise_buf.as_slice(), 0, n);
                assert(payload@ =~= self.noise_buf@.take(n as int));
                Ok(payload)
            },
            Err(e) => Err(ConnectionError::Noise(e)),
        }
    }

    /// The frame to write for the next handshake message.
    pub fn send(&mut self, payload: &[u8]) -> (r: Result<Vec<u8>, ConnectionError>)
        ensures
            match r {
                Ok(frame) => frame_sent(old(self)@, final(self)@, payload@, frame@),
                Err(e) => send_refused(old(self)@, payload@, e),
            },
    {
        self.noise_buf.resize(MAX_CIPHERTEXT_SIZE, 0);
        let n: usize = match self.handshake.write_message(payload, self.noise_buf.as_mut_slice()) {
            Ok(n) => n,
            Err(e) => return Err(ConnectionError::Noise(e)),
        };
        let message = slice_subrange(self.noise_buf.as_slice(), 0, n);
        assert(message@ =~= self.noise_buf@.take(n as int));
        assert(sent_as(old(self)@, self@, payload@, message@));
        write_frame(message)
    }

    /// The peer's static key, once the handshake knows it.
    pub fn remote_static(&self) -> (r: Result<TransportPublicKey, ConnectionError>)
        ensures
            match handshake_remote_static(self@) {
                None => r == Err::<TransportPublicKey, ConnectionError>(
                    ConnectionError::MissingRemoteStatic,
                ),
                Some(key) => if key.len() == 32 {
                    r is Ok && r->Ok_0@ == key
                } else {
                    r == Err::<TransportPublicKey, ConnectionError>(
                        ConnectionError::RemoteStaticKeyLength,
                    )
                },
            },
            knows_its_peer(self@),
    {
        remote_key(self.handshake.get_remote_static())
    }

    /// The session and the two halves of its packet transport, once the handshake is
    /// finished.
    pub fn into_split(self) -> (r: Result<(snow::TransportState, PacketTx, PacketRx), ConnectionError>)
        ensures
            match r {
                Ok((session, tx, rx)) => established(self@, session_of(session), tx@, rx@),
                Err(e) => not_finished(self@, e),
            },
    {
        match self.handshake.into_transport_mode() {
            Ok(session) => Ok((session, PacketTx::new(), PacketRx::new())),
            Err(e) => Err(ConnectionError::Noise(e)),
        }
    }
}

/// Whether a session and the two halves of its packet transport are what a finished
/// handshake leads to: a session that is linked with that of the peer and numbers its
/// messages from zero, and halves for which nothing has passed.
pub open spec fn established(
    hs: HandshakeView,
    session: SessionView,
    tx: BuilderState,
    rx: RxState,
) -> bool {
    &&& handshake_session(hs) == Some(session)
    &&& hs.setup == NOISE_PARAMS@ ==> hs.transcript.len() == 3
    &&& hs.two_way ==> session.can_send && session.can_recv
    &&& session.send_nonce == 0
    &&& session.recv_nonce == 0
    &&& sessions_meet(hs, session)
    &&& tx == (BuilderState { in_progress: false, is_first: false, msg_type: 0 })
    &&& rx == RxState::new()
}

/// Whether `error` reports that a handshake is not finished, and it is not.
pub open spec fn not_finished(hs: HandshakeView, error: ConnectionError) -> bool {
    &&& error == ConnectionError::Noise(handshake_split_error(hs))
    &&& handshake_session(hs) is None
    &&& hs.setup == NOISE_PARAMS@ ==> hs.transcript.len() != 3
}

/// Whether `error` reports that a handshake cannot send a payload, and it cannot.
pub open spec fn send_refused(hs: HandshakeView, payload: Seq<u8>, error: ConnectionError) -> bool {
    &&& error == ConnectionError::Noise(handshake_write_error(hs, payload))
    &&& hs.setup == NOISE_PARAMS@ ==> !hs.can_send(payload)
}

/// An authenticated connection: the session, the two halves of its message transport,
/// and who the peer is.
pub struct Transport {
    pub session: snow::TransportState,
    pub tx: MessageTx,
    pub rx: MessageRx,
    pub details: AuthDetails,
}

/// Whether details are those of a header.
pub open spec fn details_of(details: AuthDetails, header: HeaderView) -> bool {
    &&& details.node_id@ == header.node_id
    &&& role_view(details.role) == header.role
}

/// Start a handshake as the initiator: the frame to write, and what then waits for the
/// responder's answer.
pub fn connect(local_private: &TransportPrivateKey) -> (r: Result<
    (Connecting, Vec<u8>),
    ConnectionError,
>)
    ensures
        r is Ok,
        exists|start: HandshakeView|
            fresh(start, true, local_private@) && #[trigger] frame_sent(
                start,
                r->Ok_0.0@,
                Seq::empty(),
                r->Ok_0.1@,
            ),
{
    let mut hs = match HandshakeContext::new_initiator(local_private) {
        Ok(hs) => hs,
        Err(e) => return Err(e),
    };
    let ghost start = hs@;
    let nothing: Vec<u8> = Vec::new();
    match hs.send(nothing.as_slice()) {
        Ok(frame) => {
            let connecting = Connecting { hs };
            let r: Result<(Connecting, Vec<u8>), ConnectionError> = Ok((connecting, frame));
            assert(frame_sent(start, r->Ok_0.0@, Seq::empty(), r->Ok_0.1@));
            r
        },
        Err(e) => Err(e),
    }
}

/// An initiator that has sent its first message.
pub struct Connecting {
    hs: HandshakeContext,
}

impl View for Connecting {
    type V = HandshakeView;

    closed spec fn view(&self) -> HandshakeView {
        self.hs@
    }
}

/// Takes a message that carries a signed auth header, and authenticates the peer.
fn hear_peer(
    hs: &mut HandshakeContext,
    message: &[u8],
    verification_key: &SignatureVerificationKey,
) -> (r: Result<AuthDetails, ConnectionError>)
    ensures
        match handshake_payload(old(hs)@, message@) {
            None => r == Err::<AuthDetails, ConnectionError>(
                ConnectionError::Noise(handshake_read_error(old(hs)@, message@)),
            ),
            Some(payload) => {
                let remote = handshake_remote_static(final(hs)@);
                &&& final(hs)@ == old(hs)@.after(message@)
                &&& knows_its_peer(final(hs)@)
                &&& match r {
                    Ok(details) => {
                        &&& authenticated(verification_key@, payload, remote) is Some
                        &&& details_of(
                            details,
                            authenticated(verification_key@, payload, remote)->0,
                        )
                    },
                    Err(e) => {
                        &&& authenticated(verification_key@, payload, remote) is None
                        &&& refused(verification_key@, payload, remote, e)
                    },
                }
            },
        },
{
    let payload = match hs.recv(message) {
        Ok(payload) => copy_of(payload),
        Err(e) => return Err(e),
    };
    match authenticate(verification_key, payload.as_slice(), hs.handshake.get_remote_static()) {
        Ok(header) => Ok(AuthDetails::from(header)),
        Err(e) => Err(e),
    }
}

impl Connecting {
    /// Take the responder's answer from a frame's data, and authenticate the responder.
    pub fn on_reply(self, message: &[u8], verification_key: &SignatureVerificationKey) -> (r: Result<
        Replied,
        ConnectionError,
    >)
        ensures
            match handshake_payload(self@, message@) {
                None => r == Err::<Replied, ConnectionError>(
                    ConnectionError::Noise(handshake_read_error(self@, message@)),
                ),
                Some(payload) => {
                    let heard = self@.after(message@);
                    let remote = handshake_remote_static(heard);
                    &&& knows_its_peer(heard)
                    &&& match r {
                        Ok(replied) => {
                            &&& replied@ == heard
                            &&& authenticated(verification_key@, payload, remote) is Some
                            &&& details_of(
                                replied.peer(),
                                authenticated(verification_key@, payload, remote)->0,
                            )
                        },
                        Err(e) => {
                            &&& authenticated(verification_key@, payload, remote) is None
                            &&& refused(verification_key@, payload, remote, e)
                        },
                    }
                },
            },
    {
        let mut hs = self.hs;
        match hear_peer(&mut hs, message, verification_key) {
            Ok(details) => Ok(Replied { hs, details }),
            Err(e) => Err(e),
        }
    }
}

/// An initiator that has authenticated the responder and not yet identified itself.
pub struct Replied {
    hs: HandshakeContext,
    details: AuthDetails,
}

impl View for Replied {
    type V = HandshakeView;

    closed spec fn view(&self) -> HandshakeView {
        self.hs@
    }
}

impl Replied {
    /// Who the peer is.
    pub closed spec fn peer(&self) -> AuthDetails {
        self.details
    }

    /// Who the peer is.
    pub fn details(&self) -> (details: &AuthDetails)
        ensures
            *details == self.peer(),
    {
        &self.details
    }

    /// Send this side's signed auth header: the frame to write.
    pub fn confirm(self, local_auth_header: &SignedAuthHeader) -> (r: Result<
        (Confirmed, Vec<u8>),
        ConnectionError,
    >)
        ensures
            match r {
                Ok((confirmed, frame)) => {
                    &&& frame_sent(self@, confirmed@, local_auth_header@, frame@)
                    &&& confirmed.peer() == self.peer()
                },
                Err(e) => send_refused(self@, local_auth_header@, e),
            },
    {
        let mut hs = self.hs;
        match hs.send(local_auth_header.expose()) {
            Ok(frame) => Ok((Confirmed { hs, details: self.details }, frame)),
            Err(e) => Err(e),
        }
    }
}

/// A side for which every message of the handshake has passed.
pub struct Confirmed {
    hs: HandshakeContext,
    details: AuthDetails,
}

impl View for Confirmed {
    type V = HandshakeView;

    closed spec fn view(&self) -> HandshakeView {
        self.hs@
    }
}

impl Confirmed {
    /// Who the peer is.
    pub closed spec fn peer(&self) -> AuthDetails {
        self.details
    }

    /// Who the peer is.
    pub fn details(&self) -> (details: &AuthDetails)
        ensures
            *details == self.peer(),
    {
        &self.details
    }

    /// The session, the two halves of its packet transport, and who the peer is.
    pub fn into_split(self) -> (r: Result<
        (snow::TransportState, PacketTx, PacketRx, AuthDetails),
        ConnectionError,
    >)
        ensures
            match r {
                Ok((session, tx, rx, details)) => {
                    &&& established(self@, session_of(session), tx@, rx@)
                    &&& details == self.peer()
                },
                Err(e) => not_finished(self@, e),
            },
    {
        match self.hs.into_split() {
            Ok((session, tx, rx)) => Ok((session, tx, rx, self.details)),
            Err(e) => Err(e),
        }
    }

    /// The authenticated connection.
    pub fn finish(self) -> (r: Result<Transport, ConnectionError>)
        ensures
            match r {
                Ok(transport) => {
                    &&& established(
                        self@,
                        session_of(transport.session),
                        transport.tx.packets@,
                        transport.rx@.packets,
                    )
                    &&& transport.rx@.bytes == Seq::<u8>::empty()
                    &&& transport.details == self.peer()
                },
                Err(e) => not_finished(self@, e),
            },
    {
        match self.into_split() {
            Ok((session, tx, rx, details)) => Ok(
                Transport { session, tx: MessageTx::new(tx), rx: MessageRx::new(rx), details },
            ),
            Err(e) => Err(e),
        }
    }
}

/// Start a handshake as the responder, which waits for the initiator's first message.
pub fn accept(local_private: &TransportPrivateKey) -> (r: Result<Accepting, ConnectionError>)
    ensures
        r is Ok,
        fresh(r->Ok_0@, false, local_private@),
{
    match HandshakeContext::new_responder(local_private) {
        Ok(hs) => Ok(Accepting { hs }),
        Err(e) => Err(e),
    }
}

/// A responder that waits for the initiator's first message.
pub struct Accepting {
    hs: HandshakeContext,
}

impl View for Accepting {
    type V = HandshakeView;

    closed spec fn view(&self) -> HandshakeView {
        self.hs@
    }
}

impl Accepting {
    /// Take the initiator's first message from a frame's data, and answer with this
    /// side's signed auth header: the frame to write.
    pub fn on_hello(self, message: &[u8], local_auth_header: &SignedAuthHeader) -> (r: Result<
        (Answered, Vec<u8>),
        ConnectionError,
    >)
        ensures
            match handshake_payload(self@, message@) {
                None => r == Err::<(Answered, Vec<u8>), ConnectionError>(
                    ConnectionError::Noise(handshake_read_error(self@, message@)),
                ),
                Some(_) => {
                    let heard = self@.after(message@);
                    match r {
                        Ok((answered, frame)) => frame_sent(
                            heard,
                            answered@,
                            local_auth_header@,
                            frame@,
                        ),
                        Err(e) => send_refused(heard, local_auth_header@, e),
                    }
                },
            },
    {
        let mut hs = self.hs;
        match hs.recv(message) {
            Ok(_) => {},
            Err(e) => return Err(e),
        }
        match hs.send(local_auth_header.expose()) {
            Ok(frame) => Ok((Answered { hs }, frame)),
            Err(e) => Err(e),
        }
    }
}

/// A responder that has identified itself and waits for the initiator to do so.
pub struct Answered {
    hs: HandshakeContext,
}

impl View for Answered {
    type V = HandshakeView;

    closed spec fn view(&self) -> HandshakeView {
        self.hs@
    }
}

impl Answered {
    /// Take the initiator's last message from a frame's data, and authenticate the
    /// initiator.
    pub fn on_reply(self, message: &[u8], verification_key: &SignatureVerificationKey) -> (r: Result<
        Confirmed,
        ConnectionError,
    >)
        ensures
            match handshake_payload(self@, message@) {
                None => r == Err::<Confirmed, ConnectionError>(
                    ConnectionError::Noise(handshake_read_error(self@, message@)),
                ),
                Some(payload) => {
                    let heard = self@.after(message@);
                    let remote = handshake_remote_static(heard);
                    &&& knows_its_peer(heard)
                    &&& match r {
                        Ok(confirmed) => {
                            &&& confirmed@ == heard
                            &&& authenticated(verification_key@, payload, remote) is Some
                            &&& details_of(
                                confirmed.peer(),
                                authenticated(verification_key@, payload, remote)->0,
                            )
                        },
                        Err(e) => {
                            &&& authenticated(verification_key@, payload, remote) is None
                            &&& refused(verification_key@, payload, remote, e)
                        },
                    }
                },
            },
    {
        let mut hs = self.hs;
        match hear_peer(&mut hs, message, verification_key) {
            Ok(details) => Ok(Confirmed { hs, details }),
            Err(e) => Err(e),
        }
    }
}

/// Whether the session of a finished handshake is linked, both ways, with the session of
/// whatever handshake it faces.
pub open spec fn sessions_meet(hs: HandshakeView, session: SessionView) -> bool {
    forall|peer: HandshakeView| #[trigger]
        facing(hs, peer) ==> {
            &&& handshake_session(peer) is Some
            &&& linked(session, handshake_session(peer)->0)
            &&& linked(handshake_session(peer)->0, session)
            &&& handshake_session(peer)->0.can_send && handshake_session(peer)->0.can_recv
        }
}

/// Two handshakes that face each other still do once one of them, whose turn it is, has
/// sent a message that the other took.
pub proof fn lemma_still_facing(a: HandshakeView, b: HandshakeView, payload: Seq<u8>)
    requires
        facing(a, b),
        a.sends_at(a.transcript.len() as int),
    ensures
        facing(
            a.after(handshake_message(a, payload)),
            b.after(handshake_message(a, payload)),
        ),
{
    let message = handshake_message(a, payload);
    let a2 = a.after(message);
    let b2 = b.after(message);
    let n = a.transcript.len() as int;
    assert forall|i: int| 0 <= i < a2.transcript.len() implies #[trigger] turn_kept(a2, b2, i) by {
        if i < n {
            assert(turn_kept(a, b, i));
        }
        if i == n {
            assert(a2.transcript.take(n) =~= a.transcript);
            assert(a2.before(i) == a);
            assert(a2.transcript[i] == handshake_message(a2.before(i), payload));
        } else if a.sends_at(i) {
            let p = choose|p: Seq<u8>| a.transcript[i] == #[trigger] handshake_message(a.before(i), p);
            assert(a2.transcript.take(i) =~= a.transcript.take(i));
            assert(a2.transcript[i] == handshake_message(a2.before(i), p));
        } else {
            let p = choose|p: Seq<u8>| b.transcript[i] == #[trigger] handshake_message(b.before(i), p);
            assert(b2.transcript.take(i) =~= b.transcript.take(i));
            assert(b2.transcript[i] == handshake_message(b2.before(i), p));
        }
    }
}

/// To face each other is mutual.
pub proof fn lemma_facing_is_mutual(a: HandshakeView, b: HandshakeView)
    requires
        facing(a, b),
    ensures
        facing(b, a),
{
    assert forall|i: int| 0 <= i < b.transcript.len() implies #[trigger] turn_kept(b, a, i) by {
        assert(turn_kept(a, b, i));
    }
}

/// Two peers whose messages reach each other complete the handshake: each finds what the
/// other sent, each learns the public key of the other's private key, each accepts the
/// other's header if it is signed and declares that key, and they end up facing each
/// other, so that their sessions are linked.
pub proof fn lemma_honest_handshake(
    i0: HandshakeView,
    i1: HandshakeView,
    i3: HandshakeView,
    r0: HandshakeView,
    r2: HandshakeView,
    initiator_private: Seq<u8>,
    responder_private: Seq<u8>,
    initiator_header: Seq<u8>,
    responder_header: Seq<u8>,
    m1: Seq<u8>,
    m2: Seq<u8>,
    m3: Seq<u8>,
    key: Seq<u8>,
)
    requires
        fresh(i0, true, initiator_private),
        fresh(r0, false, responder_private),
        sent_as(i0, i1, Seq::empty(), m1),
        sent_as(r0.after(m1), r2, responder_header, m2),
        knows_its_peer(i1.after(m2)),
        sent_as(i1.after(m2), i3, initiator_header, m3),
        knows_its_peer(r2.after(m3)),
    ensures
        handshake_payload(r0, m1) == Some(Seq::<u8>::empty()),
        handshake_payload(i1, m2) == Some(responder_header),
        handshake_payload(r2, m3) == Some(initiator_header),
        handshake_remote_static(i1.after(m2)) == Some(
            noise_public_key(NOISE_PARAMS@, responder_private),
        ),
        handshake_remote_static(r2.after(m3)) == Some(
            noise_public_key(NOISE_PARAMS@, initiator_private),
        ),
        verified_header(key, responder_header) matches Ok(header) ==> (header.public_key
            == noise_public_key(NOISE_PARAMS@, responder_private) && header.public_key.len() == 32
            ==> authenticated(
            key,
            responder_header,
            handshake_remote_static(i1.after(m2)),
        ) == Some(header)),
        verified_header(key, initiator_header) matches Ok(header) ==> (header.public_key
            == noise_public_key(NOISE_PARAMS@, initiator_private) && header.public_key.len() == 32
            ==> authenticated(
            key,
            initiator_header,
            handshake_remote_static(r2.after(m3)),
        ) == Some(header)),
        facing(i3, r2.after(m3)),
        facing(r2.after(m3), i3),
{
    // The first message.
    let i_sent = HandshakeView { ephemeral: i1.ephemeral, ..i0 };
    assert(facing(i_sent, r0));
    lemma_still_facing(i_sent, r0, Seq::empty());
    let r1 = r0.after(m1);
    assert(facing(i1, r1));
    // The second: the responder's ephemeral key is new, and it has sent nothing yet.
    let r_sent = HandshakeView { ephemeral: r2.ephemeral, ..r1 };
    assert(facing(i1, r_sent)) by {
        assert forall|i: int| 0 <= i < i1.transcript.len() implies #[trigger] turn_kept(
            i1,
            r_sent,
            i,
        ) by {
            assert(turn_kept(i1, r1, i));
        }
    }
    lemma_facing_is_mutual(i1, r_sent);
    lemma_still_facing(r_sent, i1, responder_header);
    let i2 = i1.after(m2);
    lemma_facing_is_mutual(r2, i2);
    // The third.
    assert(i2.transcript.len() == 2);
    lemma_still_facing(i2, r2, initiator_header);
    lemma_facing_is_mutual(i3, r2.after(m3));
    assert(i1.private == initiator_private);
    assert(r2.private == responder_private);
    assert(r2.after(m3).transcript.len() == 3);
}

/// A stolen header is of no use: a peer that does not hold the private key of the public
/// key in the header that it shows is refused.
pub proof fn lemma_stolen_header_is_refused(
    hs: HandshakeView,
    peer: HandshakeView,
    key: Seq<u8>,
    payload: Seq<u8>,
)
    requires
        facing(hs, peer),
        hs.knows_remote_static(),
        knows_its_peer(hs),
        verified_header(key, payload) matches Ok(header) ==> header.public_key != noise_public_key(
            NOISE_PARAMS@,
            peer.private,
        ),
    ensures
        authenticated(key, payload, handshake_remote_static(hs)) is None,
{
}

/// The header of a peer that is authenticated is the one that the cluster signed, as it
/// stands, and a peer is authenticated exactly if there is one and it declares the static
/// key of the handshake.
pub proof fn lemma_authenticated(key: Seq<u8>, payload: Seq<u8>, remote_static: Option<Seq<u8>>)
    ensures
        authenticated(key, payload, remote_static) matches Some(header) ==> verified_header(
            key,
            payload,
        ) == Ok::<HeaderView, SignatureValidationErr>(header) && remote_static == Some(
            header.public_key,
        ),
        authenticated(key, payload, remote_static) is Some <==> (verified_header(key, payload) matches Ok(
            header,
        ) && remote_static == Some(header.public_key)),
{
    if let Ok(header) = verified_header(key, payload) {
        lemma_verified_header(key, payload, header);
    }
}

/// A peer that is not authenticated is refused for one reason, and one that is
/// authenticated for none. A bad signature comes first, then a static key that is missing,
/// one that has another length than 32, and one that is not the declared one.
pub proof fn lemma_refused(
    key: Seq<u8>,
    payload: Seq<u8>,
    remote_static: Option<Seq<u8>>,
    error: ConnectionError,
)
    requires
        refused(key, payload, remote_static, error),
    ensures
        authenticated(key, payload, remote_static) is None,
        verified_header(key, payload) matches Err(e) ==> error == ConnectionError::BadAuth(
            BadAuth::Signature(e),
        ),
        verified_header(key, payload) is Ok && remote_static is None ==> error
            == ConnectionError::MissingRemoteStatic,
        verified_header(key, payload) is Ok && remote_static is Some && remote_static->0.len() != 32
            ==> error == ConnectionError::RemoteStaticKeyLength,
        verified_header(key, payload) matches Ok(header) ==> (remote_static is Some
            && remote_static->0.len() == 32 ==> {
            &&& error matches ConnectionError::BadAuth(
                BadAuth::PublicKeyMismatch { expected, actual },
            )
            &&& expected@ == header.public_key
            &&& actual@ == remote_static->0
            &&& expected@ != actual@
        }),
{
    if let Ok(header) = verified_header(key, payload) {
        lemma_verified_header(key, payload, header);
    }
}

/// The details of a header are its node id and its role, whole.
pub proof fn lemma_details_of(details: AuthDetails, header: HeaderView)
    ensures
        details_of(details, header) <==> details.node_id@ == header.node_id && match (
            details.role,
            header.role,
        ) {
            (Some(bytes), Some(role)) => bytes@ == role,
            (None, None) => true,
            _ => false,
        },
{
}

/// A frame of the handshake is the message that was sent behind its length.
pub proof fn lemma_frame_sent(
    before: HandshakeView,
    after: HandshakeView,
    payload: Seq<u8>,
    frame: Seq<u8>,
)
    requires
        frame_sent(before, after, payload, frame),
    ensures
        frame.len() >= 2,
        frame[0] * 256 + frame[1] == frame.len() - 2,
        sent_as(before, after, payload, frame.skip(2)),
        after.transcript == before.transcript.push(frame.skip(2)),
{
    let message = choose|message: Seq<u8>|
        #[trigger] sent_as(before, after, payload, message) && frame == wire_frame(message);
    lemma_frame_layout(message);
}

/// What a finished handshake leads to: nothing has been sent or received, any message can
/// be started, and what one end then sends, the other end of the same handshake opens.
pub proof fn lemma_established(
    hs: HandshakeView,
    session: SessionView,
    tx: BuilderState,
    rx: RxState,
)
    requires
        established(hs, session, tx, rx),
    ensures
        session.send_nonce == 0 && session.recv_nonce == 0,
        hs.two_way ==> session.can_send && session.can_recv,
        !tx.in_progress,
        !rx.reader.in_progress,
        rx.has_payload(),
        rx.payload() == Seq::<u8>::empty(),
        forall|peer: HandshakeView| #[trigger]
            facing(hs, peer) ==> {
                &&& handshake_session(peer) matches Some(other)
                &&& other.can_send && other.can_recv
                &&& session.send_key == other.recv_key && session.recv_key == other.send_key
                &&& session.send_nonce == other.recv_nonce && session.recv_nonce == other.send_nonce
            },
{
}

/// Two peers that hold the private keys of the public keys in the headers that the cluster
/// signed for them, and whose messages reach each other, each learn who the other is: the
/// details that a side is told of are the node id and the role in the other's header.
pub proof fn lemma_honest_peers_know_each_other(
    i0: HandshakeView,
    i1: HandshakeView,
    i3: HandshakeView,
    r0: HandshakeView,
    r2: HandshakeView,
    initiator_private: Seq<u8>,
    responder_private: Seq<u8>,
    initiator_header: HeaderView,
    responder_header: HeaderView,
    secret: Seq<u8>,
    key: Seq<u8>,
    m1: Seq<u8>,
    m2: Seq<u8>,
    m3: Seq<u8>,
)
    requires
        can_be_signed(initiator_header, secret, key),
        can_be_signed(responder_header, secret, key),
        initiator_header.public_key == noise_public_key(NOISE_PARAMS@, initiator_private),
        responder_header.public_key == noise_public_key(NOISE_PARAMS@, responder_private),
        fresh(i0, true, initiator_private),
        fresh(r0, false, responder_private),
        sent_as(i0, i1, Seq::empty(), m1),
        sent_as(
            r0.after(m1),
            r2,
            signed_record(secret, frame_bytes(header_fields(responder_header))),
            m2,
        ),
        knows_its_peer(i1.after(m2)),
        sent_as(
            i1.after(m2),
            i3,
            signed_record(secret, frame_bytes(header_fields(initiator_header))),
            m3,
        ),
        knows_its_peer(r2.after(m3)),
    ensures
        handshake_payload(i1, m2) matches Some(payload) && authenticated(
            key,
            payload,
            handshake_remote_static(i1.after(m2)),
        ) == Some(responder_header),
        handshake_payload(r2, m3) matches Some(payload) && authenticated(
            key,
            payload,
            handshake_remote_static(r2.after(m3)),
        ) == Some(initiator_header),
        forall|details: AuthDetails| #[trigger]
            details_of(details, responder_header) ==> details.node_id@ == responder_header.node_id
                && role_view(details.role) == responder_header.role,
        forall|details: AuthDetails| #[trigger]
            details_of(details, initiator_header) ==> details.node_id@ == initiator_header.node_id
                && role_view(details.role) == initiator_header.role,
{
    lemma_signed_header(key, secret, initiator_header);
    lemma_signed_header(key, secret, responder_header);
    lemma_honest_handshake(
        i0,
        i1,
        i3,
        r0,
        r2,
        initiator_private,
        responder_private,
        signed_record(secret, frame_bytes(header_fields(initiator_header))),
        signed_record(secret, frame_bytes(header_fields(responder_header))),
        m1,
        m2,
        m3,
        key,
    );
}

/// Whether a header is one that can be written and signed, and a key accepts the signature.
pub open spec fn can_be_signed(header: HeaderView, secret: Seq<u8>, key: Seq<u8>) -> bool {
    let data = frame_bytes(header_fields(header));
    &&& header.node_id.len() <= 512
    &&& header.public_key.len() == 32
    &&& header.role matches Some(role) ==> role.len() < 0x1_0000_0000
    &&& ed25519_signature(secret, data).len() == 64
    &&& ed25519_verifies(key, data, ed25519_signature(secret, data))
}

} // verus!
