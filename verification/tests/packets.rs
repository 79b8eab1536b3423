use snowpack::handshake::{accept, authenticate, connect, remote_key, Confirmed, HandshakeContext};
use snowpack::messages::{MessagePackets, PacketsStep};
use snowpack::packet_state::{PacketBuildError, PacketHeader, PacketKind, MAX_PACKET_SIZE};
use snowpack::packets::{frame_len, write_frame, PacketRx, PacketTx, ReaderStep};
use snowpack::sign::SignatureValidationErr;
use snowpack::transport::{MessageTransport, PacketTransport};
use snowpack::{
    AuthHeader, BadAuth, ConnectionError, NodeId, PacketReadError, SignatureKeypair,
    SignatureVerificationKey, SignedAuthHeader, TransportKeypair, TransportPrivateKey,
};

// -----------------------------------------------------------------------
// Fixtures
// -----------------------------------------------------------------------

struct NodeFixture {
    node_id: NodeId,
    transport: TransportKeypair,
    auth_header: SignedAuthHeader,
}

impl NodeFixture {
    fn new(node_id: u64, cluster_kp: &SignatureKeypair) -> Self {
        let transport = TransportKeypair::generate().expect("keygen failed");
        let auth_header = AuthHeader::new(NodeId::from(node_id), None, &transport.public)
            .sign(&cluster_kp.private);
        Self { node_id: NodeId::from(node_id), transport, auth_header }
    }
}

/// The data of a frame, as a reader of the stream gets it.
fn data(frame: &[u8]) -> &[u8] {
    let len = frame_len([frame[0], frame[1]]);
    assert_eq!(frame.len(), 2 + len);
    &frame[2..]
}

/// Both sides of a handshake: the server's result and the client's.
fn handshake(
    server_private: &TransportPrivateKey,
    server_auth: &SignedAuthHeader,
    client_private: &TransportPrivateKey,
    client_auth: &SignedAuthHeader,
    key: &SignatureVerificationKey,
) -> Result<(Confirmed, Confirmed), ConnectionError> {
    let (connecting, hello) = connect(client_private)?;
    let (answered, answer) = accept(server_private)?.on_hello(data(&hello), server_auth)?;
    let replied = connecting.on_reply(data(&answer), key)?;
    let (client, confirmation) = replied.confirm(client_auth)?;
    let server = answered.on_reply(data(&confirmation), key)?;
    Ok((server, client))
}

struct End {
    session: snow::TransportState,
    tx: PacketTx,
    rx: PacketRx,
}

impl End {
    fn new(confirmed: Confirmed) -> Self {
        let (session, tx, rx, _) = confirmed.into_split().ok().unwrap();
        End { session, tx, rx }
    }

    fn send_slice(&mut self, payload: &[u8], last: bool) -> Vec<Vec<u8>> {
        let mut send = self.tx.send_slice(payload, last);
        let mut frames = Vec::new();
        while let Some(frame) = send.next(&mut self.tx, &mut self.session).unwrap() {
            frames.push(frame);
        }
        frames
    }

    fn read_packet(&mut self, frame: &[u8]) -> Result<PacketHeader, ConnectionError> {
        self.rx.read_packet(&mut self.session, data(frame))
    }
}

fn connect_pair(server: &NodeFixture, client: &NodeFixture, key: &SignatureVerificationKey) -> (End, End) {
    let (s, c) = handshake(
        &server.transport.private,
        &server.auth_header,
        &client.transport.private,
        &client.auth_header,
        key,
    )
    .expect("handshake failed");
    (End::new(s), End::new(c))
}

fn pair() -> (End, End) {
    let cluster_kp = SignatureKeypair::generate().unwrap();
    let server = NodeFixture::new(1, &cluster_kp);
    let client = NodeFixture::new(2, &cluster_kp);
    connect_pair(&server, &client, &cluster_kp.public)
}

// -----------------------------------------------------------------------
// Frames
// -----------------------------------------------------------------------

#[test]
fn frame_is_a_big_endian_length_and_the_data() {
    assert_eq!(write_frame(&[7, 8, 9]).unwrap(), vec![0, 3, 7, 8, 9]);
    assert_eq!(write_frame(&[]).unwrap(), vec![0, 0]);
    let long = write_frame(&vec![1u8; 0x0102]).unwrap();
    assert_eq!(&long[..2], &[1, 2]);
    assert_eq!(frame_len([1, 2]), 0x0102);
    assert_eq!(frame_len([0xFF, 0xFF]), 65535);
}

#[test]
fn frame_of_more_than_a_16_bit_length_overflows() {
    assert!(write_frame(&vec![0u8; 65535]).is_ok());
    assert!(matches!(write_frame(&vec![0u8; 65536]), Err(ConnectionError::PacketOverflow)));
}

// -----------------------------------------------------------------------
// Handshake — happy path
// -----------------------------------------------------------------------

#[test]
fn packets_handshake_completes() {
    pair();
}

#[test]
fn packets_accept_returns_correct_remote_node_id() {
    let cluster_kp = SignatureKeypair::generate().unwrap();
    let server = NodeFixture::new(1, &cluster_kp);
    let client = NodeFixture::new(2, &cluster_kp);
    let (s, c) = handshake(
        &server.transport.private,
        &server.auth_header,
        &client.transport.private,
        &client.auth_header,
        &cluster_kp.public,
    )
    .unwrap();
    assert_eq!(s.details().node_id, client.node_id);
    assert_eq!(c.details().node_id, server.node_id);
    let transport = s.finish().unwrap();
    assert_eq!(transport.details.node_id, client.node_id);
}

#[test]
fn handshake_carries_the_role() {
    let cluster_kp = SignatureKeypair::generate().unwrap();
    let server = NodeFixture::new(1, &cluster_kp);
    let client = TransportKeypair::generate().unwrap();
    let client_auth =
        AuthHeader::new(2u32, Some(b"writer"), &client.public).sign(&cluster_kp.private);
    let (s, c) = handshake(
        &server.transport.private,
        &server.auth_header,
        &client.private,
        &client_auth,
        &cluster_kp.public,
    )
    .unwrap();
    assert_eq!(s.details().role, Some(b"writer".to_vec()));
    assert_eq!(c.details().role, None);
}

// -----------------------------------------------------------------------
// Handshake — rejection tests
// -----------------------------------------------------------------------

#[test]
fn packets_connect_rejects_auth_header_signed_with_wrong_key() {
    let cluster_kp = SignatureKeypair::generate().unwrap();
    let rogue_kp = SignatureKeypair::generate().unwrap();
    let server = NodeFixture::new(1, &rogue_kp);
    let client = NodeFixture::new(2, &cluster_kp);
    let err = handshake(
        &server.transport.private,
        &server.auth_header,
        &client.transport.private,
        &client.auth_header,
        &cluster_kp.public,
    )
    .err()
    .expect("expected auth failure");
    assert!(
        matches!(
            err,
            ConnectionError::BadAuth(BadAuth::Signature(SignatureValidationErr::BadSignature))
        ),
        "got: {err:?}"
    );
}

#[test]
fn packets_connect_rejects_static_key_mismatch() {
    let cluster_kp = SignatureKeypair::generate().unwrap();
    let declared = TransportKeypair::generate().unwrap();
    let server_auth = AuthHeader::new(1u32, None, &declared.public).sign(&cluster_kp.private);
    let actual = TransportKeypair::generate().unwrap();
    let client = NodeFixture::new(2, &cluster_kp);
    let err = handshake(
        &actual.private,
        &server_auth,
        &client.transport.private,
        &client.auth_header,
        &cluster_kp.public,
    )
    .err()
    .expect("expected key mismatch");
    let ConnectionError::BadAuth(BadAuth::PublicKeyMismatch { expected, actual: found }) = err
    else {
        panic!("got: {err:?}");
    };
    assert_eq!(expected, declared.public);
    assert_eq!(found, actual.public);
}

#[test]
fn accept_rejects_a_stolen_header() {
    let cluster_kp = SignatureKeypair::generate().unwrap();
    let server = NodeFixture::new(1, &cluster_kp);
    let victim = NodeFixture::new(2, &cluster_kp);
    let thief = TransportKeypair::generate().unwrap();
    let err = handshake(
        &server.transport.private,
        &server.auth_header,
        &thief.private,
        &victim.auth_header,
        &cluster_kp.public,
    )
    .err()
    .expect("expected key mismatch");
    assert!(matches!(err, ConnectionError::BadAuth(BadAuth::PublicKeyMismatch { .. })));
}

#[test]
fn garbage_handshake_messages_are_noise_errors() {
    let kp = TransportKeypair::generate().unwrap();
    let cluster_kp = SignatureKeypair::generate().unwrap();
    let (connecting, _) = connect(&kp.private).unwrap();
    let err = connecting.on_reply(&[0u8; 10], &cluster_kp.public).err().unwrap();
    assert!(matches!(err, ConnectionError::Noise(_)));

    let auth = AuthHeader::new(1u32, None, &kp.public).sign(&cluster_kp.private);
    let err = accept(&kp.private).unwrap().on_hello(&[], &auth).err().unwrap();
    assert!(matches!(err, ConnectionError::Noise(_)));
}

#[test]
fn header_that_leaves_no_room_is_a_noise_error() {
    let cluster_kp = SignatureKeypair::generate().unwrap();
    let kp = TransportKeypair::generate().unwrap();
    let (_, hello) = connect(&kp.private).unwrap();
    let role = vec![0u8; 65535];
    let auth = AuthHeader::new(1u32, Some(&role), &kp.public).sign(&cluster_kp.private);
    let err = accept(&kp.private).unwrap().on_hello(data(&hello), &auth).err().unwrap();
    assert!(matches!(err, ConnectionError::Noise(snow::Error::Input)));
}

#[test]
fn handshake_payloads_fill_a_message_to_the_last_byte() {
    let cluster_kp = SignatureKeypair::generate().unwrap();
    let server = NodeFixture::new(1, &cluster_kp);
    let client = TransportKeypair::generate().unwrap();
    for (size, fits) in [(65535 - 96, true), (65535 - 95, false)] {
        let (_, hello) = connect(&client.private).unwrap();
        let auth = SignedAuthHeader::from_bytes(vec![0; size]);
        let answer = accept(&server.transport.private).unwrap().on_hello(data(&hello), &auth);
        assert_eq!(answer.is_ok(), fits);
    }
    for (size, fits) in [(65535 - 64, true), (65535 - 63, false)] {
        let (connecting, hello) = connect(&client.private).unwrap();
        let (_, answer) = accept(&server.transport.private)
            .unwrap()
            .on_hello(data(&hello), &server.auth_header)
            .ok()
            .unwrap();
        let replied = connecting.on_reply(data(&answer), &cluster_kp.public).ok().unwrap();
        let auth = SignedAuthHeader::from_bytes(vec![0; size]);
        assert_eq!(replied.confirm(&auth).is_ok(), fits);
    }
}

#[test]
fn authenticate_checks_signature_then_key() {
    let cluster_kp = SignatureKeypair::generate().unwrap();
    let node = NodeFixture::new(5, &cluster_kp);
    let payload = node.auth_header.expose();
    let key = node.transport.public.as_bytes().as_slice();

    let header = authenticate(&cluster_kp.public, payload, Some(key)).unwrap();
    assert!(header.validate_public_key(&node.transport.public).is_ok());

    assert!(matches!(
        authenticate(&cluster_kp.public, payload, None),
        Err(ConnectionError::MissingRemoteStatic)
    ));
    assert!(matches!(
        authenticate(&cluster_kp.public, payload, Some(&key[..31])),
        Err(ConnectionError::RemoteStaticKeyLength)
    ));
    assert!(matches!(
        authenticate(&cluster_kp.public, payload, Some(&[9u8; 32])),
        Err(ConnectionError::BadAuth(BadAuth::PublicKeyMismatch { .. }))
    ));
    assert!(matches!(
        authenticate(&cluster_kp.public, &[], None),
        Err(ConnectionError::BadAuth(BadAuth::Signature(SignatureValidationErr::MalformedRecord)))
    ));
    assert_eq!(remote_key(Some(key)).unwrap(), node.transport.public);
}

// -----------------------------------------------------------------------
// Transport I/O
// -----------------------------------------------------------------------

#[test]
fn packets_roundtrip_small_payload() {
    let (mut server, mut client) = pair();
    client.tx.prepare_message(1).unwrap();
    let frames = client.send_slice(b"hello world", true);
    assert_eq!(frames.len(), 1);
    let header = server.read_packet(&frames[0]).unwrap();
    assert_eq!(header, PacketHeader { kind: PacketKind::Sole, msg_type: 1 });
    assert_eq!(server.rx.payload(), b"hello world");
}

#[test]
fn packets_roundtrip_empty_payload() {
    let (mut server, mut client) = pair();
    client.tx.prepare_message(0).unwrap();
    let frames = client.send_slice(&[], true);
    assert_eq!(frames.len(), 1);
    assert_eq!(server.read_packet(&frames[0]).unwrap().kind, PacketKind::Sole);
    assert!(server.rx.payload().is_empty());
}

#[test]
fn packets_roundtrip_large_payload_chunks_correctly() {
    let (mut server, mut client) = pair();
    let data: Vec<u8> = (0u8..=255).cycle().take(MAX_PACKET_SIZE * 3 + 100).collect();
    client.tx.prepare_message(2).unwrap();
    let frames = client.send_slice(&data, true);
    assert_eq!(frames.len(), 4, "expected 4 packets for this payload size");
    let mut received = Vec::new();
    for (i, frame) in frames.iter().enumerate() {
        let header = server.read_packet(frame).unwrap();
        let expected = match i {
            0 => PacketKind::First,
            3 => PacketKind::Last,
            _ => PacketKind::Mid,
        };
        assert_eq!(header.kind, expected);
        received.extend_from_slice(server.rx.payload());
    }
    assert_eq!(received, data);
}

#[test]
fn slices_of_whole_packets_have_no_empty_packet() {
    let (_, mut client) = pair();
    client.tx.prepare_message(2).unwrap();
    let frames = client.send_slice(&vec![5u8; MAX_PACKET_SIZE * 2], true);
    assert_eq!(frames.len(), 2);
    // Length prefix, packet header and tag around a full packet.
    assert_eq!(frames[1].len(), 2 + 65535);
}

#[test]
fn packets_bidirectional_roundtrip() {
    let (mut server, mut client) = pair();
    client.tx.prepare_message(1).unwrap();
    let frames = client.send_slice(b"ping", true);
    server.read_packet(&frames[0]).unwrap();
    assert_eq!(server.rx.payload(), b"ping");

    server.tx.prepare_message(2).unwrap();
    let frames = server.send_slice(b"pong", true);
    client.read_packet(&frames[0]).unwrap();
    assert_eq!(client.rx.payload(), b"pong");
}

#[test]
fn packets_multiple_sequential_messages() {
    let (mut server, mut client) = pair();
    for i in 0u8..5 {
        client.tx.prepare_message(i as u16).unwrap();
        let payload = vec![i; 64];
        let frames = client.send_slice(&payload, true);
        let header = server.read_packet(&frames[0]).unwrap();
        assert_eq!(header.msg_type, i as u16);
        assert_eq!(server.rx.payload(), payload.as_slice());
    }
}

#[test]
fn errors_of_the_builder_and_the_cipher_are_told_apart() {
    let (_, mut client) = pair();
    assert!(matches!(
        client.tx.send_packet(&mut client.session, b"x", true),
        Err(ConnectionError::PacketBuilder(PacketBuildError::NoMessageInProgress))
    ));
    client.tx.prepare_message(1).unwrap();
    assert!(matches!(
        client.tx.prepare_message(2),
        Err(ConnectionError::PacketBuilder(PacketBuildError::MessageAlreadyInProgress))
    ));
    assert!(matches!(
        client.tx.prepare_message(0x1000),
        Err(ConnectionError::PacketBuilder(PacketBuildError::MessageTypeTooLarge(0x1000)))
    ));
    let too_long = vec![0u8; MAX_PACKET_SIZE + 1];
    assert!(matches!(
        client.tx.send_packet(&mut client.session, &too_long, false),
        Err(ConnectionError::Noise(snow::Error::Input))
    ));
}

#[test]
fn tampered_and_replayed_frames_are_refused() {
    let (mut server, mut client) = pair();
    client.tx.prepare_message(1).unwrap();
    let frames = client.send_slice(b"once", true);
    let mut tampered = frames[0].clone();
    *tampered.last_mut().unwrap() ^= 1;
    assert!(matches!(server.read_packet(&tampered), Err(ConnectionError::Noise(_))));
    assert!(server.rx.payload().is_empty());
    // The refused frame changed nothing: the right one is still accepted, once.
    server.read_packet(&frames[0]).unwrap();
    assert_eq!(server.rx.payload(), b"once");
    assert!(matches!(server.read_packet(&frames[0]), Err(ConnectionError::Noise(_))));
}

#[test]
fn refused_frames_overwrite_the_last_payload() {
    let (mut server, mut client) = pair();
    client.tx.prepare_message(1).unwrap();
    let frames = client.send_slice(b"once", true);
    server.read_packet(&frames[0]).unwrap();
    assert!(matches!(
        server.read_packet(&frames[0]),
        Err(ConnectionError::Noise(snow::Error::Decrypt))
    ));
    // The packet's place is kept; the cipher left the ciphertext there.
    assert!(server.rx.has_payload());
    assert_eq!(server.rx.payload(), &data(&frames[0])[2..6]);
    // A shorter frame leaves no room for it.
    assert!(matches!(server.read_packet(&[0, 3, 7, 7, 7]), Err(ConnectionError::Noise(_))));
    assert!(!server.rx.has_payload());
    client.tx.prepare_message(1).unwrap();
    let frames = client.send_slice(b"again", true);
    server.read_packet(&frames[0]).unwrap();
    assert_eq!(server.rx.payload(), b"again");
}

#[test]
fn handshake_errors_are_handed_on_as_they_come() {
    let keys = TransportKeypair::generate().unwrap();
    let mut initiator = HandshakeContext::new_initiator(&keys.private).ok().unwrap();
    assert!(matches!(
        initiator.recv(&[0; 48]),
        Err(ConnectionError::Noise(snow::Error::State(snow::error::StateProblem::NotTurnToRead)))
    ));
    assert!(initiator.send(&[]).is_ok());
    assert!(matches!(
        initiator.send(&[]),
        Err(ConnectionError::Noise(snow::Error::State(snow::error::StateProblem::NotTurnToWrite)))
    ));
    assert!(matches!(
        initiator.into_split(),
        Err(ConnectionError::Noise(snow::Error::State(
            snow::error::StateProblem::HandshakeNotFinished
        )))
    ));
}

#[test]
fn short_frames_are_noise_errors() {
    let (mut server, _) = pair();
    assert!(matches!(server.read_packet(&[0, 0]), Err(ConnectionError::Noise(_))));
    assert!(matches!(
        server.read_packet(&write_frame(&[0u8; 15]).unwrap()),
        Err(ConnectionError::Noise(_))
    ));
}

#[test]
fn protocol_violations_are_packet_errors() {
    let (mut server, mut client) = pair();
    // A continuation of a message that was never started.
    let abort_only = {
        client.tx.prepare_message(3).unwrap();
        client.tx.abort_message(&mut client.session).unwrap().unwrap()
    };
    assert!(matches!(
        server.read_packet(&abort_only),
        Err(ConnectionError::Packet(PacketReadError::MissingMessageStart { msg_type: 3 }))
    ));
    assert!(!server.rx.in_message());
}

// -----------------------------------------------------------------------
// Streams
// -----------------------------------------------------------------------

/// Streams `source` in reads of at most `step` bytes; the sizes of the payloads sent.
fn stream(client: &mut End, source: &[u8], step: usize) -> Vec<Vec<u8>> {
    let mut send = client.tx.send_reader();
    let mut pos = 0;
    let mut frames = Vec::new();
    loop {
        match send.next(&mut client.tx, &mut client.session).unwrap() {
            ReaderStep::Send(frame) => frames.push(frame),
            ReaderStep::Read(space) => {
                assert!(space > 0);
                let n = space.min(step).min(source.len() - pos);
                send.feed(&source[pos..pos + n]);
                pos += n;
            }
            ReaderStep::Done => return frames,
        }
    }
}

fn payload_sizes(frames: &[Vec<u8>]) -> Vec<usize> {
    frames.iter().map(|f| f.len() - 2 - 16 - 2).collect()
}

#[test]
fn stream_is_cut_the_same_way_however_it_is_read() {
    let source: Vec<u8> = (0u8..=250).cycle().take(MAX_PACKET_SIZE * 2 + 17).collect();
    for step in [1000, 4096, MAX_PACKET_SIZE, usize::MAX] {
        let (mut server, mut client) = pair();
        client.tx.prepare_message(6).unwrap();
        let frames = stream(&mut client, &source, step);
        assert_eq!(payload_sizes(&frames), vec![MAX_PACKET_SIZE, MAX_PACKET_SIZE, 17]);
        let mut received = Vec::new();
        let mut kinds = Vec::new();
        for frame in &frames {
            kinds.push(server.read_packet(frame).unwrap().kind);
            received.extend_from_slice(server.rx.payload());
        }
        assert_eq!(kinds, vec![PacketKind::First, PacketKind::Mid, PacketKind::Last]);
        assert_eq!(received, source);
    }
}

#[test]
fn empty_stream_is_one_empty_packet() {
    let (mut server, mut client) = pair();
    client.tx.prepare_message(6).unwrap();
    let frames = stream(&mut client, &[], 100);
    assert_eq!(payload_sizes(&frames), vec![0]);
    assert_eq!(server.read_packet(&frames[0]).unwrap().kind, PacketKind::Sole);
}

#[test]
fn stream_of_whole_packets_ends_with_an_empty_packet() {
    let (mut server, mut client) = pair();
    client.tx.prepare_message(6).unwrap();
    let frames = stream(&mut client, &vec![1u8; MAX_PACKET_SIZE], 5000);
    assert_eq!(payload_sizes(&frames), vec![MAX_PACKET_SIZE, 0]);
    assert_eq!(server.read_packet(&frames[0]).unwrap().kind, PacketKind::First);
    assert_eq!(server.read_packet(&frames[1]).unwrap().kind, PacketKind::Last);
    // The message is complete: there is nothing to abandon, and a new one can start.
    assert!(client.tx.abort_message(&mut client.session).unwrap().is_none());
    client.tx.prepare_message(7).unwrap();
}

// -----------------------------------------------------------------------
// Undivided transports
// -----------------------------------------------------------------------

fn transports() -> (PacketTransport, PacketTransport) {
    let cluster_kp = SignatureKeypair::generate().unwrap();
    let server = NodeFixture::new(1, &cluster_kp);
    let client = NodeFixture::new(2, &cluster_kp);
    let (s, c) = handshake(
        &server.transport.private,
        &server.auth_header,
        &client.transport.private,
        &client.auth_header,
        &cluster_kp.public,
    )
    .unwrap();
    (PacketTransport::new(s).ok().unwrap().0, PacketTransport::new(c).ok().unwrap().0)
}

#[test]
fn connect_rejects_mismatched_node_id() {
    let cluster_kp = SignatureKeypair::generate().unwrap();
    let server = NodeFixture::new(99, &cluster_kp);
    let client = NodeFixture::new(2, &cluster_kp);
    let (connecting, hello) = connect(&client.transport.private).unwrap();
    let (_, answer) = accept(&server.transport.private)
        .unwrap()
        .on_hello(data(&hello), &server.auth_header)
        .unwrap();
    let replied = connecting.on_reply(data(&answer), &cluster_kp.public).ok().unwrap();
    let wrong_target = NodeId::from(1u32);
    assert_eq!(
        replied.details().check_node_id(wrong_target),
        Err(BadAuth::NodeIdMismatch { expected: 1u32.into(), actual: 99u64.into() })
    );
    assert!(replied.details().check_node_id(NodeId::from(99u64)).is_ok());
}

#[test]
fn new_transport_has_seen_nothing() {
    let (server, client) = transports();
    assert!(server.rx.payload().is_empty() && client.rx.payload().is_empty());
    assert!(!server.rx.in_message() && !client.rx.in_message());
}

#[test]
fn packet_transport_handshake_completes() {
    transports();
}

#[test]
fn packet_transport_accept_returns_correct_remote_node_id() {
    let cluster_kp = SignatureKeypair::generate().unwrap();
    let server = NodeFixture::new(1, &cluster_kp);
    let client = NodeFixture::new(2, &cluster_kp);
    let (s, _) = handshake(
        &server.transport.private,
        &server.auth_header,
        &client.transport.private,
        &client.auth_header,
        &cluster_kp.public,
    )
    .unwrap();
    let (_, details) = PacketTransport::new(s).ok().unwrap();
    assert_eq!(details.node_id, client.node_id);
}

#[test]
fn packet_transport_roundtrip_empty_payload() {
    let (mut server, mut client) = transports();
    client.prepare_message(0).unwrap();
    let frame = client.send_packet(&[], true).unwrap();
    assert_eq!(server.read_packet(data(&frame)).unwrap().kind, PacketKind::Sole);
    assert!(server.packet_data().is_empty());
}

#[test]
fn packet_transport_bidirectional_roundtrip() {
    let (mut server, mut client) = transports();
    client.prepare_message(1).unwrap();
    let frame = client.send_packet(b"ping", true).unwrap();
    server.read_packet(data(&frame)).unwrap();
    assert_eq!(server.packet_data(), b"ping");
    server.prepare_message(2).unwrap();
    let frame = server.send_packet(b"pong", true).unwrap();
    client.read_packet(data(&frame)).unwrap();
    assert_eq!(client.packet_data(), b"pong");
}

#[test]
fn packet_transport_multiple_sequential_messages() {
    let (mut server, mut client) = transports();
    for i in 0u8..5 {
        client.prepare_message(i as u16).unwrap();
        let payload = vec![i; 64];
        let frame = client.send_packet(&payload, true).unwrap();
        let header = server.read_packet(data(&frame)).unwrap();
        assert_eq!(header.msg_type, i as u16);
        assert_eq!(server.packet_data(), payload.as_slice());
    }
}

#[test]
fn packet_transport_roundtrip_small_payload() {
    let (mut server, mut client) = transports();
    client.prepare_message(1).unwrap();
    let frame = client.send_packet(b"hello world", true).unwrap();
    let header = server.read_packet(data(&frame)).unwrap();
    assert_eq!(header, PacketHeader { kind: PacketKind::Sole, msg_type: 1 });
    assert_eq!(server.packet_data(), b"hello world");
}

#[test]
fn packet_transport_roundtrip_large_payload_chunks_correctly() {
    let (mut server, mut client) = transports();
    let payload: Vec<u8> = (0u8..=255).cycle().take(MAX_PACKET_SIZE * 3 + 100).collect();
    client.prepare_message(2).unwrap();
    let mut send = client.send_slice(&payload, true);
    let mut received = Vec::new();
    let mut count = 0;
    while let Some(frame) = send.next(&mut client.tx, &mut client.session).unwrap() {
        server.read_packet(data(&frame)).unwrap();
        received.extend_from_slice(server.packet_data());
        count += 1;
    }
    assert_eq!(count, 4);
    assert_eq!(received, payload);
}

#[test]
fn packet_transport_streams() {
    let (mut server, mut client) = transports();
    client.prepare_message(4).unwrap();
    let mut send = client.send_reader();
    assert!(matches!(
        send.next(&mut client.tx, &mut client.session),
        Ok(ReaderStep::Read(MAX_PACKET_SIZE))
    ));
    send.feed(b"abc");
    send.feed(b"");
    let Ok(ReaderStep::Send(frame)) = send.next(&mut client.tx, &mut client.session) else {
        panic!("expected the last packet");
    };
    server.read_packet(data(&frame)).unwrap();
    assert_eq!(server.packet_data(), b"abc");
}

#[test]
fn message_transport_serialized_values_round_trip() {
    let (server, client) = transports();
    let (mut server, mut client) = (MessageTransport::new(server), MessageTransport::new(client));
    let sent: (u32, String) = (7, "x".repeat(MAX_PACKET_SIZE + 5));
    let serialized = postcard::to_allocvec(&sent).unwrap();

    let mut send = client.send_message(3u16, Ok(&serialized)).ok().unwrap();
    let mut frames = Vec::new();
    while let Some(frame) = send.next(&mut client.tx.packets, &mut client.session).unwrap() {
        frames.push(frame);
    }
    assert_eq!(frames.len(), 2);

    let message = server.read_message(data(&frames[0])).unwrap();
    assert_eq!(message.msg_type(), 3);
    let mut bytes = server.read_unlimited_slice(message);
    assert!(!bytes.is_complete());
    bytes.push(&mut server.rx, &mut server.session, data(&frames[1])).unwrap();
    assert!(bytes.is_complete());
    let received: (u32, String) =
        server.decode_unlimited(|bytes| postcard::from_bytes(bytes)).unwrap();
    assert_eq!(received, sent);
}

#[test]
fn message_transport_reports_serialization_errors() {
    let (server, client) = transports();
    let (server, mut client) = (MessageTransport::new(server), MessageTransport::new(client));
    let error = postcard::Error::SerializeBufferFull;
    let Err(ConnectionError::MessageSerialization(text)) =
        client.send_message(3u16, Err(error.clone()))
    else {
        panic!("expected a serialization error");
    };
    assert_eq!(text, error.to_string());

    let Err(ConnectionError::MessageSerialization(text)) =
        server.decode_unlimited(|bytes| postcard::from_bytes::<u32>(bytes))
    else {
        panic!("expected a deserialization error");
    };
    assert_eq!(text, postcard::Error::DeserializeUnexpectedEnd.to_string());
}

#[test]
fn message_transport_hands_out_packets_and_streams() {
    let (server, client) = transports();
    let (mut server, mut client) = (MessageTransport::new(server), MessageTransport::new(client));
    let mut send = client.send_reader(5u16).ok().unwrap();
    send.feed(b"streamed");
    send.feed(b"");
    let Ok(ReaderStep::Send(frame)) = send.next(&mut client.tx.packets, &mut client.session)
    else {
        panic!("expected the last packet");
    };
    let message = server.read_message(data(&frame)).unwrap();
    let mut packets: MessagePackets = server.into_packets(message);
    assert_eq!(packets.next(), PacketsStep::Payload);
    assert_eq!(server.rx.payload(), b"streamed");
    assert_eq!(packets.next(), PacketsStep::Done);
}
