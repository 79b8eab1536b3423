use snowpack::handshake::{accept, connect, Transport};
use snowpack::messages::{Message, PacketsStep};
use snowpack::packet_state::{PacketBuildError, MAX_PACKET_SIZE};
use snowpack::packets::ReaderStep;
use snowpack::{
    AuthHeader, ConnectionError, NodeId, SignatureKeypair, TransportKeypair,
};

type Msg = (u32, String);

fn msg(id: u32, text: &str) -> Msg {
    (id, text.to_string())
}

fn encode(msg: &Msg) -> Vec<u8> {
    serde_json::to_vec(msg).unwrap()
}

fn decode(bytes: &[u8]) -> Msg {
    serde_json::from_slice(bytes).unwrap()
}

fn make_pair() -> (Transport, Transport) {
    let cluster_kp = SignatureKeypair::generate().unwrap();
    let server_tp = TransportKeypair::generate().unwrap();
    let client_tp = TransportKeypair::generate().unwrap();
    let server_auth =
        AuthHeader::new(NodeId::from(1u64), None, &server_tp.public).sign(&cluster_kp.private);
    let client_auth =
        AuthHeader::new(NodeId::from(2u64), None, &client_tp.public).sign(&cluster_kp.private);

    let (connecting, hello) = connect(&client_tp.private).unwrap();
    let (answered, answer) =
        accept(&server_tp.private).unwrap().on_hello(&hello[2..], &server_auth).unwrap();
    let replied = connecting.on_reply(&answer[2..], &cluster_kp.public).ok().unwrap();
    let (client, confirmation) = replied.confirm(&client_auth).ok().unwrap();
    let server = answered.on_reply(&confirmation[2..], &cluster_kp.public).ok().unwrap();
    (server.finish().ok().unwrap(), client.finish().ok().unwrap())
}

/// The data of the frames that a message is sent in.
fn send(end: &mut Transport, msg_type: u16, payload: &[u8]) -> Vec<Vec<u8>> {
    let mut sending = end.tx.send_message(msg_type, payload).ok().unwrap();
    let mut frames = Vec::new();
    while let Some(frame) = sending.next(&mut end.tx.packets, &mut end.session).unwrap() {
        frames.push(frame[2..].to_vec());
    }
    frames
}

fn open(end: &mut Transport, data: &[u8]) -> Message {
    end.rx.read_message(&mut end.session, data).unwrap()
}

/// Receives a whole message: its type and its payload.
fn receive(end: &mut Transport, frames: &[Vec<u8>]) -> Result<(u16, Vec<u8>), ConnectionError> {
    let message = open(end, &frames[0]);
    let msg_type = message.msg_type();
    let mut bytes = message.read_bytes(&mut end.rx);
    let mut rest = frames[1..].iter();
    while !bytes.is_complete() {
        bytes.push(&mut end.rx, &mut end.session, rest.next().unwrap())?;
    }
    assert!(rest.next().is_none());
    assert!(!end.rx.in_message());
    Ok((msg_type, end.rx.bytes().to_vec()))
}

// ── send_message / read_message / read_bytes ──────────────────────────────

#[test]
fn send_and_read_bytes_round_trip() {
    let (mut server, mut client) = make_pair();
    let sent = msg(1, "hello");
    let frames = send(&mut client, 7, &encode(&sent));
    let (msg_type, bytes) = receive(&mut server, &frames).unwrap();
    assert_eq!(msg_type, 7);
    assert_eq!(decode(&bytes), sent);
}

#[test]
fn msg_type_is_twelve_bits() {
    let (mut server, mut client) = make_pair();
    let frames = send(&mut client, 0x0FFF, &[]);
    assert_eq!(receive(&mut server, &frames).unwrap(), (0x0FFF, Vec::new()));
}

#[test]
fn msg_type_of_thirteen_bits_is_refused() {
    let (_, mut client) = make_pair();
    assert!(matches!(
        client.tx.send_message(0x1000u16, b"x").err().unwrap(),
        ConnectionError::PacketBuilder(PacketBuildError::MessageTypeTooLarge(0x1000))
    ));
    assert!(matches!(
        client.tx.send_reader(0xFFFFu16).err().unwrap(),
        ConnectionError::PacketBuilder(PacketBuildError::MessageTypeTooLarge(0xFFFF))
    ));
}

#[test]
fn msg_type_may_be_a_byte() {
    let (mut server, mut client) = make_pair();
    let mut sending = client.tx.send_message(9u8, b"x").ok().unwrap();
    let frame = sending.next(&mut client.tx.packets, &mut client.session).unwrap().unwrap();
    assert_eq!(open(&mut server, &frame[2..]).msg_type(), 9);
}

#[test]
fn messages_multiple_sequential_messages() {
    let (mut server, mut client) = make_pair();
    for i in 0u16..5 {
        let sent = msg(i as u32, &format!("msg-{i}"));
        let frames = send(&mut client, i, &encode(&sent));
        let (msg_type, bytes) = receive(&mut server, &frames).unwrap();
        assert_eq!(msg_type, i);
        assert_eq!(decode(&bytes), sent);
    }
}

#[test]
fn bidirectional() {
    let (mut server, mut client) = make_pair();
    let frames = send(&mut client, 1, &encode(&msg(10, "ping")));
    assert_eq!(decode(&receive(&mut server, &frames).unwrap().1).0, 10);
    let frames = send(&mut server, 2, &encode(&msg(20, "pong")));
    assert_eq!(decode(&receive(&mut client, &frames).unwrap().1).0, 20);
}

// ── Large message (multi-packet) ──────────────────────────────────────────

#[test]
fn large_message_round_trip() {
    let (mut server, mut client) = make_pair();
    let sent = msg(99, &"x".repeat(MAX_PACKET_SIZE * 3));
    let frames = send(&mut client, 3, &encode(&sent));
    assert_eq!(decode(&receive(&mut server, &frames).unwrap().1), sent);
}

// ── into_packets ──────────────────────────────────────────────────────────

/// Receives a whole message packet by packet.
fn receive_packets(end: &mut Transport, frames: &[Vec<u8>]) -> Vec<u8> {
    let mut rest = frames[1..].iter();
    let mut packets = open(end, &frames[0]).into_packets();
    let mut full = Vec::new();
    loop {
        match packets.next() {
            PacketsStep::Done => break,
            PacketsStep::Payload => full.extend_from_slice(end.rx.payload()),
            PacketsStep::Read => {
                packets.push(&mut end.rx, &mut end.session, rest.next().unwrap()).unwrap();
                full.extend_from_slice(end.rx.payload());
            }
        }
    }
    assert_eq!(packets.next(), PacketsStep::Done);
    full
}

#[test]
fn into_packets_concatenates_to_original_payload() {
    let (mut server, mut client) = make_pair();
    let payload = encode(&msg(5, "chunks"));
    let frames = send(&mut client, 4, &payload);
    assert_eq!(receive_packets(&mut server, &frames), payload);
}

#[test]
fn into_packets_takes_payloads_of_any_size() {
    for size in [0, 10, MAX_PACKET_SIZE, MAX_PACKET_SIZE + 1, MAX_PACKET_SIZE * 2 + 9] {
        let (mut server, mut client) = make_pair();
        let payload: Vec<u8> = (0u8..=254).cycle().take(size).collect();
        let frames = send(&mut client, 4, &payload);
        assert_eq!(receive_packets(&mut server, &frames), payload);
    }
}

// ── send_reader ───────────────────────────────────────────────────────────

/// The data of the frames that a message is sent in when its source hands out its bytes
/// in pieces of up to `piece` bytes.
fn stream(end: &mut Transport, msg_type: u16, payload: &[u8], piece: usize) -> Vec<Vec<u8>> {
    let mut sending = end.tx.send_reader(msg_type).ok().unwrap();
    let mut rest = payload;
    let mut frames = Vec::new();
    loop {
        match sending.next(&mut end.tx.packets, &mut end.session).unwrap() {
            ReaderStep::Send(frame) => frames.push(frame[2..].to_vec()),
            ReaderStep::Read(space) => {
                let (read, left) = rest.split_at(space.min(piece).min(rest.len()));
                sending.feed(read);
                rest = left;
            }
            ReaderStep::Done => break,
        }
    }
    frames
}

#[test]
fn send_reader_and_read_bytes() {
    let (mut server, mut client) = make_pair();
    let sent = msg(42, "via reader");
    let payload = encode(&sent);
    let frames = stream(&mut client, 6, &payload, 4);
    assert_eq!(decode(&receive(&mut server, &frames).unwrap().1), sent);
}

#[test]
fn sources_are_cut_like_slices_but_for_whole_packets() {
    for size in [0, 1, MAX_PACKET_SIZE - 1, MAX_PACKET_SIZE + 1, MAX_PACKET_SIZE * 2 + 5] {
        let (mut server, mut client) = make_pair();
        let payload = vec![7u8; size];
        let lens = |frames: &[Vec<u8>]| frames.iter().map(|frame| frame.len()).collect::<Vec<_>>();
        let streamed = stream(&mut client, 6, &payload, 1000);
        assert_eq!(lens(&streamed), lens(&send(&mut client, 6, &payload)));
        assert_eq!(receive(&mut server, &streamed).unwrap().1, payload);
    }
    for packets in [1, 2] {
        let (mut server, mut client) = make_pair();
        let payload = vec![7u8; MAX_PACKET_SIZE * packets];
        let streamed = stream(&mut client, 6, &payload, 1000);
        assert_eq!(streamed.len(), packets + 1);
        assert_eq!(streamed[packets].len(), 2 + 16);
        assert_eq!(receive(&mut server, &streamed).unwrap().1, payload);
    }
}

// ── abort ─────────────────────────────────────────────────────────────────

/// The data of the frames of a message that is started and then abandoned.
fn send_and_abort(end: &mut Transport, msg_type: u16) -> Vec<Vec<u8>> {
    end.tx.packets.prepare_message(msg_type).unwrap();
    let large = vec![0u8; MAX_PACKET_SIZE];
    let mut sending = end.tx.packets.send_slice(&large, false);
    let mut frames = Vec::new();
    while let Some(frame) = sending.next(&mut end.tx.packets, &mut end.session).unwrap() {
        frames.push(frame[2..].to_vec());
    }
    frames.push(end.tx.abort_message(&mut end.session).unwrap().unwrap()[2..].to_vec());
    frames
}

#[test]
fn abort_mid_stream_returns_message_aborted() {
    let (mut server, mut client) = make_pair();
    let aborted = send_and_abort(&mut client, 9);
    let clean = send(&mut client, 10, b"after abort");

    let message = open(&mut server, &aborted[0]);
    assert_eq!(message.msg_type(), 9);
    let mut packets = message.into_packets();
    assert_eq!(packets.next(), PacketsStep::Payload);
    assert_eq!(server.rx.payload().len(), MAX_PACKET_SIZE);
    assert_eq!(packets.next(), PacketsStep::Read);
    let err = packets.push(&mut server.rx, &mut server.session, &aborted[1]).unwrap_err();
    assert!(matches!(err, ConnectionError::MessageAborted), "got: {err:?}");
    assert_eq!(packets.next(), PacketsStep::Done);

    assert_eq!(receive(&mut server, &clean).unwrap(), (10, b"after abort".to_vec()));
}

#[test]
fn abort_read_bytes_returns_message_aborted() {
    let (mut server, mut client) = make_pair();
    let aborted = send_and_abort(&mut client, 11);
    let clean = send(&mut client, 12, b"clean");

    let message = open(&mut server, &aborted[0]);
    assert_eq!(message.msg_type(), 11);
    let mut bytes = message.read_bytes(&mut server.rx);
    let err = bytes.push(&mut server.rx, &mut server.session, &aborted[1]).unwrap_err();
    assert!(matches!(err, ConnectionError::MessageAborted));
    assert!(!bytes.is_complete());

    assert_eq!(receive(&mut server, &clean).unwrap(), (12, b"clean".to_vec()));
}

#[test]
fn abort_no_op_when_not_in_progress() {
    let (mut server, mut client) = make_pair();
    assert!(client.tx.abort_message(&mut client.session).unwrap().is_none());
    let frames = send(&mut client, 1, b"hello");
    assert_eq!(receive(&mut server, &frames).unwrap(), (1, b"hello".to_vec()));
    assert!(client.tx.abort_message(&mut client.session).unwrap().is_none());
}

// ── tx and rx work independently ──────────────────────────────────────────

#[test]
fn halves_work_in_separate_tasks() {
    let (mut server, mut client) = make_pair();
    let to_server = send(&mut client, 5, &encode(&msg(1, "a")));
    let to_client = send(&mut server, 6, &encode(&msg(2, "b")));
    let (msg_type, bytes) = receive(&mut server, &to_server).unwrap();
    assert_eq!(msg_type, 5);
    assert_eq!(decode(&bytes).0, 1);
    assert_eq!(decode(&receive(&mut client, &to_client).unwrap().1).0, 2);
}

#[test]
fn a_bad_frame_leaves_an_open_message_open() {
    let (mut server, mut client) = make_pair();
    let payload = vec![3u8; MAX_PACKET_SIZE + 1];
    let frames = send(&mut client, 5, &payload);
    let mut bytes = open(&mut server, &frames[0]).read_bytes(&mut server.rx);
    let err = bytes.push(&mut server.rx, &mut server.session, &[0u8; 40]).unwrap_err();
    assert!(matches!(err, ConnectionError::Noise(_)));
    assert!(server.rx.in_message());
    bytes.push(&mut server.rx, &mut server.session, &frames[1]).unwrap();
    assert!(bytes.is_complete());
    assert_eq!(server.rx.bytes(), payload.as_slice());
}
