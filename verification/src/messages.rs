//! Messages: typed payloads of any length, carried in packets.

use vstd::prelude::*;

use crate::packet_state::{
    lemma_decode_header, lemma_reader_takes, packet_bytes, BuilderState, PacketHeader, PacketKind, PacketReadError, PacketReader,
};
use crate::packets::{
    frame_in, lemma_packet_payload, packet_payload, packet_read, packet_sent, prepared, refusal,
    slice_plan, ConnectionError, PacketRx, PacketTx, ReaderSend, ReaderState, RxState, SliceSend,
};
use crate::snow_state::{after_recv, opened, session_of, session_read_error, SessionView};

verus! {

/// How far the receipt of a message has come.
pub ghost enum Progress {
    /// More packets must follow; so far these bytes have come.
    Open { reader: PacketReader, bytes: Seq<u8> },
    /// The message is complete.
    Complete { reader: PacketReader, bytes: Seq<u8> },
    /// The sender abandoned the message.
    Aborted { reader: PacketReader },
    /// A packet violated the protocol.
    Refused { reader: PacketReader, error: PacketReadError },
}

/// A reader between two messages.
pub open spec fn idle() -> PacketReader {
    PacketReader { in_progress: false, msg_type: 0 }
}

/// What the next packet of a message does to what has been received of it.
pub open spec fn step(reader: PacketReader, bytes: Seq<u8>, raw: Seq<u8>) -> Progress {
    match reader.takes(raw) {
        Err(error) => Progress::Refused { reader, error },
        Ok((header, next)) => match header.kind {
            PacketKind::Abort => Progress::Aborted { reader: next },
            PacketKind::First | PacketKind::Mid => Progress::Open {
                reader: next,
                bytes: bytes + packet_payload(raw),
            },
            PacketKind::Sole | PacketKind::Last => Progress::Complete {
                reader: next,
                bytes: bytes + packet_payload(raw),
            },
        },
    }
}

/// What [`MessageRx`] remembers.
pub ghost struct MessageRxState {
    /// The state of the packet layer.
    pub packets: RxState,
    /// The payload as far as it has been assembled.
    pub bytes: Seq<u8>,
}

/// The receive half of a message transport.
///
/// [`read_message`][Self::read_message] takes the opening packet and returns a
/// [`Message`]. The other packets are taken when the message body is read. Only one
/// message is in progress at a time.
pub struct MessageRx {
    packets: PacketRx,
    read_buf: Vec<u8>,
}

impl View for MessageRx {
    type V = MessageRxState;

    closed spec fn view(&self) -> MessageRxState {
        MessageRxState { packets: self.packets@, bytes: self.read_buf@ }
    }
}

/// What comes of reading a continuation packet of an open message.
pub open spec fn continuation_read(
    rx_before: MessageRxState,
    rx_after: MessageRxState,
    before: SessionView,
    after: SessionView,
    ciphertext: Seq<u8>,
    complete: bool,
    r: Result<(), ConnectionError>,
) -> bool {
    match opened(before, ciphertext) {
        None => {
            &&& r == Err::<(), ConnectionError>(
                ConnectionError::Noise(session_read_error(before, ciphertext)),
            )
            &&& after == before
            &&& rx_after.packets == rx_before.packets.unread(before, ciphertext)
            &&& rx_after.packets.buffer.len() == ciphertext.len()
            &&& !complete
        },
        Some(plaintext) => {
            &&& after == after_recv(before)
            &&& rx_after.packets == rx_before.packets.decrypted(
                ciphertext.len(),
                plaintext,
                rx_after.packets.reader,
            )
            &&& rx_after.packets.has_payload()
            &&& rx_after.packets.payload() == packet_payload(plaintext)
            &&& match step(rx_before.packets.reader, rx_before.bytes, plaintext) {
                Progress::Open { reader, bytes } => {
                    &&& r is Ok
                    &&& !complete
                    &&& rx_after.packets.reader == reader
                },
                Progress::Complete { reader, bytes } => {
                    &&& r is Ok
                    &&& complete
                    &&& rx_after.packets.reader == reader
                },
                Progress::Aborted { reader } => {
                    &&& r == Err::<(), ConnectionError>(ConnectionError::MessageAborted)
                    &&& rx_after.packets.reader == reader
                },
                Progress::Refused { reader, error } => {
                    &&& r == Err::<(), ConnectionError>(ConnectionError::Packet(error))
                    &&& !complete
                    &&& rx_after.packets.reader == reader
                },
            }
        },
    }
}

/// The payload assembled once a continuation packet has been read.
pub open spec fn assembled(
    rx: MessageRxState,
    before: SessionView,
    ciphertext: Seq<u8>,
) -> Seq<u8> {
    match opened(before, ciphertext) {
        None => rx.bytes,
        Some(plaintext) => match step(rx.packets.reader, rx.bytes, plaintext) {
            Progress::Open { reader, bytes } => bytes,
            Progress::Complete { reader, bytes } => bytes,
            Progress::Aborted { reader } => rx.bytes,
            Progress::Refused { reader, error } => rx.bytes,
        },
    }
}

impl MessageRx {
    pub fn new(packets: PacketRx) -> (rx: Self)
        ensures
            rx@ == (MessageRxState { packets: packets@, bytes: Seq::empty() }),
    {
        MessageRx { packets, read_buf: Vec::new() }
    }

    /// Whether a message has been opened and not yet closed or abandoned.
    pub fn in_message(&self) -> (r: bool)
        ensures
            r == self@.packets.reader.in_progress,
    {
        self.packets.in_message()
    }

    /// Take the opening packet of the next message from a frame's data.
    pub fn read_message(
        &mut self,
        session: &mut snow::TransportState,
        ciphertext: &[u8],
    ) -> (r: Result<Message, ConnectionError>)
        ensures
            packet_read(
                old(self)@.packets,
                final(self)@.packets,
                session_of(*old(session)),
                session_of(*final(session)),
                ciphertext@,
                match r {
                    Ok(message) => Ok(message@),
                    Err(e) => Err(e),
                },
            ),
            final(self)@.bytes == old(self)@.bytes,
    {
        match self.packets.read_packet(session, ciphertext) {
            Ok(first_header) => Ok(Message { first_header }),
            Err(e) => Err(e),
        }
    }

    /// Whether the payload of the last packet that was decrypted is still in the buffer.
    pub fn has_payload(&self) -> (r: bool)
        ensures
            r == self@.packets.has_payload(),
    {
        self.packets.has_payload()
    }

    /// The payload of the last packet.
    pub fn payload(&self) -> (payload: &[u8])
        requires
            self@.packets.has_payload(),
        ensures
            payload@ == self@.packets.payload(),
    {
        self.packets.payload()
    }

    /// The payload as far as [`Message::read_bytes`] and [`MessageBytes::push`] have
    /// assembled it.
    pub fn bytes(&self) -> (bytes: &[u8])
        ensures
            bytes@ == self@.bytes,
    {
        self.read_buf.as_slice()
    }
}

/// The transmit half of a message transport.
///
/// Large payloads are split into packets of up to
/// [`MAX_PACKET_SIZE`][crate::packet_state::MAX_PACKET_SIZE] bytes.
pub struct MessageTx {
    pub packets: PacketTx,
}

impl MessageTx {
    pub fn new(packets: PacketTx) -> (tx: Self)
        ensures
            tx.packets == packets,
    {
        MessageTx { packets }
    }

    /// Start sending a complete message from a byte slice, which may be empty.
    ///
    /// `msg_type` must be a 12-bit value. The frames come from [`SliceSend::next`].
    pub fn send_message<'a, T: Into<u16>>(&mut self, msg_type: T, payload: &'a [u8]) -> (r: Result<
        SliceSend<'a>,
        ConnectionError,
    >)
        ensures
            exists|code: u16|
                {
                    &&& #[trigger] call_ensures(T::into, (msg_type,), code)
                    &&& match refusal(old(self).packets@, code) {
                        Some(e) => {
                            &&& r == Err::<SliceSend<'a>, ConnectionError>(
                                ConnectionError::PacketBuilder(e),
                            )
                            &&& final(self).packets@ == old(self).packets@
                        },
                        None => {
                            &&& r is Ok
                            &&& r->Ok_0@ == slice_plan(payload@, true)
                            &&& final(self).packets@ == prepared(code)
                        },
                    }
                },
    {
        match self.packets.prepare_message(msg_type.into()) {
            Ok(()) => Ok(self.packets.send_slice(payload, true)),
            Err(e) => Err(e),
        }
    }

    /// Start streaming a large message from a source of bytes. No more than a single
    /// packet is buffered.
    ///
    /// What to do comes from [`ReaderSend::next`].
    pub fn send_reader<T: Into<u16>>(&mut self, msg_type: T) -> (r: Result<
        ReaderSend,
        ConnectionError,
    >)
        ensures
            exists|code: u16|
                {
                    &&& #[trigger] call_ensures(T::into, (msg_type,), code)
                    &&& match refusal(old(self).packets@, code) {
                        Some(e) => {
                            &&& r == Err::<ReaderSend, ConnectionError>(
                                ConnectionError::PacketBuilder(e),
                            )
                            &&& final(self).packets@ == old(self).packets@
                        },
                        None => {
                            &&& r is Ok
                            &&& r->Ok_0@ == (ReaderState {
                                pending: Seq::empty(),
                                ended: false,
                                done: false,
                            })
                            &&& final(self).packets@ == prepared(code)
                        },
                    }
                },
    {
        match self.packets.prepare_message(msg_type.into()) {
            Ok(()) => Ok(self.packets.send_reader()),
            Err(e) => Err(e),
        }
    }

    /// Abandon the current in-progress message: the frame to write, so that the remote
    /// side can discard what it has, or `None` if there is no message in progress. The
    /// connection remains usable.
    pub fn abort_message(&mut self, session: &mut snow::TransportState) -> (r: Result<
        Option<Vec<u8>>,
        ConnectionError,
    >)
        ensures
            if old(self).packets@.in_progress {
                &&& final(self).packets@ == (BuilderState {
                    in_progress: false,
                    is_first: true,
                    msg_type: old(self).packets@.msg_type,
                })
                &&& old(self).packets@.msg_type <= 0x0FFF
                &&& packet_sent(
                    session_of(*old(session)),
                    session_of(*final(session)),
                    packet_bytes(PacketKind::Abort, old(self).packets@.msg_type, Seq::empty()),
                    frame_in(r),
                )
            } else {
                &&& r == Ok::<Option<Vec<u8>>, ConnectionError>(None)
                &&& final(self).packets@ == old(self).packets@
                &&& session_of(*final(session)) == session_of(*old(session))
            },
    {
        self.packets.abort_message(session)
    }
}

/// A received message whose payload has not yet been consumed: the opening packet is
/// buffered in the [`MessageRx`] that gave it.
#[derive(Debug)]
pub struct Message {
    first_header: PacketHeader,
}

impl View for Message {
    type V = PacketHeader;

    closed spec fn view(&self) -> PacketHeader {
        self.first_header
    }
}

impl Message {
    /// The 12-bit message type set by the sender.
    pub fn msg_type(&self) -> (msg_type: u16)
        ensures
            msg_type == self@.msg_type,
    {
        self.first_header.msg_type
    }

    /// Start assembling the payload in the receive buffer.
    ///
    /// While the result is not complete, the data of further frames goes to
    /// [`MessageBytes::push`].
    pub fn read_bytes(self, rx: &mut MessageRx) -> (bytes: MessageBytes)
        requires
            old(rx)@.packets.has_payload(),
        ensures
            bytes@ == (self@.kind == PacketKind::Sole),
            final(rx)@ == (MessageRxState {
                packets: old(rx)@.packets,
                bytes: old(rx)@.packets.payload(),
            }),
    {
        rx.read_buf.clear();
        rx.read_buf.extend_from_slice(rx.packets.payload());
        assert(rx.read_buf@ =~= old(rx)@.packets.payload());
        MessageBytes { complete: self.first_header.kind == PacketKind::Sole }
    }

    /// Consume the message packet by packet.
    pub fn into_packets(self) -> (packets: MessagePackets)
        ensures
            packets@ == (PacketsState { done: false, first_kind: Some(self@.kind) }),
    {
        MessagePackets { done: false, first_kind: Some(self.first_header.kind) }
    }
}

/// Takes a continuation packet into a receiver. Only a message that is open is continued.
fn read_continuation(
    rx: &mut PacketRx,
    session: &mut snow::TransportState,
    ciphertext: &[u8],
) -> (r: Result<bool, ConnectionError>)
    requires
        old(rx)@.reader.in_progress,
    ensures
        match opened(session_of(*old(session)), ciphertext@) {
            None => {
                &&& r == Err::<bool, ConnectionError>(
                    ConnectionError::Noise(
                        session_read_error(session_of(*old(session)), ciphertext@),
                    ),
                )
                &&& session_of(*final(session)) == session_of(*old(session))
                &&& final(rx)@ == old(rx)@.unread(session_of(*old(session)), ciphertext@)
                &&& final(rx)@.buffer.len() == ciphertext@.len()
            },
            Some(plaintext) => {
                &&& session_of(*final(session)) == after_recv(session_of(*old(session)))
                &&& final(rx)@ == old(rx)@.decrypted(
                    ciphertext@.len(),
                    plaintext,
                    final(rx)@.reader,
                )
                &&& final(rx)@.has_payload()
                &&& final(rx)@.payload() == packet_payload(plaintext)
                &&& match step(old(rx)@.reader, Seq::empty(), plaintext) {
                    Progress::Open { reader, bytes } => {
                        r == Ok::<bool, ConnectionError>(false) && final(rx)@.reader == reader
                    },
                    Progress::Complete { reader, bytes } => {
                        r == Ok::<bool, ConnectionError>(true) && final(rx)@.reader == reader
                    },
                    Progress::Aborted { reader } => {
                        &&& r == Err::<bool, ConnectionError>(ConnectionError::MessageAborted)
                        &&& final(rx)@.reader == reader
                    },
                    Progress::Refused { reader, error } => {
                        &&& r == Err::<bool, ConnectionError>(ConnectionError::Packet(error))
                        &&& final(rx)@.reader == reader
                    },
                }
            },
        },
{
    match rx.read_packet(session, ciphertext) {
        Ok(header) => match header.kind {
            PacketKind::Abort => Err(ConnectionError::MessageAborted),
            PacketKind::Last => Ok(true),
            PacketKind::Mid => Ok(false),
            PacketKind::Sole | PacketKind::First => {
                // The reader refuses both while a message is open.
                assert(false);
                Ok(false)
            },
        },
        Err(e) => Err(e),
    }
}

/// The payload of a message on its way into the receive buffer. Its view is whether the
/// payload is complete.
#[derive(Debug)]
pub struct MessageBytes {
    complete: bool,
}

impl View for MessageBytes {
    type V = bool;

    closed spec fn view(&self) -> bool {
        self.complete
    }
}

impl MessageBytes {
    /// Whether the whole payload has been assembled.
    pub fn is_complete(&self) -> (r: bool)
        ensures
            r == self@,
    {
        self.complete
    }

    /// Take the next packet of the message from a frame's data. If the sender abandons
    /// the message, that is the error.
    pub fn push(
        &mut self,
        rx: &mut MessageRx,
        session: &mut snow::TransportState,
        ciphertext: &[u8],
    ) -> (r: Result<(), ConnectionError>)
        requires
            !old(self)@,
            old(rx)@.packets.reader.in_progress,
        ensures
            continuation_read(
                old(rx)@,
                final(rx)@,
                session_of(*old(session)),
                session_of(*final(session)),
                ciphertext@,
                final(self)@,
                r,
            ),
            final(rx)@.bytes == assembled(old(rx)@, session_of(*old(session)), ciphertext@),
            r matches Err(ConnectionError::MessageAborted) ==> !final(self)@,
            r is Ok ==> final(rx)@.bytes == old(rx)@.bytes + final(rx)@.packets.payload(),
            r is Err ==> final(rx)@.bytes == old(rx)@.bytes,
    {
        match read_continuation(&mut rx.packets, session, ciphertext) {
            Ok(complete) => {
                rx.read_buf.extend_from_slice(rx.packets.payload());
                self.complete = complete;
                Ok(())
            },
            Err(e) => Err(e),
        }
    }
}

/// What a [`MessagePackets`] remembers.
pub ghost struct PacketsState {
    /// The last packet has been handed out, or the message was abandoned.
    pub done: bool,
    /// The kind of the opening packet, until it has been handed out.
    pub first_kind: Option<PacketKind>,
}

/// Where the next payload of a message is.
#[derive(Debug, Clone, Copy, PartialEq, Eq, Structural)]
pub enum PacketsStep {
    /// There is none: the message has been consumed.
    Done,
    /// It is buffered: [`MessageRx::payload`] gives it.
    Payload,
    /// In the next frame: hand its data to [`MessagePackets::push`].
    Read,
}

/// The packet payloads of a message, one after the other. Together they are the payload
/// of the message.
#[derive(Debug)]
pub struct MessagePackets {
    done: bool,
    first_kind: Option<PacketKind>,
}

impl View for MessagePackets {
    type V = PacketsState;

    closed spec fn view(&self) -> PacketsState {
        PacketsState { done: self.done, first_kind: self.first_kind }
    }
}

impl MessagePackets {
    /// Where the next payload is. The payload of the opening packet is buffered.
    pub fn next(&mut self) -> (step: PacketsStep)
        ensures
            if old(self)@.done {
                step == PacketsStep::Done && final(self)@ == old(self)@
            } else {
                match old(self)@.first_kind {
                    Some(kind) => {
                        &&& step == PacketsStep::Payload
                        &&& final(self)@ == (PacketsState {
                            done: kind == PacketKind::Sole,
                            first_kind: None,
                        })
                    },
                    None => step == PacketsStep::Read && final(self)@ == old(self)@,
                }
            },
    {
        if self.done {
            return PacketsStep::Done;
        }
        match self.first_kind {
            Some(kind) => {
                self.first_kind = None;
                if kind == PacketKind::Sole {
                    self.done = true;
                }
                PacketsStep::Payload
            },
            None => PacketsStep::Read,
        }
    }

    /// Take the next packet of the message from a frame's data; its payload is then
    /// buffered. If the sender abandons the message, that is the error, and the message
    /// has been consumed.
    pub fn push(
        &mut self,
        rx: &mut MessageRx,
        session: &mut snow::TransportState,
        ciphertext: &[u8],
    ) -> (r: Result<(), ConnectionError>)
        requires
            !old(self)@.done,
            old(self)@.first_kind is None,
            old(rx)@.packets.reader.in_progress,
        ensures
            continuation_read(
                old(rx)@,
                final(rx)@,
                session_of(*old(session)),
                session_of(*final(session)),
                ciphertext@,
                final(self)@.done,
                r,
            ),
            final(rx)@.bytes == old(rx)@.bytes,
            final(self)@.first_kind is None,
            r matches Err(ConnectionError::MessageAborted) ==> final(self)@.done,
    {
        match read_continuation(&mut rx.packets, session, ciphertext) {
            Ok(complete) => {
                self.done = complete;
                Ok(())
            },
            Err(e) => {
                if matches!(e, ConnectionError::MessageAborted) {
                    self.done = true;
                }
                Err(e)
            },
        }
    }
}

/// What the next packet of an open message does to it, by its first two bytes: of the type
/// of the message, one that more must follow is added to the payload, the last one is added
/// and completes it, and one may abandon it. Any other is refused.
pub proof fn lemma_step(reader: PacketReader, bytes: Seq<u8>, raw: Seq<u8>)
    requires
        reader.in_progress,
    ensures
        ({
            let ours = raw.len() >= 2 && (raw[0] % 16) * 256 + raw[1] == reader.msg_type;
            &&& step(reader, bytes, raw) == (Progress::Open { reader, bytes: bytes + raw.skip(2) })
                <==> ours && raw[0] / 16 == 2
            &&& ours && raw[0] / 16 == 3 ==> step(reader, bytes, raw) == (Progress::Complete {
                reader: PacketReader { in_progress: false, msg_type: 0 },
                bytes: bytes + raw.skip(2),
            })
            &&& ours && raw[0] / 16 == 4 ==> step(reader, bytes, raw) == (Progress::Aborted {
                reader: PacketReader { in_progress: false, msg_type: 0 },
            })
            &&& !(ours && 2 <= raw[0] / 16 <= 4) ==> {
                &&& step(reader, bytes, raw) matches Progress::Refused { reader: left, error }
                &&& left == reader
                &&& reader.takes(raw) == Err::<(PacketHeader, PacketReader), PacketReadError>(error)
            }
        }),
{
    lemma_reader_takes(reader, raw);
    lemma_decode_header(raw);
    lemma_packet_payload(raw);
}

/// What taking a continuation packet comes to, and what it leaves of the payload: the
/// payload grows by all that stands behind the header of a packet that belongs to the
/// message, and by nothing else.
pub proof fn lemma_continuation_read(
    rx_before: MessageRxState,
    rx_after: MessageRxState,
    before: SessionView,
    after: SessionView,
    ciphertext: Seq<u8>,
    complete: bool,
    r: Result<(), ConnectionError>,
)
    requires
        rx_before.packets.reader.in_progress,
        continuation_read(rx_before, rx_after, before, after, ciphertext, complete, r),
    ensures
        opened(before, ciphertext) is None ==> {
            &&& r matches Err(ConnectionError::Noise(_))
            &&& after == before
            &&& !complete
            &&& rx_after.packets.reader == rx_before.packets.reader
            &&& assembled(rx_before, before, ciphertext) == rx_before.bytes
        },
        opened(before, ciphertext) matches Some(raw) ==> {
            let reader = rx_before.packets.reader;
            let ours = raw.len() >= 2 && (raw[0] % 16) * 256 + raw[1] == reader.msg_type;
            &&& after == (SessionView { recv_nonce: (before.recv_nonce + 1) as u64, ..before })
            &&& rx_after.packets.has_payload()
            &&& raw.len() >= 2 ==> rx_after.packets.payload() == raw.skip(2)
            &&& r is Ok <==> ours && (raw[0] / 16 == 2 || raw[0] / 16 == 3)
            &&& r is Ok ==> complete == (raw[0] / 16 == 3)
            &&& r is Ok ==> assembled(rx_before, before, ciphertext) == rx_before.bytes + raw.skip(2)
            &&& r is Err ==> assembled(rx_before, before, ciphertext) == rx_before.bytes
            &&& r == Err::<(), ConnectionError>(ConnectionError::MessageAborted) <==> ours && raw[0]
                / 16 == 4
            &&& rx_after.packets.reader.in_progress <==> !(ours && (raw[0] / 16 == 3 || raw[0] / 16
                == 4))
            &&& rx_after.packets.reader.in_progress ==> rx_after.packets.reader == reader
        },
{
    if let Some(raw) = opened(before, ciphertext) {
        lemma_step(rx_before.packets.reader, rx_before.bytes, raw);
        lemma_packet_payload(raw);
    }
}

} // verus!
