//! Frames and packets: from payloads to wire bytes and back.
//!
//! Every message on the wire is a 2-byte big-endian length prefix followed by that many
//! bytes. Nothing here does input or output: sending hands out the frames to write, and
//! receiving takes the frames that were read.

use vstd::prelude::*;
use vstd::arithmetic::div_mod::{
    lemma_mod_multiples_vanish, lemma_mod_sub_multiples_vanish, lemma_small_mod,
};
use vstd::slice::slice_subrange;

use crate::auth::BadAuth;
use crate::bytes::{be_bytes, be_value, lemma_be_bytes_len, lemma_be_value_pair, push_be};
use crate::packet_state::{
    chunk_kind, lemma_chunk_kind, lemma_packet_layout, packet_bytes, BuilderState, PacketBuildError, PacketBuilder, PacketHeader,
    PacketKind, PacketReadError, PacketReader, CIPHER_OVERHEAD_SIZE, FRAME_HEADER_SIZE,
    MAX_CIPHERTEXT_SIZE, MAX_PACKET_SIZE, MAX_RAW_PACKET_SIZE, PACKET_HEADER_SIZE,
};
use crate::snow_state::{
    after_recv, after_send, carries, linked, opened, sealed, session_of, session_read_error,
    session_residue, session_write_error, SessionView,
};

verus! {

/// `std::io::Error`, carried and not looked into.
#[verifier::external_type_specification]
#[verifier::external_body]
pub struct ExIoError(std::io::Error);

/// All errors that can occur during connection operations.
#[derive(Debug)]
pub enum ConnectionError {
    /// An underlying I/O error from the stream.
    Io(std::io::Error),
    /// The Noise handshake or encryption/decryption failed.
    Noise(snow::Error),
    /// A framed packet violated the packet protocol.
    Packet(PacketReadError),
    /// A message was started or continued out of order.
    PacketBuilder(PacketBuildError),
    /// A packet payload exceeded the maximum allowed size.
    PacketOverflow,
    /// The remote peer's static key was not present after the handshake.
    MissingRemoteStatic,
    /// The remote peer's static key had an unexpected length.
    RemoteStaticKeyLength,
    /// The handshake took too long.
    HandshakeTimeout,
    /// A node id could not be used.
    InvalidNodeId(String),
    /// A message could not be serialized or deserialized.
    MessageSerialization(String),
    /// The sender abandoned the message.
    MessageAborted,
    /// The peer could not be authenticated.
    BadAuth(BadAuth),
}

/// A frame: the length of `data` in 2 bytes, then `data`.
pub open spec fn wire_frame(data: Seq<u8>) -> Seq<u8> {
    be_bytes(data.len(), 2) + data
}

/// The bytes to write for one frame. What does not fit a 16-bit length is refused.
pub fn write_frame(data: &[u8]) -> (r: Result<Vec<u8>, ConnectionError>)
    ensures
        if data@.len() <= MAX_CIPHERTEXT_SIZE {
            r is Ok && r->Ok_0@ == wire_frame(data@)
        } else {
            r == Err::<Vec<u8>, ConnectionError>(ConnectionError::PacketOverflow)
        },
{
    if data.len() > MAX_CIPHERTEXT_SIZE {
        return Err(ConnectionError::PacketOverflow);
    }
    let mut frame: Vec<u8> = Vec::new();
    push_be(&mut frame, data.len() as u64, FRAME_HEADER_SIZE);
    frame.extend_from_slice(data);
    assert(frame@ =~= wire_frame(data@));
    Ok(frame)
}

/// How many bytes follow a frame's length prefix.
pub fn frame_len(prefix: [u8; 2]) -> (len: usize)
    ensures
        len == be_value(prefix@),
{
    proof {
        assert(prefix@ =~= seq![prefix@[0], prefix@[1]]);
        lemma_be_value_pair(prefix@[0], prefix@[1]);
    }
    prefix[0] as usize * 256 + prefix[1] as usize
}

/// A reader that takes the length prefix of a frame and then as many bytes as it says
/// gets the data of the frame, and is left in front of what follows.
pub proof fn lemma_frame_round_trip(data: Seq<u8>, rest: Seq<u8>)
    requires
        data.len() <= MAX_CIPHERTEXT_SIZE,
    ensures
        ({
            let stream = wire_frame(data) + rest;
            let len = be_value(stream.take(2)) as int;
            &&& len == data.len()
            &&& stream.subrange(2, 2 + len) == data
            &&& stream.skip(2 + len) == rest
        }),
{
    let stream = wire_frame(data) + rest;
    lemma_be_bytes_len(data.len(), 2);
    lemma_be_value_pair(0, 0);
    crate::bytes::lemma_be_round_trip(data.len(), 2);
    assert(stream.take(2) =~= be_bytes(data.len(), 2));
    assert(stream.subrange(2, 2 + data.len() as int) =~= data);
    assert(stream.skip(2 + data.len() as int) =~= rest);
}

/// The payload of a decrypted packet: what follows the header.
pub open spec fn packet_payload(plaintext: Seq<u8>) -> Seq<u8> {
    if plaintext.len() > PACKET_HEADER_SIZE {
        plaintext.skip(PACKET_HEADER_SIZE as int)
    } else {
        Seq::empty()
    }
}

/// What a [`PacketRx`] remembers.
pub ghost struct RxState {
    /// The state of the message that is being received.
    pub reader: PacketReader,
    /// The receive buffer. The last packet that was decrypted starts it, until a frame
    /// comes that cannot be decrypted.
    pub buffer: Seq<u8>,
    /// Where the last packet that was decrypted ends in the buffer.
    pub end: nat,
}

impl RxState {
    /// Whether the buffer still reaches to the end of the last packet that was decrypted.
    /// It does unless a shorter frame has come since that cannot be.
    pub open spec fn has_payload(self) -> bool {
        self.end <= PACKET_HEADER_SIZE || self.end <= self.buffer.len()
    }

    /// The payload of the last packet that was decrypted, as the buffer holds it.
    pub open spec fn payload(self) -> Seq<u8> {
        if self.end > PACKET_HEADER_SIZE {
            self.buffer.subrange(PACKET_HEADER_SIZE as int, self.end as int)
        } else {
            Seq::empty()
        }
    }

    /// The buffer, cut or filled up with zeros to `len` bytes.
    pub open spec fn room(self, len: nat) -> Seq<u8> {
        Seq::new(
            len,
            |i: int|
                if i < self.buffer.len() {
                    self.buffer[i]
                } else {
                    0u8
                },
        )
    }

    /// The state once a frame has come that cannot be decrypted: the buffer is as long as
    /// the frame's data, and holds what the cipher left there.
    pub open spec fn unread(self, session: SessionView, ciphertext: Seq<u8>) -> RxState {
        RxState {
            buffer: session_residue(session, ciphertext, self.room(ciphertext.len())),
            ..self
        }
    }

    /// The state once a frame of `len` bytes has been decrypted.
    pub open spec fn decrypted(self, len: nat, plaintext: Seq<u8>, reader: PacketReader) -> RxState {
        RxState {
            reader,
            buffer: plaintext + self.room(len).skip(plaintext.len() as int),
            end: plaintext.len(),
        }
    }

    /// A receiver to which nothing has come.
    pub open spec fn new() -> RxState {
        RxState {
            reader: PacketReader { in_progress: false, msg_type: 0 },
            buffer: Seq::empty(),
            end: 0,
        }
    }
}

/// The payload of a packet that has just been decrypted is what follows its header.
pub proof fn lemma_decrypted_payload(
    rx: RxState,
    len: nat,
    plaintext: Seq<u8>,
    reader: PacketReader,
)
    requires
        plaintext.len() <= len,
    ensures
        rx.decrypted(len, plaintext, reader).has_payload(),
        rx.decrypted(len, plaintext, reader).payload() == packet_payload(plaintext),
{
    assert(rx.decrypted(len, plaintext, reader).payload() =~= packet_payload(plaintext));
}

/// What comes of reading one packet from a frame's data.
pub open spec fn packet_read(
    rx_before: RxState,
    rx_after: RxState,
    before: SessionView,
    after: SessionView,
    ciphertext: Seq<u8>,
    r: Result<PacketHeader, ConnectionError>,
) -> bool {
    match opened(before, ciphertext) {
        None => {
            &&& r == Err::<PacketHeader, ConnectionError>(
                ConnectionError::Noise(session_read_error(before, ciphertext)),
            )
            &&& after == before
            &&& rx_after == rx_before.unread(before, ciphertext)
            &&& rx_after.buffer.len() == ciphertext.len()
        },
        Some(plaintext) => {
            &&& after == after_recv(before)
            &&& rx_after.has_payload()
            &&& rx_after.payload() == packet_payload(plaintext)
            &&& match rx_before.reader.takes(plaintext) {
                Ok((header, next)) => {
                    &&& r == Ok::<PacketHeader, ConnectionError>(header)
                    &&& rx_after == rx_before.decrypted(ciphertext.len(), plaintext, next)
                },
                Err(e) => {
                    &&& r == Err::<PacketHeader, ConnectionError>(ConnectionError::Packet(e))
                    &&& rx_after == rx_before.decrypted(
                        ciphertext.len(),
                        plaintext,
                        rx_before.reader,
                    )
                },
            }
        },
    }
}

/// The receiving half of a packet transport.
pub struct PacketRx {
    packet_reader: PacketReader,
    plaintext_buf: Vec<u8>,
    payload_end: usize,
}

impl View for PacketRx {
    type V = RxState;

    closed spec fn view(&self) -> RxState {
        RxState {
            reader: self.packet_reader,
            buffer: self.plaintext_buf@,
            end: self.payload_end as nat,
        }
    }
}

impl PacketRx {
    pub fn new() -> (rx: Self)
        ensures
            rx@ == RxState::new(),
    {
        PacketRx { packet_reader: PacketReader::new(), plaintext_buf: Vec::new(), payload_end: 0 }
    }

    /// Whether a message has been opened and not yet closed or abandoned.
    pub fn in_message(&self) -> (r: bool)
        ensures
            r == self@.reader.in_progress,
    {
        self.packet_reader.in_progress
    }

    /// Decrypt and check the packet in a frame's data, and keep its payload.
    pub fn read_packet(
        &mut self,
        session: &mut snow::TransportState,
        ciphertext: &[u8],
    ) -> (r: Result<PacketHeader, ConnectionError>)
        ensures
            packet_read(
                old(self)@,
                final(self)@,
                session_of(*old(session)),
                session_of(*final(session)),
                ciphertext@,
                r,
            ),
    {
        self.plaintext_buf.resize(ciphertext.len(), 0);
        assert(self.plaintext_buf@ =~= old(self)@.room(ciphertext@.len()));
        let n: usize = match session.read_message(ciphertext, self.plaintext_buf.as_mut_slice()) {
            Ok(n) => n,
            Err(e) => return Err(ConnectionError::Noise(e)),
        };
        self.payload_end = n;
        let plaintext = slice_subrange(self.plaintext_buf.as_slice(), 0, n);
        proof {
            assert(plaintext@ =~= self.plaintext_buf@.take(n as int));
            assert(self.plaintext_buf@ =~= self.plaintext_buf@.take(n as int)
                + self.plaintext_buf@.skip(n as int));
            lemma_decrypted_payload(old(self)@, ciphertext@.len(), plaintext@, self.packet_reader);
        }
        match self.packet_reader.read(plaintext) {
            Ok(header) => Ok(header),
            Err(e) => Err(ConnectionError::Packet(e)),
        }
    }

    /// Whether the payload of the last packet that was decrypted is still in the buffer.
    /// It is unless a shorter frame has come since that could not be decrypted.
    pub fn has_payload(&self) -> (r: bool)
        ensures
            r == self@.has_payload(),
    {
        self.payload_end <= PACKET_HEADER_SIZE || self.payload_end <= self.plaintext_buf.len()
    }

    /// The payload of the last packet.
    pub fn payload(&self) -> (payload: &[u8])
        requires
            self@.has_payload(),
        ensures
            payload@ == self@.payload(),
    {
        if self.payload_end > PACKET_HEADER_SIZE {
            slice_subrange(self.plaintext_buf.as_slice(), PACKET_HEADER_SIZE, self.payload_end)
        } else {
            slice_subrange(self.plaintext_buf.as_slice(), 0, 0)
        }
    }
}

/// The sending half of a packet transport.
pub struct PacketTx {
    packet_builder: PacketBuilder,
    write_buf: Vec<u8>,
}

impl View for PacketTx {
    type V = BuilderState;

    closed spec fn view(&self) -> BuilderState {
        self.packet_builder@
    }
}

/// What comes of sending a packet over a session: the frame to write and the session
/// afterwards, or an error of the Noise layer and an unchanged session.
pub open spec fn packet_sent(
    before: SessionView,
    after: SessionView,
    packet: Seq<u8>,
    r: Result<Vec<u8>, ConnectionError>,
) -> bool {
    match sealed(before, packet) {
        Some(ciphertext) => {
            &&& r is Ok
            &&& r->Ok_0@ == wire_frame(ciphertext)
            &&& carries(before, ciphertext, packet)
            &&& after == after_send(before)
        },
        None => {
            &&& r == Err::<Vec<u8>, ConnectionError>(
                ConnectionError::Noise(session_write_error(before, packet)),
            )
            &&& after == before
        },
    }
}

/// An answer that may hold a frame, as one that must: without a frame it is an error that
/// no cipher reports.
pub open spec fn frame_in(r: Result<Option<Vec<u8>>, ConnectionError>) -> Result<
    Vec<u8>,
    ConnectionError,
> {
    match r {
        Ok(Some(frame)) => Ok(frame),
        Ok(None) => Err(ConnectionError::PacketOverflow),
        Err(e) => Err(e),
    }
}

/// What comes of sending the next chunk of a message.
pub open spec fn chunk_sent(
    builder_before: BuilderState,
    builder_after: BuilderState,
    before: SessionView,
    after: SessionView,
    payload: Seq<u8>,
    last: bool,
    r: Result<Vec<u8>, ConnectionError>,
) -> bool {
    if builder_before.in_progress {
        &&& builder_after == (BuilderState {
            in_progress: !last,
            is_first: false,
            msg_type: builder_before.msg_type,
        })
        &&& builder_before.msg_type <= 0x0FFF
        &&& packet_sent(
            before,
            after,
            packet_bytes(
                chunk_kind(builder_before.is_first, last),
                builder_before.msg_type,
                payload,
            ),
            r,
        )
    } else {
        &&& builder_after == builder_before
        &&& after == before
        &&& r == Err::<Vec<u8>, ConnectionError>(
            ConnectionError::PacketBuilder(PacketBuildError::NoMessageInProgress),
        )
    }
}

/// Why a message cannot be started, if it cannot.
pub open spec fn refusal(builder: BuilderState, msg_type: u16) -> Option<PacketBuildError> {
    if msg_type > 0x0FFF {
        Some(PacketBuildError::MessageTypeTooLarge(msg_type))
    } else if builder.in_progress {
        Some(PacketBuildError::MessageAlreadyInProgress)
    } else {
        None
    }
}

/// A message can be started exactly where its type has 12 bits and none is in progress;
/// the type is looked at first.
pub proof fn lemma_refusal(builder: BuilderState, msg_type: u16)
    ensures
        refusal(builder, msg_type) is None <==> msg_type <= 0x0FFF && !builder.in_progress,
        refusal(builder, msg_type) == Some(PacketBuildError::MessageTypeTooLarge(msg_type))
            <==> msg_type > 0x0FFF,
        refusal(builder, msg_type) == Some(PacketBuildError::MessageAlreadyInProgress) <==> msg_type
            <= 0x0FFF && builder.in_progress,
{
}

/// The state of a message that has been started and of which nothing has been sent.
pub open spec fn prepared(msg_type: u16) -> BuilderState {
    BuilderState { in_progress: true, is_first: true, msg_type }
}

/// Encrypts a packet into the scratch buffer, which grows as needed, and frames it.
fn seal_packet(
    write_buf: &mut Vec<u8>,
    session: &mut snow::TransportState,
    plaintext: &[u8],
) -> (r: Result<Vec<u8>, ConnectionError>)
    ensures
        packet_sent(session_of(*old(session)), session_of(*final(session)), plaintext@, r),
{
    if plaintext.len() <= MAX_RAW_PACKET_SIZE {
        let ciphertext_len: usize = plaintext.len() + CIPHER_OVERHEAD_SIZE;
        if write_buf.len() < ciphertext_len {
            write_buf.resize(ciphertext_len, 0);
        }
    }
    let n: usize = match session.write_message(plaintext, write_buf.as_mut_slice()) {
        Ok(n) => n,
        Err(e) => return Err(ConnectionError::Noise(e)),
    };
    let ciphertext = slice_subrange(write_buf.as_slice(), 0, n);
    assert(ciphertext@ =~= write_buf@.take(n as int));
    write_frame(ciphertext)
}

impl PacketTx {
    pub fn new() -> (tx: Self)
        ensures
            tx@ == (BuilderState { in_progress: false, is_first: false, msg_type: 0 }),
    {
        PacketTx { packet_builder: PacketBuilder::new(), write_buf: Vec::new() }
    }

    /// Begin a new message with the given type.
    pub fn prepare_message(&mut self, msg_type: u16) -> (r: Result<(), ConnectionError>)
        ensures
            match refusal(old(self)@, msg_type) {
                Some(e) => {
                    &&& r == Err::<(), ConnectionError>(ConnectionError::PacketBuilder(e))
                    &&& final(self)@ == old(self)@
                },
                None => r is Ok && final(self)@ == prepared(msg_type),
            },
            r is Ok <==> msg_type <= 0x0FFF && !old(self)@.in_progress,
    {
        match self.packet_builder.prepare(msg_type) {
            Ok(()) => Ok(()),
            Err(e) => Err(ConnectionError::PacketBuilder(e)),
        }
    }

    /// The frame to write for the next chunk of the current message; `last` marks the
    /// final chunk.
    pub fn send_packet(
        &mut self,
        session: &mut snow::TransportState,
        payload: &[u8],
        last: bool,
    ) -> (r: Result<Vec<u8>, ConnectionError>)
        ensures
            chunk_sent(
                old(self)@,
                final(self)@,
                session_of(*old(session)),
                session_of(*final(session)),
                payload@,
                last,
                r,
            ),
    {
        match self.packet_builder.pack(payload, last) {
            Ok(plaintext) => seal_packet(&mut self.write_buf, session, plaintext),
            Err(e) => Err(ConnectionError::PacketBuilder(e)),
        }
    }

    /// Abandon the current message: the frame to write, or `None` if there is no message
    /// in progress.
    pub fn abort_message(&mut self, session: &mut snow::TransportState) -> (r: Result<
        Option<Vec<u8>>,
        ConnectionError,
    >)
        ensures
            if old(self)@.in_progress {
                &&& final(self)@ == (BuilderState {
                    in_progress: false,
                    is_first: true,
                    msg_type: old(self)@.msg_type,
                })
                &&& old(self)@.msg_type <= 0x0FFF
                &&& packet_sent(
                    session_of(*old(session)),
                    session_of(*final(session)),
                    packet_bytes(PacketKind::Abort, old(self)@.msg_type, Seq::empty()),
                    frame_in(r),
                )
            } else {
                &&& r == Ok::<Option<Vec<u8>>, ConnectionError>(None)
                &&& final(self)@ == old(self)@
                &&& session_of(*final(session)) == session_of(*old(session))
            },
    {
        match self.packet_builder.abort() {
            Some(plaintext) => match seal_packet(&mut self.write_buf, session, plaintext) {
                Ok(frame) => Ok(Some(frame)),
                Err(e) => Err(e),
            },
            None => Ok(None),
        }
    }

    /// Start sending `data` in as many packets as needed. `last_slice` says whether the
    /// message ends with it.
    ///
    /// The frames come from [`SliceSend::next`].
    pub fn send_slice<'a>(&self, data: &'a [u8], last_slice: bool) -> (send: SliceSend<'a>)
        ensures
            send@ == slice_plan(data@, last_slice),
    {
        SliceSend { rest: data, last_slice, done: false }
    }

    /// Start sending what a source of bytes yields, packet by packet, and end the message
    /// with it.
    ///
    /// What to do comes from [`ReaderSend::next`].
    pub fn send_reader(&self) -> (send: ReaderSend)
        ensures
            send@ == (ReaderState { pending: Seq::empty(), ended: false, done: false }),
    {
        ReaderSend { buf: Vec::with_capacity(MAX_PACKET_SIZE), ended: false, done: false }
    }
}

/// A chunk of a message, and whether it is the last one.
pub type Chunk = (Seq<u8>, bool);

/// How a slice is cut into packets: full packets, then what is left over, which is empty
/// only if the slice is. Only the last packet can end the message.
pub open spec fn slice_plan(data: Seq<u8>, last_slice: bool) -> Seq<Chunk>
    decreases data.len(),
{
    if data.len() <= MAX_PACKET_SIZE {
        seq![(data, last_slice)]
    } else {
        seq![(data.take(MAX_PACKET_SIZE as int), false)] + slice_plan(
            data.skip(MAX_PACKET_SIZE as int),
            last_slice,
        )
    }
}

/// The chunks of a slice lie in it side by side, from its start to its end. Each but the
/// last fills a packet, the last is empty only if the slice is, and only the last ends the
/// message, if the message ends with the slice.
pub proof fn lemma_slice_plan_cuts(data: Seq<u8>, last_slice: bool)
    ensures
        ({
            let plan = slice_plan(data, last_slice);
            let n = plan.len() - 1;
            &&& n >= 0
            &&& forall|i: int| 0 <= i <= n ==> (#[trigger] plan[i]).1 == (last_slice && i == n)
            &&& forall|i: int| 0 <= i < n ==> (#[trigger] plan[i]).0.len() == 65517
            &&& plan[n].0.len() <= 65517
            &&& data.len() > 0 ==> plan[n].0.len() > 0
            &&& data.len() == 65517 * n + plan[n].0.len()
            &&& forall|i: int|
                0 <= i <= n ==> (#[trigger] plan[i]).0 == data.subrange(
                    65517 * i,
                    65517 * i + plan[i].0.len(),
                )
        }),
    decreases data.len(),
{
    let plan = slice_plan(data, last_slice);
    if data.len() <= MAX_PACKET_SIZE {
        assert(data.subrange(0, data.len() as int) =~= data);
    } else {
        let rest = data.skip(MAX_PACKET_SIZE as int);
        let tail = slice_plan(rest, last_slice);
        lemma_slice_plan_cuts(rest, last_slice);
        assert forall|i: int| 0 <= i < plan.len() implies (#[trigger] plan[i]).0 == data.subrange(
            65517 * i,
            65517 * i + plan[i].0.len(),
        ) && plan[i].1 == (last_slice && i == plan.len() - 1) && (i < plan.len() - 1
            ==> plan[i].0.len() == 65517) by {
            if i > 0 {
                assert(plan[i] == tail[i - 1]);
                assert(tail[i - 1].0 =~= data.subrange(65517 * i, 65517 * i + plan[i].0.len()));
            }
        }
        assert(plan[plan.len() - 1] == tail[tail.len() - 1]);
    }
}

/// A slice on its way into packets. Its view is the chunks that are still to be sent.
pub struct SliceSend<'a> {
    rest: &'a [u8],
    last_slice: bool,
    done: bool,
}

impl<'a> View for SliceSend<'a> {
    type V = Seq<Chunk>;

    closed spec fn view(&self) -> Seq<Chunk> {
        if self.done {
            Seq::empty()
        } else {
            slice_plan(self.rest@, self.last_slice)
        }
    }
}

impl<'a> SliceSend<'a> {
    /// The next frame to write, or `None` when the whole slice has been sent.
    pub fn next(&mut self, tx: &mut PacketTx, session: &mut snow::TransportState) -> (r: Result<
        Option<Vec<u8>>,
        ConnectionError,
    >)
        ensures
            if old(self)@.len() == 0 {
                &&& r == Ok::<Option<Vec<u8>>, ConnectionError>(None)
                &&& final(self)@ == old(self)@
                &&& final(tx)@ == old(tx)@
                &&& session_of(*final(session)) == session_of(*old(session))
            } else {
                &&& final(self)@ == old(self)@.skip(1)
                &&& !(r matches Ok(None))
                &&& chunk_sent(
                    old(tx)@,
                    final(tx)@,
                    session_of(*old(session)),
                    session_of(*final(session)),
                    old(self)@[0].0,
                    old(self)@[0].1,
                    frame_in(r),
                )
            },
    {
        if self.done {
            return Ok(None);
        }
        let sent = if self.rest.len() <= MAX_PACKET_SIZE {
            self.done = true;
            assert(self@ =~= old(self)@.skip(1));
            tx.send_packet(session, self.rest, self.last_slice)
        } else {
            let (chunk, rest) = self.rest.split_at(MAX_PACKET_SIZE);
            self.rest = rest;
            proof {
                assert(chunk@ =~= old(self).rest@.take(MAX_PACKET_SIZE as int));
                assert(rest@ =~= old(self).rest@.skip(MAX_PACKET_SIZE as int));
                assert(self@ =~= old(self)@.skip(1));
            }
            tx.send_packet(session, chunk, false)
        };
        match sent {
            Ok(frame) => Ok(Some(frame)),
            Err(e) => Err(e),
        }
    }
}

/// What a [`ReaderSend`] remembers.
pub ghost struct ReaderState {
    /// Bytes that were read and not yet sent.
    pub pending: Seq<u8>,
    /// The source has no more bytes.
    pub ended: bool,
    /// The last packet has been sent.
    pub done: bool,
}

impl ReaderState {
    /// The state once `data` has been read; reading nothing means the end.
    pub open spec fn fed(self, data: Seq<u8>) -> ReaderState {
        ReaderState { pending: self.pending + data, ended: data.len() == 0, ..self }
    }
}

/// What to do next for a [`ReaderSend`].
#[derive(Debug)]
pub enum ReaderStep {
    /// Write this frame.
    Send(Vec<u8>),
    /// Read up to this many bytes and [`feed`][ReaderSend::feed] them.
    Read(usize),
    /// Nothing: the message has been sent.
    Done,
}

/// A source of bytes on its way into packets. No more than one packet is buffered.
///
/// The message ends with the packet that holds what was left over when the source
/// ended. That packet is empty if nothing was.
pub struct ReaderSend {
    buf: Vec<u8>,
    ended: bool,
    done: bool,
}

impl View for ReaderSend {
    type V = ReaderState;

    closed spec fn view(&self) -> ReaderState {
        ReaderState { pending: self.buf@, ended: self.ended, done: self.done }
    }
}

impl ReaderSend {
    #[verifier::type_invariant]
    spec fn one_packet_at_most(self) -> bool {
        self.buf@.len() <= MAX_PACKET_SIZE
    }

    /// What to do next: write a frame, read more, or stop.
    pub fn next(&mut self, tx: &mut PacketTx, session: &mut snow::TransportState) -> (r: Result<
        ReaderStep,
        ConnectionError,
    >)
        ensures
            if old(self)@.done {
                &&& r == Ok::<ReaderStep, ConnectionError>(ReaderStep::Done)
                &&& final(self)@ == old(self)@
                &&& final(tx)@ == old(tx)@
                &&& session_of(*final(session)) == session_of(*old(session))
            } else if old(self)@.ended || old(self)@.pending.len() >= MAX_PACKET_SIZE {
                &&& final(self)@ == (ReaderState {
                    pending: Seq::empty(),
                    done: old(self)@.ended,
                    ..old(self)@
                })
                &&& !(r matches Ok(ReaderStep::Read(_))) && !(r matches Ok(ReaderStep::Done))
                &&& chunk_sent(
                    old(tx)@,
                    final(tx)@,
                    session_of(*old(session)),
                    session_of(*final(session)),
                    old(self)@.pending,
                    old(self)@.ended,
                    match r {
                        Ok(ReaderStep::Send(frame)) => Ok(frame),
                        Ok(_) => Err(ConnectionError::PacketOverflow),
                        Err(e) => Err(e),
                    },
                )
            } else {
                &&& r == Ok::<ReaderStep, ConnectionError>(
                    ReaderStep::Read((MAX_PACKET_SIZE - old(self)@.pending.len()) as usize),
                )
                &&& final(self)@ == old(self)@
                &&& final(tx)@ == old(tx)@
                &&& session_of(*final(session)) == session_of(*old(session))
            },
    {
        proof {
            use_type_invariant(&*self);
        }
        if self.done {
            return Ok(ReaderStep::Done);
        }
        if !self.ended && self.buf.len() < MAX_PACKET_SIZE {
            return Ok(ReaderStep::Read(MAX_PACKET_SIZE - self.buf.len()));
        }
        let last = self.ended;
        let mut buf: Vec<u8> = Vec::new();
        std::mem::swap(&mut buf, &mut self.buf);
        self.done = last;
        let sent = tx.send_packet(session, buf.as_slice(), last);
        buf.clear();
        self.buf = buf;
        match sent {
            Ok(frame) => Ok(ReaderStep::Send(frame)),
            Err(e) => Err(e),
        }
    }

    /// Take in bytes that were read from the source; none mean that it has ended.
    pub fn feed(&mut self, data: &[u8])
        requires
            !old(self)@.ended,
            old(self)@.pending.len() + data@.len() <= MAX_PACKET_SIZE,
        ensures
            final(self)@ == old(self)@.fed(data@),
            final(self)@.pending == old(self)@.pending + data@,
            final(self)@.ended <==> data@.len() == 0,
            final(self)@.done == old(self)@.done,
    {
        if data.len() == 0 {
            self.ended = true;
        } else {
            let mut buf: Vec<u8> = Vec::new();
            std::mem::swap(&mut buf, &mut self.buf);
            buf.extend_from_slice(data);
            self.buf = buf;
        }
        assert(self@.pending =~= old(self)@.pending + data@);
    }
}

/// How what a source yields is cut into packets: full packets, then what is left over.
pub open spec fn reader_plan(data: Seq<u8>) -> Seq<Chunk>
    decreases data.len(),
{
    if data.len() < MAX_PACKET_SIZE {
        seq![(data, true)]
    } else {
        seq![(data.take(MAX_PACKET_SIZE as int), false)] + reader_plan(
            data.skip(MAX_PACKET_SIZE as int),
        )
    }
}

/// The chunks of what a source yields lie in it side by side, from its start to its end.
/// Each but the last fills a packet, the last does not, and only the last ends the message.
pub proof fn lemma_reader_plan_cuts(data: Seq<u8>)
    ensures
        ({
            let plan = reader_plan(data);
            let n = plan.len() - 1;
            &&& n >= 0
            &&& forall|i: int| 0 <= i <= n ==> (#[trigger] plan[i]).1 == (i == n)
            &&& forall|i: int| 0 <= i < n ==> (#[trigger] plan[i]).0.len() == 65517
            &&& plan[n].0.len() < 65517
            &&& data.len() == 65517 * n + plan[n].0.len()
            &&& forall|i: int|
                0 <= i <= n ==> (#[trigger] plan[i]).0 == data.subrange(
                    65517 * i,
                    65517 * i + plan[i].0.len(),
                )
        }),
    decreases data.len(),
{
    let plan = reader_plan(data);
    if data.len() < MAX_PACKET_SIZE {
        assert(data.subrange(0, data.len() as int) =~= data);
    } else {
        let rest = data.skip(MAX_PACKET_SIZE as int);
        let tail = reader_plan(rest);
        lemma_reader_plan_cuts(rest);
        assert forall|i: int| 0 <= i < plan.len() implies (#[trigger] plan[i]).0 == data.subrange(
            65517 * i,
            65517 * i + plan[i].0.len(),
        ) && plan[i].1 == (i == plan.len() - 1) && (i < plan.len() - 1 ==> plan[i].0.len()
            == 65517) by {
            if i > 0 {
                assert(plan[i] == tail[i - 1]);
                assert(tail[i - 1].0 =~= data.subrange(65517 * i, 65517 * i + plan[i].0.len()));
            }
        }
        assert(plan[plan.len() - 1] == tail[tail.len() - 1]);
    }
}

/// A source and a slice are cut alike, but for a source that yields a number of whole
/// packets: that is cut like a slice with which the message does not end, and then ended
/// with an empty packet.
pub proof fn lemma_reader_plan_by_slices(data: Seq<u8>)
    ensures
        reader_plan(data) == (if data.len() > 0 && data.len() % (MAX_PACKET_SIZE as nat) == 0 {
            slice_plan(data, false).push((Seq::empty(), true))
        } else {
            slice_plan(data, true)
        }),
    decreases data.len(),
{
    if data.len() >= MAX_PACKET_SIZE {
        let first = data.take(MAX_PACKET_SIZE as int);
        let rest = data.skip(MAX_PACKET_SIZE as int);
        lemma_reader_plan_by_slices(rest);
        lemma_mod_sub_multiples_vanish(data.len() as int, MAX_PACKET_SIZE as int);
        if rest.len() == 0 {
            lemma_small_mod(0, MAX_PACKET_SIZE as nat);
            assert(rest =~= Seq::empty());
            assert(first =~= data);
            assert(reader_plan(data) =~= slice_plan(data, false).push((Seq::empty(), true)));
        } else if rest.len() % (MAX_PACKET_SIZE as nat) == 0 {
            assert(reader_plan(data) =~= slice_plan(data, false).push((Seq::empty(), true)));
        }
    } else {
        lemma_small_mod(data.len(), MAX_PACKET_SIZE as nat);
    }
}

/// Whether `reads` are answers that a source can give to a [`ReaderSend`]: never more
/// than was asked for, and nothing exactly at the end.
pub open spec fn answers(state: ReaderState, reads: Seq<Seq<u8>>) -> bool
    decreases reads.len(),
{
    if state.ended {
        reads.len() == 0
    } else {
        let pending = if state.pending.len() >= MAX_PACKET_SIZE {
            Seq::empty()
        } else {
            state.pending
        };
        &&& reads.len() > 0
        &&& pending.len() + reads[0].len() <= MAX_PACKET_SIZE
        &&& answers(ReaderState { pending, ..state }.fed(reads[0]), reads.skip(1))
    }
}

/// The chunks that a [`ReaderSend`] sends when its source answers with `reads`: whenever
/// it has something to send, that is sent before it reads again.
pub open spec fn chunks_of_run(state: ReaderState, reads: Seq<Seq<u8>>) -> Seq<Chunk>
    decreases reads.len(),
{
    if state.done {
        Seq::empty()
    } else if state.ended {
        seq![(state.pending, true)]
    } else if reads.len() == 0 {
        Seq::empty()
    } else if state.pending.len() >= MAX_PACKET_SIZE {
        let next = ReaderState { pending: Seq::empty(), ..state }.fed(reads[0]);
        seq![(state.pending, false)] + chunks_of_run(next, reads.skip(1))
    } else {
        chunks_of_run(state.fed(reads[0]), reads.skip(1))
    }
}

/// The bytes of a list of byte strings, one behind the other.
pub open spec fn concat(parts: Seq<Seq<u8>>) -> Seq<u8>
    decreases parts.len(),
{
    if parts.len() == 0 {
        Seq::empty()
    } else {
        parts[0] + concat(parts.skip(1))
    }
}

/// Reading adds to what is pending, and a source has ended exactly when a read gave no
/// bytes.
pub proof fn lemma_fed(state: ReaderState, data: Seq<u8>)
    ensures
        state.fed(data).pending == state.pending + data,
        state.fed(data).ended <==> data.len() == 0,
        state.fed(data).done == state.done,
{
}

/// How many bytes a list of byte strings holds.
pub open spec fn total_len(parts: Seq<Seq<u8>>) -> nat
    decreases parts.len(),
{
    if parts.len() == 0 {
        0
    } else {
        total_len(parts.drop_last()) + parts.last().len()
    }
}

/// Whether `reads` are what a source hands out that holds `start` bytes of a packet
/// already: some bytes each time, never more than the packet has room for, and nothing
/// once it has come to its end.
pub open spec fn read_to_the_end(start: nat, reads: Seq<Seq<u8>>) -> bool {
    &&& reads.len() > 0
    &&& reads.last().len() == 0
    &&& forall|i: int|
        0 <= i < reads.len() - 1 ==> 0 < (#[trigger] reads[i]).len() <= 65517 - (start + total_len(
            reads.take(i),
        )) % 65517
}

proof fn lemma_total_len_front(parts: Seq<Seq<u8>>)
    requires
        parts.len() > 0,
    ensures
        total_len(parts) == parts[0].len() + total_len(parts.skip(1)),
    decreases parts.len(),
{
    if parts.len() == 1 {
        reveal_with_fuel(total_len, 2);
        assert(parts.skip(1).len() == 0);
    } else {
        lemma_total_len_front(parts.drop_last());
        assert(parts.drop_last().skip(1) =~= parts.skip(1).drop_last());
    }
}

proof fn lemma_read_on(start: nat, reads: Seq<Seq<u8>>)
    requires
        read_to_the_end(start, reads),
        reads.len() > 1,
    ensures
        read_to_the_end(start + reads[0].len(), reads.skip(1)),
{
    let rest = reads.skip(1);
    assert forall|i: int| 0 <= i < rest.len() - 1 implies 0 < (#[trigger] rest[i]).len() <= 65517 - (
    start + reads[0].len() + total_len(rest.take(i))) % 65517 by {
        assert(rest[i] == reads[i + 1]);
        lemma_total_len_front(reads.take(i + 1));
        assert(reads.take(i + 1).skip(1) =~= rest.take(i));
    }
}

/// What is left of a number of bytes once whole packets are taken off.
proof fn lemma_left_over(start: nat, packets: int, pending: nat)
    requires
        start == MAX_PACKET_SIZE * packets + pending,
        pending <= MAX_PACKET_SIZE,
    ensures
        start % 65517 == (if pending == MAX_PACKET_SIZE {
            0
        } else {
            pending
        }),
{
    lemma_mod_multiples_vanish(packets, pending as int, MAX_PACKET_SIZE as int);
    lemma_mod_multiples_vanish(packets + 1, 0, MAX_PACKET_SIZE as int);
    lemma_small_mod(0, MAX_PACKET_SIZE as nat);
    if pending < MAX_PACKET_SIZE {
        lemma_small_mod(pending, MAX_PACKET_SIZE as nat);
    }
}

proof fn lemma_answers_to_the_end(
    state: ReaderState,
    start: nat,
    packets: int,
    reads: Seq<Seq<u8>>,
)
    requires
        !state.ended,
        state.pending.len() <= MAX_PACKET_SIZE,
        start == MAX_PACKET_SIZE * packets + state.pending.len(),
        read_to_the_end(start, reads),
    ensures
        answers(state, reads),
    decreases reads.len(),
{
    let full = state.pending.len() >= MAX_PACKET_SIZE;
    let pending = if full {
        Seq::empty()
    } else {
        state.pending
    };
    let sent = if full {
        packets + 1
    } else {
        packets
    };
    let next = ReaderState { pending, ..state }.fed(reads[0]);
    assert(total_len(reads.take(0)) == 0);
    lemma_left_over(start, packets, state.pending.len());
    if reads.len() == 1 {
        assert(reads.skip(1).len() == 0);
        assert(answers(next, reads.skip(1)));
    } else {
        assert(0 < reads[0].len() <= 65517 - (start + total_len(reads.take(0))) % 65517);
        lemma_read_on(start, reads);
        assert(start + reads[0].len() == MAX_PACKET_SIZE * sent + next.pending.len());
        lemma_answers_to_the_end(next, start + reads[0].len(), sent, reads.skip(1));
    }
}

/// Whatever a source hands out, as long as it is no more than was asked for, it is read to
/// its end, and what is sent is all of it: a source is only taken to have ended once it
/// hands out nothing.
pub proof fn lemma_source_is_read_to_the_end(state: ReaderState, reads: Seq<Seq<u8>>)
    requires
        !state.done,
        !state.ended,
        state.pending.len() == 0,
        read_to_the_end(0, reads),
    ensures
        answers(state, reads),
        chunks_of_run(state, reads) == reader_plan(concat(reads)),
{
    lemma_answers_to_the_end(state, 0, 0, reads);
    lemma_reader_plan(state, reads);
    assert(state.pending + concat(reads) =~= concat(reads));
}

/// However a source hands out its bytes, the same packets are sent: it only matters what
/// it yields in all.
pub proof fn lemma_reader_plan(state: ReaderState, reads: Seq<Seq<u8>>)
    requires
        !state.done,
        state.pending.len() <= MAX_PACKET_SIZE,
        state.ended ==> state.pending.len() < MAX_PACKET_SIZE,
        answers(state, reads),
    ensures
        chunks_of_run(state, reads) == reader_plan(state.pending + concat(reads)),
    decreases reads.len(),
{
    let data = state.pending + concat(reads);
    if state.ended {
        assert(data =~= state.pending);
    } else if state.pending.len() >= MAX_PACKET_SIZE {
        let next = ReaderState { pending: Seq::empty(), ..state }.fed(reads[0]);
        lemma_reader_plan(next, reads.skip(1));
        assert(data.take(MAX_PACKET_SIZE as int) =~= state.pending);
        assert(data.skip(MAX_PACKET_SIZE as int) =~= next.pending + concat(reads.skip(1)));
    } else {
        let next = state.fed(reads[0]);
        lemma_reader_plan(next, reads.skip(1));
        assert(data =~= next.pending + concat(reads.skip(1)));
    }
}

/// A frame starts with the number of bytes that follow, high byte first.
pub proof fn lemma_frame_layout(data: Seq<u8>)
    requires
        data.len() <= 0xFFFF,
    ensures
        wire_frame(data).len() == data.len() + 2,
        wire_frame(data)[0] * 256 + wire_frame(data)[1] == data.len(),
        wire_frame(data).skip(2) == data,
{
    let hi = (data.len() / 256) as u8;
    let lo = (data.len() % 256) as u8;
    lemma_be_value_pair(hi, lo);
    assert(hi * 256 + lo == data.len());
    assert(wire_frame(data) =~= seq![hi, lo] + data);
    assert(wire_frame(data).skip(2) =~= data);
}

/// The payload of a packet is all that stands behind its two header bytes.
pub proof fn lemma_packet_payload(raw: Seq<u8>)
    ensures
        raw.len() >= 2 ==> packet_payload(raw) == raw.skip(2),
        raw.len() < 2 ==> packet_payload(raw) == Seq::<u8>::empty(),
{
    if raw.len() == 2 {
        assert(raw.skip(2) =~= Seq::<u8>::empty());
    }
}

/// A packet fills what a Noise message can hold: no packet of up to 65517 bytes of payload
/// is too long to be encrypted and framed, and any longer one is.
pub proof fn lemma_packet_fits(session: SessionView, kind: PacketKind, msg_type: u16, payload: Seq<u8>)
    requires
        msg_type <= 0x0FFF,
    ensures
        sealed(session, packet_bytes(kind, msg_type, payload)) is Some <==> session.can_send
            && session.send_nonce < u64::MAX && payload.len() <= 65517,
        MAX_PACKET_SIZE == 65517,
        MAX_CIPHERTEXT_SIZE == 65535,
{
    lemma_packet_layout(kind, msg_type, payload);
}

/// What sending a chunk comes to. It is refused where no message has been started, where
/// the session cannot send, and where the chunk does not fit in a packet. Otherwise the
/// other end of the session opens the frame to a packet with this very chunk, of the type
/// that the message was started with, which starts the message if it is the first and ends
/// it if it is the last.
pub proof fn lemma_chunk_sent(
    builder_before: BuilderState,
    builder_after: BuilderState,
    before: SessionView,
    after: SessionView,
    payload: Seq<u8>,
    last: bool,
    r: Result<Vec<u8>, ConnectionError>,
)
    requires
        chunk_sent(builder_before, builder_after, before, after, payload, last, r),
    ensures
        r is Ok <==> builder_before.in_progress && before.can_send && before.send_nonce < u64::MAX
            && payload.len() <= 65517,
        !builder_before.in_progress ==> {
            &&& r == Err::<Vec<u8>, ConnectionError>(
                ConnectionError::PacketBuilder(PacketBuildError::NoMessageInProgress),
            )
            &&& builder_after == builder_before
        },
        builder_before.in_progress ==> {
            &&& builder_after.in_progress == !last
            &&& !builder_after.is_first
            &&& builder_after.msg_type == builder_before.msg_type
        },
        r is Err ==> after == before,
        r is Err && builder_before.in_progress ==> r->Err_0 is Noise,
        r is Ok ==> after == (SessionView { send_nonce: (before.send_nonce + 1) as u64, ..before }),
        r matches Ok(frame) ==> {
            &&& frame@.len() >= 2
            &&& frame@[0] * 256 + frame@[1] == frame@.len() - 2
            &&& forall|peer: SessionView| #[trigger]
                linked(before, peer) && peer.can_recv ==> {
                    &&& opened(peer, frame@.skip(2)) matches Some(raw)
                    &&& raw.len() == payload.len() + 2
                    &&& raw.skip(2) == payload
                    &&& (raw[0] % 16) * 256 + raw[1] == builder_before.msg_type
                    &&& raw[0] / 16 == 0 || raw[0] / 16 == 1 <==> builder_before.is_first
                    &&& raw[0] / 16 == 0 || raw[0] / 16 == 3 <==> last
                    &&& raw[0] / 16 <= 3
                }
        },
{
    if builder_before.in_progress {
        let kind = chunk_kind(builder_before.is_first, last);
        let packet = packet_bytes(kind, builder_before.msg_type, payload);
        lemma_packet_fits(before, kind, builder_before.msg_type, payload);
        lemma_packet_layout(kind, builder_before.msg_type, payload);
        lemma_chunk_kind(builder_before.is_first, last);
        if r is Ok {
            lemma_frame_layout(sealed(before, packet)->0);
        }
    }
}

/// What reading a packet comes to. The packet is taken exactly if the session opens the
/// frame and the reader takes what is in it; what is then at hand is all that stands behind
/// the two header bytes. A packet that is not taken leaves the message that is open as it
/// was, and a frame that does not open leaves the session as it was, too.
pub proof fn lemma_packet_read(
    rx_before: RxState,
    rx_after: RxState,
    before: SessionView,
    after: SessionView,
    ciphertext: Seq<u8>,
    r: Result<PacketHeader, ConnectionError>,
)
    requires
        packet_read(rx_before, rx_after, before, after, ciphertext, r),
    ensures
        r is Ok <==> (opened(before, ciphertext) matches Some(raw) && rx_before.reader.takes(raw) is Ok),
        r is Err ==> rx_after.reader == rx_before.reader,
        opened(before, ciphertext) is None ==> {
            &&& r matches Err(ConnectionError::Noise(_))
            &&& after == before
            &&& rx_after.end == rx_before.end
            &&& rx_after.buffer.len() == ciphertext.len()
        },
        opened(before, ciphertext) matches Some(raw) ==> {
            &&& after == (SessionView { recv_nonce: (before.recv_nonce + 1) as u64, ..before })
            &&& rx_after.has_payload()
            &&& raw.len() >= 2 ==> rx_after.payload() == raw.skip(2)
            &&& match rx_before.reader.takes(raw) {
                Ok((header, next)) => r == Ok::<PacketHeader, ConnectionError>(header)
                    && rx_after.reader == next,
                Err(e) => r == Err::<PacketHeader, ConnectionError>(ConnectionError::Packet(e)),
            }
        },
{
    if let Some(raw) = opened(before, ciphertext) {
        lemma_packet_payload(raw);
    }
}

/// An answer with a frame is that frame, and an error is that error.
pub proof fn lemma_frame_in(r: Result<Option<Vec<u8>>, ConnectionError>)
    ensures
        r matches Ok(Some(frame)) ==> frame_in(r) == Ok::<Vec<u8>, ConnectionError>(frame),
        r matches Err(e) ==> frame_in(r) == Err::<Vec<u8>, ConnectionError>(e),
        r matches Ok(None) ==> frame_in(r) is Err,
{
}

/// The buffer that a frame is decrypted into keeps what it held, as far as it reaches, and
/// a frame that cannot be decrypted moves neither the message that is open nor the end of
/// the last packet.
pub proof fn lemma_room(rx: RxState, len: nat, session: SessionView, ciphertext: Seq<u8>)
    ensures
        rx.room(len).len() == len,
        len <= rx.buffer.len() ==> rx.room(len) == rx.buffer.take(len as int),
        rx.buffer.len() <= len ==> rx.room(len).take(rx.buffer.len() as int) == rx.buffer,
        forall|i: int| rx.buffer.len() <= i < len ==> #[trigger] rx.room(len)[i] == 0,
        rx.unread(session, ciphertext).reader == rx.reader,
        rx.unread(session, ciphertext).end == rx.end,
{
    assert(len <= rx.buffer.len() ==> rx.room(len) =~= rx.buffer.take(len as int));
    assert(rx.buffer.len() <= len ==> rx.room(len).take(rx.buffer.len() as int) =~= rx.buffer);
}

} // verus!
