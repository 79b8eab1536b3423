//! Packet headers, and the state machines that write and read them.
//!
//! A message travels as one or more packets. Each packet starts with a 2-byte
//! big-endian header: the packet kind in the four high bits and the message type
//! in the twelve low bits. The payload follows.

use vstd::prelude::*;

use crate::bytes::{be_bytes, be_value, lemma_be_round_trip, lemma_be_value_pair, push_be};

verus! {

/// The four high bits of the 2-byte header encode the packet kind.
pub const KIND_SHIFT: u16 = 12;

/// Selects the kind bits of a header.
pub const KIND_MASK: u16 = 0xF000;

/// The twelve low bits encode the message type.
pub const TYPE_MASK: u16 = 0x0FFF;

/// Byte length of the length prefix in front of every frame.
pub const FRAME_HEADER_SIZE: usize = 2;

/// Maximum ciphertext size that fits in a 16-bit length prefix.
pub const MAX_CIPHERTEXT_SIZE: usize = 0xFFFF;

/// AES-GCM authentication tag overhead per Noise message.
pub const CIPHER_OVERHEAD_SIZE: usize = 16;

/// Byte length of the packet header.
pub const PACKET_HEADER_SIZE: usize = 2;

/// Maximum plaintext size (header and payload) per packet.
pub const MAX_RAW_PACKET_SIZE: usize = MAX_CIPHERTEXT_SIZE - CIPHER_OVERHEAD_SIZE;

/// Maximum payload bytes per packet: plaintext minus the packet header.
pub const MAX_PACKET_SIZE: usize = MAX_RAW_PACKET_SIZE - PACKET_HEADER_SIZE;

/// The structural role of a packet within a message stream.
///
/// | Kind    | Sender                                 | Receiver                       |
/// |---------|----------------------------------------|--------------------------------|
/// | `Sole`  | sent a message that fits in one packet | delivers the complete message  |
/// | `First` | started a multi-packet message         | opens a new in-progress message|
/// | `Mid`   | sent more data for the current message | accumulates payload            |
/// | `Last`  | finished the current message           | closes and delivers the message|
/// | `Abort` | abandoned the current message          | discards accumulated payload   |
#[derive(Debug, Clone, Copy, PartialEq, Eq, Structural)]
pub enum PacketKind {
    /// A complete message that fits in a single packet.
    Sole,
    /// The first packet of a multi-packet message.
    First,
    /// A continuation packet: more packets follow.
    Mid,
    /// The final packet of a multi-packet message.
    Last,
    /// The sender abandons the in-progress message.
    Abort,
}

impl PacketKind {
    /// The number that stands for the kind in a header.
    pub open spec fn code(self) -> u8 {
        match self {
            PacketKind::Sole => 0,
            PacketKind::First => 1,
            PacketKind::Mid => 2,
            PacketKind::Last => 3,
            PacketKind::Abort => 4,
        }
    }

    /// The kind that a number stands for.
    pub fn from_u8(v: u8) -> (r: Result<Self, PacketReadError>)
        ensures
            match r {
                Ok(kind) => kind.code() == v,
                Err(e) => v > 4 && e == PacketReadError::UnknownKind(v),
            },
    {
        match v {
            0 => Ok(PacketKind::Sole),
            1 => Ok(PacketKind::First),
            2 => Ok(PacketKind::Mid),
            3 => Ok(PacketKind::Last),
            4 => Ok(PacketKind::Abort),
            _ => Err(PacketReadError::UnknownKind(v)),
        }
    }

    /// The number that stands for the kind in a header.
    pub fn to_u8(self) -> (v: u8)
        ensures
            v == self.code(),
    {
        match self {
            PacketKind::Sole => 0,
            PacketKind::First => 1,
            PacketKind::Mid => 2,
            PacketKind::Last => 3,
            PacketKind::Abort => 4,
        }
    }
}

/// The kind of the next packet of a message: whether it opens the message, and
/// whether it ends it.
pub open spec fn chunk_kind(is_first: bool, last: bool) -> PacketKind {
    if is_first {
        if last {
            PacketKind::Sole
        } else {
            PacketKind::First
        }
    } else if last {
        PacketKind::Last
    } else {
        PacketKind::Mid
    }
}

/// A raw packet: the 2-byte header, then the payload.
pub open spec fn packet_bytes(kind: PacketKind, msg_type: u16, payload: Seq<u8>) -> Seq<u8> {
    be_bytes((kind.code() * 0x1000 + msg_type) as nat, 2) + payload
}

/// Errors returned by [`PacketBuilder`].
#[derive(Debug, Clone, Copy, PartialEq, Eq, Structural)]
pub enum PacketBuildError {
    /// [`PacketBuilder::prepare`] was called while a message was already in progress.
    MessageAlreadyInProgress,
    /// [`PacketBuilder::pack`] was called before [`PacketBuilder::prepare`].
    NoMessageInProgress,
    /// The message type value exceeds the 12-bit maximum (`0x0FFF`).
    MessageTypeTooLarge(u16),
}

/// What a [`PacketBuilder`] remembers between packets.
pub ghost struct BuilderState {
    /// A message was started and not yet finished or abandoned.
    pub in_progress: bool,
    /// No packet of the current message has been built yet.
    pub is_first: bool,
    /// The type of the current message.
    pub msg_type: u16,
}

/// Builds packets for transmission over an encrypted transport.
///
/// 1. Call [`prepare`][Self::prepare] to start a new message and record its type.
/// 2. Call [`pack`][Self::pack] one or more times with payload chunks; pass
///    `last = true` on the final chunk.
/// 3. To abandon a message before it is complete, call [`abort`][Self::abort].
pub struct PacketBuilder {
    in_progress: bool,
    is_first: bool,
    msg_type: u16,
    buf: Vec<u8>,
}

impl View for PacketBuilder {
    type V = BuilderState;

    closed spec fn view(&self) -> BuilderState {
        BuilderState {
            in_progress: self.in_progress,
            is_first: self.is_first,
            msg_type: self.msg_type,
        }
    }
}

impl PacketBuilder {
    #[verifier::type_invariant]
    spec fn type_fits(self) -> bool {
        self.msg_type <= TYPE_MASK
    }

    pub fn new() -> (builder: Self)
        ensures
            builder@ == (BuilderState { in_progress: false, is_first: false, msg_type: 0 }),
    {
        PacketBuilder {
            in_progress: false,
            is_first: false,
            msg_type: 0,
            buf: Vec::with_capacity(MAX_RAW_PACKET_SIZE),
        }
    }

    /// Begin a new message with the given type.
    ///
    /// `msg_type` must fit in 12 bits. The previous message must have been ended
    /// with `last = true` or [`abort`][Self::abort].
    pub fn prepare(&mut self, msg_type: u16) -> (r: Result<(), PacketBuildError>)
        ensures
            match r {
                Ok(()) => {
                    &&& msg_type <= 0x0FFF
                    &&& !old(self)@.in_progress
                    &&& final(self)@ == (BuilderState { in_progress: true, is_first: true, msg_type })
                },
                Err(e) => {
                    &&& final(self)@ == old(self)@
                    &&& if msg_type > 0x0FFF {
                        e == PacketBuildError::MessageTypeTooLarge(msg_type)
                    } else {
                        old(self)@.in_progress && e == PacketBuildError::MessageAlreadyInProgress
                    }
                },
            },
    {
        if msg_type > TYPE_MASK {
            return Err(PacketBuildError::MessageTypeTooLarge(msg_type));
        }
        if self.in_progress {
            return Err(PacketBuildError::MessageAlreadyInProgress);
        }
        self.msg_type = msg_type;
        self.in_progress = true;
        self.is_first = true;
        Ok(())
    }

    /// Pack a payload slice into a raw packet and return it.
    ///
    /// Set `last = true` on the final chunk of a message. This emits a
    /// [`Last`][PacketKind::Last] packet (or [`Sole`][PacketKind::Sole] if this is
    /// also the first chunk) and allows [`prepare`][Self::prepare] to be called again.
    pub fn pack(&mut self, payload: &[u8], last: bool) -> (r: Result<&[u8], PacketBuildError>)
        ensures
            match r {
                Ok(raw) => {
                    &&& old(self)@.in_progress
                    &&& old(self)@.msg_type <= 0x0FFF
                    &&& raw@ == packet_bytes(
                        chunk_kind(old(self)@.is_first, last),
                        old(self)@.msg_type,
                        payload@,
                    )
                    &&& final(self)@ == (BuilderState {
                        in_progress: !last,
                        is_first: false,
                        msg_type: old(self)@.msg_type,
                    })
                },
                Err(e) => {
                    &&& !old(self)@.in_progress
                    &&& e == PacketBuildError::NoMessageInProgress
                    &&& final(self)@ == old(self)@
                },
            },
    {
        if !self.in_progress {
            return Err(PacketBuildError::NoMessageInProgress);
        }
        let kind = match (self.is_first, last) {
            (true, true) => PacketKind::Sole,
            (true, false) => PacketKind::First,
            (false, false) => PacketKind::Mid,
            (false, true) => PacketKind::Last,
        };
        proof {
            use_type_invariant(&*self);
        }
        let header: u16 = header_word(kind, self.msg_type);
        let mut buf: Vec<u8> = Vec::new();
        std::mem::swap(&mut buf, &mut self.buf);
        buf.clear();
        push_be(&mut buf, header as u64, PACKET_HEADER_SIZE);
        buf.extend_from_slice(payload);
        self.buf = buf;
        self.is_first = false;
        self.in_progress = !last;
        assert(self.buf@ =~= packet_bytes(kind, self.msg_type, payload@));
        Ok(self.buf.as_slice())
    }

    /// Emit an [`Abort`][PacketKind::Abort] packet for the current in-progress
    /// message, and reset so that a new message can be started with
    /// [`prepare`][Self::prepare].
    ///
    /// Returns `None` if no message is in progress (safe to call speculatively).
    pub fn abort(&mut self) -> (r: Option<&[u8]>)
        ensures
            match r {
                Some(raw) => {
                    &&& old(self)@.in_progress
                    &&& old(self)@.msg_type <= 0x0FFF
                    &&& raw@ == packet_bytes(
                        PacketKind::Abort,
                        old(self)@.msg_type,
                        Seq::<u8>::empty(),
                    )
                    &&& final(self)@ == (BuilderState {
                        in_progress: false,
                        is_first: true,
                        msg_type: old(self)@.msg_type,
                    })
                },
                None => !old(self)@.in_progress && final(self)@ == old(self)@,
            },
    {
        if !self.in_progress {
            return None;
        }
        proof {
            use_type_invariant(&*self);
        }
        let header: u16 = header_word(PacketKind::Abort, self.msg_type);
        let mut buf: Vec<u8> = Vec::new();
        std::mem::swap(&mut buf, &mut self.buf);
        buf.clear();
        push_be(&mut buf, header as u64, PACKET_HEADER_SIZE);
        self.buf = buf;
        self.in_progress = false;
        self.is_first = true;
        assert(self.buf@ =~= packet_bytes(PacketKind::Abort, self.msg_type, Seq::<u8>::empty()));
        Some(self.buf.as_slice())
    }
}

/// The header as a number: the kind in the four high bits, the type below.
fn header_word(kind: PacketKind, msg_type: u16) -> (header: u16)
    requires
        msg_type <= TYPE_MASK,
    ensures
        header == kind.code() * 0x1000 + msg_type,
{
    let code: u16 = kind.to_u8() as u16;
    assert((code << 12u16) | msg_type == code * 0x1000 + msg_type) by (bit_vector)
        requires
            code <= 4,
            msg_type <= 0x0FFF,
    ;
    (code << KIND_SHIFT) | msg_type
}

/// Errors returned by [`PacketReader`].
#[derive(Debug, Clone, Copy, PartialEq, Eq, Structural)]
pub enum PacketReadError {
    /// The raw packet had fewer than two bytes; the header cannot be decoded.
    PacketTooShort,
    /// The kind field (top 4 bits) is not one of the five defined kinds.
    UnknownKind(u8),
    /// A message-start packet ([`Sole`][PacketKind::Sole] or
    /// [`First`][PacketKind::First]) arrived while a message was already in progress.
    ///
    /// `from` is the type of the in-progress message; `to` is the type carried by
    /// the unexpected packet.
    UnexpectedMessageStart { from: u16, to: u16 },
    /// A continuation, final, or abort packet arrived with no message in progress.
    MissingMessageStart { msg_type: u16 },
    /// A continuation, final, or abort packet's message type differs from the type
    /// established by the opening packet.
    MessageTypeChange { from: u16, to: u16 },
}

/// The decoded header of a packet.
#[derive(Debug, Clone, Copy, PartialEq, Eq, Structural)]
pub struct PacketHeader {
    pub kind: PacketKind,
    pub msg_type: u16,
}

/// Reads and validates packets, and keeps the state that a multi-packet message
/// needs to be checked for consistency.
#[derive(Debug, Clone, Copy, PartialEq, Eq, Structural)]
pub struct PacketReader {
    /// A message has been opened and not yet closed or abandoned.
    pub in_progress: bool,
    /// The type of the open message; zero while there is none.
    pub msg_type: u16,
}

/// The kind nibble of a raw packet's header.
pub open spec fn kind_nibble(raw: Seq<u8>) -> u8 {
    (be_value(raw.take(2)) / 0x1000) as u8
}

/// The message type in a raw packet's header.
pub open spec fn type_bits(raw: Seq<u8>) -> u16 {
    (be_value(raw.take(2)) % 0x1000) as u16
}

/// The kind that a number stands for, where there is one.
pub open spec fn kind_of(code: u8) -> Option<PacketKind> {
    match code {
        0 => Some(PacketKind::Sole),
        1 => Some(PacketKind::First),
        2 => Some(PacketKind::Mid),
        3 => Some(PacketKind::Last),
        4 => Some(PacketKind::Abort),
        _ => None,
    }
}

/// What a header alone says, whatever came before it.
pub open spec fn decode_header(raw: Seq<u8>) -> Result<PacketHeader, PacketReadError> {
    if raw.len() < 2 {
        Err(PacketReadError::PacketTooShort)
    } else {
        match kind_of(kind_nibble(raw)) {
            Some(kind) => Ok(PacketHeader { kind, msg_type: type_bits(raw) }),
            None => Err(PacketReadError::UnknownKind(kind_nibble(raw))),
        }
    }
}

impl PacketReader {
    /// How the reader takes a decoded header: the error, or the reader afterwards.
    pub open spec fn admits(self, header: PacketHeader) -> Result<PacketReader, PacketReadError> {
        let msg_type = header.msg_type;
        match header.kind {
            PacketKind::Sole | PacketKind::First => if self.in_progress {
                Err(PacketReadError::UnexpectedMessageStart { from: self.msg_type, to: msg_type })
            } else if header.kind == PacketKind::First {
                Ok(PacketReader { in_progress: true, msg_type })
            } else {
                Ok(self)
            },
            PacketKind::Mid | PacketKind::Last | PacketKind::Abort => if !self.in_progress {
                Err(PacketReadError::MissingMessageStart { msg_type })
            } else if self.msg_type != msg_type {
                Err(PacketReadError::MessageTypeChange { from: self.msg_type, to: msg_type })
            } else if header.kind == PacketKind::Mid {
                Ok(self)
            } else {
                Ok(PacketReader { in_progress: false, msg_type: 0 })
            },
        }
    }

    /// How the reader takes a raw packet: the error, or the header and the reader
    /// afterwards.
    pub open spec fn takes(self, raw: Seq<u8>) -> Result<
        (PacketHeader, PacketReader),
        PacketReadError,
    > {
        match decode_header(raw) {
            Err(e) => Err(e),
            Ok(header) => match self.admits(header) {
                Err(e) => Err(e),
                Ok(next) => Ok((header, next)),
            },
        }
    }

    pub fn new() -> (reader: Self)
        ensures
            reader == (PacketReader { in_progress: false, msg_type: 0 }),
    {
        PacketReader { in_progress: false, msg_type: 0 }
    }

    /// Decode and validate a raw (decrypted) packet: 2 header bytes and the payload.
    ///
    /// A packet that is refused leaves the reader as it was.
    pub fn read(&mut self, raw_packet: &[u8]) -> (r: Result<PacketHeader, PacketReadError>)
        ensures
            match old(self).takes(raw_packet@) {
                Err(e) => r == Err::<PacketHeader, PacketReadError>(e) && *final(self) == *old(
                    self,
                ),
                Ok((header, next)) => r == Ok::<PacketHeader, PacketReadError>(header)
                    && *final(self) == next,
            },
    {
        if raw_packet.len() < 2 {
            return Err(PacketReadError::PacketTooShort);
        }
        let hi: u8 = raw_packet[0];
        let lo: u8 = raw_packet[1];
        let header: u16 = hi as u16 * 256 + lo as u16;
        let kind_raw: u8 = ((header & KIND_MASK) >> KIND_SHIFT) as u8;
        let msg_type: u16 = header & TYPE_MASK;
        proof {
            assert(raw_packet@.take(2) =~= seq![hi, lo]);
            lemma_be_value_pair(hi, lo);
            assert(((header & 0xF000u16) >> 12u16) as u8 == header / 0x1000) by (bit_vector);
            assert(header & 0x0FFFu16 == header % 0x1000) by (bit_vector);
        }
        let kind = match PacketKind::from_u8(kind_raw) {
            Ok(kind) => kind,
            Err(e) => return Err(e),
        };
        match kind {
            PacketKind::Sole | PacketKind::First => {
                if self.in_progress {
                    return Err(
                        PacketReadError::UnexpectedMessageStart {
                            from: self.msg_type,
                            to: msg_type,
                        },
                    );
                }
                if matches!(kind, PacketKind::First) {
                    self.in_progress = true;
                    self.msg_type = msg_type;
                }
            },
            PacketKind::Mid | PacketKind::Last | PacketKind::Abort => {
                if !self.in_progress {
                    return Err(PacketReadError::MissingMessageStart { msg_type });
                }
                if self.msg_type != msg_type {
                    return Err(
                        PacketReadError::MessageTypeChange { from: self.msg_type, to: msg_type },
                    );
                }
                if matches!(kind, PacketKind::Last | PacketKind::Abort) {
                    self.in_progress = false;
                    self.msg_type = 0;
                }
            },
        }
        Ok(PacketHeader { kind, msg_type })
    }
}

/// A packet that was built decodes to the kind and the type it was built with, and
/// its payload stands behind the header.
pub proof fn lemma_packet_round_trip(kind: PacketKind, msg_type: u16, payload: Seq<u8>)
    requires
        msg_type <= 0x0FFF,
    ensures
        decode_header(packet_bytes(kind, msg_type, payload)) == Ok::<PacketHeader, PacketReadError>(
            PacketHeader { kind, msg_type },
        ),
        packet_bytes(kind, msg_type, payload).len() == 2 + payload.len(),
        packet_bytes(kind, msg_type, payload).skip(2) == payload,
{
    let word = (kind.code() * 0x1000 + msg_type) as nat;
    let raw = packet_bytes(kind, msg_type, payload);
    crate::bytes::lemma_be_bytes_len(word, 2);
    lemma_be_round_trip(word, 2);
    lemma_be_value_pair(0, 0);
    assert(raw.take(2) =~= be_bytes(word, 2));
    assert(raw.skip(2) =~= payload);
    assert(word / 0x1000 == kind.code());
    assert(word % 0x1000 == msg_type);
}

/// Messages do not mix: while one is open, only a packet that continues, ends or abandons
/// it is taken, and it must be of the same type; while none is, only one that starts a
/// message is taken.
pub proof fn lemma_messages_do_not_mix(reader: PacketReader, raw: Seq<u8>)
    ensures
        reader.takes(raw) matches Ok((header, next)) ==> {
            &&& reader.in_progress ==> header.msg_type == reader.msg_type && (header.kind
                == PacketKind::Mid || header.kind == PacketKind::Last || header.kind
                == PacketKind::Abort)
            &&& !reader.in_progress ==> header.kind == PacketKind::Sole || header.kind
                == PacketKind::First
            &&& next.in_progress <==> header.kind == PacketKind::First || header.kind
                == PacketKind::Mid
        },
{
}

/// Only whole headers of the five kinds are decoded, and what is decoded determines the
/// two bytes.
pub proof fn lemma_header_is_canonical(raw: Seq<u8>)
    ensures
        decode_header(raw) matches Ok(header) ==> header.msg_type <= 0x0FFF && raw == packet_bytes(
            header.kind,
            header.msg_type,
            raw.skip(2),
        ),
{
    if raw.len() >= 2 {
        let hi = raw[0];
        let lo = raw[1];
        lemma_be_value_pair(hi, lo);
        assert(raw.take(2) =~= seq![hi, lo]);
        let word = (hi * 256 + lo) as nat;
        assert(word / 0x1000 * 0x1000 + word % 0x1000 == word);
        assert(raw =~= seq![hi, lo] + raw.skip(2));
    }
}

/// Where everything stands in a raw packet: the kind in the four high bits of the first
/// byte, the type in the twelve bits that follow, the payload from the third byte on.
pub proof fn lemma_packet_layout(kind: PacketKind, msg_type: u16, payload: Seq<u8>)
    requires
        msg_type <= 0x0FFF,
    ensures
        ({
            let raw = packet_bytes(kind, msg_type, payload);
            &&& raw.len() == payload.len() + 2
            &&& raw[0] / 16 == (match kind {
                PacketKind::Sole => 0int,
                PacketKind::First => 1,
                PacketKind::Mid => 2,
                PacketKind::Last => 3,
                PacketKind::Abort => 4,
            })
            &&& (raw[0] % 16) * 256 + raw[1] == msg_type
            &&& raw.skip(2) == payload
        }),
{
    let word = (kind.code() * 0x1000 + msg_type) as nat;
    let hi = (word / 256) as u8;
    let lo = (word % 256) as u8;
    lemma_packet_round_trip(kind, msg_type, payload);
    lemma_be_value_pair(hi, lo);
    assert(hi * 256 + lo == word);
    assert(packet_bytes(kind, msg_type, payload) =~= seq![hi, lo] + payload);
}

/// A chunk opens a message exactly if it is the first of it, ends it exactly if it is the
/// last, and never abandons it.
pub proof fn lemma_chunk_kind(is_first: bool, last: bool)
    ensures
        chunk_kind(is_first, last) == PacketKind::Sole || chunk_kind(is_first, last)
            == PacketKind::First <==> is_first,
        chunk_kind(is_first, last) == PacketKind::Sole || chunk_kind(is_first, last)
            == PacketKind::Last <==> last,
        chunk_kind(is_first, last) != PacketKind::Abort,
{
}

/// What the first two bytes of a raw packet say.
pub proof fn lemma_decode_header(raw: Seq<u8>)
    ensures
        decode_header(raw) == Err::<PacketHeader, PacketReadError>(PacketReadError::PacketTooShort)
            <==> raw.len() < 2,
        raw.len() >= 2 && raw[0] >= 0x50 ==> decode_header(raw) == Err::<
            PacketHeader,
            PacketReadError,
        >(PacketReadError::UnknownKind((raw[0] / 16) as u8)),
        raw.len() >= 2 && raw[0] < 0x50 ==> {
            &&& decode_header(raw) matches Ok(header)
            &&& header.msg_type == (raw[0] % 16) * 256 + raw[1]
            &&& header.kind == PacketKind::Sole <==> raw[0] / 16 == 0
            &&& header.kind == PacketKind::First <==> raw[0] / 16 == 1
            &&& header.kind == PacketKind::Mid <==> raw[0] / 16 == 2
            &&& header.kind == PacketKind::Last <==> raw[0] / 16 == 3
            &&& header.kind == PacketKind::Abort <==> raw[0] / 16 == 4
        },
{
    if raw.len() >= 2 {
        let hi = raw[0];
        let lo = raw[1];
        lemma_be_value_pair(hi, lo);
        assert(raw.take(2) =~= seq![hi, lo]);
        let word = (hi * 256 + lo) as nat;
        assert(word / 0x1000 == hi / 16);
        assert(word % 0x1000 == (hi % 16) * 256 + lo);
    }
}

/// Which packets a reader takes, and what it then is: while no message is open, those
/// that start one; while one is, those of its type that do not. A packet that more must
/// follow leaves the message of its type open, and any other leaves none open.
pub proof fn lemma_reader_takes(reader: PacketReader, raw: Seq<u8>)
    ensures
        reader.takes(raw) is Ok <==> {
            &&& raw.len() >= 2
            &&& if reader.in_progress {
                0x20 <= raw[0] < 0x50 && (raw[0] % 16) * 256 + raw[1] == reader.msg_type
            } else {
                raw[0] < 0x20
            }
        },
        reader.takes(raw) matches Ok((header, next)) ==> {
            &&& decode_header(raw) == Ok::<PacketHeader, PacketReadError>(header)
            &&& next.in_progress <==> 0x10 <= raw[0] < 0x30
            &&& next.in_progress ==> next.msg_type == (raw[0] % 16) * 256 + raw[1]
            &&& raw[0] < 0x10 ==> next == reader
            &&& raw[0] >= 0x30 ==> next == PacketReader { in_progress: false, msg_type: 0 }
        },
        raw.len() >= 2 && raw[0] < 0x20 && reader.in_progress ==> reader.takes(raw) == Err::<
            (PacketHeader, PacketReader),
            PacketReadError,
        >(
            PacketReadError::UnexpectedMessageStart {
                from: reader.msg_type,
                to: ((raw[0] % 16) * 256 + raw[1]) as u16,
            },
        ),
        raw.len() >= 2 && 0x20 <= raw[0] < 0x50 && !reader.in_progress ==> reader.takes(raw) == Err::<
            (PacketHeader, PacketReader),
            PacketReadError,
        >(
            PacketReadError::MissingMessageStart {
                msg_type: ((raw[0] % 16) * 256 + raw[1]) as u16,
            },
        ),
        raw.len() >= 2 && 0x20 <= raw[0] < 0x50 && reader.in_progress && (raw[0] % 16) * 256 + raw[1]
            != reader.msg_type ==> reader.takes(raw) == Err::<
            (PacketHeader, PacketReader),
            PacketReadError,
        >(
            PacketReadError::MessageTypeChange {
                from: reader.msg_type,
                to: ((raw[0] % 16) * 256 + raw[1]) as u16,
            },
        ),
        decode_header(raw) matches Err(e) ==> reader.takes(raw) == Err::<
            (PacketHeader, PacketReader),
            PacketReadError,
        >(e),
{
    lemma_decode_header(raw);
}

} // verus!
