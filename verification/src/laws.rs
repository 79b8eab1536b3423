//! What callers may rely on, said of the calls themselves.
//!
//! Each law takes what was handed to one or more calls and what came back, and says how
//! they relate, byte by byte where bytes are concerned.

use vstd::arithmetic::power::pow;
use vstd::prelude::*;

use crate::auth::{
    header_fields, lemma_header_refused, lemma_header_round_trip, lemma_signed_header,
    lemma_verified_header, verified_header, AuthDetails, AuthHeader, BadAuth, HeaderView,
    MalformedAuthHeader, SignedAuthHeader,
};
use crate::bytes::{lemma_be_digits, lemma_be_value_pair};
use crate::handshake::{
    accept, authenticate, can_be_signed, connect, frame_sent, fresh, lemma_authenticated,
    knows_its_peer, lemma_details_of, lemma_established, lemma_facing_is_mutual, lemma_frame_sent,
    lemma_refused, lemma_still_facing, remote_key, sent_as, Accepting, Answered, Confirmed, Connecting, HandshakeContext,
    Replied, Transport,
};
use crate::hex_text::{decode_key, hex_chars, is_hex, lemma_hex_round_trip, HexKeyError};
use crate::messages::{
    lemma_continuation_read, Message, MessageBytes, MessagePackets, MessageRx, MessageTx,
};
use crate::node_id::{NodeId, NodeIdTooLong};
use crate::packet_state::{
    lemma_chunk_kind, lemma_decode_header, lemma_packet_layout, lemma_reader_takes,
    PacketBuildError, PacketBuilder, PacketHeader, PacketKind, PacketReadError, PacketReader,
};
use crate::packets::{
    frame_len, lemma_chunk_sent, lemma_frame_in, lemma_frame_layout, lemma_packet_fits,
    lemma_packet_read, lemma_refusal, lemma_slice_plan_cuts, write_frame, ConnectionError,
    PacketRx, PacketTx, ReaderSend, ReaderStep, SliceSend,
};
use crate::noise::{TransportKeypair, TransportPrivateKey, TransportPublicKey};
use crate::pool::{
    expect_peer, lemma_longer, ConnectionPool, Guard, LinkState, NotReady, Reconnect, ReconnectStep,
    WaitConnected, WaitStep,
};
use crate::sign::{
    ed25519_public, ed25519_verifies, lemma_signed_record, lemma_verified_payload,
    lemma_verify_answers, signed_record, SignatureKeypair, SignatureSigningKey, SignatureValidationErr, SignatureVerificationKey,
    SigningErr,
};
use crate::snow_state::{
    facing, handshake_payload, handshake_remote_static, linked, noise_public_key, opened,
    session_of, turn_kept, HandshakeView, SessionView, NOISE_PARAMS,
};
use crate::tlv::frame_bytes;
use crate::transport::{MessageTransport, PacketTransport};
use crate::{KeyGenError, MalformedKeyError};

verus! {

/// Framing takes all that a 16-bit length can count and nothing more, puts that length in
/// front, and a reader of the length knows how much follows.
pub proof fn law_frame(
    data: &[u8],
    framed: Result<Vec<u8>, ConnectionError>,
    prefix: [u8; 2],
    len: usize,
)
    requires
        call_ensures(write_frame, (data,), framed),
        call_ensures(frame_len, (prefix,), len),
    ensures
        framed is Ok <==> data@.len() <= 0xFFFF,
        framed is Err ==> framed == Err::<Vec<u8>, ConnectionError>(ConnectionError::PacketOverflow),
        framed matches Ok(frame) ==> {
            &&& frame@.len() == data@.len() + 2
            &&& frame@[0] * 256 + frame@[1] == data@.len()
            &&& frame@.skip(2) == data@
            &&& prefix@ == frame@.take(2) ==> len == data@.len()
        },
        len == prefix@[0] * 256 + prefix@[1],
{
    assert(prefix@ =~= seq![prefix@[0], prefix@[1]]);
    lemma_be_value_pair(prefix@[0], prefix@[1]);
    if let Ok(frame) = framed {
        lemma_frame_layout(data@);
        if prefix@ == frame@.take(2) {
            assert(prefix@[0] == frame@[0] && prefix@[1] == frame@[1]);
        }
    }
}

/// A message can be started exactly where its type has 12 bits and none is in progress. It
/// is then in progress with this type, and nothing of it has been sent.
pub proof fn law_prepare(tx: &mut PacketTx, msg_type: u16, r: Result<(), ConnectionError>)
    requires
        call_ensures(PacketTx::prepare_message, (tx, msg_type), r),
    ensures
        r is Ok <==> msg_type <= 0x0FFF && !old(tx)@.in_progress,
        r is Ok ==> {
            &&& final(tx)@.in_progress
            &&& final(tx)@.is_first
            &&& final(tx)@.msg_type == msg_type
        },
        r is Err ==> final(tx)@ == old(tx)@,
        msg_type > 0x0FFF ==> r == Err::<(), ConnectionError>(
            ConnectionError::PacketBuilder(PacketBuildError::MessageTypeTooLarge(msg_type)),
        ),
        msg_type <= 0x0FFF && old(tx)@.in_progress ==> r == Err::<(), ConnectionError>(
            ConnectionError::PacketBuilder(PacketBuildError::MessageAlreadyInProgress),
        ),
{
    lemma_refusal(old(tx)@, msg_type);
}

/// A message is started by a builder exactly where its type has 12 bits and none is in
/// progress.
pub proof fn law_builder_prepare(
    builder: &mut PacketBuilder,
    msg_type: u16,
    r: Result<(), PacketBuildError>,
)
    requires
        call_ensures(PacketBuilder::prepare, (builder, msg_type), r),
    ensures
        r is Ok <==> msg_type <= 0x0FFF && !old(builder)@.in_progress,
        r is Ok ==> {
            &&& final(builder)@.in_progress
            &&& final(builder)@.is_first
            &&& final(builder)@.msg_type == msg_type
        },
        r is Err ==> final(builder)@ == old(builder)@,
{
}

/// Sending starts with any type of 12 bits, and the message is then cut from start to end.
pub proof fn law_send_message<'a, T: Into<u16>>(
    tx: &mut MessageTx,
    msg_type: T,
    code: u16,
    payload: &'a [u8],
    r: Result<SliceSend<'a>, ConnectionError>,
)
    requires
        call_ensures(MessageTx::send_message::<T>, (tx, msg_type, payload), r),
        forall|other: u16| #[trigger]
            call_ensures(T::into, (msg_type,), other) ==> other == code,
    ensures
        r is Ok <==> code <= 0x0FFF && !old(tx).packets@.in_progress,
        r is Err ==> final(tx).packets@ == old(tx).packets@,
        r matches Ok(send) ==> {
            let n = send@.len() - 1;
            &&& final(tx).packets@.in_progress
            &&& final(tx).packets@.is_first
            &&& final(tx).packets@.msg_type == code
            &&& n >= 0
            &&& payload@.len() == 65517 * n + send@[n].0.len()
            &&& forall|i: int|
                0 <= i <= n ==> (#[trigger] send@[i]).1 == (i == n) && send@[i].0
                    == payload@.subrange(65517 * i, 65517 * i + send@[i].0.len())
        },
{
    lemma_refusal(old(tx).packets@, code);
    lemma_slice_plan_cuts(payload@, true);
}

/// Streaming starts with any type of 12 bits, and nothing has then been read.
pub proof fn law_send_reader<T: Into<u16>>(
    tx: &mut MessageTx,
    msg_type: T,
    code: u16,
    r: Result<ReaderSend, ConnectionError>,
)
    requires
        call_ensures(MessageTx::send_reader::<T>, (tx, msg_type), r),
        forall|other: u16| #[trigger]
            call_ensures(T::into, (msg_type,), other) ==> other == code,
    ensures
        r is Ok <==> code <= 0x0FFF && !old(tx).packets@.in_progress,
        r is Err ==> final(tx).packets@ == old(tx).packets@,
        r matches Ok(send) ==> {
            &&& final(tx).packets@.in_progress
            &&& final(tx).packets@.is_first
            &&& final(tx).packets@.msg_type == code
            &&& send@.pending.len() == 0
            &&& !send@.ended
            &&& !send@.done
        },
{
    lemma_refusal(old(tx).packets@, code);
}

/// What a packet is read as depends on its first two bytes and on whether a message is open.
pub proof fn law_read(
    reader: &mut PacketReader,
    raw: &[u8],
    r: Result<PacketHeader, PacketReadError>,
)
    requires
        call_ensures(PacketReader::read, (reader, raw), r),
    ensures
        r is Ok <==> {
            &&& raw@.len() >= 2
            &&& if old(reader).in_progress {
                2 <= raw@[0] / 16 <= 4 && (raw@[0] % 16) * 256 + raw@[1] == old(reader).msg_type
            } else {
                raw@[0] / 16 <= 1
            }
        },
        r matches Ok(header) ==> {
            &&& header.msg_type == (raw@[0] % 16) * 256 + raw@[1]
            &&& header.kind == PacketKind::Sole <==> raw@[0] / 16 == 0
            &&& header.kind == PacketKind::First <==> raw@[0] / 16 == 1
            &&& header.kind == PacketKind::Mid <==> raw@[0] / 16 == 2
            &&& header.kind == PacketKind::Last <==> raw@[0] / 16 == 3
            &&& header.kind == PacketKind::Abort <==> raw@[0] / 16 == 4
            &&& final(reader).in_progress <==> raw@[0] / 16 == 1 || raw@[0] / 16 == 2
            &&& final(reader).in_progress ==> final(reader).msg_type == header.msg_type
        },
        r is Err ==> *final(reader) == *old(reader),
        raw@.len() < 2 <==> r == Err::<PacketHeader, PacketReadError>(
            PacketReadError::PacketTooShort,
        ),
        raw@.len() >= 2 && raw@[0] / 16 > 4 ==> r == Err::<PacketHeader, PacketReadError>(
            PacketReadError::UnknownKind((raw@[0] / 16) as u8),
        ),
{
    lemma_reader_takes(*old(reader), raw@);
    lemma_decode_header(raw@);
}

/// What is packed is read back: at a reader that is where the builder is, the packet has the
/// type of the message and the payload of the chunk; it opens the message if it is the first
/// of it, and closes it if it is the last.
pub proof fn law_pack_then_read(
    builder: &mut PacketBuilder,
    payload: &[u8],
    last: bool,
    packed: Result<&[u8], PacketBuildError>,
    reader: &mut PacketReader,
    raw: &[u8],
    r: Result<PacketHeader, PacketReadError>,
)
    requires
        call_ensures(PacketBuilder::pack, (builder, payload, last), packed),
        call_ensures(PacketReader::read, (reader, raw), r),
        packed matches Ok(packet) ==> raw@ == packet@,
        old(reader).in_progress == !old(builder)@.is_first,
        old(reader).in_progress ==> old(reader).msg_type == old(builder)@.msg_type,
    ensures
        packed is Ok <==> old(builder)@.in_progress,
        packed is Ok ==> {
            &&& raw@.len() == payload@.len() + 2
            &&& raw@.skip(2) == payload@
            &&& r matches Ok(header)
            &&& header.msg_type == old(builder)@.msg_type
            &&& header.kind == PacketKind::Sole || header.kind == PacketKind::First <==> old(
                builder,
            )@.is_first
            &&& header.kind == PacketKind::Sole || header.kind == PacketKind::Last <==> last
            &&& final(builder)@.in_progress == !last
            &&& final(reader).in_progress == !last
            &&& final(builder)@.msg_type == old(builder)@.msg_type
            &&& !final(builder)@.is_first
        },
        packed is Err ==> final(builder)@ == old(builder)@,
{
    if packed is Ok {
        let kind = crate::packet_state::chunk_kind(old(builder)@.is_first, last);
        lemma_packet_layout(kind, old(builder)@.msg_type, payload@);
        lemma_chunk_kind(old(builder)@.is_first, last);
        lemma_reader_takes(*old(reader), raw@);
        lemma_decode_header(raw@);
    }
}

/// A message that is abandoned is over at both ends, and nothing is abandoned where none is
/// in progress.
pub proof fn law_abort_then_read(
    builder: &mut PacketBuilder,
    packed: Option<&[u8]>,
    reader: &mut PacketReader,
    raw: &[u8],
    r: Result<PacketHeader, PacketReadError>,
)
    requires
        call_ensures(PacketBuilder::abort, (builder,), packed),
        call_ensures(PacketReader::read, (reader, raw), r),
        packed matches Some(packet) ==> raw@ == packet@,
        old(reader).in_progress,
        old(reader).msg_type == old(builder)@.msg_type,
    ensures
        packed is Some <==> old(builder)@.in_progress,
        !final(builder)@.in_progress,
        packed is Some ==> {
            &&& raw@.len() == 2
            &&& r matches Ok(header)
            &&& header.kind == PacketKind::Abort
            &&& header.msg_type == old(builder)@.msg_type
            &&& !final(reader).in_progress
        },
        packed is None ==> final(builder)@ == old(builder)@,
{
    if packed is Some {
        lemma_packet_layout(PacketKind::Abort, old(builder)@.msg_type, Seq::empty());
        lemma_reader_takes(*old(reader), raw@);
        lemma_decode_header(raw@);
    }
}

/// A chunk is sent exactly where a message is in progress, the session can still send and
/// the chunk fits in a packet. What is sent is what is received: at the other end of the
/// session the frame's data is read as a packet of the message's type with this very chunk.
pub proof fn law_send_then_read(
    tx: &mut PacketTx,
    session: &mut snow::TransportState,
    payload: &[u8],
    last: bool,
    sent: Result<Vec<u8>, ConnectionError>,
    rx: &mut PacketRx,
    peer: &mut snow::TransportState,
    ciphertext: &[u8],
    r: Result<PacketHeader, ConnectionError>,
)
    requires
        call_ensures(PacketTx::send_packet, (tx, session, payload, last), sent),
        call_ensures(PacketRx::read_packet, (rx, peer, ciphertext), r),
        sent matches Ok(frame) ==> ciphertext@ == frame@.skip(2),
        linked(session_of(*old(session)), session_of(*old(peer))),
        session_of(*old(peer)).can_recv,
        old(rx)@.reader.in_progress == !old(tx)@.is_first,
        old(rx)@.reader.in_progress ==> old(rx)@.reader.msg_type == old(tx)@.msg_type,
    ensures
        sent is Ok <==> {
            &&& old(tx)@.in_progress
            &&& session_of(*old(session)).can_send
            &&& session_of(*old(session)).send_nonce < u64::MAX
            &&& payload@.len() <= 65517
        },
        sent matches Ok(frame) ==> {
            &&& frame@.len() >= 2
            &&& frame@[0] * 256 + frame@[1] == frame@.len() - 2
            &&& r matches Ok(header)
            &&& header.msg_type == old(tx)@.msg_type
            &&& header.kind == PacketKind::Sole || header.kind == PacketKind::First <==> old(
                tx,
            )@.is_first
            &&& header.kind == PacketKind::Sole || header.kind == PacketKind::Last <==> last
            &&& header.kind != PacketKind::Abort
            &&& final(rx)@.has_payload()
            &&& final(rx)@.payload() == payload@
            &&& final(rx)@.reader.in_progress == !last
            &&& linked(session_of(*final(session)), session_of(*final(peer)))
        },
        old(tx)@.in_progress ==> final(tx)@.in_progress == !last && final(tx)@.msg_type == old(
            tx,
        )@.msg_type,
        sent is Err ==> session_of(*final(session)) == session_of(*old(session)),
{
    lemma_chunk_sent(
        old(tx)@,
        final(tx)@,
        session_of(*old(session)),
        session_of(*final(session)),
        payload@,
        last,
        sent,
    );
    lemma_packet_read(
        old(rx)@,
        final(rx)@,
        session_of(*old(peer)),
        session_of(*final(peer)),
        ciphertext@,
        r,
    );
    if sent is Ok {
        let raw = opened(session_of(*old(peer)), ciphertext@)->0;
        lemma_reader_takes(old(rx)@.reader, raw);
        lemma_decode_header(raw);
    }
}

/// What a frame is read as is decided by what the session finds in it; a packet that is
/// refused leaves the message that is open as it was.
pub proof fn law_read_packet(
    rx: &mut PacketRx,
    session: &mut snow::TransportState,
    ciphertext: &[u8],
    r: Result<PacketHeader, ConnectionError>,
)
    requires
        call_ensures(PacketRx::read_packet, (rx, session, ciphertext), r),
    ensures
        r is Err ==> final(rx)@.reader == old(rx)@.reader,
        opened(session_of(*old(session)), ciphertext@) is None <==> (r matches Err(
            ConnectionError::Noise(_),
        )),
        opened(session_of(*old(session)), ciphertext@) is None ==> session_of(*final(session))
            == session_of(*old(session)),
        opened(session_of(*old(session)), ciphertext@) matches Some(raw) ==> {
            &&& final(rx)@.has_payload()
            &&& raw.len() >= 2 ==> final(rx)@.payload() == raw.skip(2)
            &&& r is Ok <==> {
                &&& raw.len() >= 2
                &&& if old(rx)@.reader.in_progress {
                    2 <= raw[0] / 16 <= 4 && (raw[0] % 16) * 256 + raw[1] == old(
                        rx,
                    )@.reader.msg_type
                } else {
                    raw[0] / 16 <= 1
                }
            }
            &&& r matches Ok(header) ==> header.msg_type == (raw[0] % 16) * 256 + raw[1]
            &&& r is Ok ==> (final(rx)@.reader.in_progress <==> raw[0] / 16 == 1 || raw[0] / 16
                == 2)
        },
{
    lemma_packet_read(
        old(rx)@,
        final(rx)@,
        session_of(*old(session)),
        session_of(*final(session)),
        ciphertext@,
        r,
    );
    if let Some(raw) = opened(session_of(*old(session)), ciphertext@) {
        lemma_reader_takes(old(rx)@.reader, raw);
        lemma_decode_header(raw);
    }
}

/// The payload of a packet is what the receiver holds, no more and no less.
pub proof fn law_payload<'a>(rx: &'a PacketRx, payload: &'a [u8])
    requires
        rx@.has_payload(),
        call_ensures(PacketRx::payload, (rx,), payload),
    ensures
        rx@.end > 2 ==> payload@ == rx@.buffer.subrange(2, rx@.end as int),
        rx@.end <= 2 ==> payload@.len() == 0,
{
}

/// A slice is cut from start to end; only its last chunk ends the message, and only if the
/// message ends with the slice.
pub proof fn law_send_slice<'a>(
    tx: &PacketTx,
    data: &'a [u8],
    last_slice: bool,
    send: SliceSend<'a>,
)
    requires
        call_ensures(PacketTx::send_slice, (tx, data, last_slice), send),
    ensures
        ({
            let n = send@.len() - 1;
            &&& n >= 0
            &&& forall|i: int| 0 <= i <= n ==> (#[trigger] send@[i]).1 == (last_slice && i == n)
            &&& forall|i: int| 0 <= i < n ==> (#[trigger] send@[i]).0.len() == 65517
            &&& send@[n].0.len() <= 65517
            &&& data@.len() > 0 ==> send@[n].0.len() > 0
            &&& data@.len() == 65517 * n + send@[n].0.len()
            &&& forall|i: int|
                0 <= i <= n ==> (#[trigger] send@[i]).0 == data@.subrange(
                    65517 * i,
                    65517 * i + send@[i].0.len(),
                )
        }),
{
    lemma_slice_plan_cuts(data@, last_slice);
}

/// Each call sends the next chunk, in order, until none is left. The message goes on behind
/// a chunk that does not end it.
pub proof fn law_slice_next(
    send: &mut SliceSend<'_>,
    tx: &mut PacketTx,
    session: &mut snow::TransportState,
    r: Result<Option<Vec<u8>>, ConnectionError>,
)
    requires
        call_ensures(SliceSend::next, (send, tx, session), r),
    ensures
        r == Ok::<Option<Vec<u8>>, ConnectionError>(None) <==> old(send)@.len() == 0,
        old(send)@.len() == 0 ==> final(tx)@ == old(tx)@ && session_of(*final(session))
            == session_of(*old(session)),
        old(send)@.len() > 0 ==> {
            &&& final(send)@ == old(send)@.skip(1)
            &&& r is Ok <==> {
                &&& old(tx)@.in_progress
                &&& session_of(*old(session)).can_send
                &&& session_of(*old(session)).send_nonce < u64::MAX
                &&& old(send)@[0].0.len() <= 65517
            }
            &&& old(tx)@.in_progress ==> final(tx)@.in_progress == !old(send)@[0].1
            &&& r matches Ok(Some(frame)) ==> forall|peer: SessionView| #[trigger]
                linked(session_of(*old(session)), peer) && peer.can_recv ==> {
                    &&& opened(peer, frame@.skip(2)) matches Some(raw)
                    &&& raw.skip(2) == old(send)@[0].0
                    &&& raw.len() == old(send)@[0].0.len() + 2
                    &&& (raw[0] % 16) * 256 + raw[1] == old(tx)@.msg_type
                    &&& raw[0] / 16 == 0 || raw[0] / 16 == 1 <==> old(tx)@.is_first
                    &&& raw[0] / 16 == 0 || raw[0] / 16 == 3 <==> old(send)@[0].1
                    &&& raw[0] / 16 <= 3
                }
        },
{
    lemma_frame_in(r);
    if old(send)@.len() > 0 {
        lemma_chunk_sent(
            old(tx)@,
            final(tx)@,
            session_of(*old(session)),
            session_of(*final(session)),
            old(send)@[0].0,
            old(send)@[0].1,
            crate::packets::frame_in(r),
        );
    }
}

/// A source is taken to have ended exactly when a read gave no bytes, and what was read is
/// kept, all of it and in order.
pub proof fn law_feed(send: &mut ReaderSend, data: &[u8])
    requires
        call_ensures(ReaderSend::feed, (send, data), ()),
    ensures
        final(send)@.ended <==> data@.len() == 0,
        final(send)@.pending == old(send)@.pending + data@,
        final(send)@.done == old(send)@.done,
{
}

/// A source is read until a packet is full or it has ended; the packet is then sent, with
/// all that was read for it, and ends the message exactly if the source has ended.
pub proof fn law_reader_next(
    send: &mut ReaderSend,
    tx: &mut PacketTx,
    session: &mut snow::TransportState,
    r: Result<ReaderStep, ConnectionError>,
)
    requires
        call_ensures(ReaderSend::next, (send, tx, session), r),
    ensures
        (r matches Ok(ReaderStep::Done)) <==> old(send)@.done,
        r is Err || (r matches Ok(ReaderStep::Send(_))) <==> !old(send)@.done && (old(send)@.ended
            || old(send)@.pending.len() >= 65517),
        !old(send)@.done && !old(send)@.ended && old(send)@.pending.len() < 65517 ==> r == Ok::<
            ReaderStep,
            ConnectionError,
        >(ReaderStep::Read((65517 - old(send)@.pending.len()) as usize)),
        r is Err || (r matches Ok(ReaderStep::Send(_))) ==> {
            &&& final(send)@.pending.len() == 0
            &&& final(send)@.ended == old(send)@.ended
            &&& final(send)@.done == old(send)@.ended
            &&& old(tx)@.in_progress ==> final(tx)@.in_progress == !old(send)@.ended
        },
        !(r is Err || (r matches Ok(ReaderStep::Send(_)))) ==> {
            &&& final(send)@ == old(send)@
            &&& final(tx)@ == old(tx)@
            &&& session_of(*final(session)) == session_of(*old(session))
        },
        r matches Ok(ReaderStep::Send(frame)) ==> forall|peer: SessionView| #[trigger]
            linked(session_of(*old(session)), peer) && peer.can_recv ==> {
                &&& opened(peer, frame@.skip(2)) matches Some(raw)
                &&& raw.skip(2) == old(send)@.pending
                &&& raw.len() == old(send)@.pending.len() + 2
                &&& (raw[0] % 16) * 256 + raw[1] == old(tx)@.msg_type
                &&& raw[0] / 16 == 0 || raw[0] / 16 == 1 <==> old(tx)@.is_first
                &&& raw[0] / 16 == 0 || raw[0] / 16 == 3 <==> old(send)@.ended
                &&& raw[0] / 16 <= 3
            },
{
    if !old(send)@.done && (old(send)@.ended || old(send)@.pending.len() >= 65517) {
        let sent = match r {
            Ok(ReaderStep::Send(frame)) => Ok(frame),
            Ok(_) => Err(ConnectionError::PacketOverflow),
            Err(e) => Err(e),
        };
        lemma_chunk_sent(
            old(tx)@,
            final(tx)@,
            session_of(*old(session)),
            session_of(*final(session)),
            old(send)@.pending,
            old(send)@.ended,
            sent,
        );
    }
}

/// Assembling a payload starts with all of the opening packet's, and with nothing of the
/// message before.
pub proof fn law_read_bytes(message: Message, rx: &mut MessageRx, bytes: MessageBytes)
    requires
        old(rx)@.packets.has_payload(),
        call_ensures(Message::read_bytes, (message, rx), bytes),
    ensures
        bytes@ <==> message@.kind == PacketKind::Sole,
        old(rx)@.packets.end > 2 ==> final(rx)@.bytes == old(rx)@.packets.buffer.subrange(
            2,
            old(rx)@.packets.end as int,
        ),
        old(rx)@.packets.end <= 2 ==> final(rx)@.bytes.len() == 0,
        final(rx)@.packets == old(rx)@.packets,
{
}

/// Pushing a frame adds to the assembled payload all that stands behind the header of a
/// packet that continues or ends the message, however much there is already, and nothing
/// else is ever added or taken away.
pub proof fn law_push(
    bytes: &mut MessageBytes,
    rx: &mut MessageRx,
    session: &mut snow::TransportState,
    ciphertext: &[u8],
    r: Result<(), ConnectionError>,
)
    requires
        !old(bytes)@,
        old(rx)@.packets.reader.in_progress,
        call_ensures(MessageBytes::push, (bytes, rx, session, ciphertext), r),
    ensures
        r is Err ==> final(rx)@.bytes == old(rx)@.bytes && !final(bytes)@,
        opened(session_of(*old(session)), ciphertext@) is None ==> r is Err,
        opened(session_of(*old(session)), ciphertext@) matches Some(raw) ==> {
            let ours = raw.len() >= 2 && (raw[0] % 16) * 256 + raw[1] == old(
                rx,
            )@.packets.reader.msg_type;
            &&& r is Ok <==> ours && (raw[0] / 16 == 2 || raw[0] / 16 == 3)
            &&& r is Ok ==> final(rx)@.bytes == old(rx)@.bytes + raw.skip(2)
            &&& r is Ok ==> (final(bytes)@ <==> raw[0] / 16 == 3)
            &&& r is Ok ==> (final(rx)@.packets.reader.in_progress <==> raw[0] / 16 == 2)
            &&& r == Err::<(), ConnectionError>(ConnectionError::MessageAborted) <==> ours && raw[0]
                / 16 == 4
        },
{
    lemma_continuation_read(
        old(rx)@,
        final(rx)@,
        session_of(*old(session)),
        session_of(*final(session)),
        ciphertext@,
        final(bytes)@,
        r,
    );
}

/// Taking a message packet by packet hands out all that stands behind the header of each
/// packet, and is done with the last one or when the message is abandoned.
pub proof fn law_packets_push(
    packets: &mut MessagePackets,
    rx: &mut MessageRx,
    session: &mut snow::TransportState,
    ciphertext: &[u8],
    r: Result<(), ConnectionError>,
)
    requires
        !old(packets)@.done,
        old(packets)@.first_kind is None,
        old(rx)@.packets.reader.in_progress,
        call_ensures(MessagePackets::push, (packets, rx, session, ciphertext), r),
    ensures
        final(rx)@.bytes == old(rx)@.bytes,
        opened(session_of(*old(session)), ciphertext@) is None ==> r is Err && !final(packets)@.done,
        opened(session_of(*old(session)), ciphertext@) matches Some(raw) ==> {
            let ours = raw.len() >= 2 && (raw[0] % 16) * 256 + raw[1] == old(
                rx,
            )@.packets.reader.msg_type;
            &&& r is Ok <==> ours && (raw[0] / 16 == 2 || raw[0] / 16 == 3)
            &&& r is Ok ==> final(rx)@.packets.has_payload() && final(rx)@.packets.payload()
                == raw.skip(2)
            &&& final(packets)@.done <==> ours && (raw[0] / 16 == 3 || raw[0] / 16 == 4)
            &&& r == Err::<(), ConnectionError>(ConnectionError::MessageAborted) <==> ours && raw[0]
                / 16 == 4
        },
{
    lemma_continuation_read(
        old(rx)@,
        final(rx)@,
        session_of(*old(session)),
        session_of(*final(session)),
        ciphertext@,
        final(packets)@.done,
        r,
    );
}

/// A peer is authenticated exactly if its payload is a header that the cluster signed and
/// the static key of the handshake is the one that the header declares; what is handed out
/// is that header, whole.
pub proof fn law_authenticate(
    key: &SignatureVerificationKey,
    payload: &[u8],
    remote_static: Option<&[u8]>,
    r: Result<AuthHeader, ConnectionError>,
    verified: Result<AuthHeader, BadAuth>,
)
    requires
        call_ensures(authenticate, (key, payload, remote_static), r),
        call_ensures(SignedAuthHeader::verify_raw, (key, payload), verified),
    ensures
        r matches Ok(header) ==> {
            &&& verified matches Ok(signed)
            &&& header@.node_id == signed@.node_id
            &&& header@.role == signed@.role
            &&& header@.public_key == signed@.public_key
            &&& remote_static matches Some(remote)
            &&& remote@ == header@.public_key
        },
        verified matches Ok(signed) ==> (remote_static matches Some(remote) && remote@
            == signed@.public_key ==> r is Ok),
        verified matches Err(e) ==> r == Err::<AuthHeader, ConnectionError>(
            ConnectionError::BadAuth(e),
        ),
        verified is Ok && remote_static is None ==> r == Err::<AuthHeader, ConnectionError>(
            ConnectionError::MissingRemoteStatic,
        ),
{
    let remote = match remote_static {
        Some(found) => Some(found@),
        None => None,
    };
    lemma_authenticated(key@, payload@, remote);
    if let Err(e) = r {
        lemma_refused(key@, payload@, remote, e);
    }
    if let Ok(header) = verified_header(key@, payload@) {
        lemma_verified_header(key@, payload@, header);
    }
}

/// A node that shows the header that the cluster signed for it, and whose static key is the
/// one in it, is authenticated as exactly that node: the same node id, the same role, the
/// same key.
pub proof fn law_sign_then_authenticate(
    header: &AuthHeader,
    signing_key: &SignatureSigningKey,
    signed: SignedAuthHeader,
    key: &SignatureVerificationKey,
    payload: &[u8],
    remote: &[u8],
    r: Result<AuthHeader, ConnectionError>,
)
    requires
        header@.node_id.len() <= 512,
        header@.public_key.len() == 32,
        header@.role matches Some(role) ==> role.len() < 0x1_0000_0000,
        call_ensures(AuthHeader::sign, (header, signing_key), signed),
        payload@ == signed@,
        ed25519_verifies(
            key@,
            signed@.take(signed@.len() - 64),
            signed@.skip(signed@.len() - 64),
        ),
        remote@ == header@.public_key,
        call_ensures(authenticate, (key, payload, Some(remote)), r),
    ensures
        r matches Ok(found) && found@ == header@,
{
    let data = frame_bytes(header_fields(header@));
    lemma_signed_record(key@, signing_key@, data);
    lemma_signed_header(key@, signing_key@, header@);
    lemma_authenticated(key@, payload@, Some(remote@));
    if let Err(e) = r {
        lemma_refused(key@, payload@, Some(remote@), e);
    }
}

/// The details that an initiator is told of are those of the header that the cluster signed
/// and that the responder's message carries.
pub proof fn law_initiator_learns_peer(
    connecting: Connecting,
    message: &[u8],
    key: &SignatureVerificationKey,
    r: Result<Replied, ConnectionError>,
)
    requires
        call_ensures(Connecting::on_reply, (connecting, message, key), r),
    ensures
        r matches Ok(replied) ==> {
            &&& handshake_payload(connecting@, message@) matches Some(payload)
            &&& verified_header(key@, payload) matches Ok(header)
            &&& replied.peer().node_id@ == header.node_id
            &&& replied.peer().role is Some <==> header.role is Some
            &&& replied.peer().role matches Some(bytes) ==> header.role == Some(bytes@)
            &&& handshake_remote_static(connecting@.after(message@)) == Some(header.public_key)
            &&& replied@ == connecting@.after(message@)
        },
        r is Ok <==> (handshake_payload(connecting@, message@) matches Some(payload)
            && verified_header(key@, payload) matches Ok(header) && handshake_remote_static(
            connecting@.after(message@),
        ) == Some(header.public_key)),
{
    if let Some(payload) = handshake_payload(connecting@, message@) {
        let remote = handshake_remote_static(connecting@.after(message@));
        lemma_authenticated(key@, payload, remote);
        if let Ok(replied) = r {
            lemma_details_of(
                replied.peer(),
                crate::handshake::authenticated(key@, payload, remote)->0,
            );
        }
    }
}

/// The details that a responder is told of are those of the header that the cluster signed
/// and that the initiator's message carries.
pub proof fn law_responder_learns_peer(
    answered: Answered,
    message: &[u8],
    key: &SignatureVerificationKey,
    r: Result<Confirmed, ConnectionError>,
)
    requires
        call_ensures(Answered::on_reply, (answered, message, key), r),
    ensures
        r matches Ok(confirmed) ==> {
            &&& handshake_payload(answered@, message@) matches Some(payload)
            &&& verified_header(key@, payload) matches Ok(header)
            &&& confirmed.peer().node_id@ == header.node_id
            &&& confirmed.peer().role is Some <==> header.role is Some
            &&& confirmed.peer().role matches Some(bytes) ==> header.role == Some(bytes@)
            &&& handshake_remote_static(answered@.after(message@)) == Some(header.public_key)
            &&& confirmed@ == answered@.after(message@)
        },
        r is Ok <==> (handshake_payload(answered@, message@) matches Some(payload)
            && verified_header(key@, payload) matches Ok(header) && handshake_remote_static(
            answered@.after(message@),
        ) == Some(header.public_key)),
{
    if let Some(payload) = handshake_payload(answered@, message@) {
        let remote = handshake_remote_static(answered@.after(message@));
        lemma_authenticated(key@, payload, remote);
        if let Ok(confirmed) = r {
            lemma_details_of(
                confirmed.peer(),
                crate::handshake::authenticated(key@, payload, remote)->0,
            );
        }
    }
}

/// A handshake message that was sent is the data of the frame, and the handshake has moved
/// on by it.
pub proof fn law_handshake_send(
    hs: &mut HandshakeContext,
    payload: &[u8],
    r: Result<Vec<u8>, ConnectionError>,
)
    requires
        call_ensures(HandshakeContext::send, (hs, payload), r),
    ensures
        r matches Ok(frame) ==> {
            &&& frame@.len() >= 2
            &&& frame@[0] * 256 + frame@[1] == frame@.len() - 2
            &&& sent_as(old(hs)@, final(hs)@, payload@, frame@.skip(2))
            &&& final(hs)@.transcript == old(hs)@.transcript.push(frame@.skip(2))
            &&& final(hs)@.private == old(hs)@.private
            &&& final(hs)@.initiator == old(hs)@.initiator
        },
        r matches Err(e) ==> e is Noise,
{
    if let Ok(frame) = r {
        lemma_frame_sent(old(hs)@, final(hs)@, payload@, frame@);
    }
}

/// A header is read from signed bytes exactly if the key accepts the signature in their last
/// 64 bytes and a header stands in front of it; reading it from the signed header or from
/// its raw bytes is the same.
pub proof fn law_verify_header(
    signed: &SignedAuthHeader,
    key: &SignatureVerificationKey,
    data: &[u8],
    r: Result<AuthHeader, BadAuth>,
    raw: Result<AuthHeader, BadAuth>,
)
    requires
        data@ == signed@,
        call_ensures(SignedAuthHeader::verify, (signed, key), r),
        call_ensures(SignedAuthHeader::verify_raw, (key, data), raw),
    ensures
        r is Ok <==> raw is Ok,
        r is Ok ==> r->Ok_0@ == raw->Ok_0@,
        r is Err ==> r == raw,
        r is Ok ==> data@.len() >= 64 && ed25519_verifies(
            key@,
            data@.take(data@.len() - 64),
            data@.skip(data@.len() - 64),
        ),
        r == Err::<AuthHeader, BadAuth>(
            BadAuth::Signature(SignatureValidationErr::BadSignature),
        ) <==> data@.len() >= 64 && !ed25519_verifies(
            key@,
            data@.take(data@.len() - 64),
            data@.skip(data@.len() - 64),
        ),
{
    lemma_header_refused(key@, data@);
    if let Ok(header) = verified_header(key@, data@) {
        lemma_verified_header(key@, data@, header);
    }
}

/// A header that is written and read is the same header.
pub proof fn law_header_round_trip(
    header: &AuthHeader,
    written: Vec<u8>,
    data: &[u8],
    r: Result<AuthHeader, MalformedAuthHeader>,
)
    requires
        header@.role matches Some(role) ==> role.len() < 0x1_0000_0000,
        call_ensures(AuthHeader::to_yatlv, (header,), written),
        data@ == written@,
        call_ensures(AuthHeader::from_yatlv, (data,), r),
    ensures
        r matches Ok(read) && read@ == header@,
{
    lemma_header_round_trip(header@);
}

/// The details of a header are its node id and role, and they are those of the expected peer
/// exactly if the node ids are the same bytes.
pub proof fn law_check_node_id(
    details: &AuthDetails,
    expected: NodeId,
    wanted: NodeId,
    r: Result<(), BadAuth>,
)
    requires
        call_ensures(AuthDetails::check_node_id::<NodeId>, (details, expected), r),
        forall|other: NodeId| #[trigger]
            call_ensures(<NodeId as Into<NodeId>>::into, (expected,), other) ==> other == wanted,
    ensures
        r is Ok <==> details.node_id@ == wanted@,
        r matches Err(e) ==> {
            &&& e matches BadAuth::NodeIdMismatch { expected: asked, actual }
            &&& asked@ == wanted@
            &&& actual@ == details.node_id@
        },
{
}

/// A record that was signed is the payload and a signature of 64 bytes on it; a key hands the
/// payload out exactly if it accepts the signature, and refuses the record otherwise.
pub proof fn law_sign_then_verify(
    signing_key: &SignatureSigningKey,
    payload: &[u8],
    signed: Vec<u8>,
    key: &SignatureVerificationKey,
    record: &[u8],
    r: Result<&[u8], SignatureValidationErr>,
)
    requires
        call_ensures(SignatureSigningKey::sign_raw, (signing_key, payload), signed),
        record@ == signed@,
        call_ensures(SignatureVerificationKey::verify_payload, (key, record), r),
    ensures
        signed@.len() == payload@.len() + 64,
        signed@.take(payload@.len() as int) == payload@,
        ed25519_verifies(key@, payload@, signed@.skip(payload@.len() as int)) ==> (r matches Ok(
            found,
        ) && found@ == payload@),
        !ed25519_verifies(key@, payload@, signed@.skip(payload@.len() as int)) ==> r == Err::<
            &[u8],
            SignatureValidationErr,
        >(SignatureValidationErr::BadSignature),
{
    lemma_signed_record(key@, signing_key@, payload@);
}

/// A payload is handed out exactly if the key accepts the last 64 bytes of the record as a
/// signature on what stands in front of them, and it is that.
pub proof fn law_verify_payload(
    key: &SignatureVerificationKey,
    record: &[u8],
    r: Result<&[u8], SignatureValidationErr>,
)
    requires
        call_ensures(SignatureVerificationKey::verify_payload, (key, record), r),
    ensures
        record@.len() < 64 ==> r == Err::<&[u8], SignatureValidationErr>(
            SignatureValidationErr::MalformedRecord,
        ),
        record@.len() >= 64 ==> (r is Ok <==> ed25519_verifies(
            key@,
            record@.take(record@.len() - 64),
            record@.skip(record@.len() - 64),
        )),
        r matches Ok(payload) ==> payload@ == record@.take(record@.len() - 64),
        record@.len() >= 64 && r is Err ==> r == Err::<&[u8], SignatureValidationErr>(
            SignatureValidationErr::BadSignature,
        ),
{
    lemma_verified_payload(key@, record@);
}

/// Any bytes up to 512 are a node id, and stay what they are.
pub proof fn law_node_id(
    bytes: Vec<u8>,
    made: Result<NodeId, NodeIdTooLong>,
    id: &NodeId,
    back: &[u8],
)
    requires
        call_ensures(NodeId::try_from_bytes, (bytes,), made),
        made == Ok::<NodeId, NodeIdTooLong>(*id),
        call_ensures(NodeId::as_bytes, (id,), back),
    ensures
        back@ == bytes@,
        bytes@.len() <= 512,
{
}

/// Bytes are refused as a node id exactly if there are more than 512.
pub proof fn law_node_id_limit(bytes: Vec<u8>, made: Result<NodeId, NodeIdTooLong>)
    requires
        call_ensures(NodeId::try_from_bytes, (bytes,), made),
    ensures
        made is Ok <==> bytes@.len() <= 512,
        made matches Err(e) ==> e.0 == bytes.len(),
{
}

/// A text of 64 hexadecimal digits is a key, and the text of a key reads back as the key.
pub proof fn law_key_text(key: Seq<u8>, text: &str, r: Result<[u8; 32], HexKeyError>)
    requires
        key.len() == 32,
        text@ == hex_chars(key),
        call_ensures(decode_key, (text,), r),
    ensures
        r matches Ok(bytes) && bytes@ == key,
{
    lemma_hex_round_trip(key);
}

/// A text is read as a key exactly if it is hexadecimal and 64 digits long.
pub proof fn law_decode_key(text: &str, r: Result<[u8; 32], HexKeyError>)
    requires
        call_ensures(decode_key, (text,), r),
    ensures
        r is Ok <==> text@.len() == 64 && forall|i: int|
            0 <= i < 64 ==> {
                ||| '0' <= #[trigger] text@[i] <= '9'
                ||| 'a' <= text@[i] <= 'f'
                ||| 'A' <= text@[i] <= 'F'
            },
        r matches Err(HexKeyError::WrongLength) ==> text@.len() != 64,
{
    if r is Err && text@.len() == 64 && (forall|i: int|
        0 <= i < 64 ==> {
            ||| '0' <= #[trigger] text@[i] <= '9'
            ||| 'a' <= text@[i] <= 'f'
            ||| 'A' <= text@[i] <= 'F'
        }) {
        assert(is_hex(text@));
    }
}

/// A connection to the right peer is installed; anything else is tried again after the wait
/// that was due, and the next wait is twice as long, up to 30 seconds.
pub proof fn law_on_attempt<T>(
    reconnect: &mut Reconnect,
    target: &NodeId,
    attempt: Result<(T, AuthDetails), ConnectionError>,
    step: ReconnectStep<T>,
)
    requires
        call_ensures(Reconnect::on_attempt::<T>, (reconnect, target, attempt), step),
        0 <= old(reconnect)@,
    ensures
        step is Install <==> (attempt matches Ok((connection, details)) && details.node_id@
            == target@),
        step matches ReconnectStep::Install(installed) ==> attempt->Ok_0.0 == installed,
        step matches ReconnectStep::Retry { millis, error } ==> {
            &&& millis == old(reconnect)@
            &&& old(reconnect)@ <= 15_000 ==> final(reconnect)@ == 2 * old(reconnect)@
            &&& old(reconnect)@ >= 15_000 ==> final(reconnect)@ == 30_000
            &&& attempt matches Err(e) ==> error == e
        },
{
    lemma_longer(old(reconnect)@);
}

/// The opening packet of a message is taken exactly if the session opens the frame to one and
/// no message is open; it tells the type, and its payload is at hand.
pub proof fn law_read_message(
    rx: &mut MessageRx,
    session: &mut snow::TransportState,
    ciphertext: &[u8],
    r: Result<Message, ConnectionError>,
)
    requires
        call_ensures(MessageRx::read_message, (rx, session, ciphertext), r),
    ensures
        final(rx)@.bytes == old(rx)@.bytes,
        r is Err ==> final(rx)@.packets.reader == old(rx)@.packets.reader,
        !old(rx)@.packets.reader.in_progress ==> (r is Ok <==> (opened(
            session_of(*old(session)),
            ciphertext@,
        ) matches Some(raw) && raw.len() >= 2 && raw[0] / 16 <= 1)),
        r matches Ok(message) ==> {
            &&& opened(session_of(*old(session)), ciphertext@) matches Some(raw)
            &&& message@.msg_type == (raw[0] % 16) * 256 + raw[1]
            &&& final(rx)@.packets.has_payload()
            &&& final(rx)@.packets.payload() == raw.skip(2)
            &&& !old(rx)@.packets.reader.in_progress ==> {
                &&& message@.kind == PacketKind::Sole <==> raw[0] / 16 == 0
                &&& message@.kind == PacketKind::First <==> raw[0] / 16 == 1
                &&& final(rx)@.packets.reader.in_progress <==> raw[0] / 16 == 1
            }
        },
{
    let header = match r {
        Ok(message) => Ok(message@),
        Err(e) => Err(e),
    };
    lemma_packet_read(
        old(rx)@.packets,
        final(rx)@.packets,
        session_of(*old(session)),
        session_of(*final(session)),
        ciphertext@,
        header,
    );
    if let Some(raw) = opened(session_of(*old(session)), ciphertext@) {
        lemma_reader_takes(old(rx)@.packets.reader, raw);
        lemma_decode_header(raw);
    }
}

/// Taking a message packet by packet starts with the buffered opening packet, and ends with
/// it if that is the whole message.
pub proof fn law_into_packets(
    message: Message,
    made: MessagePackets,
    packets: &mut MessagePackets,
    step: crate::messages::PacketsStep,
)
    requires
        call_ensures(Message::into_packets, (message,), made),
        call_ensures(MessagePackets::next, (packets,), step),
        *old(packets) == made,
    ensures
        step == crate::messages::PacketsStep::Payload,
        final(packets)@.done <==> message@.kind == PacketKind::Sole,
        final(packets)@.first_kind is None,
{
}

/// A message is abandoned exactly if one is in progress: the other end of the session opens
/// the frame to a packet of its type that abandons it, and another message can be started.
pub proof fn law_abort_message(
    tx: &mut PacketTx,
    session: &mut snow::TransportState,
    r: Result<Option<Vec<u8>>, ConnectionError>,
)
    requires
        call_ensures(PacketTx::abort_message, (tx, session), r),
    ensures
        !final(tx)@.in_progress,
        r == Ok::<Option<Vec<u8>>, ConnectionError>(None) <==> !old(tx)@.in_progress,
        !old(tx)@.in_progress ==> final(tx)@ == old(tx)@ && session_of(*final(session))
            == session_of(*old(session)),
        old(tx)@.in_progress ==> (r is Ok <==> session_of(*old(session)).can_send && session_of(
            *old(session),
        ).send_nonce < u64::MAX),
        r matches Ok(Some(frame)) ==> {
            &&& frame@.len() >= 2
            &&& frame@[0] * 256 + frame@[1] == frame@.len() - 2
            &&& forall|peer: SessionView| #[trigger]
                linked(session_of(*old(session)), peer) && peer.can_recv ==> {
                    &&& opened(peer, frame@.skip(2)) matches Some(raw)
                    &&& raw.len() == 2
                    &&& raw[0] / 16 == 4
                    &&& (raw[0] % 16) * 256 + raw[1] == old(tx)@.msg_type
                }
        },
{
    lemma_frame_in(r);
    if old(tx)@.in_progress {
        let before = session_of(*old(session));
        lemma_packet_layout(PacketKind::Abort, old(tx)@.msg_type, Seq::empty());
        lemma_packet_fits(before, PacketKind::Abort, old(tx)@.msg_type, Seq::empty());
        if r is Ok {
            lemma_frame_layout(
                crate::snow_state::sealed(
                    before,
                    crate::packet_state::packet_bytes(
                        PacketKind::Abort,
                        old(tx)@.msg_type,
                        Seq::empty(),
                    ),
                )->0,
            );
        }
    }
}

/// A value is decoded from a record exactly if its signature is right, from the bytes in front
/// of the signature, and is then what comes back.
pub proof fn law_verify<'a, R, F: FnOnce(&'a [u8]) -> Result<R, postcard::Error>>(
    key: &SignatureVerificationKey,
    record: &'a [u8],
    decode: F,
    r: Result<R, SignatureValidationErr>,
)
    requires
        call_ensures(SignatureVerificationKey::verify::<R, F>, (key, record, decode), r),
    ensures
        record@.len() < 64 ==> r == Err::<R, SignatureValidationErr>(
            SignatureValidationErr::MalformedRecord,
        ),
        record@.len() >= 64 && !ed25519_verifies(
            key@,
            record@.take(record@.len() - 64),
            record@.skip(record@.len() - 64),
        ) ==> r == Err::<R, SignatureValidationErr>(SignatureValidationErr::BadSignature),
        record@.len() >= 64 && ed25519_verifies(
            key@,
            record@.take(record@.len() - 64),
            record@.skip(record@.len() - 64),
        ) ==> exists|payload: &'a [u8], out: Result<R, postcard::Error>|
            {
                &&& payload@ == record@.take(record@.len() - 64)
                &&& #[trigger] call_ensures(decode, (payload,), out)
                &&& out matches Ok(value) ==> r == Ok::<R, SignatureValidationErr>(value)
                &&& out matches Err(e) ==> r == Err::<R, SignatureValidationErr>(
                    SignatureValidationErr::RecordDeserialization(e),
                )
            },
{
    lemma_verify_answers(key@, record@, decode, r);
}

/// Signing a serialized record is signing its bytes, and a record that could not be serialized
/// is not signed.
pub proof fn law_sign(
    signing_key: &SignatureSigningKey,
    serialized: Result<Vec<u8>, postcard::Error>,
    signed: Result<Vec<u8>, SigningErr>,
    payload: &[u8],
    raw: Vec<u8>,
)
    requires
        call_ensures(SignatureSigningKey::sign, (signing_key, serialized), signed),
        call_ensures(SignatureSigningKey::sign_raw, (signing_key, payload), raw),
        serialized matches Ok(bytes) ==> payload@ == bytes@,
    ensures
        serialized is Ok ==> (signed matches Ok(record) && record@ == raw@),
        serialized matches Err(e) ==> signed == Err::<Vec<u8>, SigningErr>(
            SigningErr::RecordSerialization(e),
        ),
{
}

/// The text of a transport key reads back as the key.
pub proof fn law_transport_key_text(
    private: &TransportPrivateKey,
    written: String,
    text: &str,
    r: Result<TransportPrivateKey, MalformedKeyError>,
)
    requires
        private@.len() == 32,
        call_ensures(TransportPrivateKey::expose_to_human_string, (private,), written),
        text@ == written@,
        call_ensures(<TransportPrivateKey as TryFrom<&str>>::try_from, (text,), r),
    ensures
        written@.len() == 64,
        r matches Ok(read) && read@ == private@,
{
    lemma_hex_round_trip(private@);
}

/// The text of a signing key reads back as the key.
pub proof fn law_signing_key_text(
    private: &SignatureSigningKey,
    written: String,
    text: &str,
    r: Result<SignatureSigningKey, MalformedKeyError>,
)
    requires
        private@.len() == 32,
        call_ensures(SignatureSigningKey::expose_to_human_string, (private,), written),
        text@ == written@,
        call_ensures(<SignatureSigningKey as TryFrom<&str>>::try_from, (text,), r),
    ensures
        written@.len() == 64,
        r matches Ok(read) && read@ == private@,
{
    lemma_hex_round_trip(private@);
}

/// The text of a signed header reads back as the signed header.
pub proof fn law_signed_header_text(
    signed: &SignedAuthHeader,
    written: String,
    text: &str,
    r: Result<SignedAuthHeader, MalformedAuthHeader>,
)
    requires
        call_ensures(SignedAuthHeader::expose_to_human_string, (signed,), written),
        text@ == written@,
        call_ensures(<SignedAuthHeader as TryFrom<&str>>::try_from, (text,), r),
    ensures
        written@.len() == 2 * signed@.len(),
        r matches Ok(read) && read@ == signed@,
{
    lemma_hex_round_trip(signed@);
}

/// The text of a public key reads back as the key.
pub proof fn law_public_key_text(
    key: Seq<u8>,
    text: &str,
    r: Result<TransportPublicKey, MalformedKeyError>,
)
    requires
        key.len() == 32,
        text@ == hex_chars(key),
        call_ensures(<TransportPublicKey as TryFrom<&str>>::try_from, (text,), r),
    ensures
        r matches Ok(read) && read@ == key,
{
    lemma_hex_round_trip(key);
}

/// An integer as a node id is its bytes, the highest first.
pub proof fn law_integer_ids(a: u64, wide: NodeId, b: u32, narrow: NodeId, i: int)
    requires
        call_ensures(<NodeId as From<u64>>::from, (a,), wide),
        call_ensures(<NodeId as From<u32>>::from, (b,), narrow),
    ensures
        wide@.len() == 8,
        narrow@.len() == 4,
        0 <= i < 8 ==> wide@[i] as int == (a as int / pow(256, (7 - i) as nat)) % 256,
        0 <= i < 4 ==> narrow@[i] as int == (b as int / pow(256, (3 - i) as nat)) % 256,
{
    lemma_be_digits(a as nat, 8, 0);
    lemma_be_digits(b as nat, 4, 0);
    if 0 <= i < 8 {
        lemma_be_digits(a as nat, 8, i);
    }
    if 0 <= i < 4 {
        lemma_be_digits(b as nat, 4, i);
    }
}

/// A handshake can send exactly on its turn, while messages are left, and if the payload
/// leaves room for the keys and tags of the message.
pub proof fn law_handshake_turn(
    hs: &mut HandshakeContext,
    payload: &[u8],
    r: Result<Vec<u8>, ConnectionError>,
)
    requires
        call_ensures(HandshakeContext::send, (hs, payload), r),
        old(hs)@.setup == NOISE_PARAMS@,
    ensures
        r is Ok <==> {
            let n = old(hs)@.transcript.len();
            ||| n == 0 && old(hs)@.initiator && payload@.len() <= 65535 - 48
            ||| n == 1 && !old(hs)@.initiator && payload@.len() <= 65535 - 96
            ||| n == 2 && old(hs)@.initiator && payload@.len() <= 65535 - 64
        },
{
    if let Ok(frame) = r {
        lemma_frame_sent(old(hs)@, final(hs)@, payload@, frame@);
    }
}

/// Only a connected link can be claimed, and a claim that is not committed ends the
/// connection, while one that is leaves it as it is.
pub proof fn law_claim<T>(
    link: &LinkState<T>,
    claimed: Result<Guard, NotReady>,
    guard: Guard,
    state: &mut LinkState<T>,
    reconnect: bool,
)
    requires
        call_ensures(LinkState::<T>::acquire, (link,), claimed),
        call_ensures(Guard::release::<T>, (guard, state), reconnect),
    ensures
        claimed is Ok <==> *link is Connected,
        claimed matches Ok(fresh) ==> !fresh@,
        reconnect <==> !guard@,
        guard@ ==> *final(state) == *old(state),
        !guard@ ==> *final(state) is Reconnecting,
{
}

/// A wait ends at its deadline and not before, unless the link is connected.
pub proof fn law_wait<T>(
    start: u128,
    timeout: u128,
    wait: WaitConnected,
    state: &LinkState<T>,
    now: u128,
    step: WaitStep,
)
    requires
        start + timeout <= u128::MAX,
        call_ensures(WaitConnected::new, (start, timeout), wait),
        call_ensures(WaitConnected::check::<T>, (&wait, state, now), step),
    ensures
        step == WaitStep::Ready <==> *state is Connected,
        step matches WaitStep::Wait { nanos } ==> {
            &&& now <= start + timeout ==> now + nanos == start + timeout
            &&& now >= start + timeout ==> nanos == 0
        },
{
}

/// Asking for a peer gives the link that the pool has for it, or else the one that was made
/// for it, and changes the link of no other.
pub proof fn law_peer<L, F: FnOnce() -> L>(
    pool: &mut ConnectionPool<L>,
    target: NodeId,
    make: F,
    link: &L,
)
    requires
        old(pool).link(target@) is None ==> call_requires(make, ()),
        call_ensures(ConnectionPool::<L>::peer::<F>, (pool, target, make), link),
    ensures
        final(pool).link(target@) == Some(*link),
        old(pool).link(target@) matches Some(known) ==> *link == known,
        old(pool).link(target@) is None ==> call_ensures(make, (), *link),
        forall|other: Seq<u8>|
            other != target@ ==> #[trigger] final(pool).link(other) == old(pool).link(other),
{
}

/// Two nodes that hold the private keys of the public keys in the headers that the cluster
/// signed for them, and whose frames reach each other, complete the handshake. Each is told
/// the node id and the role in the other's header, and what one then sends, the other opens.
pub proof fn law_handshake(
    client_private: &TransportPrivateKey,
    server_private: &TransportPrivateKey,
    client_header: HeaderView,
    server_header: HeaderView,
    client_signed: &SignedAuthHeader,
    server_signed: &SignedAuthHeader,
    secret: Seq<u8>,
    key: &SignatureVerificationKey,
    connecting: Connecting,
    hello: Vec<u8>,
    hello_data: &[u8],
    accepting: Accepting,
    hello_taken: Result<(Answered, Vec<u8>), ConnectionError>,
    answered: Answered,
    answer: Vec<u8>,
    answer_data: &[u8],
    answer_taken: Result<Replied, ConnectionError>,
    replied: Replied,
    confirming: Result<(Confirmed, Vec<u8>), ConnectionError>,
    client: Confirmed,
    confirmation: Vec<u8>,
    confirmation_data: &[u8],
    confirmation_taken: Result<Confirmed, ConnectionError>,
    server: Confirmed,
    client_done: Result<Transport, ConnectionError>,
    server_done: Result<Transport, ConnectionError>,
)
    requires
        can_be_signed(client_header, secret, key@),
        can_be_signed(server_header, secret, key@),
        client_header.public_key == noise_public_key(NOISE_PARAMS@, client_private@),
        server_header.public_key == noise_public_key(NOISE_PARAMS@, server_private@),
        client_signed@ == signed_record(secret, frame_bytes(header_fields(client_header))),
        server_signed@ == signed_record(secret, frame_bytes(header_fields(server_header))),
        client_signed@.len() <= 65535 - 64,
        server_signed@.len() <= 65535 - 96,
        call_ensures(connect, (client_private,), Ok((connecting, hello))),
        call_ensures(accept, (server_private,), Ok(accepting)),
        hello_data@ == hello@.skip(2),
        call_ensures(Accepting::on_hello, (accepting, hello_data, server_signed), hello_taken),
        hello_taken matches Ok(taken) ==> taken == (answered, answer),
        answer_data@ == answer@.skip(2),
        call_ensures(Connecting::on_reply, (connecting, answer_data, key), answer_taken),
        answer_taken matches Ok(taken) ==> taken == replied,
        call_ensures(Replied::confirm, (replied, client_signed), confirming),
        confirming matches Ok(sent) ==> sent == (client, confirmation),
        confirmation_data@ == confirmation@.skip(2),
        call_ensures(Answered::on_reply, (answered, confirmation_data, key), confirmation_taken),
        confirmation_taken matches Ok(taken) ==> taken == server,
        call_ensures(Confirmed::finish, (client,), client_done),
        call_ensures(Confirmed::finish, (server,), server_done),
    ensures
        hello_taken is Ok,
        answer_taken is Ok,
        confirming is Ok,
        confirmation_taken is Ok,
        client_done is Ok,
        server_done is Ok,
        client_done matches Ok(transport) ==> {
            &&& transport.details.node_id@ == server_header.node_id
            &&& transport.details.role is Some <==> server_header.role is Some
            &&& transport.details.role matches Some(role) ==> server_header.role == Some(role@)
        },
        server_done matches Ok(transport) ==> {
            &&& transport.details.node_id@ == client_header.node_id
            &&& transport.details.role is Some <==> client_header.role is Some
            &&& transport.details.role matches Some(role) ==> client_header.role == Some(role@)
        },
        ({
            let near = session_of(client_done->Ok_0.session);
            let far = session_of(server_done->Ok_0.session);
            &&& near.can_send && near.can_recv && far.can_send && far.can_recv
            &&& linked(near, far) && linked(far, near)
        }),
{
    // The first message.
    let start = choose|start: HandshakeView|
        fresh(start, true, client_private@) && #[trigger] frame_sent(
            start,
            connecting@,
            Seq::empty(),
            hello@,
        );
    lemma_frame_sent(start, connecting@, Seq::empty(), hello@);
    let m1 = hello@.skip(2);
    let i0 = HandshakeView { ephemeral: connecting@.ephemeral, ..start };
    let r0 = accepting@;
    assert(facing(i0, r0));
    assert(handshake_payload(r0, m1) == Some(Seq::<u8>::empty()));
    lemma_still_facing(i0, r0, Seq::empty());
    let i1 = connecting@;
    let r1 = r0.after(m1);
    assert(facing(i1, r1));
    assert(r1.can_send(server_signed@));
    // The second.
    lemma_frame_sent(r1, answered@, server_signed@, answer@);
    let m2 = answer@.skip(2);
    let r1_sent = HandshakeView { ephemeral: answered@.ephemeral, ..r1 };
    assert(facing(i1, r1_sent)) by {
        assert forall|i: int| 0 <= i < i1.transcript.len() implies #[trigger] turn_kept(
            i1,
            r1_sent,
            i,
        ) by {
            assert(turn_kept(i1, r1, i));
        }
    }
    lemma_facing_is_mutual(i1, r1_sent);
    assert(handshake_payload(i1, m2) == Some(server_signed@));
    lemma_still_facing(r1_sent, i1, server_signed@);
    let i2 = i1.after(m2);
    let r2 = answered@;
    lemma_facing_is_mutual(r2, i2);
    assert(knows_its_peer(i2));
    assert(facing(i2, r2) && i2.knows_remote_static());
    lemma_signed_header(key@, secret, server_header);
    lemma_authenticated(key@, server_signed@, handshake_remote_static(i2));
    assert(answer_taken is Ok) by {
        if let Err(e) = answer_taken {
            lemma_refused(key@, server_signed@, handshake_remote_static(i2), e);
        }
    }
    lemma_details_of(replied.peer(), server_header);
    // The third.
    assert(replied@ == i2);
    assert(i2.can_send(client_signed@));
    lemma_frame_sent(i2, client@, client_signed@, confirmation@);
    let m3 = confirmation@.skip(2);
    assert(handshake_payload(r2, m3) == Some(client_signed@));
    lemma_still_facing(i2, r2, client_signed@);
    let r3 = r2.after(m3);
    assert(facing(client@, r3));
    lemma_facing_is_mutual(client@, r3);
    assert(knows_its_peer(r3));
    assert(facing(r3, client@) && r3.knows_remote_static());
    lemma_signed_header(key@, secret, client_header);
    lemma_authenticated(key@, client_signed@, handshake_remote_static(r3));
    assert(confirmation_taken is Ok) by {
        if let Err(e) = confirmation_taken {
            lemma_refused(key@, client_signed@, handshake_remote_static(r3), e);
        }
    }
    lemma_details_of(server.peer(), client_header);
    assert(server@ == r3);
}

/// The numbers of the packet kinds are 0 to 4, one for each, and no other number is one.
pub proof fn law_kinds(
    kind: PacketKind,
    number: u8,
    any: u8,
    r: Result<PacketKind, PacketReadError>,
)
    requires
        call_ensures(PacketKind::to_u8, (kind,), number),
        call_ensures(PacketKind::from_u8, (any,), r),
    ensures
        number <= 4,
        number == 0 <==> kind == PacketKind::Sole,
        number == 1 <==> kind == PacketKind::First,
        number == 2 <==> kind == PacketKind::Mid,
        number == 3 <==> kind == PacketKind::Last,
        number == 4 <==> kind == PacketKind::Abort,
        any == number ==> r == Ok::<PacketKind, PacketReadError>(kind),
        any > 4 ==> r == Err::<PacketKind, PacketReadError>(PacketReadError::UnknownKind(any)),
{
}

/// A header is what it was made of, and its details are its node id and role.
pub proof fn law_new_header(
    id: NodeId,
    role: Option<&[u8]>,
    public_key: &TransportPublicKey,
    header: AuthHeader,
    details: AuthDetails,
)
    requires
        call_ensures(AuthHeader::new::<NodeId>, (id, role, public_key), header),
        forall|other: NodeId| #[trigger]
            call_ensures(<NodeId as Into<NodeId>>::into, (id,), other) ==> other == id,
        call_ensures(<AuthDetails as From<AuthHeader>>::from, (header,), details),
    ensures
        header@.node_id == id@,
        header@.public_key == public_key@,
        role is Some <==> header@.role is Some,
        role matches Some(bytes) ==> header@.role == Some(bytes@),
        details.node_id@ == id@,
        role is Some <==> details.role is Some,
        role matches Some(bytes) ==> details.role->0@ == bytes@,
{
}

/// A header declares a key exactly if it holds its 32 bytes.
pub proof fn law_validate_public_key(
    header: &AuthHeader,
    key: &TransportPublicKey,
    r: Result<(), BadAuth>,
)
    requires
        call_ensures(AuthHeader::validate_public_key, (header, key), r),
    ensures
        r is Ok <==> header@.public_key == key@,
        r matches Err(e) ==> {
            &&& e matches BadAuth::PublicKeyMismatch { expected, actual }
            &&& expected@ == header@.public_key
            &&& actual@ == key@
        },
{
}

/// A static key is usable exactly if it is there and 32 bytes long, and stays what it is.
pub proof fn law_remote_key(
    raw: Option<&[u8]>,
    r: Result<TransportPublicKey, ConnectionError>,
)
    requires
        call_ensures(remote_key, (raw,), r),
    ensures
        raw is None ==> r == Err::<TransportPublicKey, ConnectionError>(
            ConnectionError::MissingRemoteStatic,
        ),
        raw matches Some(bytes) ==> (r is Ok <==> bytes@.len() == 32),
        raw matches Some(bytes) ==> (r matches Ok(key) ==> key@ == bytes@),
        raw is Some && r is Err ==> r == Err::<TransportPublicKey, ConnectionError>(
            ConnectionError::RemoteStaticKeyLength,
        ),
{
}

/// What a handshake hears is what the Noise layer finds in the message, and it then moves on
/// by the message.
pub proof fn law_recv(
    hs: &mut HandshakeContext,
    message: &[u8],
    r: Result<&[u8], ConnectionError>,
)
    requires
        call_ensures(HandshakeContext::recv, (hs, message), r),
    ensures
        r is Ok <==> handshake_payload(old(hs)@, message@) is Some,
        r matches Ok(payload) ==> {
            &&& handshake_payload(old(hs)@, message@) == Some(payload@)
            &&& final(hs)@.transcript == old(hs)@.transcript.push(message@)
            &&& final(hs)@.private == old(hs)@.private
        },
        r matches Err(e) ==> e is Noise,
{
}

/// A finished handshake gives a connection that knows who the peer is, over which nothing has
/// passed and any message can be started.
pub proof fn law_finish(confirmed: Confirmed, r: Result<Transport, ConnectionError>)
    requires
        call_ensures(Confirmed::finish, (confirmed,), r),
        confirmed@.setup == NOISE_PARAMS@,
    ensures
        confirmed@.transcript.len() == 3 <==> r is Ok,
        r matches Err(e) ==> e is Noise,
        r matches Ok(transport) ==> {
            &&& transport.details == confirmed.peer()
            &&& !transport.tx.packets@.in_progress
            &&& !transport.rx@.packets.reader.in_progress
            &&& transport.rx@.packets.has_payload()
            &&& transport.rx@.packets.payload().len() == 0
            &&& transport.rx@.bytes.len() == 0
            &&& session_of(transport.session).send_nonce == 0
            &&& session_of(transport.session).recv_nonce == 0
            &&& confirmed@.two_way ==> session_of(transport.session).can_send && session_of(
                transport.session,
            ).can_recv
        },
{
    if let Ok(transport) = r {
        lemma_established(
            confirmed@,
            session_of(transport.session),
            transport.tx.packets@,
            transport.rx@.packets,
        );
    }
}

/// A packet transport and a message transport start where the handshake ended.
pub proof fn law_transports(
    confirmed: Confirmed,
    r: Result<(PacketTransport, AuthDetails), ConnectionError>,
    packets: PacketTransport,
    messages: MessageTransport,
)
    requires
        call_ensures(PacketTransport::new, (confirmed,), r),
        call_ensures(MessageTransport::new, (packets,), messages),
    ensures
        r matches Ok((transport, details)) ==> {
            &&& details == confirmed.peer()
            &&& !transport.tx@.in_progress
            &&& !transport.rx@.reader.in_progress
            &&& transport.rx@.has_payload()
            &&& transport.rx@.payload().len() == 0
            &&& session_of(transport.session).send_nonce == 0
            &&& session_of(transport.session).recv_nonce == 0
        },
        messages.session == packets.session,
        messages.tx.packets@ == packets.tx@,
        messages.rx@.packets == packets.rx@,
        messages.rx@.bytes.len() == 0,
{
    if let Ok((transport, details)) = r {
        lemma_established(
            confirmed@,
            session_of(transport.session),
            transport.tx@,
            transport.rx@,
        );
    }
}

/// Over a packet transport, too, a chunk is sent exactly where a message is in progress, the
/// session can still send and the chunk fits in a packet, and what is sent is what is
/// received.
pub proof fn law_transport_send_then_read(
    near: &mut PacketTransport,
    payload: &[u8],
    last: bool,
    sent: Result<Vec<u8>, ConnectionError>,
    far: &mut PacketTransport,
    ciphertext: &[u8],
    r: Result<PacketHeader, ConnectionError>,
)
    requires
        call_ensures(PacketTransport::send_packet, (near, payload, last), sent),
        call_ensures(PacketTransport::read_packet, (far, ciphertext), r),
        sent matches Ok(frame) ==> ciphertext@ == frame@.skip(2),
        linked(session_of(old(near).session), session_of(old(far).session)),
        session_of(old(far).session).can_recv,
        old(far).rx@.reader.in_progress == !old(near).tx@.is_first,
        old(far).rx@.reader.in_progress ==> old(far).rx@.reader.msg_type == old(near).tx@.msg_type,
    ensures
        sent is Ok <==> {
            &&& old(near).tx@.in_progress
            &&& session_of(old(near).session).can_send
            &&& session_of(old(near).session).send_nonce < u64::MAX
            &&& payload@.len() <= 65517
        },
        sent is Ok ==> {
            &&& r matches Ok(header)
            &&& header.msg_type == old(near).tx@.msg_type
            &&& header.kind == PacketKind::Sole || header.kind == PacketKind::First <==> old(
                near,
            ).tx@.is_first
            &&& header.kind == PacketKind::Sole || header.kind == PacketKind::Last <==> last
            &&& final(far).rx@.has_payload()
            &&& final(far).rx@.payload() == payload@
            &&& final(far).rx@.reader.in_progress == !last
            &&& linked(session_of(final(near).session), session_of(final(far).session))
        },
        old(near).tx@.in_progress ==> final(near).tx@.in_progress == !last,
{
    lemma_chunk_sent(
        old(near).tx@,
        final(near).tx@,
        session_of(old(near).session),
        session_of(final(near).session),
        payload@,
        last,
        sent,
    );
    lemma_packet_read(
        old(far).rx@,
        final(far).rx@,
        session_of(old(far).session),
        session_of(final(far).session),
        ciphertext@,
        r,
    );
    if sent is Ok {
        let raw = opened(session_of(old(far).session), ciphertext@)->0;
        lemma_reader_takes(old(far).rx@.reader, raw);
        lemma_decode_header(raw);
    }
}

/// The payload that a packet transport hands out is what its receiver holds.
pub proof fn law_packet_data<'a>(transport: &'a PacketTransport, payload: &'a [u8])
    requires
        transport.rx@.has_payload(),
        call_ensures(PacketTransport::packet_data, (transport,), payload),
    ensures
        transport.rx@.end > 2 ==> payload@ == transport.rx@.buffer.subrange(
            2,
            transport.rx@.end as int,
        ),
        transport.rx@.end <= 2 ==> payload@.len() == 0,
{
}

/// Over a message transport a serialized message is sent exactly where its type has 12 bits
/// and none is in progress, and cut from start to end; one that could not be serialized is
/// not sent.
pub proof fn law_transport_send_message<'a, C: Into<u16>>(
    transport: &mut MessageTransport,
    msg_type: C,
    code: u16,
    serialized: Result<&'a [u8], postcard::Error>,
    r: Result<SliceSend<'a>, ConnectionError>,
)
    requires
        call_ensures(MessageTransport::send_message::<C>, (transport, msg_type, serialized), r),
        forall|other: u16| #[trigger]
            call_ensures(C::into, (msg_type,), other) ==> other == code,
    ensures
        r is Ok <==> serialized is Ok && code <= 0x0FFF && !old(transport).tx.packets@.in_progress,
        serialized is Err ==> r->Err_0 is MessageSerialization,
        r is Err ==> final(transport).tx.packets@ == old(transport).tx.packets@,
        final(transport).session == old(transport).session,
        final(transport).rx == old(transport).rx,
        r matches Ok(send) ==> {
            let payload = serialized->Ok_0@;
            let n = send@.len() - 1;
            &&& final(transport).tx.packets@.in_progress
            &&& final(transport).tx.packets@.is_first
            &&& final(transport).tx.packets@.msg_type == code
            &&& n >= 0
            &&& payload.len() == 65517 * n + send@[n].0.len()
            &&& forall|i: int|
                0 <= i <= n ==> (#[trigger] send@[i]).1 == (i == n) && send@[i].0
                    == payload.subrange(65517 * i, 65517 * i + send@[i].0.len())
        },
{
    lemma_refusal(old(transport).tx.packets@, code);
    if let Ok(payload) = serialized {
        lemma_slice_plan_cuts(payload@, true);
    }
}

/// Assembling a payload over a message transport starts with all of the opening packet's.
pub proof fn law_read_unlimited_slice(
    transport: &mut MessageTransport,
    message: Message,
    bytes: MessageBytes,
)
    requires
        old(transport).rx@.packets.has_payload(),
        call_ensures(MessageTransport::read_unlimited_slice, (transport, message), bytes),
    ensures
        bytes@ <==> message@.kind == PacketKind::Sole,
        old(transport).rx@.packets.end > 2 ==> final(transport).rx@.bytes == old(
            transport,
        ).rx@.packets.buffer.subrange(2, old(transport).rx@.packets.end as int),
        old(transport).rx@.packets.end <= 2 ==> final(transport).rx@.bytes.len() == 0,
        final(transport).session == old(transport).session,
{
}

/// What is assembled is what is handed out, and whether more must follow is what the receiver
/// says.
pub proof fn law_assembled<'a>(rx: &'a MessageRx, bytes: &'a [u8], open: bool)
    requires
        call_ensures(MessageRx::bytes, (rx,), bytes),
        call_ensures(MessageRx::in_message, (rx,), open),
    ensures
        bytes@ == rx@.bytes,
        open <==> rx@.packets.reader.in_progress,
{
}

/// A connection is handed on exactly if it is one to the expected peer.
pub proof fn law_expect_peer<T>(
    connection: T,
    details: &AuthDetails,
    target: &NodeId,
    r: Result<T, ConnectionError>,
)
    requires
        call_ensures(expect_peer::<T>, (connection, details, target), r),
    ensures
        r is Ok <==> details.node_id@ == target@,
        r matches Ok(handed) ==> handed == connection,
        r matches Err(e) ==> {
            &&& e matches ConnectionError::BadAuth(BadAuth::NodeIdMismatch { expected, actual })
            &&& expected@ == target@
            &&& actual@ == details.node_id@
        },
{
}

/// The first wait is 50 milliseconds, a new connection takes the place of whatever was there,
/// and only a wait that nothing ended is one that was too long.
pub proof fn law_link<T>(
    reconnect: Reconnect,
    link: &mut LinkState<T>,
    connection: T,
    wait: &WaitConnected,
    announced: bool,
    woken: Result<(), NotReady>,
    guard: &mut Guard,
)
    requires
        call_ensures(Reconnect::new, (), reconnect),
        call_ensures(LinkState::<T>::install, (link, connection), ()),
        call_ensures(WaitConnected::on_wake, (wait, announced), woken),
        call_ensures(Guard::commit, (guard,), ()),
    ensures
        reconnect@ == 50,
        *final(link) == LinkState::Connected(connection),
        woken is Ok <==> announced,
        final(guard)@,
{
}

/// A keypair of a secret key is that secret key and the public key that belongs to it.
pub proof fn law_keypairs(
    secret: [u8; 32],
    r: Result<SignatureKeypair, KeyGenError>,
    public: Vec<u8>,
    private: Vec<u8>,
    made: Result<TransportKeypair, KeyGenError>,
)
    requires
        call_ensures(SignatureKeypair::from_secret, (secret,), r),
        call_ensures(TransportKeypair::from_generated, (Ok((public, private)),), made),
    ensures
        r matches Ok(pair) && pair.private@ == secret@ && pair.public@ == ed25519_public(secret@),
        made is Ok <==> public@.len() == 32 && private@.len() == 32,
        made matches Ok(pair) ==> pair.public@ == public@ && pair.private@ == private@,
{
}

/// Keys are the bytes that they were made of.
pub proof fn law_key_bytes(
    bytes: [u8; 32],
    public: TransportPublicKey,
    private: TransportPrivateKey,
    signing: SignatureSigningKey,
    exposed: &[u8; 32],
    exposed_signing: &[u8; 32],
    shown: &[u8; 32],
)
    requires
        call_ensures(<TransportPublicKey as From<[u8; 32]>>::from, (bytes,), public),
        call_ensures(<TransportPrivateKey as From<[u8; 32]>>::from, (bytes,), private),
        call_ensures(<SignatureSigningKey as From<[u8; 32]>>::from, (bytes,), signing),
        call_ensures(TransportPrivateKey::expose, (&private,), exposed),
        call_ensures(SignatureSigningKey::expose, (&signing,), exposed_signing),
        call_ensures(TransportPublicKey::as_bytes, (&public,), shown),
    ensures
        exposed@ == bytes@,
        exposed_signing@ == bytes@,
        shown@ == bytes@,
{
}

/// An initiator that has authenticated its peer sends its own signed header, as it stands, and
/// still knows who the peer is.
pub proof fn law_confirm(
    replied: Replied,
    signed: &SignedAuthHeader,
    r: Result<(Confirmed, Vec<u8>), ConnectionError>,
)
    requires
        call_ensures(Replied::confirm, (replied, signed), r),
    ensures
        r matches Ok((confirmed, frame)) ==> {
            &&& confirmed.peer() == replied.peer()
            &&& frame@.len() >= 2
            &&& frame@[0] * 256 + frame@[1] == frame@.len() - 2
            &&& sent_as(replied@, confirmed@, signed@, frame@.skip(2))
            &&& confirmed@.transcript == replied@.transcript.push(frame@.skip(2))
        },
        r matches Err(e) ==> e is Noise,
{
    if let Ok((confirmed, frame)) = r {
        lemma_frame_sent(replied@, confirmed@, signed@, frame@);
    }
}

/// A responder that hears an initiator answers with its own signed header, as it stands.
pub proof fn law_on_hello(
    accepting: Accepting,
    message: &[u8],
    signed: &SignedAuthHeader,
    r: Result<(Answered, Vec<u8>), ConnectionError>,
)
    requires
        call_ensures(Accepting::on_hello, (accepting, message, signed), r),
    ensures
        r is Ok ==> handshake_payload(accepting@, message@) is Some,
        r matches Ok((answered, frame)) ==> {
            &&& frame@.len() >= 2
            &&& frame@[0] * 256 + frame@[1] == frame@.len() - 2
            &&& sent_as(accepting@.after(message@), answered@, signed@, frame@.skip(2))
            &&& answered@.transcript == accepting@.transcript.push(message@).push(frame@.skip(2))
        },
        r matches Err(e) ==> e is Noise,
{
    if let Ok((answered, frame)) = r {
        lemma_frame_sent(accepting@.after(message@), answered@, signed@, frame@);
    }
}

/// A handshake is set up with the private key that was given and this crate's protocol, and
/// the first message is the initiator's.
pub proof fn law_start(
    client_private: &TransportPrivateKey,
    connecting: Result<(Connecting, Vec<u8>), ConnectionError>,
    server_private: &TransportPrivateKey,
    accepting: Result<Accepting, ConnectionError>,
)
    requires
        call_ensures(connect, (client_private,), connecting),
        call_ensures(accept, (server_private,), accepting),
    ensures
        connecting matches Ok((initiator, hello)) && initiator@.initiator && initiator@.setup
            == NOISE_PARAMS@ && initiator@.private == client_private@ && initiator@.transcript
            == seq![hello@.skip(2)] && hello@[0] * 256 + hello@[1] == hello@.len() - 2,
        accepting matches Ok(responder) && !responder@.initiator && responder@.setup
            == NOISE_PARAMS@ && responder@.private == server_private@
            && responder@.transcript.len() == 0,
{
    let (initiator, hello) = connecting->Ok_0;
    let start = choose|start: HandshakeView|
        fresh(start, true, client_private@) && #[trigger] frame_sent(
            start,
            initiator@,
            Seq::empty(),
            hello@,
        );
    lemma_frame_sent(start, initiator@, Seq::empty(), hello@);
    assert(initiator@.transcript =~= seq![hello@.skip(2)]);
}

/// Over the message layer, too, a message is abandoned exactly if one is in progress, and the
/// other end learns so.
pub proof fn law_message_abort(
    tx: &mut MessageTx,
    session: &mut snow::TransportState,
    r: Result<Option<Vec<u8>>, ConnectionError>,
)
    requires
        call_ensures(MessageTx::abort_message, (tx, session), r),
    ensures
        !final(tx).packets@.in_progress,
        r == Ok::<Option<Vec<u8>>, ConnectionError>(None) <==> !old(tx).packets@.in_progress,
        r matches Ok(Some(frame)) ==> forall|peer: SessionView| #[trigger]
            linked(session_of(*old(session)), peer) && peer.can_recv ==> {
                &&& opened(peer, frame@.skip(2)) matches Some(raw)
                &&& raw.len() == 2
                &&& raw[0] / 16 == 4
                &&& (raw[0] % 16) * 256 + raw[1] == old(tx).packets@.msg_type
            },
{
    lemma_frame_in(r);
    if old(tx).packets@.in_progress {
        let before = session_of(*old(session));
        let msg_type = old(tx).packets@.msg_type;
        lemma_packet_layout(PacketKind::Abort, msg_type, Seq::empty());
        lemma_packet_fits(before, PacketKind::Abort, msg_type, Seq::empty());
        if r is Ok {
            lemma_frame_layout(
                crate::snow_state::sealed(
                    before,
                    crate::packet_state::packet_bytes(PacketKind::Abort, msg_type, Seq::empty()),
                )->0,
            );
        }
    }
}

/// Over a packet transport a message can be started exactly where its type has 12 bits and
/// none is in progress, and a slice is cut from start to end.
pub proof fn law_transport_prepare<'a>(
    transport: &mut PacketTransport,
    msg_type: u16,
    r: Result<(), ConnectionError>,
    shared: &PacketTransport,
    data: &'a [u8],
    last_slice: bool,
    send: SliceSend<'a>,
    stream: ReaderSend,
)
    requires
        call_ensures(PacketTransport::prepare_message, (transport, msg_type), r),
        call_ensures(PacketTransport::send_slice, (shared, data, last_slice), send),
        call_ensures(PacketTransport::send_reader, (shared,), stream),
    ensures
        r is Ok <==> msg_type <= 0x0FFF && !old(transport).tx@.in_progress,
        r is Ok ==> {
            &&& final(transport).tx@.in_progress
            &&& final(transport).tx@.is_first
            &&& final(transport).tx@.msg_type == msg_type
        },
        r is Err ==> final(transport).tx@ == old(transport).tx@,
        final(transport).session == old(transport).session,
        ({
            let n = send@.len() - 1;
            &&& n >= 0
            &&& data@.len() == 65517 * n + send@[n].0.len()
            &&& forall|i: int|
                0 <= i <= n ==> (#[trigger] send@[i]).1 == (last_slice && i == n) && send@[i].0
                    == data@.subrange(65517 * i, 65517 * i + send@[i].0.len())
        }),
        stream@.pending.len() == 0 && !stream@.ended && !stream@.done,
{
    lemma_refusal(old(transport).tx@, msg_type);
    lemma_slice_plan_cuts(data@, last_slice);
}

/// Over a message transport the opening packet tells the type, and its payload is at hand.
pub proof fn law_transport_read_message(
    transport: &mut MessageTransport,
    ciphertext: &[u8],
    r: Result<Message, ConnectionError>,
)
    requires
        call_ensures(MessageTransport::read_message, (transport, ciphertext), r),
    ensures
        final(transport).rx@.bytes == old(transport).rx@.bytes,
        r is Err ==> final(transport).rx@.packets.reader == old(transport).rx@.packets.reader,
        !old(transport).rx@.packets.reader.in_progress ==> (r is Ok <==> (opened(
            session_of(old(transport).session),
            ciphertext@,
        ) matches Some(raw) && raw.len() >= 2 && raw[0] / 16 <= 1)),
        r matches Ok(message) ==> {
            &&& opened(session_of(old(transport).session), ciphertext@) matches Some(raw)
            &&& message@.msg_type == (raw[0] % 16) * 256 + raw[1]
            &&& final(transport).rx@.packets.has_payload()
            &&& final(transport).rx@.packets.payload() == raw.skip(2)
        },
{
    let header = match r {
        Ok(message) => Ok(message@),
        Err(e) => Err(e),
    };
    lemma_packet_read(
        old(transport).rx@.packets,
        final(transport).rx@.packets,
        session_of(old(transport).session),
        session_of(final(transport).session),
        ciphertext@,
        header,
    );
    if let Some(raw) = opened(session_of(old(transport).session), ciphertext@) {
        lemma_reader_takes(old(transport).rx@.packets.reader, raw);
        lemma_decode_header(raw);
    }
}

/// What is decoded is all of the assembled payload, and what came of it is what comes back.
pub proof fn law_decode_unlimited<'a, V, F: FnOnce(&'a [u8]) -> Result<V, postcard::Error>>(
    transport: &'a MessageTransport,
    decode: F,
    r: Result<V, ConnectionError>,
)
    requires
        call_ensures(MessageTransport::decode_unlimited::<V, F>, (transport, decode), r),
    ensures
        exists|bytes: &'a [u8], out: Result<V, postcard::Error>|
            {
                &&& bytes@ == transport.rx@.bytes
                &&& #[trigger] call_ensures(decode, (bytes,), out)
                &&& out matches Ok(value) ==> r == Ok::<V, ConnectionError>(value)
                &&& out is Err ==> (r matches Err(e) && e is MessageSerialization)
            },
{
}

} // verus!
