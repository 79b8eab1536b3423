//! What sending and receiving add up to: a message that is sent arrives, whole and once.

use vstd::prelude::*;

use crate::bytes::lemma_be_bytes_len;
use crate::messages::{
    assembled, continuation_read, idle, lemma_continuation_read, step, MessageRxState, Progress,
};
use crate::packet_state::{
    chunk_kind, lemma_chunk_kind, lemma_decode_header, lemma_packet_layout,
    lemma_packet_round_trip, lemma_reader_takes, packet_bytes, BuilderState, PacketHeader,
    PacketKind, PacketReader, MAX_PACKET_SIZE,
};
use crate::packets::{
    answers, chunk_sent, chunks_of_run, concat, lemma_packet_read, lemma_reader_plan,
    lemma_slice_plan_cuts, lemma_source_is_read_to_the_end, packet_payload, packet_read, prepared,
    read_to_the_end, reader_plan, slice_plan, wire_frame, Chunk, ConnectionError, ReaderState,
};
use crate::snow_state::{after_recv, after_send, carries, linked, opened, sealed, SessionView};

verus! {

/// The raw packets that a builder makes of chunks, one after the other.
pub open spec fn packets_of(builder: BuilderState, chunks: Seq<Chunk>) -> Seq<Seq<u8>>
    decreases chunks.len(),
{
    if chunks.len() == 0 {
        Seq::empty()
    } else {
        let (payload, last) = chunks[0];
        let next = BuilderState { in_progress: !last, is_first: false, ..builder };
        seq![packet_bytes(chunk_kind(builder.is_first, last), builder.msg_type, payload)]
            + packets_of(next, chunks.skip(1))
    }
}

/// The payloads of chunks, one behind the other.
pub open spec fn chunk_bytes(chunks: Seq<Chunk>) -> Seq<u8>
    decreases chunks.len(),
{
    if chunks.len() == 0 {
        Seq::empty()
    } else {
        chunks[0].0 + chunk_bytes(chunks.skip(1))
    }
}

/// Whether chunks are those of one whole message: only the last one is marked so.
pub open spec fn whole_message(chunks: Seq<Chunk>) -> bool {
    &&& chunks.len() > 0
    &&& forall|i: int| 0 <= i < chunks.len() ==> (#[trigger] chunks[i]).1 == (i == chunks.len() - 1)
}

/// Whether every chunk fits in a packet.
pub open spec fn in_packets(chunks: Seq<Chunk>) -> bool {
    forall|i: int| 0 <= i < chunks.len() ==> (#[trigger] chunks[i]).0.len() <= MAX_PACKET_SIZE
}

/// How far a message has come once raw packets have been received, as long as it is open.
pub open spec fn received(progress: Progress, packets: Seq<Seq<u8>>) -> Progress
    decreases packets.len(),
{
    if packets.len() == 0 {
        progress
    } else {
        match progress {
            Progress::Open { reader, bytes } => received(
                step(reader, bytes, packets[0]),
                packets.skip(1),
            ),
            _ => progress,
        }
    }
}

/// A receiver between two messages.
pub open spec fn waiting() -> Progress {
    Progress::Open { reader: idle(), bytes: Seq::empty() }
}

/// A slice is cut into the chunks of one whole message, each of which fits in a packet,
/// and nothing of it is lost or added.
pub proof fn lemma_slice_plan(data: Seq<u8>)
    ensures
        whole_message(slice_plan(data, true)),
        in_packets(slice_plan(data, true)),
        chunk_bytes(slice_plan(data, true)) == data,
    decreases data.len(),
{
    let plan = slice_plan(data, true);
    if data.len() <= MAX_PACKET_SIZE {
        reveal_with_fuel(chunk_bytes, 2);
        assert(plan.skip(1) =~= Seq::<Chunk>::empty());
        assert(chunk_bytes(plan) =~= data);
    } else {
        let rest = data.skip(MAX_PACKET_SIZE as int);
        lemma_slice_plan(rest);
        lemma_plan_step(data.take(MAX_PACKET_SIZE as int), slice_plan(rest, true));
        assert(data =~= data.take(MAX_PACKET_SIZE as int) + rest);
    }
}

/// What a source yields is cut into the chunks of one whole message, each of which fits
/// in a packet, and nothing of it is lost or added.
pub proof fn lemma_reader_chunks(data: Seq<u8>)
    ensures
        whole_message(reader_plan(data)),
        in_packets(reader_plan(data)),
        chunk_bytes(reader_plan(data)) == data,
    decreases data.len(),
{
    let plan = reader_plan(data);
    if data.len() < MAX_PACKET_SIZE {
        reveal_with_fuel(chunk_bytes, 2);
        assert(plan.skip(1) =~= Seq::<Chunk>::empty());
        assert(chunk_bytes(plan) =~= data);
    } else {
        let rest = data.skip(MAX_PACKET_SIZE as int);
        lemma_reader_chunks(rest);
        lemma_plan_step(data.take(MAX_PACKET_SIZE as int), reader_plan(rest));
        assert(data =~= data.take(MAX_PACKET_SIZE as int) + rest);
    }
}

/// A full packet in front of the chunks of a whole message.
proof fn lemma_plan_step(first: Seq<u8>, rest: Seq<Chunk>)
    requires
        first.len() <= MAX_PACKET_SIZE,
        whole_message(rest),
        in_packets(rest),
    ensures
        whole_message(seq![(first, false)] + rest),
        in_packets(seq![(first, false)] + rest),
        chunk_bytes(seq![(first, false)] + rest) == first + chunk_bytes(rest),
{
    let plan = seq![(first, false)] + rest;
    assert forall|i: int| 0 <= i < plan.len() implies (#[trigger] plan[i]).1 == (i == plan.len()
        - 1) && plan[i].0.len() <= MAX_PACKET_SIZE by {
        if i > 0 {
            assert(plan[i] == rest[i - 1]);
        }
    }
    assert(plan.skip(1) =~= rest);
}

/// The first packet of a message says its type, so that a receiver knows it before it
/// has the payload.
pub proof fn lemma_first_packet_tells_type(msg_type: u16, chunks: Seq<Chunk>)
    requires
        msg_type <= 0x0FFF,
        whole_message(chunks),
    ensures
        idle().takes(packets_of(prepared(msg_type), chunks)[0]) matches Ok((header, next))
            && header.msg_type == msg_type && next.in_progress == (chunks.len() > 1),
{
    let (payload, last) = chunks[0];
    lemma_packet_round_trip(chunk_kind(true, last), msg_type, payload);
}

/// The packets that follow the first one of a message complete it.
proof fn lemma_continuation(
    builder: BuilderState,
    chunks: Seq<Chunk>,
    reader: PacketReader,
    bytes: Seq<u8>,
)
    requires
        builder.msg_type <= 0x0FFF,
        !builder.is_first,
        whole_message(chunks),
        reader == (PacketReader { in_progress: true, msg_type: builder.msg_type }),
    ensures
        received(Progress::Open { reader, bytes }, packets_of(builder, chunks)) == (
        Progress::Complete { reader: idle(), bytes: bytes + chunk_bytes(chunks) }),
    decreases chunks.len(),
{
    let (payload, last) = chunks[0];
    let packets = packets_of(builder, chunks);
    let next = BuilderState { in_progress: !last, is_first: false, ..builder };
    lemma_packet_round_trip(chunk_kind(false, last), builder.msg_type, payload);
    assert(packet_payload(packets[0]) =~= payload);
    assert(packets.skip(1) =~= packets_of(next, chunks.skip(1)));
    assert(bytes + chunk_bytes(chunks) =~= (bytes + payload) + chunk_bytes(chunks.skip(1)));
    if chunks.len() == 1 {
        reveal_with_fuel(received, 2);
        assert(chunks.skip(1).len() == 0);
        assert(packets.skip(1).len() == 0);
        assert(bytes + chunk_bytes(chunks) =~= bytes + payload);
    } else {
        lemma_tail_is_whole(chunks);
        lemma_continuation(next, chunks.skip(1), reader, bytes + payload);
    }
}

proof fn lemma_tail_is_whole(chunks: Seq<Chunk>)
    requires
        whole_message(chunks),
        chunks.len() > 1,
    ensures
        whole_message(chunks.skip(1)),
        !chunks[0].1,
{
    assert forall|i: int| 0 <= i < chunks.skip(1).len() implies (#[trigger] chunks.skip(1)[i]).1
        == (i == chunks.skip(1).len() - 1) by {
        assert(chunks.skip(1)[i] == chunks[i + 1]);
    }
}

/// The packets of a message, received by a waiting receiver, give the payload of the
/// message, and leave the receiver waiting for the next one.
pub proof fn lemma_message_arrives(msg_type: u16, chunks: Seq<Chunk>)
    requires
        msg_type <= 0x0FFF,
        whole_message(chunks),
    ensures
        received(waiting(), packets_of(prepared(msg_type), chunks)) == (Progress::Complete {
            reader: idle(),
            bytes: chunk_bytes(chunks),
        }),
{
    let builder = prepared(msg_type);
    let packets = packets_of(builder, chunks);
    let (payload, last) = chunks[0];
    let next = BuilderState { in_progress: !last, is_first: false, ..builder };
    lemma_packet_round_trip(chunk_kind(true, last), msg_type, payload);
    assert(packet_payload(packets[0]) =~= payload);
    assert(packets.skip(1) =~= packets_of(next, chunks.skip(1)));
    assert(Seq::<u8>::empty() + payload =~= payload);
    if chunks.len() == 1 {
        reveal_with_fuel(received, 2);
        assert(chunks.skip(1).len() == 0);
        assert(packets.skip(1).len() == 0);
        assert(chunk_bytes(chunks) =~= payload);
    } else {
        lemma_tail_is_whole(chunks);
        lemma_continuation(
            next,
            chunks.skip(1),
            PacketReader { in_progress: true, msg_type },
            payload,
        );
    }
}

/// Whether chunks are the beginning of a message: none of them ends it.
pub open spec fn unfinished(chunks: Seq<Chunk>) -> bool {
    &&& chunks.len() > 0
    &&& forall|i: int| 0 <= i < chunks.len() ==> !(#[trigger] chunks[i]).1
}

proof fn lemma_open_prefix(
    builder: BuilderState,
    chunks: Seq<Chunk>,
    reader: PacketReader,
    bytes: Seq<u8>,
    rest: Seq<Seq<u8>>,
)
    requires
        builder.msg_type <= 0x0FFF,
        !builder.is_first,
        forall|i: int| 0 <= i < chunks.len() ==> !(#[trigger] chunks[i]).1,
        reader == (PacketReader { in_progress: true, msg_type: builder.msg_type }),
    ensures
        received(Progress::Open { reader, bytes }, packets_of(builder, chunks) + rest) == received(
            Progress::Open { reader, bytes: bytes + chunk_bytes(chunks) },
            rest,
        ),
    decreases chunks.len(),
{
    let packets = packets_of(builder, chunks) + rest;
    if chunks.len() == 0 {
        assert(packets =~= rest);
        assert(bytes + chunk_bytes(chunks) =~= bytes);
    } else {
        let (payload, last) = chunks[0];
        let next = BuilderState { in_progress: !last, is_first: false, ..builder };
        lemma_packet_round_trip(PacketKind::Mid, builder.msg_type, payload);
        assert(packet_payload(packets[0]) =~= payload);
        assert(packets.skip(1) =~= packets_of(next, chunks.skip(1)) + rest);
        assert forall|i: int| 0 <= i < chunks.skip(1).len() implies !(#[trigger] chunks.skip(1)[i]).1 by {
            assert(chunks.skip(1)[i] == chunks[i + 1]);
        }
        lemma_open_prefix(next, chunks.skip(1), reader, bytes + payload, rest);
        assert(bytes + chunk_bytes(chunks) =~= (bytes + payload) + chunk_bytes(chunks.skip(1)));
    }
}

/// If a message is abandoned after some of its packets, the receiver learns so, and is
/// left waiting for the next message.
pub proof fn lemma_abort_arrives(msg_type: u16, chunks: Seq<Chunk>)
    requires
        msg_type <= 0x0FFF,
        unfinished(chunks),
    ensures
        received(
            waiting(),
            packets_of(prepared(msg_type), chunks).push(
                packet_bytes(PacketKind::Abort, msg_type, Seq::empty()),
            ),
        ) == (Progress::Aborted { reader: idle() }),
{
    let builder = prepared(msg_type);
    let abort = packet_bytes(PacketKind::Abort, msg_type, Seq::empty());
    let packets = packets_of(builder, chunks).push(abort);
    let (payload, last) = chunks[0];
    let next = BuilderState { in_progress: !last, is_first: false, ..builder };
    let reader = PacketReader { in_progress: true, msg_type };
    lemma_packet_round_trip(PacketKind::First, msg_type, payload);
    lemma_packet_round_trip(PacketKind::Abort, msg_type, Seq::empty());
    assert(packet_payload(packets[0]) =~= payload);
    assert(packets.skip(1) =~= packets_of(next, chunks.skip(1)) + seq![abort]);
    assert forall|i: int| 0 <= i < chunks.skip(1).len() implies !(#[trigger] chunks.skip(1)[i]).1 by {
        assert(chunks.skip(1)[i] == chunks[i + 1]);
    }
    assert(Seq::<u8>::empty() + payload =~= payload);
    lemma_open_prefix(next, chunks.skip(1), reader, payload, seq![abort]);
    reveal_with_fuel(received, 2);
    assert(seq![abort].skip(1) =~= Seq::<Seq<u8>>::empty());
}

/// The session after `n` messages have been sent.
pub open spec fn sent_times(session: SessionView, n: nat) -> SessionView
    decreases n,
{
    if n == 0 {
        session
    } else {
        after_send(sent_times(session, (n - 1) as nat))
    }
}

/// The session after `n` messages have been received.
pub open spec fn received_times(session: SessionView, n: nat) -> SessionView
    decreases n,
{
    if n == 0 {
        session
    } else {
        after_recv(received_times(session, (n - 1) as nat))
    }
}

/// Whether a session sent the plaintexts one after the other as these ciphertexts.
pub open spec fn carries_all(
    tx: SessionView,
    ciphertexts: Seq<Seq<u8>>,
    plaintexts: Seq<Seq<u8>>,
) -> bool {
    &&& ciphertexts.len() == plaintexts.len()
    &&& forall|i: int|
        0 <= i < ciphertexts.len() ==> carries(
            sent_times(tx, i as nat),
            #[trigger] ciphertexts[i],
            plaintexts[i],
        )
}

/// Whether chunks were sent one after the other: the `i`-th took the builder from
/// `builders[i]` and the session from `sessions[i]` to the next ones, and gave the frame
/// `frames[i]`.
pub open spec fn chunks_sent(
    builders: Seq<BuilderState>,
    sessions: Seq<SessionView>,
    chunks: Seq<Chunk>,
    frames: Seq<Vec<u8>>,
) -> bool {
    &&& builders.len() == chunks.len() + 1
    &&& sessions.len() == chunks.len() + 1
    &&& frames.len() == chunks.len()
    &&& forall|i: int|
        0 <= i < chunks.len() ==> chunk_sent(
            builders[i],
            builders[i + 1],
            sessions[i],
            sessions[i + 1],
            (#[trigger] chunks[i]).0,
            chunks[i].1,
            Ok(frames[i]),
        )
}

/// The data of frames: what follows their length prefixes.
pub open spec fn frame_data(frames: Seq<Vec<u8>>) -> Seq<Seq<u8>> {
    Seq::new(frames.len(), |i: int| frames[i]@.skip(2))
}

/// What sending chunks comes to: the frames carry the packets of the chunks, and the
/// session has sent that many messages.
pub proof fn lemma_chunks_are_carried(
    builders: Seq<BuilderState>,
    sessions: Seq<SessionView>,
    chunks: Seq<Chunk>,
    frames: Seq<Vec<u8>>,
)
    requires
        chunks_sent(builders, sessions, chunks, frames),
    ensures
        carries_all(sessions[0], frame_data(frames), packets_of(builders[0], chunks)),
        forall|i: int|
            0 <= i < frames.len() ==> (#[trigger] frames[i])@ == wire_frame(frame_data(frames)[i]),
        sessions.last() == sent_times(sessions[0], chunks.len()),
    decreases chunks.len(),
{
    if chunks.len() > 0 {
        let (payload, last) = chunks[0];
        let next = BuilderState { in_progress: !last, is_first: false, ..builders[0] };
        let packets = packets_of(builders[0], chunks);
        let data = frame_data(frames);
        assert(chunk_sent(
            builders[0],
            builders[1],
            sessions[0],
            sessions[1],
            chunks[0].0,
            chunks[0].1,
            Ok(frames[0]),
        ));
        let ciphertext = sealed(sessions[0], packets[0])->0;
        lemma_be_bytes_len(ciphertext.len(), 2);
        assert(data[0] =~= ciphertext);
        assert forall|i: int| 0 <= i < chunks.skip(1).len() implies chunk_sent(
            builders.skip(1)[i],
            builders.skip(1)[i + 1],
            sessions.skip(1)[i],
            sessions.skip(1)[i + 1],
            (#[trigger] chunks.skip(1)[i]).0,
            chunks.skip(1)[i].1,
            Ok(frames.skip(1)[i]),
        ) by {
            assert(chunks.skip(1)[i] == chunks[i + 1]);
        }
        lemma_chunks_are_carried(
            builders.skip(1),
            sessions.skip(1),
            chunks.skip(1),
            frames.skip(1),
        );
        assert(frame_data(frames.skip(1)) =~= data.skip(1));
        assert(builders[1] == next);
        assert(packets.skip(1) =~= packets_of(next, chunks.skip(1)));
        assert forall|i: int| 0 <= i < data.len() implies carries(
            sent_times(sessions[0], i as nat),
            #[trigger] data[i],
            packets[i],
        ) by {
            if i > 0 {
                lemma_sent_times_shift(sessions[0], (i - 1) as nat);
                assert(data[i] == data.skip(1)[i - 1]);
                assert(packets[i] == packets.skip(1)[i - 1]);
            }
        }
        assert forall|i: int| 0 <= i < frames.len() implies (#[trigger] frames[i])@ == wire_frame(
            data[i],
        ) by {
            if i > 0 {
                assert(frames[i] == frames.skip(1)[i - 1]);
                assert(data[i] == data.skip(1)[i - 1]);
            }
        }
        lemma_sent_times_shift(sessions[0], (chunks.len() - 1) as nat);
    }
}

/// The `i`-th ciphertext opens at the other end of a session, if the ones before it were
/// received, and the ends stay in step.
pub proof fn lemma_ciphertext_opens(
    tx: SessionView,
    rx: SessionView,
    ciphertexts: Seq<Seq<u8>>,
    plaintexts: Seq<Seq<u8>>,
    i: nat,
)
    requires
        linked(tx, rx),
        rx.can_recv,
        carries_all(tx, ciphertexts, plaintexts),
        i <= ciphertexts.len(),
    ensures
        linked(sent_times(tx, i), received_times(rx, i)),
        received_times(rx, i).can_recv,
        i < ciphertexts.len() ==> opened(received_times(rx, i), ciphertexts[i as int]) == Some(
            plaintexts[i as int],
        ),
    decreases i,
{
    if i > 0 {
        lemma_ciphertext_opens(tx, rx, ciphertexts, plaintexts, (i - 1) as nat);
        assert(carries(
            sent_times(tx, (i - 1) as nat),
            ciphertexts[i - 1],
            plaintexts[i - 1],
        ));
    }
    if i < ciphertexts.len() {
        assert(carries(sent_times(tx, i), ciphertexts[i as int], plaintexts[i as int]));
    }
}

/// How far a message has come once the data of frames has been received.
pub open spec fn received_sealed(
    rx: SessionView,
    progress: Progress,
    ciphertexts: Seq<Seq<u8>>,
) -> Option<Progress>
    decreases ciphertexts.len(),
{
    if ciphertexts.len() == 0 {
        Some(progress)
    } else {
        match (progress, opened(rx, ciphertexts[0])) {
            (Progress::Open { reader, bytes }, Some(plaintext)) => received_sealed(
                after_recv(rx),
                step(reader, bytes, plaintext),
                ciphertexts.skip(1),
            ),
            (Progress::Open { reader, bytes }, None) => None,
            _ => Some(progress),
        }
    }
}

/// Encryption changes nothing: the other end makes of the ciphertexts what it would make
/// of the plaintexts.
pub proof fn lemma_sealed_is_transparent(
    tx: SessionView,
    rx: SessionView,
    progress: Progress,
    ciphertexts: Seq<Seq<u8>>,
    plaintexts: Seq<Seq<u8>>,
)
    requires
        linked(tx, rx),
        rx.can_recv,
        carries_all(tx, ciphertexts, plaintexts),
    ensures
        received_sealed(rx, progress, ciphertexts) == Some(received(progress, plaintexts)),
    decreases ciphertexts.len(),
{
    if ciphertexts.len() > 0 {
        assert(carries(sent_times(tx, 0), ciphertexts[0], plaintexts[0]));
        if let Progress::Open { reader, bytes } = progress {
            lemma_carried_tail(tx, ciphertexts, plaintexts);
            lemma_sealed_is_transparent(
                after_send(tx),
                after_recv(rx),
                step(reader, bytes, plaintexts[0]),
                ciphertexts.skip(1),
                plaintexts.skip(1),
            );
        }
    }
}

proof fn lemma_sent_times_shift(tx: SessionView, n: nat)
    ensures
        sent_times(after_send(tx), n) == sent_times(tx, n + 1),
    decreases n,
{
    if n > 0 {
        lemma_sent_times_shift(tx, (n - 1) as nat);
    } else {
        reveal_with_fuel(sent_times, 2);
    }
}

proof fn lemma_carried_tail(
    tx: SessionView,
    ciphertexts: Seq<Seq<u8>>,
    plaintexts: Seq<Seq<u8>>,
)
    requires
        carries_all(tx, ciphertexts, plaintexts),
        ciphertexts.len() > 0,
    ensures
        carries_all(after_send(tx), ciphertexts.skip(1), plaintexts.skip(1)),
{
    assert forall|i: int| 0 <= i < ciphertexts.skip(1).len() implies carries(
        sent_times(after_send(tx), i as nat),
        #[trigger] ciphertexts.skip(1)[i],
        plaintexts.skip(1)[i],
    ) by {
        lemma_sent_times_shift(tx, i as nat);
        assert(ciphertexts.skip(1)[i] == ciphertexts[i + 1]);
    }
}

/// A message sent from a slice over one end of a session is received at the other end:
/// the same bytes, and a receiver that waits for the next message.
pub proof fn lemma_sent_slice_is_received(
    tx: SessionView,
    rx: SessionView,
    msg_type: u16,
    data: Seq<u8>,
    ciphertexts: Seq<Seq<u8>>,
)
    requires
        linked(tx, rx),
        rx.can_recv,
        msg_type <= 0x0FFF,
        carries_all(tx, ciphertexts, packets_of(prepared(msg_type), slice_plan(data, true))),
    ensures
        received_sealed(rx, waiting(), ciphertexts) == Some(
            Progress::Complete { reader: idle(), bytes: data },
        ),
        linked(sent_times(tx, ciphertexts.len()), received_times(rx, ciphertexts.len())),
{
    let packets = packets_of(prepared(msg_type), slice_plan(data, true));
    lemma_slice_plan(data);
    lemma_message_arrives(msg_type, slice_plan(data, true));
    lemma_sealed_is_transparent(tx, rx, waiting(), ciphertexts, packets);
    lemma_ciphertext_opens(tx, rx, ciphertexts, packets, ciphertexts.len());
}

/// What is sent of a slice, frame by frame until nothing is left, is received at the
/// other end of the session: the same bytes, and a receiver that waits for the next
/// message.
pub proof fn lemma_slice_run_is_received(
    builders: Seq<BuilderState>,
    sessions: Seq<SessionView>,
    frames: Seq<Vec<u8>>,
    rx: SessionView,
    msg_type: u16,
    data: Seq<u8>,
)
    requires
        msg_type <= 0x0FFF,
        chunks_sent(builders, sessions, slice_plan(data, true), frames),
        builders[0] == prepared(msg_type),
        linked(sessions[0], rx),
        rx.can_recv,
    ensures
        received_sealed(rx, waiting(), frame_data(frames)) == Some(
            Progress::Complete { reader: idle(), bytes: data },
        ),
        linked(sessions.last(), received_times(rx, frames.len())),
{
    lemma_chunks_are_carried(builders, sessions, slice_plan(data, true), frames);
    lemma_sent_slice_is_received(sessions[0], rx, msg_type, data, frame_data(frames));
}

/// What is sent of a source, frame by frame until it has ended, is received at the other
/// end of the session, however the source handed out its bytes: the same bytes, and a
/// receiver that waits for the next message.
pub proof fn lemma_stream_run_is_received(
    builders: Seq<BuilderState>,
    sessions: Seq<SessionView>,
    frames: Seq<Vec<u8>>,
    rx: SessionView,
    msg_type: u16,
    reads: Seq<Seq<u8>>,
)
    requires
        msg_type <= 0x0FFF,
        answers(unfed(), reads),
        chunks_sent(builders, sessions, chunks_of_run(unfed(), reads), frames),
        builders[0] == prepared(msg_type),
        linked(sessions[0], rx),
        rx.can_recv,
    ensures
        received_sealed(rx, waiting(), frame_data(frames)) == Some(
            Progress::Complete { reader: idle(), bytes: concat(reads) },
        ),
        linked(sessions.last(), received_times(rx, frames.len())),
{
    lemma_reader_plan(unfed(), reads);
    assert(unfed().pending + concat(reads) =~= concat(reads));
    lemma_chunks_are_carried(builders, sessions, reader_plan(concat(reads)), frames);
    lemma_sent_stream_is_received(sessions[0], rx, msg_type, concat(reads), frame_data(frames));
}

/// A source of which nothing has been read.
pub open spec fn unfed() -> ReaderState {
    ReaderState { pending: Seq::empty(), ended: false, done: false }
}

/// A message streamed from a source over one end of a session is received at the other
/// end: the same bytes, and a receiver that waits for the next message.
pub proof fn lemma_sent_stream_is_received(
    tx: SessionView,
    rx: SessionView,
    msg_type: u16,
    data: Seq<u8>,
    ciphertexts: Seq<Seq<u8>>,
)
    requires
        linked(tx, rx),
        rx.can_recv,
        msg_type <= 0x0FFF,
        carries_all(tx, ciphertexts, packets_of(prepared(msg_type), reader_plan(data))),
    ensures
        received_sealed(rx, waiting(), ciphertexts) == Some(
            Progress::Complete { reader: idle(), bytes: data },
        ),
        linked(sent_times(tx, ciphertexts.len()), received_times(rx, ciphertexts.len())),
{
    let packets = packets_of(prepared(msg_type), reader_plan(data));
    lemma_reader_chunks(data);
    lemma_message_arrives(msg_type, reader_plan(data));
    lemma_sealed_is_transparent(tx, rx, waiting(), ciphertexts, packets);
    lemma_ciphertext_opens(tx, rx, ciphertexts, packets, ciphertexts.len());
}

/// If a message is abandoned after some of its packets over one end of a session, the
/// other end learns so, and waits for the next message; the session goes on.
pub proof fn lemma_abort_is_received(
    tx: SessionView,
    rx: SessionView,
    msg_type: u16,
    chunks: Seq<Chunk>,
    ciphertexts: Seq<Seq<u8>>,
)
    requires
        linked(tx, rx),
        rx.can_recv,
        msg_type <= 0x0FFF,
        unfinished(chunks),
        carries_all(
            tx,
            ciphertexts,
            packets_of(prepared(msg_type), chunks).push(
                packet_bytes(PacketKind::Abort, msg_type, Seq::empty()),
            ),
        ),
    ensures
        received_sealed(rx, waiting(), ciphertexts) == Some(Progress::Aborted { reader: idle() }),
        linked(sent_times(tx, ciphertexts.len()), received_times(rx, ciphertexts.len())),
{
    let packets = packets_of(prepared(msg_type), chunks).push(
        packet_bytes(PacketKind::Abort, msg_type, Seq::empty()),
    );
    lemma_abort_arrives(msg_type, chunks);
    lemma_sealed_is_transparent(tx, rx, waiting(), ciphertexts, packets);
    lemma_ciphertext_opens(tx, rx, ciphertexts, packets, ciphertexts.len());
}

/// The payloads of the packets of a message, taken one by one, are its chunks: together
/// they are the payload of the message.
pub proof fn lemma_packet_payloads(builder: BuilderState, chunks: Seq<Chunk>)
    requires
        builder.msg_type <= 0x0FFF,
    ensures
        packets_of(builder, chunks).len() == chunks.len(),
        concat(packets_of(builder, chunks).map_values(|raw: Seq<u8>| packet_payload(raw)))
            == chunk_bytes(chunks),
    decreases chunks.len(),
{
    let packets = packets_of(builder, chunks);
    let payloads = packets.map_values(|raw: Seq<u8>| packet_payload(raw));
    if chunks.len() > 0 {
        let (payload, last) = chunks[0];
        let next = BuilderState { in_progress: !last, is_first: false, ..builder };
        let kind = chunk_kind(builder.is_first, last);
        lemma_packet_round_trip(kind, builder.msg_type, payload);
        lemma_packet_payloads(next, chunks.skip(1));
        assert(packets.skip(1) =~= packets_of(next, chunks.skip(1)));
        assert(packet_payload(packets[0]) =~= payload);
        assert(payloads.skip(1) =~= packets.skip(1).map_values(
            |raw: Seq<u8>| packet_payload(raw),
        ));
    }
}

/// A chunk that fits in a packet is never too long to be sent: only a session that cannot
/// send at all, or whose message numbers are used up, refuses it.
pub proof fn lemma_chunk_is_sealed(
    session: SessionView,
    kind: PacketKind,
    msg_type: u16,
    payload: Seq<u8>,
)
    requires
        msg_type <= 0x0FFF,
        payload.len() <= MAX_PACKET_SIZE,
        session.can_send,
        session.send_nonce < u64::MAX,
    ensures
        sealed(session, packet_bytes(kind, msg_type, payload)) is Some,
{
    lemma_packet_round_trip(kind, msg_type, payload);
}

proof fn lemma_chunk_bytes_add(a: Seq<Chunk>, b: Seq<Chunk>)
    ensures
        chunk_bytes(a + b) == chunk_bytes(a) + chunk_bytes(b),
    decreases a.len(),
{
    if a.len() == 0 {
        assert(a + b =~= b);
        assert(chunk_bytes(a) + chunk_bytes(b) =~= chunk_bytes(b));
    } else {
        lemma_chunk_bytes_add(a.skip(1), b);
        assert((a + b).skip(1) =~= a.skip(1) + b);
        assert(chunk_bytes(a + b) =~= chunk_bytes(a) + chunk_bytes(b));
    }
}

/// A slice with which the message does not end is cut into the beginning of a message: none
/// of its chunks ends it, each fits in a packet, and nothing of it is lost or added.
pub proof fn lemma_open_slice_plan(data: Seq<u8>)
    ensures
        unfinished(slice_plan(data, false)),
        in_packets(slice_plan(data, false)),
        chunk_bytes(slice_plan(data, false)) == data,
    decreases data.len(),
{
    let plan = slice_plan(data, false);
    lemma_slice_plan_cuts(data, false);
    if data.len() <= MAX_PACKET_SIZE {
        reveal_with_fuel(chunk_bytes, 2);
        assert(plan.skip(1) =~= Seq::<Chunk>::empty());
        assert(chunk_bytes(plan) =~= data);
    } else {
        let rest = data.skip(MAX_PACKET_SIZE as int);
        lemma_open_slice_plan(rest);
        assert(plan.skip(1) =~= slice_plan(rest, false));
        assert(data =~= data.take(MAX_PACKET_SIZE as int) + rest);
    }
}

/// A message may be sent in several slices: whatever was sent of it without ending it, the
/// slice with which it ends makes it a whole message, of the bytes that were sent before and
/// then those of the slice.
pub proof fn lemma_slices_add_up(begun: Seq<Chunk>, data: Seq<u8>)
    requires
        forall|i: int| 0 <= i < begun.len() ==> !(#[trigger] begun[i]).1,
    ensures
        whole_message(begun + slice_plan(data, true)),
        chunk_bytes(begun + slice_plan(data, true)) == chunk_bytes(begun) + data,
        forall|more: Seq<u8>, i: int|
            0 <= i < (begun + slice_plan(more, false)).len() ==> !(#[trigger] (begun + slice_plan(
                more,
                false,
            ))[i]).1,
        forall|more: Seq<u8>| #[trigger]
            chunk_bytes(begun + slice_plan(more, false)) == chunk_bytes(begun) + more,
{
    let chunks = begun + slice_plan(data, true);
    lemma_slice_plan(data);
    lemma_chunk_bytes_add(begun, slice_plan(data, true));
    assert forall|i: int| 0 <= i < chunks.len() implies (#[trigger] chunks[i]).1 == (i
        == chunks.len() - 1) by {
        if i >= begun.len() {
            assert(chunks[i] == slice_plan(data, true)[i - begun.len()]);
        } else {
            assert(chunks[i] == begun[i]);
        }
    }
    assert forall|more: Seq<u8>, i: int|
        0 <= i < (begun + slice_plan(more, false)).len() implies !(#[trigger] (begun + slice_plan(
        more,
        false,
    ))[i]).1 by {
        lemma_open_slice_plan(more);
        if i >= begun.len() {
            assert((begun + slice_plan(more, false))[i] == slice_plan(more, false)[i
                - begun.len()]);
        } else {
            assert((begun + slice_plan(more, false))[i] == begun[i]);
        }
    }
    assert forall|more: Seq<u8>| #[trigger]
        chunk_bytes(begun + slice_plan(more, false)) == chunk_bytes(begun) + more by {
        lemma_open_slice_plan(more);
        lemma_chunk_bytes_add(begun, slice_plan(more, false));
    }
}

/// Two slices, the second of which ends the message, are one whole message: the bytes of
/// the first and then those of the second.
pub proof fn lemma_two_slices_are_one_message(a: Seq<u8>, b: Seq<u8>)
    ensures
        whole_message(slice_plan(a, false) + slice_plan(b, true)),
        in_packets(slice_plan(a, false) + slice_plan(b, true)),
        chunk_bytes(slice_plan(a, false) + slice_plan(b, true)) == a + b,
{
    lemma_open_slice_plan(a);
    lemma_slice_plan(b);
    lemma_slices_add_up(slice_plan(a, false), b);
    let chunks = slice_plan(a, false) + slice_plan(b, true);
    assert forall|i: int| 0 <= i < chunks.len() implies (#[trigger] chunks[i]).0.len()
        <= MAX_PACKET_SIZE by {
        if i < slice_plan(a, false).len() {
            assert(chunks[i] == slice_plan(a, false)[i]);
        } else {
            assert(chunks[i] == slice_plan(b, true)[i - slice_plan(a, false).len()]);
        }
    }
}

/// The packet of each chunk.
proof fn lemma_packet_of_chunk(builder: BuilderState, chunks: Seq<Chunk>, i: int)
    requires
        0 <= i < chunks.len(),
    ensures
        packets_of(builder, chunks).len() == chunks.len(),
        packets_of(builder, chunks)[i] == packet_bytes(
            chunk_kind(builder.is_first && i == 0, chunks[i].1),
            builder.msg_type,
            chunks[i].0,
        ),
    decreases chunks.len(),
{
    let (payload, last) = chunks[0];
    let next = BuilderState { in_progress: !last, is_first: false, ..builder };
    let packets = packets_of(builder, chunks);
    assert(packets.skip(1) =~= packets_of(next, chunks.skip(1)));
    if i > 0 {
        lemma_packet_of_chunk(next, chunks.skip(1), i - 1);
        assert(packets[i] == packets.skip(1)[i - 1]);
    } else if chunks.len() > 1 {
        lemma_packet_of_chunk(next, chunks.skip(1), 0);
    }
}

/// Whether a message was received frame by frame: its opening packet was read with the
/// answer `opening`, its payload was then assembled, and each further frame was pushed with
/// the answer `answers[i]`. Before the `i`-th frame the receiver was `rxs[i]` and the
/// session `sessions[i]`, and behind it `complete[i]` told whether the payload was complete.
pub open spec fn message_taken(
    rxs: Seq<MessageRxState>,
    sessions: Seq<SessionView>,
    ciphertexts: Seq<Seq<u8>>,
    opening: Result<PacketHeader, ConnectionError>,
    answers: Seq<Result<(), ConnectionError>>,
    complete: Seq<bool>,
) -> bool {
    &&& ciphertexts.len() > 0
    &&& rxs.len() == ciphertexts.len() + 1
    &&& sessions.len() == ciphertexts.len() + 1
    &&& answers.len() == ciphertexts.len()
    &&& complete.len() == ciphertexts.len()
    &&& packet_read(
        rxs[0].packets,
        rxs[1].packets,
        sessions[0],
        sessions[1],
        ciphertexts[0],
        opening,
    )
    &&& opening matches Ok(header) ==> {
        &&& rxs[1].bytes == rxs[1].packets.payload()
        &&& complete[0] == (header.kind == PacketKind::Sole)
    }
    &&& forall|i: int|
        1 <= i < ciphertexts.len() ==> {
            &&& continuation_read(
                rxs[i],
                rxs[i + 1],
                sessions[i],
                sessions[i + 1],
                #[trigger] ciphertexts[i],
                complete[i],
                answers[i],
            )
            &&& rxs[i + 1].bytes == assembled(rxs[i], sessions[i], ciphertexts[i])
        }
}

/// How a message that was sent stands behind its first `k` frames.
proof fn lemma_taken_so_far(
    tx: SessionView,
    msg_type: u16,
    chunks: Seq<Chunk>,
    rxs: Seq<MessageRxState>,
    sessions: Seq<SessionView>,
    ciphertexts: Seq<Seq<u8>>,
    opening: Result<PacketHeader, ConnectionError>,
    answers: Seq<Result<(), ConnectionError>>,
    complete: Seq<bool>,
    k: nat,
)
    requires
        msg_type <= 0x0FFF,
        whole_message(chunks),
        carries_all(tx, ciphertexts, packets_of(prepared(msg_type), chunks)),
        linked(tx, sessions[0]),
        sessions[0].can_recv,
        !rxs[0].packets.reader.in_progress,
        message_taken(rxs, sessions, ciphertexts, opening, answers, complete),
        1 <= k <= chunks.len(),
    ensures
        ciphertexts.len() == chunks.len(),
        opening matches Ok(header) && header.msg_type == msg_type,
        sessions[k as int] == received_times(sessions[0], k),
        rxs[k as int].packets.has_payload(),
        rxs[k as int].packets.payload() == chunks[k - 1].0,
        rxs[k as int].bytes == chunk_bytes(chunks.take(k as int)),
        complete[k - 1] == (k == chunks.len()),
        k > 1 ==> answers[k - 1] is Ok,
        rxs[k as int].packets.reader.in_progress <==> k < chunks.len(),
        k < chunks.len() ==> rxs[k as int].packets.reader.msg_type == msg_type,
    decreases k,
{
    let packets = packets_of(prepared(msg_type), chunks);
    let i = k - 1;
    let kind = chunk_kind(i == 0, chunks[i].1);
    let raw = packet_bytes(kind, msg_type, chunks[i].0);
    lemma_packet_of_chunk(prepared(msg_type), chunks, i);
    lemma_ciphertext_opens(tx, sessions[0], ciphertexts, packets, i as nat);
    lemma_packet_layout(kind, msg_type, chunks[i].0);
    lemma_chunk_kind(i == 0, chunks[i].1);
    assert(chunks[i].1 == (i == chunks.len() - 1));
    assert(chunks.take(k as int) =~= chunks.take(i) + seq![chunks[i]]);
    lemma_chunk_bytes_add(chunks.take(i), seq![chunks[i]]);
    reveal_with_fuel(chunk_bytes, 2);
    assert(seq![chunks[i]].skip(1) =~= Seq::<Chunk>::empty());
    assert(chunk_bytes(seq![chunks[i]]) =~= chunks[i].0);
    if k == 1 {
        lemma_packet_read(
            rxs[0].packets,
            rxs[1].packets,
            sessions[0],
            sessions[1],
            ciphertexts[0],
            opening,
        );
        lemma_reader_takes(rxs[0].packets.reader, raw);
        lemma_decode_header(raw);
        reveal_with_fuel(received_times, 2);
        assert(chunk_bytes(chunks.take(1)) =~= chunks[0].0);
    } else {
        lemma_taken_so_far(
            tx,
            msg_type,
            chunks,
            rxs,
            sessions,
            ciphertexts,
            opening,
            answers,
            complete,
            i as nat,
        );
        assert(continuation_read(
            rxs[i],
            rxs[i + 1],
            sessions[i],
            sessions[i + 1],
            ciphertexts[i],
            complete[i],
            answers[i],
        ));
        lemma_continuation_read(
            rxs[i],
            rxs[i + 1],
            sessions[i],
            sessions[i + 1],
            ciphertexts[i],
            complete[i],
            answers[i],
        );
    }
}

/// A message that was sent, received frame by frame, leaves the receiver with what was sent:
/// every frame is taken, the type is known from the first, the payload grows by each chunk
/// and is complete with the last frame and not before, and each packet's payload is at hand
/// behind its frame. The receiver is left waiting for the next message, and in step.
pub proof fn lemma_message_is_taken(
    tx: SessionView,
    msg_type: u16,
    chunks: Seq<Chunk>,
    rxs: Seq<MessageRxState>,
    sessions: Seq<SessionView>,
    ciphertexts: Seq<Seq<u8>>,
    opening: Result<PacketHeader, ConnectionError>,
    answers: Seq<Result<(), ConnectionError>>,
    complete: Seq<bool>,
)
    requires
        msg_type <= 0x0FFF,
        whole_message(chunks),
        carries_all(tx, ciphertexts, packets_of(prepared(msg_type), chunks)),
        linked(tx, sessions[0]),
        sessions[0].can_recv,
        !rxs[0].packets.reader.in_progress,
        message_taken(rxs, sessions, ciphertexts, opening, answers, complete),
    ensures
        opening matches Ok(header) && header.msg_type == msg_type,
        forall|i: int| 1 <= i < chunks.len() ==> #[trigger] answers[i] is Ok,
        forall|i: int| 0 <= i < chunks.len() ==> #[trigger] complete[i] == (i == chunks.len() - 1),
        forall|i: int|
            0 <= i < chunks.len() ==> (#[trigger] chunks[i]).0 == rxs[i + 1].packets.payload(),
        rxs.last().bytes == chunk_bytes(chunks),
        !rxs.last().packets.reader.in_progress,
        linked(sent_times(tx, chunks.len()), sessions.last()),
{
    let packets = packets_of(prepared(msg_type), chunks);
    let n = chunks.len();
    assert forall|i: int|
        #![trigger answers[i]]
        #![trigger complete[i]]
        #![trigger chunks[i]]
        0 <= i < n implies (i >= 1 ==> answers[i] is Ok) && complete[i] == (i == n - 1)
        && chunks[i].0 == rxs[i + 1].packets.payload() by {
        lemma_taken_so_far(
            tx,
            msg_type,
            chunks,
            rxs,
            sessions,
            ciphertexts,
            opening,
            answers,
            complete,
            (i + 1) as nat,
        );
    }
    lemma_taken_so_far(
        tx,
        msg_type,
        chunks,
        rxs,
        sessions,
        ciphertexts,
        opening,
        answers,
        complete,
        n,
    );
    assert(chunks.take(n as int) =~= chunks);
    lemma_ciphertext_opens(tx, sessions[0], ciphertexts, packets, n);
}

/// A payload of any length that is sent from a slice, frame by frame until nothing is left,
/// and received frame by frame at the other end of the session, is the payload that was
/// sent.
pub proof fn lemma_sent_slice_is_taken(
    builders: Seq<BuilderState>,
    tx_sessions: Seq<SessionView>,
    frames: Seq<Vec<u8>>,
    msg_type: u16,
    data: Seq<u8>,
    rxs: Seq<MessageRxState>,
    sessions: Seq<SessionView>,
    opening: Result<PacketHeader, ConnectionError>,
    answers: Seq<Result<(), ConnectionError>>,
    complete: Seq<bool>,
)
    requires
        msg_type <= 0x0FFF,
        builders[0] == prepared(msg_type),
        chunks_sent(builders, tx_sessions, slice_plan(data, true), frames),
        linked(tx_sessions[0], sessions[0]),
        sessions[0].can_recv,
        !rxs[0].packets.reader.in_progress,
        message_taken(rxs, sessions, frame_data(frames), opening, answers, complete),
    ensures
        rxs.last().bytes == data,
        opening matches Ok(header) && header.msg_type == msg_type,
        forall|i: int| 1 <= i < frames.len() ==> #[trigger] answers[i] is Ok,
        forall|i: int| 0 <= i < frames.len() ==> #[trigger] complete[i] == (i == frames.len() - 1),
        !rxs.last().packets.reader.in_progress,
        linked(tx_sessions.last(), sessions.last()),
{
    lemma_chunks_are_carried(builders, tx_sessions, slice_plan(data, true), frames);
    lemma_slice_plan(data);
    lemma_message_is_taken(
        tx_sessions[0],
        msg_type,
        slice_plan(data, true),
        rxs,
        sessions,
        frame_data(frames),
        opening,
        answers,
        complete,
    );
}

/// A message that is sent in two slices and received frame by frame at the other end of the
/// session is the bytes of the first slice and then those of the second.
pub proof fn lemma_two_sent_slices_are_taken(
    builders: Seq<BuilderState>,
    tx_sessions: Seq<SessionView>,
    frames: Seq<Vec<u8>>,
    msg_type: u16,
    a: Seq<u8>,
    b: Seq<u8>,
    rxs: Seq<MessageRxState>,
    sessions: Seq<SessionView>,
    opening: Result<PacketHeader, ConnectionError>,
    answers: Seq<Result<(), ConnectionError>>,
    complete: Seq<bool>,
)
    requires
        msg_type <= 0x0FFF,
        builders[0] == prepared(msg_type),
        chunks_sent(builders, tx_sessions, slice_plan(a, false) + slice_plan(b, true), frames),
        linked(tx_sessions[0], sessions[0]),
        sessions[0].can_recv,
        !rxs[0].packets.reader.in_progress,
        message_taken(rxs, sessions, frame_data(frames), opening, answers, complete),
    ensures
        rxs.last().bytes == a + b,
        opening matches Ok(header) && header.msg_type == msg_type,
        forall|i: int| 1 <= i < frames.len() ==> #[trigger] answers[i] is Ok,
        forall|i: int| 0 <= i < frames.len() ==> #[trigger] complete[i] == (i == frames.len() - 1),
        !rxs.last().packets.reader.in_progress,
        linked(tx_sessions.last(), sessions.last()),
{
    let chunks = slice_plan(a, false) + slice_plan(b, true);
    lemma_chunks_are_carried(builders, tx_sessions, chunks, frames);
    lemma_two_slices_are_one_message(a, b);
    lemma_message_is_taken(
        tx_sessions[0],
        msg_type,
        chunks,
        rxs,
        sessions,
        frame_data(frames),
        opening,
        answers,
        complete,
    );
}

/// What a source yields, in whatever pieces up to its end, is what is received frame by
/// frame at the other end of the session.
pub proof fn lemma_sent_stream_is_taken(
    builders: Seq<BuilderState>,
    tx_sessions: Seq<SessionView>,
    frames: Seq<Vec<u8>>,
    msg_type: u16,
    reads: Seq<Seq<u8>>,
    rxs: Seq<MessageRxState>,
    sessions: Seq<SessionView>,
    opening: Result<PacketHeader, ConnectionError>,
    answers: Seq<Result<(), ConnectionError>>,
    complete: Seq<bool>,
)
    requires
        msg_type <= 0x0FFF,
        builders[0] == prepared(msg_type),
        read_to_the_end(0, reads),
        chunks_sent(builders, tx_sessions, chunks_of_run(unfed(), reads), frames),
        linked(tx_sessions[0], sessions[0]),
        sessions[0].can_recv,
        !rxs[0].packets.reader.in_progress,
        message_taken(rxs, sessions, frame_data(frames), opening, answers, complete),
    ensures
        rxs.last().bytes == concat(reads),
        opening matches Ok(header) && header.msg_type == msg_type,
        forall|i: int| 1 <= i < frames.len() ==> #[trigger] answers[i] is Ok,
        forall|i: int| 0 <= i < frames.len() ==> #[trigger] complete[i] == (i == frames.len() - 1),
        !rxs.last().packets.reader.in_progress,
        linked(tx_sessions.last(), sessions.last()),
{
    let chunks = reader_plan(concat(reads));
    lemma_source_is_read_to_the_end(unfed(), reads);
    lemma_chunks_are_carried(builders, tx_sessions, chunks, frames);
    lemma_reader_chunks(concat(reads));
    lemma_message_is_taken(
        tx_sessions[0],
        msg_type,
        chunks,
        rxs,
        sessions,
        frame_data(frames),
        opening,
        answers,
        complete,
    );
}

} // verus!
