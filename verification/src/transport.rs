//! Undivided transports: both halves and their session in one value.

use vstd::prelude::*;

use crate::auth::AuthDetails;
use crate::handshake::{established, not_finished, Confirmed};
use crate::messages::{
    Message, MessageBytes, MessagePackets, MessageRx, MessageRxState, MessageTx, PacketsState,
};
use crate::packet_state::{PacketHeader, PacketKind};
use crate::packets::{
    chunk_sent, packet_read, prepared, refusal, slice_plan, ConnectionError,
    PacketRx, PacketTx, ReaderSend, ReaderState, SliceSend,
};
use crate::snow_state::session_of;

verus! {

/// The text of a `postcard::Error`, as its `Display` writes it.
pub uninterp spec fn postcard_error_text(error: postcard::Error) -> Seq<char>;

/// `Display` of `postcard::Error`: its text depends on the error alone.
#[verifier::external_body]
fn postcard_text(error: &postcard::Error) -> (text: String)
    ensures
        text@ == postcard_error_text(*error),
{
    format!("{}", error)
}

/// A packet transport: an established session with its two halves.
pub struct PacketTransport {
    pub session: snow::TransportState,
    pub tx: PacketTx,
    pub rx: PacketRx,
}

impl PacketTransport {
    /// The transport that a finished handshake leads to.
    ///
    /// Who the peer is comes with it.
    pub fn new(confirmed: Confirmed) -> (r: Result<(Self, AuthDetails), ConnectionError>)
        ensures
            match r {
                Ok((transport, details)) => {
                    &&& established(
                        confirmed@,
                        session_of(transport.session),
                        transport.tx@,
                        transport.rx@,
                    )
                    &&& details == confirmed.peer()
                },
                Err(e) => not_finished(confirmed@, e),
            },
    {
        match confirmed.into_split() {
            Ok((session, tx, rx, details)) => Ok((PacketTransport { session, tx, rx }, details)),
            Err(e) => Err(e),
        }
    }

    /// Decrypt and check the packet in a frame's data, and keep its payload.
    pub fn read_packet(&mut self, ciphertext: &[u8]) -> (r: Result<PacketHeader, ConnectionError>)
        ensures
            packet_read(
                old(self).rx@,
                final(self).rx@,
                session_of(old(self).session),
                session_of(final(self).session),
                ciphertext@,
                r,
            ),
            final(self).tx == old(self).tx,
    {
        self.rx.read_packet(&mut self.session, ciphertext)
    }

    /// The payload of the last packet.
    pub fn packet_data(&self) -> (payload: &[u8])
        requires
            self.rx@.has_payload(),
        ensures
            payload@ == self.rx@.payload(),
    {
        self.rx.payload()
    }

    /// Begin a new message with the given type.
    pub fn prepare_message(&mut self, msg_type: u16) -> (r: Result<(), ConnectionError>)
        ensures
            match refusal(old(self).tx@, msg_type) {
                Some(e) => {
                    &&& r == Err::<(), ConnectionError>(ConnectionError::PacketBuilder(e))
                    &&& final(self).tx@ == old(self).tx@
                },
                None => r is Ok && final(self).tx@ == prepared(msg_type),
            },
            r is Ok <==> msg_type <= 0x0FFF && !old(self).tx@.in_progress,
            final(self).session == old(self).session,
            final(self).rx == old(self).rx,
    {
        self.tx.prepare_message(msg_type)
    }

    /// The frame to write for the next chunk of the current message.
    pub fn send_packet(&mut self, payload: &[u8], last: bool) -> (r: Result<
        Vec<u8>,
        ConnectionError,
    >)
        ensures
            chunk_sent(
                old(self).tx@,
                final(self).tx@,
                session_of(old(self).session),
                session_of(final(self).session),
                payload@,
                last,
                r,
            ),
            final(self).rx == old(self).rx,
    {
        self.tx.send_packet(&mut self.session, payload, last)
    }

    /// Start sending `data` in as many packets as needed; the frames come from
    /// [`SliceSend::next`].
    pub fn send_slice<'a>(&self, data: &'a [u8], last_slice: bool) -> (send: SliceSend<'a>)
        ensures
            send@ == slice_plan(data@, last_slice),
    {
        self.tx.send_slice(data, last_slice)
    }

    /// Start sending what a source of bytes yields; what to do comes from
    /// [`ReaderSend::next`].
    pub fn send_reader(&self) -> (send: ReaderSend)
        ensures
            send@ == (ReaderState { pending: Seq::empty(), ended: false, done: false }),
    {
        self.tx.send_reader()
    }
}

/// A message transport: an established session with its two halves.
pub struct MessageTransport {
    pub session: snow::TransportState,
    pub tx: MessageTx,
    pub rx: MessageRx,
}

impl MessageTransport {
    pub fn new(packets: PacketTransport) -> (transport: Self)
        ensures
            transport.session == packets.session,
            transport.tx.packets == packets.tx,
            transport.rx@ == (MessageRxState { packets: packets.rx@, bytes: Seq::empty() }),
    {
        MessageTransport {
            session: packets.session,
            tx: MessageTx::new(packets.tx),
            rx: MessageRx::new(packets.rx),
        }
    }

    /// Take the opening packet of the next message from a frame's data.
    pub fn read_message(&mut self, ciphertext: &[u8]) -> (r: Result<Message, ConnectionError>)
        ensures
            packet_read(
                old(self).rx@.packets,
                final(self).rx@.packets,
                session_of(old(self).session),
                session_of(final(self).session),
                ciphertext@,
                match r {
                    Ok(message) => Ok(message@),
                    Err(e) => Err(e),
                },
            ),
            final(self).rx@.bytes == old(self).rx@.bytes,
            final(self).tx == old(self).tx,
    {
        self.rx.read_message(&mut self.session, ciphertext)
    }

    /// Consume a message packet by packet.
    pub fn into_packets(&self, message: Message) -> (packets: MessagePackets)
        ensures
            packets@ == (PacketsState { done: false, first_kind: Some(message@.kind) }),
    {
        message.into_packets()
    }

    /// Start assembling the payload of a message, of whatever length.
    pub fn read_unlimited_slice(&mut self, message: Message) -> (bytes: MessageBytes)
        requires
            old(self).rx@.packets.has_payload(),
        ensures
            bytes@ == (message@.kind == PacketKind::Sole),
            final(self).rx@ == (MessageRxState {
                packets: old(self).rx@.packets,
                bytes: old(self).rx@.packets.payload(),
            }),
            final(self).tx == old(self).tx,
            final(self).session == old(self).session,
    {
        message.read_bytes(&mut self.rx)
    }

    /// The value that the assembled payload decodes to, or why it does not.
    pub fn decode_unlimited<'a, V, F: FnOnce(&'a [u8]) -> Result<V, postcard::Error>>(
        &'a self,
        decode: F,
    ) -> (r: Result<V, ConnectionError>)
        requires
            forall|bytes: &'a [u8]|
                bytes@ == self.rx@.bytes ==> #[trigger] call_requires(decode, (bytes,)),
        ensures
            exists|bytes: &'a [u8], out: Result<V, postcard::Error>|
                {
                    &&& bytes@ == self.rx@.bytes
                    &&& #[trigger] call_ensures(decode, (bytes,), out)
                    &&& match out {
                        Ok(value) => r == Ok::<V, ConnectionError>(value),
                        Err(e) => r matches Err(ConnectionError::MessageSerialization(text))
                            && text@ == postcard_error_text(e),
                    }
                },
    {
        match decode(self.rx.bytes()) {
            Ok(value) => Ok(value),
            Err(e) => Err(ConnectionError::MessageSerialization(postcard_text(&e))),
        }
    }

    /// Start sending a message that has been serialized, or report that it could not be;
    /// the frames come from [`SliceSend::next`].
    pub fn send_message<'a, C: Into<u16>>(
        &mut self,
        msg_type: C,
        serialized: Result<&'a [u8], postcard::Error>,
    ) -> (r: Result<SliceSend<'a>, ConnectionError>)
        ensures
            match serialized {
                Ok(payload) => exists|code: u16|
                    {
                        &&& #[trigger] call_ensures(C::into, (msg_type,), code)
                        &&& match refusal(old(self).tx.packets@, code) {
                            Some(e) => {
                                &&& r == Err::<SliceSend<'a>, ConnectionError>(
                                    ConnectionError::PacketBuilder(e),
                                )
                                &&& final(self).tx.packets@ == old(self).tx.packets@
                            },
                            None => {
                                &&& r is Ok
                                &&& r->Ok_0@ == slice_plan(payload@, true)
                                &&& final(self).tx.packets@ == prepared(code)
                            },
                        }
                    },
                Err(e) => {
                    &&& r matches Err(ConnectionError::MessageSerialization(text))
                    &&& text@ == postcard_error_text(e)
                    &&& final(self).tx == old(self).tx
                },
            },
            final(self).session == old(self).session,
            final(self).rx == old(self).rx,
    {
        match serialized {
            Ok(payload) => self.tx.send_message(msg_type, payload),
            Err(e) => Err(ConnectionError::MessageSerialization(postcard_text(&e))),
        }
    }

    /// Start streaming a large message from a source of bytes; what to do comes from
    /// [`ReaderSend::next`].
    pub fn send_reader<C: Into<u16>>(&mut self, msg_type: C) -> (r: Result<
        ReaderSend,
        ConnectionError,
    >)
        ensures
            exists|code: u16|
                {
                    &&& #[trigger] call_ensures(C::into, (msg_type,), code)
                    &&& match refusal(old(self).tx.packets@, code) {
                        Some(e) => {
                            &&& r == Err::<ReaderSend, ConnectionError>(
                                ConnectionError::PacketBuilder(e),
                            )
                            &&& final(self).tx.packets@ == old(self).tx.packets@
                        },
                        None => {
                            &&& r is Ok
                            &&& r->Ok_0@ == (ReaderState {
                                pending: Seq::empty(),
                                ended: false,
                                done: false,
                            })
                            &&& final(self).tx.packets@ == prepared(code)
                        },
                    }
                },
            final(self).session == old(self).session,
            final(self).rx == old(self).rx,
    {
        self.tx.send_reader(msg_type)
    }
}

} // verus!
