//! A connection: the two halves of the framer for one peer.
//!
//! The socket itself is not held here. What was read from it is handed in, and
//! what is to be written to it is handed out.

use super::codec::{
    advanced, appended, emptied, next_parsed, received, taken_bytes, DecoderState, EncoderState,
    PacketDecoder, PacketEncoder,
};
use crate::cipher::{keyed, moved, opened};
use crate::cipher::{lemma_opened_sealed, sealed};
use crate::frame::{
    begins_with_frame, carried, frame, lemma_frame_not_empty, lemma_frame_round_trip, readable,
    CodecError,
};
use crate::packets::{
    decode_incoming, encode_outgoing, incoming_read, is_expected, outgoing_written,
    set_compression_written, Expect, Incoming, Outgoing, PacketError,
};
use crate::varint::{signed_value, to_signed};
use vstd::prelude::*;

verus! {

/// Why a connection came to an end.
#[derive(Clone, Copy, Debug, PartialEq, Eq, Structural)]
pub enum ConnectionError {
    /// A frame could not be written or read.
    Codec(CodecError),
    /// A packet could not be written or read.
    Packet(PacketError),
    /// The peer closed the connection.
    UnexpectedEof,
}

/// What a connection is, as plain values.
pub struct ConnectionState {
    pub address: Seq<char>,
    pub enc: EncoderState,
    pub dec: DecoderState,
}

/// The framer of one peer, with the peer's address.
pub struct Connection {
    pub address: String,
    pub enc: PacketEncoder,
    pub dec: PacketDecoder,
}

impl View for Connection {
    type V = ConnectionState;

    open spec fn view(&self) -> ConnectionState {
        ConnectionState { address: self.address@, enc: self.enc@, dec: self.dec@ }
    }
}

/// A connection on which nothing was sent or received yet, without compression
/// or encryption.
pub open spec fn fresh(address: Seq<char>) -> ConnectionState {
    ConnectionState {
        address,
        enc: EncoderState { pending: Seq::empty(), threshold: None, cipher: None },
        dec: DecoderState { queued: Seq::empty(), compression: false, cipher: None },
    }
}

/// The connection `before` with encryption turned on in both directions: what
/// is queued is decrypted where it lies.
pub open spec fn encrypting(before: ConnectionState, key: Seq<u8>) -> ConnectionState {
    ConnectionState {
        address: before.address,
        enc: EncoderState { cipher: keyed(key), ..before.enc },
        dec: DecoderState {
            queued: opened(keyed(key), before.dec.queued),
            compression: before.dec.compression,
            cipher: moved(keyed(key), before.dec.queued),
        },
    }
}

/// The connection `before` with compression turned on in both directions.
pub open spec fn compressing(before: ConnectionState, threshold: u32) -> ConnectionState {
    ConnectionState {
        address: before.address,
        enc: EncoderState { threshold: Some(threshold), ..before.enc },
        dec: DecoderState { compression: true, ..before.dec },
    }
}

/// What taking in `bytes` from the peer gives, and the connection afterwards:
/// an empty read means that the peer has closed the connection.
pub open spec fn fed(before: ConnectionState, bytes: Seq<u8>) -> (
    Result<(), ConnectionError>,
    ConnectionState,
) {
    if bytes.len() == 0 {
        (Err(ConnectionError::UnexpectedEof), before)
    } else {
        (Ok(()), ConnectionState { dec: received(before.dec, bytes), ..before })
    }
}

/// What asking for the next frame gives, and the connection afterwards: the
/// body of the frame, `None` while no whole frame is there, or the reason why
/// what was received cannot be read.
pub open spec fn frame_taken(before: ConnectionState) -> (
    Result<Option<Seq<u8>>, ConnectionError>,
    ConnectionState,
) {
    match next_parsed(before.dec) {
        Ok(Some((body, taken))) => (
            Ok(Some(body)),
            ConnectionState { dec: advanced(before.dec, taken), ..before },
        ),
        Ok(None) => (Ok(None), before),
        Err(e) => (Err(ConnectionError::Codec(e)), before),
    }
}

/// What asking for the next packet gives where `expect` is expected, and the
/// connection afterwards.
pub open spec fn packet_received(before: ConnectionState, expect: Expect) -> (
    Result<Option<Incoming>, ConnectionError>,
    ConnectionState,
) {
    let (taken, after) = frame_taken(before);
    (
        match taken {
            Ok(Some(body)) => match incoming_read(expect, body) {
                Ok(packet) => Ok(Some(packet)),
                Err(e) => Err(ConnectionError::Packet(e)),
            },
            Ok(None) => Ok(None),
            Err(e) => Err(e),
        },
        after,
    )
}

/// What sending `body` hands out to be written, and the connection afterwards:
/// everything that was pending with the frame of `body` behind it, sealed.
/// Nothing changes where no frame can be written.
pub open spec fn body_sent(before: ConnectionState, body: Seq<u8>) -> (
    Result<Seq<u8>, ConnectionError>,
    ConnectionState,
) {
    match frame(body, before.enc.threshold) {
        Ok(_) => (
            Ok(taken_bytes(appended(before.enc, body))),
            ConnectionState { enc: emptied(appended(before.enc, body)), ..before },
        ),
        Err(e) => (Err(ConnectionError::Codec(e)), before),
    }
}

/// What sending a packet hands out to be written, and the connection
/// afterwards: `written` is the body of the packet's frame, `None` where the
/// packet cannot be written.
pub open spec fn written_sent(before: ConnectionState, written: Option<Seq<u8>>) -> (
    Result<Seq<u8>, ConnectionError>,
    ConnectionState,
) {
    match written {
        Some(body) => body_sent(before, body),
        None => (Err(ConnectionError::Packet(PacketError::Unwritable)), before),
    }
}

/// What sending `packet` hands out to be written, and the connection
/// afterwards.
pub open spec fn packet_sent(before: ConnectionState, packet: Outgoing) -> (
    Result<Seq<u8>, ConnectionError>,
    ConnectionState,
) {
    written_sent(before, outgoing_written(packet))
}

/// What telling the peer the compression threshold hands out to be written,
/// and the connection afterwards, on which compression is on. Nothing changes
/// where the threshold cannot be sent.
pub open spec fn compression_set(before: ConnectionState, threshold: u32) -> (
    Result<Seq<u8>, ConnectionError>,
    ConnectionState,
) {
    let (sent, after) = written_sent(
        before,
        set_compression_written(signed_value(threshold as int)),
    );
    match sent {
        Ok(bytes) => (Ok(bytes), compressing(after, threshold)),
        Err(e) => (Err(e), after),
    }
}

/// What passing one frame on hands out to be written, and the connection
/// afterwards: the next body that was received, framed anew for the sending
/// side; `None` while no whole frame is there.
pub open spec fn piped(before: ConnectionState) -> (
    Result<Option<Seq<u8>>, ConnectionError>,
    ConnectionState,
) {
    let (taken, after) = frame_taken(before);
    match taken {
        Ok(Some(body)) => {
            let (sent, last) = body_sent(after, body);
            (
                match sent {
                    Ok(bytes) => Ok(Some(bytes)),
                    Err(e) => Err(e),
                },
                last,
            )
        },
        Ok(None) => (Ok(None), after),
        Err(e) => (Err(e), after),
    }
}

/// The plain value of bytes that were handed out, or of the reason why none
/// were.
pub open spec fn bytes_view(r: Result<Vec<u8>, ConnectionError>) -> Result<
    Seq<u8>,
    ConnectionError,
> {
    match r {
        Ok(bytes) => Ok(bytes@),
        Err(e) => Err(e),
    }
}

/// The plain value of bytes that may have been handed out, or of the reason
/// why none were.
pub open spec fn some_bytes_view(r: Result<Option<Vec<u8>>, ConnectionError>) -> Result<
    Option<Seq<u8>>,
    ConnectionError,
> {
    match r {
        Ok(Some(bytes)) => Ok(Some(bytes@)),
        Ok(None) => Ok(None),
        Err(e) => Err(e),
    }
}

impl Connection {
    /// What holds of every connection: its decoder is well formed.
    pub open spec fn wf(&self) -> bool {
        self.dec.wf()
    }

    /// A connection to `address` on which nothing was sent or received yet,
    /// without compression or encryption.
    pub fn new(address: String) -> (connection: Connection)
        ensures
            connection.wf(),
            connection@ == fresh(address@),
    {
        Connection {
            address,
            enc: PacketEncoder::new(),
            dec: PacketDecoder::new(),
        }
    }

    /// Turns encryption on in both directions, keyed with `key`.
    pub fn enable_encryption(&mut self, key: &[u8; 16])
        requires
            old(self).wf(),
            old(self)@.enc.cipher is None,
            old(self)@.dec.cipher is None,
        ensures
            final(self).wf(),
            final(self)@ == encrypting(old(self)@, key@),
    {
        self.enc.enable_encryption(key);
        self.dec.enable_encryption(key);
    }

    /// Turns compression on in both directions: what is sent is deflated above
    /// `threshold`, and what is received is read as compressed.
    pub fn enable_compression(&mut self, threshold: u32)
        requires
            old(self).wf(),
        ensures
            final(self).wf(),
            final(self)@ == compressing(old(self)@, threshold),
    {
        self.dec.set_compression(true);
        self.enc.set_compression(Some(threshold));
    }

    /// Tells the peer the compression threshold and then turns compression on
    /// in both directions. Hands out what is to be written to the peer. Nothing
    /// changes where the threshold cannot be sent.
    pub fn set_compression(&mut self, threshold: u32) -> (r: Result<Vec<u8>, ConnectionError>)
        requires
            old(self).wf(),
        ensures
            final(self).wf(),
            (bytes_view(r), final(self)@) == compression_set(old(self)@, threshold),
    {
        let packet = Outgoing::SetCompression { threshold: to_signed(threshold as u64) };
        match self.send(&packet) {
            Ok(bytes) => {
                self.enable_compression(threshold);
                Ok(bytes)
            },
            Err(e) => Err(e),
        }
    }

    /// Takes in what was read from the peer. An empty read means that the peer
    /// has closed the connection.
    pub fn read(&mut self, bytes: &[u8]) -> (r: Result<(), ConnectionError>)
        requires
            old(self).wf(),
        ensures
            final(self).wf(),
            (r, final(self)@) == fed(old(self)@, bytes@),
    {
        if bytes.len() == 0 {
            return Err(ConnectionError::UnexpectedEof);
        }
        self.dec.queue_slice(bytes);
        Ok(())
    }

    /// Takes the body of the next frame out of what was received, if a whole
    /// frame is there.
    pub fn next_frame(&mut self) -> (r: Result<Option<Vec<u8>>, ConnectionError>)
        requires
            old(self).wf(),
        ensures
            final(self).wf(),
            (some_bytes_view(r), final(self)@) == frame_taken(old(self)@),
            forall|body: Seq<u8>, threshold: Option<u32>|
                #[trigger] begins_with_frame(old(self)@.dec.queued, body, threshold) && readable(
                    body,
                    threshold,
                ) && (threshold is Some) == old(self)@.dec.compression ==> some_bytes_view(r)
                    == Ok::<Option<Seq<u8>>, ConnectionError>(Some(body)),
    {
        match self.dec.try_next_packet() {
            Ok(found) => Ok(found),
            Err(e) => Err(ConnectionError::Codec(e)),
        }
    }

    /// Takes the next packet out of what was received, if a whole frame is
    /// there, and reads it as the packet that is expected.
    pub fn recv(&mut self, expect: Expect) -> (r: Result<Option<Incoming>, ConnectionError>)
        requires
            old(self).wf(),
        ensures
            final(self).wf(),
            (r, final(self)@) == packet_received(old(self)@, expect),
            r matches Ok(Some(packet)) ==> is_expected(expect, packet),
    {
        match self.next_frame() {
            Err(e) => Err(e),
            Ok(None) => Ok(None),
            Ok(Some(body)) => match decode_incoming(expect, body.as_slice()) {
                Ok(packet) => Ok(Some(packet)),
                Err(e) => Err(ConnectionError::Packet(e)),
            },
        }
    }

    /// Frames `body` and hands out everything that is pending, sealed, to be
    /// written to the peer.
    pub fn send_body(&mut self, body: &[u8]) -> (r: Result<Vec<u8>, ConnectionError>)
        requires
            old(self).wf(),
        ensures
            final(self).wf(),
            (bytes_view(r), final(self)@) == body_sent(old(self)@, body@),
    {
        match self.enc.append_packet(body) {
            Err(e) => Err(ConnectionError::Codec(e)),
            Ok(()) => Ok(self.enc.take()),
        }
    }

    /// Writes `packet` into a frame and hands out everything that is pending,
    /// sealed, to be written to the peer.
    pub fn send(&mut self, packet: &Outgoing) -> (r: Result<Vec<u8>, ConnectionError>)
        requires
            old(self).wf(),
        ensures
            final(self).wf(),
            (bytes_view(r), final(self)@) == packet_sent(old(self)@, *packet),
    {
        match encode_outgoing(packet) {
            Err(e) => Err(ConnectionError::Packet(e)),
            Ok(body) => self.send_body(body.as_slice()),
        }
    }

    /// Ends play: sends a packet that shows `message` in the colour `color`.
    pub fn disconnect(&mut self, message: String, color: String) -> (r: Result<
        Vec<u8>,
        ConnectionError,
    >)
        requires
            old(self).wf(),
        ensures
            final(self).wf(),
            (bytes_view(r), final(self)@) == packet_sent(
                old(self)@,
                Outgoing::DisconnectPlay { message, color },
            ),
    {
        self.send(&Outgoing::DisconnectPlay { message, color })
    }

    /// Passes one frame on: takes the next body out of what was received, if a
    /// whole frame is there, frames it anew for the sending side, and hands out
    /// what is to be written.
    pub fn pipe(&mut self) -> (r: Result<Option<Vec<u8>>, ConnectionError>)
        requires
            old(self).wf(),
        ensures
            final(self).wf(),
            (some_bytes_view(r), final(self)@) == piped(old(self)@),
    {
        match self.next_frame() {
            Err(e) => Err(e),
            Ok(None) => Ok(None),
            Ok(Some(body)) => match self.send_body(body.as_slice()) {
                Ok(bytes) => Ok(Some(bytes)),
                Err(e) => Err(e),
            },
        }
    }
}

/// Pairs the two legs of a session for play: what is received from the client
/// is sent on to the backend, and what is received from the backend is sent on
/// to the client.
pub fn cross(client: Connection, backend: Connection) -> (legs: (Connection, Connection))
    requires
        client.wf(),
        backend.wf(),
    ensures
        legs.0.wf(),
        legs.1.wf(),
        legs.0@ == (ConnectionState {
            address: client@.address,
            dec: client@.dec,
            enc: backend@.enc,
        }),
        legs.1@ == (ConnectionState {
            address: backend@.address,
            dec: backend@.dec,
            enc: client@.enc,
        }),
{
    let to_backend = Connection {
        address: client.address,
        dec: client.dec,
        enc: backend.enc,
    };
    let to_client = Connection {
        address: backend.address,
        dec: backend.dec,
        enc: client.enc,
    };
    (to_backend, to_client)
}

/// Whether what `sender` sends next is what `receiver` reads next: nothing is
/// pending on the one or queued on the other, their ciphers are in the same
/// state, and the receiver reads compressed frames exactly if the sender
/// writes them.
pub open spec fn in_step(sender: ConnectionState, receiver: ConnectionState) -> bool {
    &&& sender.enc.pending == Seq::<u8>::empty()
    &&& receiver.dec.queued == Seq::<u8>::empty()
    &&& receiver.dec.cipher == sender.enc.cipher
    &&& receiver.dec.compression == sender.enc.threshold is Some
}

/// Delivery. A body that is sent on one connection and handed to a connection
/// that is in step with it is the next frame read there, whether compression
/// and encryption are on or off and whatever the threshold is; and afterwards
/// the two are in step again, so that the same holds of every body that
/// follows. What the receiver holds before it reads begins with the frame of
/// the body, which is what a decoder reads the body itself from. Stated over
/// the decompressor's result alone, a body that was carried deflated comes out
/// as what the decompressor makes of the compressor's output.
pub proof fn lemma_delivery(sender: ConnectionState, receiver: ConnectionState, body: Seq<u8>)
    requires
        in_step(sender, receiver),
        frame(body, sender.enc.threshold) is Ok,
        readable(body, sender.enc.threshold),
    ensures
        ({
            let (sent, sender_after) = body_sent(sender, body);
            &&& sent matches Ok(bytes)
            &&& bytes.len() > 0
            &&& ({
                let (taken, receiver_between) = fed(receiver, bytes);
                let (read, receiver_after) = frame_taken(receiver_between);
                &&& taken is Ok
                &&& begins_with_frame(receiver_between.dec.queued, body, sender.enc.threshold)
                &&& receiver_between.dec.cipher == sender_after.enc.cipher
                &&& read == (match carried(body, sender.enc.threshold) {
                    Ok(b) => Ok::<Option<Seq<u8>>, ConnectionError>(Some(b)),
                    Err(e) => Err::<Option<Seq<u8>>, ConnectionError>(ConnectionError::Codec(e)),
                })
                &&& carried(body, sender.enc.threshold) is Ok ==> in_step(
                    sender_after,
                    receiver_after,
                )
            })
        }),
{
    let f = frame(body, sender.enc.threshold)->Ok_0;
    let cipher = sender.enc.cipher;
    assert(Seq::<u8>::empty() + f =~= f);
    let bytes = sealed(cipher, f);
    lemma_opened_sealed(cipher, f);
    lemma_frame_not_empty(body, sender.enc.threshold);
    lemma_frame_round_trip(body, sender.enc.threshold, Seq::empty());
    assert(f + Seq::<u8>::empty() =~= f);
    assert(Seq::<u8>::empty() + f =~= f);
    assert(f.skip(f.len() as int) =~= Seq::<u8>::empty());
    assert(f.subrange(0, f.len() as int) =~= f);
}

} // verus!
