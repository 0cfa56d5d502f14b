//! The packet framer: an encoder that turns packet bodies into frames and a
//! decoder that turns a stream of bytes back into bodies. Either may deflate
//! bodies and may run its bytes through a stream cipher.

use crate::cipher::{
    all_of, cipher_state, keyed, lemma_opened_concat, lemma_opened_pieces, lemma_opened_sealed,
    lemma_sealed_pieces, moved, opened, opened_pieces, sealed, sealed_pieces, Cipher,
    CipherState,
};
use crate::frame::{
    all_carried, all_readable, begins_with_frame, collected, deflated_frame, deflated_part,
    frame, frames, has_frame, inflates_back, joined, lemma_frame_round_trip,
    lemma_frames_collected, lemma_parse_deflated_frame, lemma_read_in_chunks, parsed,
    plain_frame, read_in_chunks, readable, stored_frame, CodecError, COMPRESSION_LEVEL,
    MAX_PACKET_SIZE,
};
use crate::varint::{
    decode_partial, encode, lemma_decoded_bounds, varint_bytes, written_size, VarIntDecodeError,
};
use crate::zlib::{deflate, inflate, zlib_deflated};
use vstd::prelude::*;
use vstd::slice::{slice_subrange, slice_to_vec};

verus! {

/// Appends `bytes` to `buf`.
fn push_all(buf: &mut Vec<u8>, bytes: &[u8])
    ensures
        final(buf)@ == old(buf)@ + bytes@,
{
    buf.extend_from_slice(bytes);
    assert(buf@ =~= old(buf)@ + bytes@);
}

/// Appends the frame of `body`, for a connection without compression, to
/// `buf`. Leaves `buf` as it was where the body is too long.
pub fn encode_packet(buf: &mut Vec<u8>, body: &[u8]) -> (r: Result<(), CodecError>)
    ensures
        match plain_frame(body@) {
            Ok(f) => r is Ok && final(buf)@ == old(buf)@ + f,
            Err(e) => r == Err::<(), CodecError>(e) && final(buf)@ == old(buf)@,
        },
{
    if body.len() > MAX_PACKET_SIZE as usize {
        return Err(CodecError::PacketTooLarge);
    }
    let ghost start = buf@;
    encode(body.len() as i32, buf);
    push_all(buf, body);
    assert(buf@ =~= start + (varint_bytes(body@.len() as i32) + body@));
    Ok(())
}

/// Appends to `buf` the frame of a body that a compressing connection carries
/// as it is. Leaves `buf` as it was where the body is too long.
pub fn write_stored_frame(buf: &mut Vec<u8>, body: &[u8]) -> (r: Result<(), CodecError>)
    ensures
        match stored_frame(body@) {
            Ok(f) => r is Ok && final(buf)@ == old(buf)@ + f,
            Err(e) => r == Err::<(), CodecError>(e) && final(buf)@ == old(buf)@,
        },
{
    if body.len() >= MAX_PACKET_SIZE as usize {
        return Err(CodecError::PacketTooLarge);
    }
    let ghost start = buf@;
    encode((1 + body.len()) as i32, buf);
    buf.push(0u8);
    push_all(buf, body);
    assert(buf@ =~= start + (varint_bytes((1 + body@.len()) as i32) + seq![0u8]
        + body@));
    Ok(())
}

/// Appends to `buf` the frame of a body of `data_len` bytes whose deflated form
/// is `deflated`. Leaves `buf` as it was where the frame would be too long.
pub fn write_deflated_frame(buf: &mut Vec<u8>, data_len: usize, deflated: &[u8]) -> (r: Result<
    (),
    CodecError,
>)
    ensures
        match deflated_frame(data_len as nat, deflated@) {
            Ok(f) => r is Ok && final(buf)@ == old(buf)@ + f,
            Err(e) => r == Err::<(), CodecError>(e) && final(buf)@ == old(buf)@,
        },
{
    if data_len > i32::MAX as usize {
        return Err(CodecError::PacketTooLarge);
    }
    let data_len_size = written_size(data_len as i32);
    if deflated.len() > MAX_PACKET_SIZE as usize - data_len_size {
        return Err(CodecError::PacketTooLarge);
    }
    let packet_len = data_len_size + deflated.len();
    let ghost start = buf@;
    encode(packet_len as i32, buf);
    encode(data_len as i32, buf);
    push_all(buf, deflated);
    assert(buf@ =~= start + (varint_bytes(packet_len as i32)
        + varint_bytes(data_len as i32) + deflated@));
    Ok(())
}

/// Appends the frame of `body`, for a connection that compresses bodies longer
/// than `threshold`, to `buf`. `scratch` is used for the deflated body. Leaves
/// `buf` as it was where no frame can be written.
pub fn encode_packet_compressed(
    buf: &mut Vec<u8>,
    body: &[u8],
    threshold: u32,
    scratch: &mut Vec<u8>,
) -> (r: Result<(), CodecError>)
    ensures
        match frame(body@, Some(threshold)) {
            Ok(f) => r is Ok && final(buf)@ == old(buf)@ + f,
            Err(e) => r == Err::<(), CodecError>(e) && final(buf)@ == old(buf)@,
        },
{
    if body.len() > threshold as usize {
        if deflate(body, COMPRESSION_LEVEL, scratch) {
            write_deflated_frame(buf, body.len(), scratch.as_slice())
        } else {
            Err(CodecError::Compress)
        }
    } else {
        write_stored_frame(buf, body)
    }
}

/// What an encoder is, as plain values.
pub struct EncoderState {
    /// The bytes of the frames that were written and not yet taken.
    pub pending: Seq<u8>,
    /// Bodies longer than this are deflated; `None` where compression is off.
    pub threshold: Option<u32>,
    /// The cipher that taken bytes run through, once encryption is on.
    pub cipher: Option<CipherState>,
}

/// The sending half of the framer.
pub struct PacketEncoder {
    /// Frames that were written and not yet taken.
    pub buf: Vec<u8>,
    /// Scratch space for deflated bodies.
    pub compress_buf: Vec<u8>,
    /// Bodies longer than this are deflated; `None` where compression is off.
    pub compression_threshold: Option<u32>,
    /// The cipher that taken bytes run through, once encryption is on.
    pub cipher: Option<Cipher>,
}

impl View for PacketEncoder {
    type V = EncoderState;

    open spec fn view(&self) -> EncoderState {
        EncoderState {
            pending: self.buf@,
            threshold: self.compression_threshold,
            cipher: cipher_state(self.cipher),
        }
    }
}

/// The encoder `before` with the frame of `body` behind what is pending, or
/// `before` itself where no frame can be written.
pub open spec fn appended(before: EncoderState, body: Seq<u8>) -> EncoderState {
    match frame(body, before.threshold) {
        Ok(f) => EncoderState { pending: before.pending + f, ..before },
        Err(_) => before,
    }
}

/// The encoder `before` with the frame of `body` in front of what is pending,
/// or `before` itself where no frame can be written.
pub open spec fn prepended(before: EncoderState, body: Seq<u8>) -> EncoderState {
    match frame(body, before.threshold) {
        Ok(f) => EncoderState { pending: f + before.pending, ..before },
        Err(_) => before,
    }
}

/// The bytes that leave the encoder `before` when all that is pending is taken.
pub open spec fn taken_bytes(before: EncoderState) -> Seq<u8> {
    sealed(before.cipher, before.pending)
}

/// The encoder `before` after all that is pending was taken.
pub open spec fn emptied(before: EncoderState) -> EncoderState {
    EncoderState {
        pending: Seq::empty(),
        threshold: before.threshold,
        cipher: moved(before.cipher, taken_bytes(before)),
    }
}

impl PacketEncoder {
    /// An encoder with nothing pending, without compression or encryption.
    pub fn new() -> (enc: PacketEncoder)
        ensures
            enc@ == (EncoderState { pending: Seq::empty(), threshold: None, cipher: None }),
    {
        PacketEncoder {
            buf: Vec::new(),
            compress_buf: Vec::new(),
            compression_threshold: None,
            cipher: None,
        }
    }

    /// Appends `bytes` to the pending bytes as they are.
    pub fn append_bytes(&mut self, bytes: &[u8])
        ensures
            final(self)@ == (EncoderState { pending: old(self)@.pending + bytes@, ..old(self)@ }),
    {
        push_all(&mut self.buf, bytes);
    }

    /// Appends the frame of `body` to the pending bytes. Nothing changes where
    /// no frame can be written.
    pub fn append_packet(&mut self, body: &[u8]) -> (r: Result<(), CodecError>)
        ensures
            final(self)@ == appended(old(self)@, body@),
            match frame(body@, old(self)@.threshold) {
                Ok(_) => r is Ok,
                Err(e) => r == Err::<(), CodecError>(e),
            },
    {
        match self.compression_threshold {
            Some(threshold) => encode_packet_compressed(
                &mut self.buf,
                body,
                threshold,
                &mut self.compress_buf,
            ),
            None => encode_packet(&mut self.buf, body),
        }
    }

    /// Puts the frame of `body` in front of the pending bytes. Nothing changes
    /// where no frame can be written.
    pub fn prepend_packet(&mut self, body: &[u8]) -> (r: Result<(), CodecError>)
        ensures
            final(self)@ == prepended(old(self)@, body@),
            match frame(body@, old(self)@.threshold) {
                Ok(_) => r is Ok,
                Err(e) => r == Err::<(), CodecError>(e),
            },
    {
        let start_len = self.buf.len();
        match self.append_packet(body) {
            Err(e) => Err(e),
            Ok(()) => {
                let ghost whole = self.buf@;
                let mut rotated = self.buf.split_off(start_len);
                push_all(&mut rotated, self.buf.as_slice());
                assert(rotated@ =~= whole.subrange(start_len as int, whole.len() as int)
                    + old(self).buf@);
                assert(whole.subrange(start_len as int, whole.len() as int) =~= frame(
                    body@,
                    old(self).compression_threshold,
                )->Ok_0);
                self.buf = rotated;
                Ok(())
            },
        }
    }

    /// Hands out the pending bytes, encrypted where encryption is on, and leaves
    /// nothing pending.
    pub fn take(&mut self) -> (bytes: Vec<u8>)
        ensures
            bytes@ == taken_bytes(old(self)@),
            final(self)@ == emptied(old(self)@),
    {
        match self.cipher {
            None => {
                let bytes = self.buf.split_off(0);
                assert(self.buf@ =~= Seq::<u8>::empty());
                assert(bytes@ =~= old(self).buf@);
                bytes
            },
            Some(cipher) => {
                let mut cipher = cipher;
                let mut bytes: Vec<u8> = Vec::new();
                cipher.encrypt_into(self.buf.as_slice(), &mut bytes);
                self.buf.clear();
                self.cipher = Some(cipher);
                assert(bytes@ =~= taken_bytes(old(self)@));
                bytes
            },
        }
    }

    /// Drops the pending bytes.
    pub fn clear(&mut self)
        ensures
            final(self)@ == (EncoderState { pending: Seq::empty(), ..old(self)@ }),
    {
        self.buf.clear();
    }

    /// Sets the compression threshold; `None` turns compression off.
    pub fn set_compression(&mut self, threshold: Option<u32>)
        ensures
            final(self)@ == (EncoderState { threshold, ..old(self)@ }),
    {
        self.compression_threshold = threshold;
    }

    /// Turns encryption on: the bytes taken from now on, those already pending
    /// among them, run through a cipher keyed with `key`.
    pub fn enable_encryption(&mut self, key: &[u8; 16])
        requires
            old(self)@.cipher is None,
        ensures
            final(self)@ == (EncoderState { cipher: keyed(key@), ..old(self)@ }),
    {
        self.cipher = Some(Cipher::new(key));
    }
}

/// The bodies that a vector of byte vectors holds.
pub open spec fn bodies_of(frames: Seq<Vec<u8>>) -> Seq<Seq<u8>> {
    Seq::new(frames.len(), |i: int| frames[i]@)
}

/// What a decoder is, as plain values.
pub struct DecoderState {
    /// The bytes that are queued: received, and not yet delivered as a frame.
    pub queued: Seq<u8>,
    /// Whether the content of frames is read as that of a compressing
    /// connection.
    pub compression: bool,
    /// The cipher that received bytes run through, once encryption is on.
    pub cipher: Option<CipherState>,
}

/// The receiving half of the framer.
pub struct PacketDecoder {
    buf: Vec<u8>,
    cursor: usize,
    decompress_buf: Vec<u8>,
    compression_enabled: bool,
    cipher: Option<Cipher>,
}

impl View for PacketDecoder {
    type V = DecoderState;

    closed spec fn view(&self) -> DecoderState {
        DecoderState {
            queued: self.buf@.skip(self.cursor as int),
            compression: self.compression_enabled,
            cipher: cipher_state(self.cipher),
        }
    }
}

/// Whether `r` is the body `body`.
pub open spec fn is_body(r: Result<Option<Vec<u8>>, CodecError>, body: Seq<u8>) -> bool {
    r matches Ok(Some(v)) && v@ == body
}

/// Whether `r`, where it is a body, has at most `limit` bytes.
pub open spec fn no_longer_than(r: Result<Option<Vec<u8>>, CodecError>, limit: int) -> bool {
    r matches Ok(Some(v)) ==> v@.len() <= limit
}

/// The decoder `before` with the first `taken` queued bytes delivered.
pub open spec fn advanced(before: DecoderState, taken: nat) -> DecoderState {
    DecoderState { queued: before.queued.skip(taken as int), ..before }
}

/// The decoder `before` after `bytes` arrived.
pub open spec fn received(before: DecoderState, bytes: Seq<u8>) -> DecoderState {
    DecoderState {
        queued: before.queued + opened(before.cipher, bytes),
        compression: before.compression,
        cipher: moved(before.cipher, bytes),
    }
}

/// What the next frame of a decoder is read as.
pub open spec fn next_parsed(dec: DecoderState) -> Result<Option<(Seq<u8>, nat)>, CodecError> {
    parsed(dec.queued, dec.compression)
}

/// The number of bytes that the next frame of a decoder takes, where it is all
/// there and can be read; zero otherwise.
pub open spec fn taken_by_next(dec: DecoderState) -> nat {
    match next_parsed(dec) {
        Ok(Some((_, taken))) => taken,
        _ => 0,
    }
}

/// The decoder `before` after the next frame was asked for: the frame is
/// delivered where it was all there and could be read, and nothing changes
/// otherwise.
pub open spec fn after_next(before: DecoderState) -> DecoderState {
    match next_parsed(before) {
        Ok(Some((_, taken))) => advanced(before, taken),
        _ => before,
    }
}

impl PacketDecoder {
    /// All the bytes that the decoder holds: those of frames that it has
    /// delivered and not yet dropped, then those that are queued.
    pub closed spec fn buffered(&self) -> Seq<u8> {
        self.buf@
    }

    /// How many of the bytes that the decoder holds belong to delivered frames.
    pub closed spec fn delivered(&self) -> nat {
        self.cursor as nat
    }

    /// What holds of every decoder: the delivered bytes are among those held,
    /// and the queued bytes are the others.
    pub closed spec fn wf(&self) -> bool {
        self.cursor <= self.buf@.len()
    }

    /// The queued bytes are the held bytes behind the delivered ones.
    pub proof fn lemma_queued(&self)
        requires
            self.wf(),
        ensures
            self.delivered() <= self.buffered().len(),
            self@.queued == self.buffered().skip(self.delivered() as int),
    {
    }

    /// A decoder that holds nothing, without compression or encryption.
    pub fn new() -> (dec: PacketDecoder)
        ensures
            dec.wf(),
            dec@ == (DecoderState { queued: Seq::empty(), compression: false, cipher: None }),
            dec.buffered() == Seq::<u8>::empty(),
    {
        let dec = PacketDecoder {
            buf: Vec::new(),
            cursor: 0,
            decompress_buf: Vec::new(),
            compression_enabled: false,
            cipher: None,
        };
        assert(dec@.queued =~= Seq::<u8>::empty());
        dec
    }

    /// Takes the next frame out of the queued bytes, if it is all there, and
    /// gives its body. The bytes of frames delivered before are dropped; those
    /// of the frame that is given are held until the next call.
    ///
    /// No body is longer than `MAX_PACKET_SIZE`, and a body that was carried
    /// deflated is no longer than its frame declares, whatever the deflated
    /// bytes would expand to. Where the queued bytes begin with the frame that
    /// an encoder with the same setting writes for a body, that body is given.
    pub fn try_next_packet(&mut self) -> (r: Result<Option<Vec<u8>>, CodecError>)
        requires
            old(self).wf(),
        ensures
            final(self).wf(),
            final(self)@ == after_next(old(self)@),
            final(self).buffered() == old(self)@.queued,
            final(self).delivered() == taken_by_next(old(self)@),
            match next_parsed(old(self)@) {
                Ok(Some((body, _))) => r matches Ok(Some(v)) && v@ == body,
                Ok(None) => r matches Ok(None),
                Err(e) => r == Err::<Option<Vec<u8>>, CodecError>(e),
            },
            r matches Ok(Some(v)) ==> v@.len() <= MAX_PACKET_SIZE,
            old(self)@.compression ==> (deflated_part(old(self)@.queued) matches Some(
                (_, declared),
            ) ==> no_longer_than(r, declared)),
            forall|body: Seq<u8>, threshold: Option<u32>|
                #[trigger] begins_with_frame(old(self)@.queued, body, threshold) && readable(
                    body,
                    threshold,
                ) && (threshold is Some) == old(self)@.compression ==> is_body(r, body),
    {
        let r = self.take_frame();
        proof {
            let stream = old(self)@.queued;
            let compression = old(self)@.compression;
            assert forall|body: Seq<u8>, threshold: Option<u32>|
                #[trigger] begins_with_frame(stream, body, threshold) && readable(body, threshold)
                    && (threshold is Some) == compression implies is_body(r, body) by {
                lemma_reads_back(stream, compression, body, threshold);
            }
        }
        r
    }

    /// Takes the next frame out of the queued bytes, if it is all there, and
    /// gives its body. Where a deflated body was inflated, the decompressor has
    /// shown that it gives back what the compressor was given.
    fn take_frame(&mut self) -> (r: Result<Option<Vec<u8>>, CodecError>)
        requires
            old(self).wf(),
        ensures
            final(self).wf(),
            final(self)@ == after_next(old(self)@),
            final(self).buffered() == old(self)@.queued,
            final(self).delivered() == taken_by_next(old(self)@),
            match next_parsed(old(self)@) {
                Ok(Some((body, _))) => r matches Ok(Some(v)) && v@ == body,
                Ok(None) => r matches Ok(None),
                Err(e) => r == Err::<Option<Vec<u8>>, CodecError>(e),
            },
            r matches Ok(Some(v)) ==> v@.len() <= MAX_PACKET_SIZE,
            old(self)@.compression ==> (deflated_part(old(self)@.queued) matches Some(
                (deflated, declared),
            ) ==> inflates_back(deflated, declared) && no_longer_than(r, declared)),
    {
        let reclaimed = self.cursor;
        self.cursor = 0;
        let rest = self.buf.split_off(reclaimed);
        self.buf = rest;
        assert(self.buf@ =~= old(self)@.queued);
        assert(self.buf@.skip(0) =~= self.buf@);
        let (len, taken) = match decode_partial(self.buf.as_slice()) {
            Ok(found) => found,
            Err(VarIntDecodeError::Incomplete) => {
                return Ok(None);
            },
            Err(VarIntDecodeError::TooLarge) => {
                return Err(CodecError::MalformedLength);
            },
        };
        if len < 0 || len > MAX_PACKET_SIZE {
            return Err(CodecError::LengthOutOfBounds);
        }
        let len = len as usize;
        if self.buf.len() - taken < len {
            return Ok(None);
        }
        let content = slice_subrange(self.buf.as_slice(), taken, taken + len);
        let body = if self.compression_enabled {
            let (data_len, data_len_size) = match decode_partial(content) {
                Ok(found) => found,
                Err(_) => {
                    return Err(CodecError::MalformedDataLength);
                },
            };
            if data_len < 0 || data_len >= MAX_PACKET_SIZE {
                return Err(CodecError::DataLengthOutOfBounds);
            }
            let raw = slice_subrange(content, data_len_size, content.len());
            assert(raw@ =~= content@.skip(data_len_size as int));
            if data_len == 0 {
                slice_to_vec(raw)
            } else {
                if !inflate(raw, data_len as u64, &mut self.decompress_buf) {
                    return Err(CodecError::Decompress);
                }
                slice_to_vec(self.decompress_buf.as_slice())
            }
        } else {
            slice_to_vec(content)
        };
        self.cursor = taken + len;
        Ok(Some(body))
    }

    /// Takes every whole frame out of the queued bytes and gives their bodies in
    /// order. For a decoder without compression or encryption.
    pub fn collect_into_vec(&mut self) -> (r: Result<Vec<Vec<u8>>, CodecError>)
        requires
            old(self).wf(),
            old(self)@.cipher is None,
            !old(self)@.compression,
        ensures
            final(self).wf(),
            final(self)@ == advanced(old(self)@, collected(old(self)@.queued, false).1),
            final(self).buffered() == old(self)@.queued,
            final(self).delivered() == collected(old(self)@.queued, false).1,
            match collected(old(self)@.queued, false).0 {
                Ok(bodies) => r matches Ok(v) && bodies_of(v@) == bodies,
                Err(e) => r == Err::<Vec<Vec<u8>>, CodecError>(e),
            },
    {
        let reclaimed = self.cursor;
        self.cursor = 0;
        let rest = self.buf.split_off(reclaimed);
        self.buf = rest;
        let ghost stream = self.buf@;
        assert(stream =~= old(self)@.queued);
        assert(stream.skip(0) =~= stream);
        let mut res: Vec<Vec<u8>> = Vec::new();
        assert(bodies_of(res@) =~= Seq::<Seq<u8>>::empty());
        loop
            invariant
                stream == old(self)@.queued,
                self.buf@ == stream,
                self.cursor <= stream.len(),
                !self.compression_enabled,
                self.cipher == old(self).cipher,
                self.compression_enabled == old(self).compression_enabled,
                collected(stream, false) == joined(
                    bodies_of(res@),
                    self.cursor as nat,
                    collected(stream.skip(self.cursor as int), false),
                ),
            decreases stream.len() - self.cursor,
        {
            let ghost at = self.cursor as int;
            let ghost ahead = stream.skip(at);
            let ghost before = bodies_of(res@);
            proof {
                lemma_decoded_bounds(ahead);
            }
            let queued = slice_subrange(self.buf.as_slice(), self.cursor, self.buf.len());
            assert(queued@ =~= ahead);
            let (len, taken) = match decode_partial(queued) {
                Ok(found) => found,
                Err(VarIntDecodeError::Incomplete) => {
                    proof {
                        lemma_joined_end(before, at as nat, ahead);
                    }
                    return Ok(res);
                },
                Err(VarIntDecodeError::TooLarge) => {
                    return Err(CodecError::MalformedLength);
                },
            };
            if len < 0 || len > MAX_PACKET_SIZE {
                return Err(CodecError::LengthOutOfBounds);
            }
            let len = len as usize;
            if queued.len() - taken < len {
                proof {
                    lemma_joined_end(before, at as nat, ahead);
                }
                return Ok(res);
            }
            let body = slice_to_vec(slice_subrange(queued, taken, taken + len));
            self.cursor = self.cursor + (taken + len);
            res.push(body);
            proof {
                let step = (taken + len) as int;
                assert(ahead.skip(step) =~= stream.skip(at + step));
                assert(bodies_of(res@) =~= before.push(body@));
                lemma_joined_step(before, at as nat, ahead);
            }
        }
    }

    /// Whether a whole frame is queued. Nothing is taken.
    pub fn has_next_packet(&self) -> (r: Result<bool, CodecError>)
        requires
            self.wf(),
        ensures
            r == has_frame(self@.queued),
    {
        let queued = slice_subrange(self.buf.as_slice(), self.cursor, self.buf.len());
        assert(queued@ =~= self@.queued);
        match decode_partial(queued) {
            Ok((len, taken)) => {
                if len < 0 || len > MAX_PACKET_SIZE {
                    Err(CodecError::LengthOutOfBounds)
                } else {
                    Ok(queued.len() - taken >= len as usize)
                }
            },
            Err(VarIntDecodeError::Incomplete) => Ok(false),
            Err(VarIntDecodeError::TooLarge) => Err(CodecError::MalformedLength),
        }
    }

    /// Says whether the content of frames is that of a compressing connection.
    pub fn set_compression(&mut self, enabled: bool)
        requires
            old(self).wf(),
        ensures
            final(self).wf(),
            final(self)@ == (DecoderState { compression: enabled, ..old(self)@ }),
            final(self).buffered() == old(self).buffered(),
            final(self).delivered() == old(self).delivered(),
    {
        self.compression_enabled = enabled;
    }

    /// Turns encryption on: the queued bytes are decrypted where they lie, and
    /// so is every byte queued from now on, with a cipher keyed with `key`.
    pub fn enable_encryption(&mut self, key: &[u8; 16])
        requires
            old(self).wf(),
            old(self)@.cipher is None,
        ensures
            final(self).wf(),
            final(self)@ == (DecoderState {
                queued: opened(keyed(key@), old(self)@.queued),
                compression: old(self)@.compression,
                cipher: moved(keyed(key@), old(self)@.queued),
            }),
            final(self).delivered() == old(self).delivered(),
            final(self).buffered() == old(self).buffered().take(old(self).delivered() as int)
                + opened(keyed(key@), old(self)@.queued),
    {
        let mut cipher = Cipher::new(key);
        let tail = self.buf.split_off(self.cursor);
        cipher.decrypt_into(tail.as_slice(), &mut self.buf);
        self.cipher = Some(cipher);
        proof {
            let head = old(self).buffered().take(old(self).delivered() as int);
            let plain = opened(keyed(key@), old(self)@.queued);
            assert(old(self).buf@.subrange(0, self.cursor as int) =~= head);
            assert(tail@ =~= old(self)@.queued);
            assert((head + plain).skip(self.cursor as int) =~= plain);
        }
    }

    /// Queues `bytes`, decrypted where encryption is on.
    pub fn queue_bytes(&mut self, bytes: Vec<u8>)
        requires
            old(self).wf(),
        ensures
            final(self).wf(),
            final(self)@ == received(old(self)@, bytes@),
            final(self).delivered() == old(self).delivered(),
            final(self).buffered() == old(self).buffered() + opened(old(self)@.cipher, bytes@),
    {
        self.queue_slice(bytes.as_slice());
    }

    /// Queues `bytes`, decrypted where encryption is on.
    pub fn queue_slice(&mut self, bytes: &[u8])
        requires
            old(self).wf(),
        ensures
            final(self).wf(),
            final(self)@ == received(old(self)@, bytes@),
            final(self).delivered() == old(self).delivered(),
            final(self).buffered() == old(self).buffered() + opened(old(self)@.cipher, bytes@),
    {
        match self.cipher {
            None => {
                push_all(&mut self.buf, bytes);
            },
            Some(cipher) => {
                let mut cipher = cipher;
                cipher.decrypt_into(bytes, &mut self.buf);
                self.cipher = Some(cipher);
            },
        }
        assert(self@.queued =~= old(self)@.queued + opened(old(self)@.cipher, bytes@));
    }

    /// All the bytes that the decoder holds.
    pub fn queued_bytes(&self) -> (bytes: &[u8])
        ensures
            bytes@ == self.buffered(),
    {
        self.buf.as_slice()
    }

    /// Hands out an empty buffer for the next read. The decoder keeps what it
    /// holds.
    pub fn take_capacity(&mut self) -> (spare: Vec<u8>)
        requires
            old(self).wf(),
        ensures
            final(self).wf(),
            spare@ == Seq::<u8>::empty(),
            final(self)@ == old(self)@,
            final(self).buffered() == old(self).buffered(),
            final(self).delivered() == old(self).delivered(),
    {
        let at = self.buf.len();
        let spare = self.buf.split_off(at);
        assert(self.buf@ =~= old(self).buf@);
        spare
    }

    /// Makes room for `additional` more bytes. The decoder keeps what it holds.
    pub fn reserve(&mut self, additional: usize)
        requires
            old(self).wf(),
        ensures
            final(self).wf(),
            final(self)@ == old(self)@,
            final(self).buffered() == old(self).buffered(),
            final(self).delivered() == old(self).delivered(),
    {
        self.buf.reserve(additional);
    }
}

/// A stream that begins with the frame of a body is read as that body, where
/// the decompressor gives back what the compressor was given.
proof fn lemma_reads_back(
    stream: Seq<u8>,
    compression: bool,
    body: Seq<u8>,
    threshold: Option<u32>,
)
    requires
        begins_with_frame(stream, body, threshold),
        readable(body, threshold),
        (threshold is Some) == compression,
        compression ==> (deflated_part(stream) matches Some((deflated, declared))
            ==> inflates_back(deflated, declared)),
    ensures
        parsed(stream, compression) matches Ok(Some((read, _))) && read == body,
{
    let f = frame(body, threshold)->Ok_0;
    let rest = stream.skip(f.len() as int);
    assert(stream =~= f + rest);
    lemma_frame_round_trip(body, threshold, rest);
    match threshold {
        Some(t) => {
            if body.len() > t {
                let deflated = zlib_deflated(body, COMPRESSION_LEVEL)->Some_0;
                lemma_parse_deflated_frame(body.len(), deflated, rest);
                assert(zlib_deflated(body, COMPRESSION_LEVEL) == Some(deflated));
            }
        },
        None => {},
    }
}

/// Delivery of a stream. Bodies are framed one behind another; the sender
/// takes the frames in pieces, cut anywhere, and seals each; what it has sent
/// arrives at the receiver in chunks, cut anywhere else, and the receiver opens
/// each chunk and takes every whole frame after it. Where the two ciphers begin
/// alike and a reader makes of each frame its body, the receiver reads the
/// bodies in their order, each once, and nothing is left over.
pub proof fn lemma_stream_delivery(
    cipher: Option<CipherState>,
    bodies: Seq<Seq<u8>>,
    threshold: Option<u32>,
    pieces: Seq<Seq<u8>>,
    chunks: Seq<Seq<u8>>,
)
    requires
        frames(bodies, threshold) == Some(all_of(pieces)),
        all_readable(bodies, threshold),
        all_of(chunks) == all_of(sealed_pieces(cipher, pieces)),
    ensures
        all_carried(bodies, threshold) ==> read_in_chunks(
            Seq::empty(),
            opened_pieces(cipher, chunks),
            threshold is Some,
        ) == (Ok::<Seq<Seq<u8>>, CodecError>(bodies), Seq::<u8>::empty()),
{
    let stream = all_of(pieces);
    let compression = threshold is Some;
    let arrived = opened_pieces(cipher, chunks);
    lemma_sealed_pieces(cipher, pieces);
    lemma_opened_pieces(cipher, chunks);
    lemma_opened_sealed(cipher, stream);
    assert(all_of(arrived) == stream);
    lemma_frames_collected(bodies, threshold);
    lemma_decoded_bounds(Seq::<u8>::empty());
    lemma_read_in_chunks(Seq::empty(), arrived, compression);
    assert(Seq::<u8>::empty() + stream =~= stream);
    assert(stream.skip(stream.len() as int) =~= Seq::<u8>::empty());
}

/// What arrives at a decoder in two pieces leaves it as the whole does.
pub proof fn lemma_received_chunks(before: DecoderState, first: Seq<u8>, second: Seq<u8>)
    ensures
        received(received(before, first), second) == received(before, first + second),
{
    lemma_opened_concat(before.cipher, first, second);
    assert(before.queued + opened(before.cipher, first) + opened(
        moved(before.cipher, first),
        second,
    ) =~= before.queued + (opened(before.cipher, first) + opened(
        moved(before.cipher, first),
        second,
    )));
}

proof fn lemma_joined_end(bodies: Seq<Seq<u8>>, taken: nat, ahead: Seq<u8>)
    requires
        parsed(ahead, false) matches Ok(None),
    ensures
        joined(bodies, taken, collected(ahead, false)) == (
            Ok::<Seq<Seq<u8>>, CodecError>(bodies),
            taken,
        ),
{
    assert(bodies + Seq::<Seq<u8>>::empty() =~= bodies);
}

proof fn lemma_joined_step(bodies: Seq<Seq<u8>>, taken: nat, ahead: Seq<u8>)
    requires
        parsed(ahead, false) matches Ok(Some(_)),
    ensures
        ({
            let (body, step) = parsed(ahead, false)->Ok_0->Some_0;
            joined(bodies, taken, collected(ahead, false)) == joined(
                bodies.push(body),
                taken + step,
                collected(ahead.skip(step as int), false),
            )
        }),
{
    let (body, step) = parsed(ahead, false)->Ok_0->Some_0;
    let (rest, more) = collected(ahead.skip(step as int), false);
    match rest {
        Ok(tail) => {
            assert(bodies + (seq![body] + tail) =~= bodies.push(body) + tail);
        },
        Err(_) => {},
    }
}

} // verus!
