//! Length-prefixed framing of messages over a byte stream: every message is
//! sent as its length (four bytes, big-endian) followed by its bytes.
use crate::external::{
    bytes_advance, bytes_contents, bytes_from_vec, bytes_len, bytes_mut_advance, bytes_mut_byte,
    bytes_mut_contents, bytes_mut_extend, bytes_mut_len, bytes_mut_split_to,
    bytes_mut_with_capacity, is_v4_uuid_text, new_random_id,
};
use bytes::{Bytes, BytesMut};
use std::collections::VecDeque;
use std::marker::PhantomData;
use vstd::prelude::*;

verus! {

/// The queue length from which a sender would be held back.
pub const WRITE_BUFFER_MAX_SIZE: u32 = 102400;

/// The capacity the read buffer starts with.
pub const READ_BUFFER_INITIAL_CAPACITY: usize = 4096;

/// The four big-endian bytes of `n`.
pub open spec fn be_bytes(n: u32) -> Seq<u8> {
    seq![
        (n / 0x1000000) as u8,
        ((n / 0x10000) % 0x100) as u8,
        ((n / 0x100) % 0x100) as u8,
        (n % 0x100) as u8,
    ]
}

/// The number that four big-endian bytes stand for.
pub open spec fn be_value(b0: u8, b1: u8, b2: u8, b3: u8) -> int {
    b0 * 0x1000000 + b1 * 0x10000 + b2 * 0x100 + b3
}

/// The length that the first four bytes of `buf` announce.
pub open spec fn announced_length(buf: Seq<u8>) -> int {
    be_value(buf[0], buf[1], buf[2], buf[3])
}

/// The prefix written before a message of `len` bytes: the length as a
/// 32-bit number (cut to its low 32 bits, as the length is cast to `u32`).
pub open spec fn length_prefix(len: nat) -> Seq<u8> {
    be_bytes(len as u32)
}

/// The bytes sent for one message.
pub open spec fn frame_bytes(payload: Seq<u8>) -> Seq<u8> {
    length_prefix(payload.len()) + payload
}

/// What the start of `buf` decodes to: the first complete message and the bytes
/// after it, or `None` while the prefix or the message is incomplete.
pub open spec fn decode_frame(buf: Seq<u8>) -> Option<(Seq<u8>, Seq<u8>)> {
    if buf.len() < 4 {
        None
    } else {
        let n: int = announced_length(buf);
        if buf.len() - 4 >= n {
            Some((buf.subrange(4, 4 + n), buf.skip(4 + n)))
        } else {
            None
        }
    }
}

/// The concatenation of `chunks`, in order.
pub open spec fn concat_chunks(chunks: Seq<Seq<u8>>) -> Seq<u8>
    decreases chunks.len(),
{
    if chunks.len() == 0 {
        Seq::empty()
    } else {
        concat_chunks(chunks.drop_last()) + chunks.last()
    }
}

/// What the next call for a frame found in the read buffer.
pub enum FrameStatus {
    /// A complete message, taken out of the buffer.
    Frame(BytesMut),
    /// The length is known but the message has not fully arrived.
    AwaitingBody,
    /// Fewer than four bytes are buffered: more must be read.
    NeedHeader,
}

/// The state of one duplex connection: its id, the chunks queued for sending,
/// and the bytes received but not yet decoded.
pub struct TCPDuplex<T> {
    pub uuid: String,
    write_buffer: VecDeque<Bytes>,
    read_buffer: BytesMut,
    _marker: PhantomData<T>,
}

impl<T> TCPDuplex<T> {
    /// The chunks queued for sending, in order.
    pub closed spec fn pending_chunks(&self) -> Seq<Seq<u8>> {
        self.write_buffer@.map_values(|b: Bytes| bytes_contents(b))
    }

    /// The connection's id.
    pub closed spec fn id_text(&self) -> Seq<char> {
        self.uuid@
    }

    /// The bytes received and not yet decoded.
    pub closed spec fn received(&self) -> Seq<u8> {
        bytes_mut_contents(self.read_buffer)
    }

    /// A connection with a fresh random id and empty buffers.
    pub fn new() -> (d: Self)
        ensures
            d.pending_chunks() == Seq::<Seq<u8>>::empty(),
            d.received() == Seq::<u8>::empty(),
            is_v4_uuid_text(d.id_text()),
    {
        let d = TCPDuplex {
            uuid: new_random_id(),
            write_buffer: VecDeque::new(),
            read_buffer: bytes_mut_with_capacity(READ_BUFFER_INITIAL_CAPACITY),
            _marker: PhantomData,
        };
        assert(d.pending_chunks() =~= Seq::<Seq<u8>>::empty());
        d
    }

    /// Queues an already serialized message: its length prefix, then its bytes,
    /// as two chunks at the end of the send queue.
    pub fn queue_message(&mut self, serialized: Vec<u8>)
        ensures
            final(self).pending_chunks() == old(self).pending_chunks().push(
                length_prefix(serialized@.len()),
            ).push(serialized@),
            final(self).received() == old(self).received(),
            final(self).id_text() == old(self).id_text(),
    {
        let length: u32 = serialized.len() as u32;
        let mut prefix: Vec<u8> = Vec::new();
        prefix.push((length / 0x1000000) as u8);
        prefix.push(((length / 0x10000) % 0x100) as u8);
        prefix.push(((length / 0x100) % 0x100) as u8);
        prefix.push((length % 0x100) as u8);
        assert(prefix@ =~= length_prefix(serialized@.len()));
        self.write_buffer.push_back(bytes_from_vec(prefix));
        self.write_buffer.push_back(bytes_from_vec(serialized));
        assert(self.pending_chunks() =~= old(self).pending_chunks().push(
            length_prefix(serialized@.len()),
        ).push(serialized@));
    }

    /// The number of chunks waiting to be sent.
    pub fn pending_chunk_count(&self) -> (n: usize)
        ensures
            n == self.pending_chunks().len(),
    {
        self.write_buffer.len()
    }

    /// Takes the first queued chunk, if any.
    pub fn pop_front_chunk(&mut self) -> (c: Option<Bytes>)
        ensures
            old(self).pending_chunks().len() == 0 ==> c is None && final(self).pending_chunks()
                == old(self).pending_chunks(),
            old(self).pending_chunks().len() > 0 ==> (c matches Some(b) && bytes_contents(b)
                == old(self).pending_chunks()[0] && final(self).pending_chunks()
                == old(self).pending_chunks().drop_first()),
            final(self).received() == old(self).received(),
            final(self).id_text() == old(self).id_text(),
    {
        let c = self.write_buffer.pop_front();
        assert(self.pending_chunks() =~= if old(self).pending_chunks().len() == 0 {
            old(self).pending_chunks()
        } else {
            old(self).pending_chunks().drop_first()
        });
        c
    }

    /// Puts a chunk back at the front of the queue (one that could not be sent yet).
    pub fn push_front_chunk(&mut self, chunk: Bytes)
        ensures
            final(self).pending_chunks() == seq![bytes_contents(chunk)] + old(self).pending_chunks(),
            final(self).received() == old(self).received(),
            final(self).id_text() == old(self).id_text(),
    {
        self.write_buffer.push_front(chunk);
        assert(self.pending_chunks() =~= seq![bytes_contents(chunk)] + old(self).pending_chunks());
    }

    /// The number of bytes received and not yet decoded.
    pub fn received_len(&self) -> (n: usize)
        ensures
            n == self.received().len(),
    {
        bytes_mut_len(&self.read_buffer)
    }

    /// Takes in what one read from the stream gave: no bytes means the stream
    /// has ended; otherwise the bytes are appended to the read buffer, unless
    /// the buffer would outgrow what memory can hold.
    pub fn on_read(&mut self, data: &[u8]) -> (a: ReadAction)
        ensures
            final(self).pending_chunks() == old(self).pending_chunks(),
            final(self).id_text() == old(self).id_text(),
            data@.len() == 0 ==> a is EndOfStream && final(self).received() == old(self).received(),
            data@.len() > 0 && old(self).received().len() + data@.len() <= isize::MAX ==> a is Buffered
                && final(self).received() == old(self).received() + data@,
            data@.len() > 0 && old(self).received().len() + data@.len() > isize::MAX ==> a is Overflow
                && final(self).received() == old(self).received(),
    {
        if data.len() == 0 {
            return ReadAction::EndOfStream;
        }
        let held: usize = bytes_mut_len(&self.read_buffer);
        if held > isize::MAX as usize || data.len() > isize::MAX as usize - held {
            return ReadAction::Overflow;
        }
        bytes_mut_extend(&mut self.read_buffer, data);
        ReadAction::Buffered
    }

    /// Takes the next complete message out of the read buffer, or says what is
    /// missing: the length prefix, or the rest of the message.
    pub fn next_frame(&mut self) -> (s: FrameStatus)
        ensures
            final(self).pending_chunks() == old(self).pending_chunks(),
            final(self).id_text() == old(self).id_text(),
            old(self).received().len() < 4 ==> s is NeedHeader && final(self).received() == old(self).received(),
            old(self).received().len() >= 4 && decode_frame(old(self).received()) is None ==> s is AwaitingBody
                && final(self).received() == old(self).received(),
            decode_frame(old(self).received()) matches Some((payload, rest)) ==> (s matches FrameStatus::Frame(
                b,
            ) && bytes_mut_contents(b) == payload && final(self).received() == rest),
    {
        let available: usize = bytes_mut_len(&self.read_buffer);
        if available < 4 {
            return FrameStatus::NeedHeader;
        }
        let b0: u8 = bytes_mut_byte(&self.read_buffer, 0);
        let b1: u8 = bytes_mut_byte(&self.read_buffer, 1);
        let b2: u8 = bytes_mut_byte(&self.read_buffer, 2);
        let b3: u8 = bytes_mut_byte(&self.read_buffer, 3);
        let length: usize = (b0 as usize) * 0x1000000 + (b1 as usize) * 0x10000 + (b2 as usize)
            * 0x100 + (b3 as usize);
        if available - 4 >= length {
            let ghost buf = self.received();
            bytes_mut_advance(&mut self.read_buffer, 4);
            let data = bytes_mut_split_to(&mut self.read_buffer, length);
            assert(buf.skip(4).take(length as int) =~= buf.subrange(4, 4 + length));
            assert(buf.skip(4).skip(length as int) =~= buf.skip(4 + length));
            FrameStatus::Frame(data)
        } else {
            FrameStatus::AwaitingBody
        }
    }
}

/// What a read from the stream came to, for the framing state.
pub enum ReadAction {
    /// The stream has ended.
    EndOfStream,
    /// The bytes were buffered: look for a frame again.
    Buffered,
    /// The read buffer would outgrow what memory can hold.
    Overflow,
}

/// What a write of a chunk to the stream came to.
pub enum WriteOutcome {
    /// The stream took this many of the chunk's first bytes.
    Written(usize),
    /// The write failed.
    Failed,
    /// The stream cannot take bytes now.
    WouldBlock,
}

/// What the flush does next after a chunk's write.
pub enum FlushStep {
    /// Go on writing: the next chunk, or what is left of this one.
    Continue,
    /// Stop and report the write error.
    Abort,
    /// Stop: the stream took no byte of a non-empty chunk.
    WriteZero,
    /// Stop and wait until the stream can take bytes again.
    Wait,
}

/// The queue after `n` bytes of the chunk `c`, taken from the front of
/// `rest`'s queue, were written: what is left of `c` goes back to the front.
pub open spec fn pending_after_write(c: Seq<u8>, rest: Seq<Seq<u8>>, n: int) -> Seq<Seq<u8>> {
    if n == c.len() {
        rest
    } else {
        seq![c.skip(n)] + rest
    }
}

impl<T> TCPDuplex<T> {
    /// Settles a chunk taken from the front of the queue after writing it. A
    /// fully written chunk is done; of a partly written one the unwritten rest
    /// goes back to the front; a chunk the stream did not take (it failed, could
    /// not take bytes now, or took none) goes back whole. The flush goes on only
    /// after bytes were written.
    pub fn settle_chunk_write(&mut self, chunk: Bytes, outcome: WriteOutcome) -> (step: FlushStep)
        requires
            outcome matches WriteOutcome::Written(n) ==> n <= bytes_contents(chunk).len(),
        ensures
            final(self).received() == old(self).received(),
            final(self).id_text() == old(self).id_text(),
            outcome matches WriteOutcome::Written(n) ==> {
                &&& (n > 0 || bytes_contents(chunk).len() == 0) ==> step is Continue && final(self).pending_chunks() == pending_after_write(
                    bytes_contents(chunk),
                    old(self).pending_chunks(),
                    n as int,
                )
                &&& (n == 0 && bytes_contents(chunk).len() > 0) ==> step is WriteZero && final(self).pending_chunks() == seq![bytes_contents(chunk)] + old(self).pending_chunks()
            },
            outcome is Failed ==> step is Abort && final(self).pending_chunks() == seq![
                bytes_contents(chunk),
            ] + old(self).pending_chunks(),
            outcome is WouldBlock ==> step is Wait && final(self).pending_chunks() == seq![
                bytes_contents(chunk),
            ] + old(self).pending_chunks(),
    {
        let len: usize = bytes_len(&chunk);
        match outcome {
            WriteOutcome::Written(n) => {
                if n == len {
                    FlushStep::Continue
                } else if n == 0 {
                    self.push_front_chunk(chunk);
                    FlushStep::WriteZero
                } else {
                    let mut rest = chunk;
                    bytes_advance(&mut rest, n);
                    self.push_front_chunk(rest);
                    FlushStep::Continue
                }
            },
            WriteOutcome::Failed => {
                self.push_front_chunk(chunk);
                FlushStep::Abort
            },
            WriteOutcome::WouldBlock => {
                self.push_front_chunk(chunk);
                FlushStep::Wait
            },
        }
    }
}

/// The bytes of a queue with one more chunk at its front.
pub proof fn lemma_concat_front(c: Seq<u8>, rest: Seq<Seq<u8>>)
    ensures
        concat_chunks(seq![c] + rest) == c + concat_chunks(rest),
    decreases rest.len(),
{
    let q = seq![c] + rest;
    if rest.len() == 0 {
        assert(q.drop_last() =~= Seq::<Seq<u8>>::empty());
        assert(q.last() == c);
        assert(concat_chunks(q) == concat_chunks(q.drop_last()) + q.last());
        assert(concat_chunks(q) =~= c + concat_chunks(rest));
    } else {
        assert(q.drop_last() =~= seq![c] + rest.drop_last());
        lemma_concat_front(c, rest.drop_last());
        assert(q.last() == rest.last());
        assert(concat_chunks(q) == concat_chunks(q.drop_last()) + q.last());
        assert(concat_chunks(rest) == concat_chunks(rest.drop_last()) + rest.last());
        assert(concat_chunks(q) =~= c + concat_chunks(rest));
    }
}

/// A write loses and repeats no byte: the bytes written from a chunk, followed
/// by everything still queued after settling it, are exactly the chunk
/// followed by what was queued behind it.
pub proof fn law_write_keeps_bytes(c: Seq<u8>, rest: Seq<Seq<u8>>, n: int)
    requires
        0 <= n <= c.len(),
    ensures
        c.take(n) + concat_chunks(pending_after_write(c, rest, n)) == c + concat_chunks(rest),
{
    if n == c.len() {
        assert(c.take(n) =~= c);
    } else {
        lemma_concat_front(c.skip(n), rest);
        assert(c.take(n) + c.skip(n) =~= c);
        assert(c.take(n) + (c.skip(n) + concat_chunks(rest)) =~= c + concat_chunks(rest));
    }
}

/// The big-endian bytes of a number stand for that number.
pub proof fn lemma_be_roundtrip(n: u32)
    ensures
        be_value(be_bytes(n)[0], be_bytes(n)[1], be_bytes(n)[2], be_bytes(n)[3]) == n,
{
    let b = be_bytes(n);
    assert(b[0] == n / 0x1000000);
    assert(b[1] == (n / 0x10000) % 0x100);
    assert(b[2] == (n / 0x100) % 0x100);
    assert(b[3] == n % 0x100);
    assert(be_value(b[0], b[1], b[2], b[3]) == n) by (nonlinear_arith)
        requires
            b[0] == n / 0x1000000,
            b[1] == (n / 0x10000) % 0x100,
            b[2] == (n / 0x100) % 0x100,
            b[3] == n % 0x100,
            n <= 0xffff_ffff,
    ;
}

/// A message that fits the 32-bit length prefix, followed by any bytes, decodes
/// back to that message, and the bytes after it are left for the next one.
pub proof fn law_frame_roundtrip(payload: Seq<u8>, rest: Seq<u8>)
    requires
        payload.len() <= u32::MAX,
    ensures
        decode_frame(frame_bytes(payload) + rest) == Some((payload, rest)),
{
    let buf = frame_bytes(payload) + rest;
    let n: nat = payload.len();
    lemma_be_roundtrip(n as u32);
    assert(buf[0] == be_bytes(n as u32)[0]);
    assert(buf[1] == be_bytes(n as u32)[1]);
    assert(buf[2] == be_bytes(n as u32)[2]);
    assert(buf[3] == be_bytes(n as u32)[3]);
    assert(announced_length(buf) == n);
    assert(buf.subrange(4, 4 + n as int) =~= payload);
    assert(buf.skip(4 + n as int) =~= rest);
}

/// Until all of a message's bytes have arrived, nothing is decoded from them.
pub proof fn law_partial_frame_waits(payload: Seq<u8>, k: int)
    requires
        payload.len() <= u32::MAX,
        0 <= k < frame_bytes(payload).len(),
    ensures
        decode_frame(frame_bytes(payload).take(k)) is None,
{
    let full = frame_bytes(payload);
    let buf = full.take(k);
    if k >= 4 {
        lemma_be_roundtrip(payload.len() as u32);
        assert(buf[0] == full[0]);
        assert(buf[1] == full[1]);
        assert(buf[2] == full[2]);
        assert(buf[3] == full[3]);
        assert(announced_length(buf) == payload.len());
    }
}

/// Queueing a message adds exactly its frame to the bytes waiting to be sent.
pub proof fn law_queued_bytes(chunks: Seq<Seq<u8>>, serialized: Seq<u8>)
    ensures
        concat_chunks(chunks.push(length_prefix(serialized.len())).push(serialized)) == concat_chunks(
            chunks,
        ) + frame_bytes(serialized),
{
    let c1 = chunks.push(length_prefix(serialized.len()));
    let c2 = c1.push(serialized);
    assert(c2.drop_last() =~= c1);
    assert(c1.drop_last() =~= chunks);
    assert(concat_chunks(c2) == concat_chunks(c1) + serialized);
    assert(concat_chunks(c1) == concat_chunks(chunks) + length_prefix(serialized.len()));
    assert(concat_chunks(c2) =~= concat_chunks(chunks) + frame_bytes(serialized));
}

/// The prefix of a message is four bytes whose big-endian value is the
/// message's length (its low 32 bits; the length itself when it fits).
pub proof fn law_length_prefix_is_big_endian(len: nat)
    ensures
        length_prefix(len).len() == 4,
        length_prefix(len)[0] * 0x1000000 + length_prefix(len)[1] * 0x10000 + length_prefix(len)[2]
            * 0x100 + length_prefix(len)[3] == (len as u32) as int,
        len <= u32::MAX ==> length_prefix(len)[0] * 0x1000000 + length_prefix(len)[1] * 0x10000
            + length_prefix(len)[2] * 0x100 + length_prefix(len)[3] == len,
{
    let n: u32 = len as u32;
    let b = length_prefix(len);
    assert(b[0] == n / 0x1000000);
    assert(b[1] == (n / 0x10000) % 0x100);
    assert(b[2] == (n / 0x100) % 0x100);
    assert(b[3] == n % 0x100);
    assert(b[0] * 0x1000000 + b[1] * 0x10000 + b[2] * 0x100 + b[3] == n) by (nonlinear_arith)
        requires
            b[0] == n / 0x1000000,
            b[1] == (n / 0x10000) % 0x100,
            b[2] == (n / 0x100) % 0x100,
            b[3] == n % 0x100,
            n <= 0xffff_ffff,
    ;
}

/// The reader takes the big-endian value of the first four bytes as the
/// length, and decodes a message exactly when that many bytes follow them: the
/// message is those bytes, and what follows is kept for the next one.
pub proof fn law_reader_takes_big_endian_length(buf: Seq<u8>)
    requires
        buf.len() >= 4,
    ensures
        ({
            let n = buf[0] * 0x1000000 + buf[1] * 0x10000 + buf[2] * 0x100 + buf[3];
            &&& announced_length(buf) == n
            &&& (decode_frame(buf) is Some <==> buf.len() >= 4 + n)
            &&& buf.len() >= 4 + n ==> decode_frame(buf) == Some(
                (buf.subrange(4, 4 + n), buf.skip(4 + n)),
            )
        }),
{
}

} // verus!
