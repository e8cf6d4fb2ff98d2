//! Reading a stream a piece at a time: the bytes read so far wait in a
//! growable buffer until a whole header or action frame is there. The reader
//! decides what each step does; the caller does the reading.

use vstd::prelude::*;
use circular::Buffer;
use crate::serialization::{
    ActionFrame, ParseOutcome, StreamError, StreamHeader, StreamStep, FILE_VERSION, FRAME_PREFIX_LEN,
    MAX_BUFFER_SIZE, STARTING_BUFFER_SIZE, deserialize_stream, header_outcome, stream_step,
    step_for, frame_outcome, u32_le, frame_bytes, law_frame_round_trip, ACTION_VERSION, payloads_of,
    lemma_payloads_of_after_frame,
};

verus! {

#[verifier::external_type_specification]
#[verifier::external_body]
pub struct ExBuffer(Buffer);

/// The bytes that a `circular::Buffer` holds ready to be read, in order.
pub uninterp spec fn buffer_data(b: Buffer) -> Seq<u8>;

/// The size that a `circular::Buffer` was made with or grown to.
pub uninterp spec fn buffer_capacity(b: Buffer) -> usize;

/// The bytes of a `circular::Buffer`'s free space, the part of its memory
/// after the bytes ready, in order.
pub uninterp spec fn buffer_free(b: Buffer) -> Seq<u8>;

/// `Buffer::with_capacity` makes an empty buffer of the size asked for, all
/// of it free space filled with zeros.
pub assume_specification[ Buffer::with_capacity ](capacity: usize) -> (r: Buffer)
    ensures
        buffer_data(r) == Seq::<u8>::empty(),
        buffer_capacity(r) == capacity,
        buffer_free(r) == Seq::new(capacity as nat, |i: int| 0u8),
;

/// `Buffer::data` gives the bytes ready to be read.
pub assume_specification[ Buffer::data ](b: &Buffer) -> (r: &[u8])
    ensures
        r@ == buffer_data(*b),
;

/// `Buffer::capacity` gives the buffer's size.
pub assume_specification[ Buffer::capacity ](b: &Buffer) -> (r: usize)
    ensures
        r == buffer_capacity(*b),
;

/// `Buffer::consume` drops the first `count` bytes ready (all of them when
/// fewer are there) and says how many it dropped; shifting the rest to the
/// front of its memory changes neither the bytes nor the size.
pub assume_specification[ Buffer::consume ](b: &mut Buffer, count: usize) -> (r: usize)
    ensures
        r == (if count <= buffer_data(*old(b)).len() {
            count
        } else {
            buffer_data(*old(b)).len() as usize
        }),
        buffer_data(*final(b)) == buffer_data(*old(b)).skip(r as int),
        buffer_capacity(*final(b)) == buffer_capacity(*old(b)),
;

/// `Buffer::grow` enlarges the buffer to `new_size` when it is smaller, and
/// says whether it did; the bytes ready stay as they were.
pub assume_specification[ Buffer::grow ](b: &mut Buffer, new_size: usize) -> (r: bool)
    ensures
        r == (new_size > buffer_capacity(*old(b))),
        buffer_capacity(*final(b)) == (if r {
            new_size
        } else {
            buffer_capacity(*old(b))
        }),
        buffer_data(*final(b)) == buffer_data(*old(b)),
;

/// `Buffer::fill` makes ready the first `count` bytes of its free space (all
/// of it when it is shorter), after those already ready, and says how many.
/// Shifting the bytes ready to the front of its memory changes neither them
/// nor the size.
pub assume_specification[ Buffer::fill ](b: &mut Buffer, count: usize) -> (r: usize)
    ensures
        r == (if count <= buffer_free(*old(b)).len() {
            count
        } else {
            buffer_free(*old(b)).len() as usize
        }),
        buffer_data(*final(b)) == buffer_data(*old(b)) + buffer_free(*old(b)).take(r as int),
        buffer_capacity(*final(b)) == buffer_capacity(*old(b)),
;

/// `Buffer::space` hands out the buffer's free space, to read into: it holds
/// the free space's bytes, and what is written through it is the free space's
/// bytes afterwards. The bytes ready and the size stay as they were.
#[verifier::external_body]
fn buffer_space(b: &mut Buffer) -> (r: &mut [u8])
    ensures
        r@ == buffer_free(*old(b)),
        buffer_free(*final(b)) == final(r)@,
        buffer_data(*final(b)) == buffer_data(*old(b)),
        buffer_capacity(*final(b)) == buffer_capacity(*old(b)),
{
    b.space()
}

/// What one step of reading gives.
#[derive(Debug, PartialEq, Eq)]
pub enum ReadStep {
    /// A whole action frame and its payload.
    Action(ActionFrame, Vec<u8>),
    /// More bytes must be read into the free space first.
    NeedBytes,
    /// Reading ends: the next action cannot fit the largest buffer, or is malformed.
    End,
}

/// A stream being read: the bytes read and not yet used.
pub struct StreamReader {
    buffer: Buffer,
}

impl StreamReader {
    /// The bytes read and not yet used.
    pub closed spec fn data(&self) -> Seq<u8> {
        buffer_data(self.buffer)
    }

    /// The size of the buffer.
    pub closed spec fn capacity(&self) -> usize {
        buffer_capacity(self.buffer)
    }

    /// The free space, to read the next bytes into.
    pub closed spec fn free(&self) -> Seq<u8> {
        buffer_free(self.buffer)
    }

    /// The buffer never grows past `MAX_BUFFER_SIZE`.
    pub open spec fn wf(&self) -> bool {
        self.capacity() <= MAX_BUFFER_SIZE
    }

    /// A reader with nothing read yet, in a buffer of `STARTING_BUFFER_SIZE`
    /// bytes, all of them free.
    pub fn new() -> (r: StreamReader)
        ensures
            r.wf(),
            r.data() == Seq::<u8>::empty(),
            r.capacity() == STARTING_BUFFER_SIZE,
            r.free().len() == STARTING_BUFFER_SIZE,
    {
        StreamReader { buffer: Buffer::with_capacity(STARTING_BUFFER_SIZE) }
    }

    /// The free space to read the next bytes into: what is written through
    /// it is the free space afterwards.
    pub fn space(&mut self) -> (r: &mut [u8])
        ensures
            r@ == old(self).free(),
            final(self).free() == final(r)@,
            final(self).data() == old(self).data(),
            final(self).capacity() == old(self).capacity(),
    {
        buffer_space(&mut self.buffer)
    }

    /// Makes ready the first `count` bytes of the free space, those just read
    /// into it (all of it when it is shorter), after those already there; how
    /// many were taken.
    pub fn filled(&mut self, count: usize) -> (r: usize)
        ensures
            r == (if count <= old(self).free().len() {
                count
            } else {
                old(self).free().len() as usize
            }),
            final(self).data() == old(self).data() + old(self).free().take(r as int),
            final(self).capacity() == old(self).capacity(),
    {
        self.buffer.fill(count)
    }

    /// Opens the stream from the bytes read so far: the header, which is
    /// then used up; an error, with nothing used, when the header is not
    /// whole or names another version.
    pub fn open(&mut self) -> (r: Result<StreamHeader, StreamError>)
        ensures
            final(self).capacity() == old(self).capacity(),
            match header_outcome(old(self).data()) {
                ParseOutcome::Done(h, n) => if h.version == FILE_VERSION {
                    &&& r == Ok::<StreamHeader, StreamError>(h)
                    &&& final(self).data() == old(self).data().skip(n as int)
                } else {
                    &&& r == Err::<StreamHeader, StreamError>(StreamError::UnsupportedVersion(h.version))
                    &&& final(self).data() == old(self).data()
                },
                _ => {
                    &&& r == Err::<StreamHeader, StreamError>(StreamError::CouldNotParseHeader)
                    &&& final(self).data() == old(self).data()
                },
            },
    {
        let opened = deserialize_stream(self.buffer.data());
        match opened {
            Ok((header, consumed)) => {
                proof {
                    assert(consumed <= old(self).data().len());
                }
                self.buffer.consume(consumed);
                Ok(header)
            },
            Err(e) => Err(e),
        }
    }

    /// One step of reading: hands out the action frame that the bytes ready
    /// start with, with its payload, and uses them up; or asks for more bytes,
    /// first doubling the buffer when the next frame needs more than it holds;
    /// or ends when the frame cannot fit the largest buffer.
    pub fn next_step(&mut self) -> (r: ReadStep)
        requires
            old(self).wf(),
        ensures
            final(self).wf(),
            match step_for(old(self).data(), old(self).capacity()) {
                StreamStep::Frame(f) => {
                    let n = FRAME_PREFIX_LEN + f.size;
                    &&& r matches ReadStep::Action(frame, payload) && frame == f && payload@
                        == old(self).data().subrange(FRAME_PREFIX_LEN as int, n)
                    &&& final(self).data() == old(self).data().skip(n)
                    &&& final(self).capacity() == old(self).capacity()
                },
                StreamStep::GrowAndRead(c) => {
                    &&& r == ReadStep::NeedBytes
                    &&& final(self).data() == old(self).data()
                    &&& final(self).capacity() == c
                },
                StreamStep::Read => {
                    &&& r == ReadStep::NeedBytes
                    &&& final(self).data() == old(self).data()
                    &&& final(self).capacity() == old(self).capacity()
                },
                StreamStep::Stop => {
                    &&& r == ReadStep::End
                    &&& final(self).data() == old(self).data()
                    &&& final(self).capacity() == old(self).capacity()
                },
            },
    {
        let capacity = self.buffer.capacity();
        let step = stream_step(self.buffer.data(), capacity);
        match step {
            StreamStep::Frame(frame) => {
                let data = self.buffer.data();
                proof {
                    let s = data@;
                    assert(frame_outcome(s) is Done);
                    assert(frame.size == u32_le(s, 1));
                    assert(s.len() - 5 >= u32_le(s, 1));
                }
                assert(data@.len() == data.len());
                let end = FRAME_PREFIX_LEN + frame.size as usize;
                let mut payload: Vec<u8> = Vec::new();
                let mut i: usize = FRAME_PREFIX_LEN;
                while i < end
                    invariant
                        FRAME_PREFIX_LEN <= i <= end,
                        end <= data@.len(),
                        payload@ == data@.subrange(FRAME_PREFIX_LEN as int, i as int),
                    decreases end - i,
                {
                    payload.push(data[i]);
                    i = i + 1;
                    assert(payload@ =~= data@.subrange(FRAME_PREFIX_LEN as int, i as int));
                }
                self.buffer.consume(end);
                ReadStep::Action(frame, payload)
            },
            StreamStep::GrowAndRead(new_capacity) => {
                self.buffer.grow(new_capacity);
                ReadStep::NeedBytes
            },
            StreamStep::Read => ReadStep::NeedBytes,
            StreamStep::Stop => ReadStep::End,
        }
    }
}

/// A reader whose bytes start with a frame written for `payload` hands that
/// payload back in one step, whatever its buffer's size, and keeps what follows.
pub proof fn law_reader_hands_back_written_frame(payload: Seq<u8>, rest: Seq<u8>, capacity: usize)
    requires
        1 <= payload.len() <= u32::MAX,
        FRAME_PREFIX_LEN + payload.len() <= usize::MAX,
    ensures
        ({
            let data = frame_bytes(payload) + rest;
            let n = FRAME_PREFIX_LEN + payload.len();
            &&& step_for(data, capacity) == StreamStep::Frame(
                ActionFrame { version: ACTION_VERSION, size: payload.len() as u32 },
            )
            &&& data.subrange(FRAME_PREFIX_LEN as int, n) == payload
            &&& data.skip(n) == rest
        }),
{
    law_frame_round_trip(payload, rest);
}

/// The bytes that a run of reading takes in, in order: each `Some` of
/// `events` holds the bytes that one read made ready (`filled`), and each
/// `None` is one step of reading (`next_step`), which takes in nothing.
pub open spec fn bytes_read(events: Seq<Option<Seq<u8>>>) -> Seq<u8>
    decreases events.len(),
{
    if events.len() == 0 {
        Seq::empty()
    } else {
        (match events[0] {
            Some(bytes) => bytes,
            None => Seq::empty(),
        }) + bytes_read(events.skip(1))
    }
}

/// The payloads that a reader holding `data` in a buffer of `capacity` bytes
/// hands out over `events`, in order: a read appends its bytes to the data,
/// and a step does what `next_step` does (hands out the frame the data starts
/// with and drops it, or grows the buffer, or does nothing).
pub open spec fn payloads_handed_out(data: Seq<u8>, capacity: usize, events: Seq<Option<Seq<u8>>>) -> Seq<
    Seq<u8>,
>
    decreases events.len(),
{
    if events.len() == 0 {
        Seq::empty()
    } else {
        let rest = events.skip(1);
        match events[0] {
            Some(bytes) => payloads_handed_out(data + bytes, capacity, rest),
            None => match step_for(data, capacity) {
                StreamStep::Frame(f) => {
                    let n = FRAME_PREFIX_LEN + f.size;
                    seq![data.subrange(FRAME_PREFIX_LEN as int, n)] + payloads_handed_out(
                        data.skip(n),
                        capacity,
                        rest,
                    )
                },
                StreamStep::GrowAndRead(c) => payloads_handed_out(data, c, rest),
                _ => payloads_handed_out(data, capacity, rest),
            },
        }
    }
}

/// However a stream arrives in pieces, and however reads and steps alternate,
/// a reader hands out the payloads of the stream's frames in order: what it
/// has handed out is always the first of the payloads of all the bytes it
/// was given.
pub proof fn law_reading_ignores_chunking(data: Seq<u8>, capacity: usize, events: Seq<Option<Seq<u8>>>)
    requires
        data.len() + bytes_read(events).len() <= usize::MAX,
    ensures
        ({
            let handed = payloads_handed_out(data, capacity, events);
            let all = payloads_of(data + bytes_read(events));
            &&& handed.len() <= all.len()
            &&& all.take(handed.len() as int) == handed
        }),
    decreases events.len(),
{
    let handed = payloads_handed_out(data, capacity, events);
    let all = payloads_of(data + bytes_read(events));
    if events.len() == 0 {
        assert(handed =~= Seq::<Seq<u8>>::empty());
        assert(all.take(0) =~= Seq::<Seq<u8>>::empty());
    } else {
        let rest = events.skip(1);
        match events[0] {
            Some(bytes) => {
                assert(data + bytes_read(events) =~= (data + bytes) + bytes_read(rest));
                law_reading_ignores_chunking(data + bytes, capacity, rest);
            },
            None => {
                assert(bytes_read(events) =~= bytes_read(rest));
                match step_for(data, capacity) {
                    StreamStep::Frame(f) => {
                        let n = FRAME_PREFIX_LEN + f.size;
                        assert(frame_outcome(data) is Done);
                        assert(frame_outcome(data)->Done_1 == n);
                        lemma_payloads_of_after_frame(data, bytes_read(rest));
                        law_reading_ignores_chunking(data.skip(n), capacity, rest);
                        let h_rest = payloads_handed_out(data.skip(n), capacity, rest);
                        let a_rest = payloads_of(data.skip(n) + bytes_read(rest));
                        assert(all == seq![data.subrange(5, n)] + a_rest);
                        assert(handed == seq![data.subrange(5, n)] + h_rest);
                        assert(all.take(handed.len() as int) =~= seq![data.subrange(5, n)] + a_rest.take(
                            h_rest.len() as int,
                        ));
                    },
                    StreamStep::GrowAndRead(c) => {
                        law_reading_ignores_chunking(data, c, rest);
                    },
                    _ => {
                        law_reading_ignores_chunking(data, capacity, rest);
                    },
                }
            },
        }
    }
}

/// Two runs of reading that take in the same bytes, cut into pieces in any
/// way, hand out the same payloads as far as both go.
pub proof fn law_chunkings_agree(
    data: Seq<u8>,
    capacity: usize,
    events: Seq<Option<Seq<u8>>>,
    other: Seq<Option<Seq<u8>>>,
)
    requires
        bytes_read(events) == bytes_read(other),
        data.len() + bytes_read(events).len() <= usize::MAX,
    ensures
        ({
            let a = payloads_handed_out(data, capacity, events);
            let b = payloads_handed_out(data, capacity, other);
            &&& a.len() <= b.len() ==> b.take(a.len() as int) == a
            &&& b.len() <= a.len() ==> a.take(b.len() as int) == b
        }),
{
    law_reading_ignores_chunking(data, capacity, events);
    law_reading_ignores_chunking(data, capacity, other);
    let a = payloads_handed_out(data, capacity, events);
    let b = payloads_handed_out(data, capacity, other);
    let all = payloads_of(data + bytes_read(events));
    if a.len() <= b.len() {
        assert(b.take(a.len() as int) =~= all.take(a.len() as int));
    } else {
        assert(a.take(b.len() as int) =~= all.take(b.len() as int));
    }
}

/// The data and the buffer size of a reader that held `data` in a buffer of
/// `capacity` bytes, once it has gone through `events` (as in
/// `payloads_handed_out`).
pub open spec fn reader_after(data: Seq<u8>, capacity: usize, events: Seq<Option<Seq<u8>>>) -> (Seq<u8>, usize)
    decreases events.len(),
{
    if events.len() == 0 {
        (data, capacity)
    } else {
        let rest = events.skip(1);
        match events[0] {
            Some(bytes) => reader_after(data + bytes, capacity, rest),
            None => match step_for(data, capacity) {
                StreamStep::Frame(f) => reader_after(data.skip(FRAME_PREFIX_LEN + f.size), capacity, rest),
                StreamStep::GrowAndRead(c) => reader_after(data, c, rest),
                _ => reader_after(data, capacity, rest),
            },
        }
    }
}

/// `n` steps of reading with no bytes read in between.
pub open spec fn steps(n: nat) -> Seq<Option<Seq<u8>>> {
    Seq::new(n, |i: int| None::<Seq<u8>>)
}

/// What a reader has handed out, followed by the payloads of the data it
/// still holds, are the payloads of all the bytes it was given.
proof fn lemma_handed_out_and_held(data: Seq<u8>, capacity: usize, events: Seq<Option<Seq<u8>>>)
    requires
        data.len() + bytes_read(events).len() <= usize::MAX,
    ensures
        payloads_handed_out(data, capacity, events) + payloads_of(reader_after(data, capacity, events).0)
            == payloads_of(data + bytes_read(events)),
        reader_after(data, capacity, events).0.len() <= data.len() + bytes_read(events).len(),
    decreases events.len(),
{
    if events.len() == 0 {
        assert(data + bytes_read(events) =~= data);
        assert(Seq::<Seq<u8>>::empty() + payloads_of(data) =~= payloads_of(data));
    } else {
        let rest = events.skip(1);
        match events[0] {
            Some(bytes) => {
                assert(data + bytes_read(events) =~= (data + bytes) + bytes_read(rest));
                lemma_handed_out_and_held(data + bytes, capacity, rest);
            },
            None => {
                assert(bytes_read(events) =~= bytes_read(rest));
                match step_for(data, capacity) {
                    StreamStep::Frame(f) => {
                        let n = FRAME_PREFIX_LEN + f.size;
                        assert(frame_outcome(data)->Done_1 == n);
                        lemma_payloads_of_after_frame(data, bytes_read(rest));
                        lemma_handed_out_and_held(data.skip(n), capacity, rest);
                        let h_rest = payloads_handed_out(data.skip(n), capacity, rest);
                        let held = payloads_of(reader_after(data.skip(n), capacity, rest).0);
                        assert(seq![data.subrange(5, n)] + h_rest + held =~= seq![data.subrange(5, n)] + (
                        h_rest + held));
                    },
                    StreamStep::GrowAndRead(c) => {
                        lemma_handed_out_and_held(data, c, rest);
                    },
                    _ => {
                        lemma_handed_out_and_held(data, capacity, rest);
                    },
                }
            },
        }
    }
}

/// Going through `first` and then `then` hands out what `first` hands out,
/// then what `then` hands out from where `first` left the reader.
proof fn lemma_handed_out_concat(
    data: Seq<u8>,
    capacity: usize,
    first: Seq<Option<Seq<u8>>>,
    then: Seq<Option<Seq<u8>>>,
)
    ensures
        payloads_handed_out(data, capacity, first + then) == payloads_handed_out(data, capacity, first)
            + payloads_handed_out(
            reader_after(data, capacity, first).0,
            reader_after(data, capacity, first).1,
            then,
        ),
    decreases first.len(),
{
    if first.len() == 0 {
        assert(first + then =~= then);
        assert(Seq::<Seq<u8>>::empty() + payloads_handed_out(data, capacity, then) =~= payloads_handed_out(
            data,
            capacity,
            then,
        ));
    } else {
        let all = first + then;
        let rest = first.skip(1);
        assert(all.skip(1) =~= rest + then);
        assert(all[0] == first[0]);
        match first[0] {
            Some(bytes) => {
                lemma_handed_out_concat(data + bytes, capacity, rest, then);
            },
            None => match step_for(data, capacity) {
                StreamStep::Frame(f) => {
                    let n = FRAME_PREFIX_LEN + f.size;
                    lemma_handed_out_concat(data.skip(n), capacity, rest, then);
                    let a = payloads_handed_out(data.skip(n), capacity, rest);
                    let after = reader_after(data.skip(n), capacity, rest);
                    let b = payloads_handed_out(after.0, after.1, then);
                    assert(seq![data.subrange(5, n)] + (a + b) =~= seq![data.subrange(5, n)] + a + b);
                },
                StreamStep::GrowAndRead(c) => {
                    lemma_handed_out_concat(data, c, rest, then);
                },
                _ => {
                    lemma_handed_out_concat(data, capacity, rest, then);
                },
            },
        }
    }
}

/// A reader holding `data` hands out all of its payloads in as many steps.
proof fn lemma_steps_hand_out_all(data: Seq<u8>, capacity: usize)
    requires
        data.len() <= usize::MAX,
    ensures
        payloads_handed_out(data, capacity, steps(payloads_of(data).len())) == payloads_of(data),
    decreases data.len(),
{
    let k = payloads_of(data).len();
    if k == 0 {
        assert(steps(0) =~= Seq::<Option<Seq<u8>>>::empty());
    } else {
        let f = frame_outcome(data)->Done_0;
        let n = frame_outcome(data)->Done_1;
        assert(frame_outcome(data) is Done);
        assert(0 < n <= data.len());
        assert(step_for(data, capacity) == StreamStep::Frame(f));
        assert(n == FRAME_PREFIX_LEN + f.size);
        assert(steps(k)[0] == None::<Seq<u8>>);
        assert(steps(k).skip(1) =~= steps((k - 1) as nat));
        lemma_steps_hand_out_all(data.skip(n as int), capacity);
    }
}

/// Once a reader has been given every byte of a stream, however they were
/// cut into pieces and whatever it did in between, as many more steps as
/// there are payloads left hand out the rest: in all, it hands out every
/// payload of the stream, in order.
pub proof fn law_reading_hands_out_every_payload(data: Seq<u8>, capacity: usize, events: Seq<Option<Seq<u8>>>)
    requires
        data.len() + bytes_read(events).len() <= usize::MAX,
    ensures
        ({
            let all = payloads_of(data + bytes_read(events));
            let handed = payloads_handed_out(data, capacity, events);
            &&& handed.len() <= all.len()
            &&& payloads_handed_out(data, capacity, events + steps((all.len() - handed.len()) as nat))
                == all
        }),
{
    lemma_handed_out_and_held(data, capacity, events);
    let after = reader_after(data, capacity, events);
    let all = payloads_of(data + bytes_read(events));
    let handed = payloads_handed_out(data, capacity, events);
    let held = payloads_of(after.0);
    assert(held.len() == all.len() - handed.len());
    lemma_handed_out_concat(data, capacity, events, steps(held.len()));
    lemma_steps_hand_out_all(after.0, after.1);
}

} // verus!
