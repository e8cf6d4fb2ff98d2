//! The movie stream format. A stream is a header, `FSR`, the file version,
//! the frames per second, and the stage width and height as little-endian
//! `i32`s, followed by action frames: each an action version byte, the payload
//! length as a little-endian `u32`, and the payload (an encoded action).
//!
//! Parsing works on whatever part of a stream has been read so far: it either
//! finishes, says how many bytes the step that stopped it needs, or rejects
//! the input.

use vstd::prelude::*;

verus! {

/// The version of the stream format written and accepted.
pub const FILE_VERSION: u8 = 1;

/// The version written before each action.
pub const ACTION_VERSION: u8 = 1;

/// The buffer a stream is first read into.
pub const STARTING_BUFFER_SIZE: usize = 1000;

/// The largest buffer a stream reader grows to.
pub const MAX_BUFFER_SIZE: usize = 4_096_000;

/// The length of a stream header.
pub const HEADER_LEN: usize = 13;

/// The length of the version and size that precede each payload.
pub const FRAME_PREFIX_LEN: usize = 5;

/// The header of a stream.
#[derive(Clone, Copy, Debug, PartialEq, Eq, Structural)]
pub struct StreamHeader {
    pub version: u8,
    pub fps: u8,
    pub stage_width: i32,
    pub stage_height: i32,
}

/// The version and payload length of one action in a stream.
#[derive(Clone, Copy, Debug, PartialEq, Eq, Structural)]
pub struct ActionFrame {
    pub version: u8,
    pub size: u32,
}

/// What parsing a prefix of a stream came to.
#[derive(Clone, Copy, Debug, PartialEq, Eq, Structural)]
pub enum ParseOutcome<T> {
    /// Parsed; the value and the number of bytes it took.
    Done(T, usize),
    /// The input ended early; the step that stopped needs this many bytes.
    Incomplete(usize),
    /// The input does not start as it must.
    Invalid,
}

/// Why a stream cannot be opened.
#[derive(Clone, Copy, Debug, PartialEq, Eq, Structural)]
pub enum StreamError {
    /// The bytes read first do not hold a whole header.
    CouldNotParseHeader,
    /// The header names a version other than `FILE_VERSION`.
    UnsupportedVersion(u8),
}

/// What a stream reader does next with the bytes it holds.
#[derive(Clone, Copy, Debug, PartialEq, Eq, Structural)]
pub enum StreamStep {
    /// A whole action frame starts the buffer.
    Frame(ActionFrame),
    /// Read more bytes into the buffer.
    Read,
    /// Grow the buffer to this capacity, then read more bytes.
    GrowAndRead(usize),
    /// Stop: the next action needs a buffer larger than `MAX_BUFFER_SIZE`.
    Stop,
}

/// The little-endian `u32` held by the four bytes of `s` from position `i`.
pub open spec fn u32_le(s: Seq<u8>, i: int) -> int {
    s[i] + 256 * s[i + 1] + 65536 * s[i + 2] + 16777216 * s[i + 3]
}

/// The four little-endian bytes of `v`.
pub open spec fn u32_le_bytes(v: u32) -> Seq<u8> {
    seq![
        (v % 256) as u8,
        ((v / 256) % 256) as u8,
        ((v / 65536) % 256) as u8,
        (v / 16777216) as u8,
    ]
}

/// The `u32` whose bits are the two's complement bits of `x`.
pub open spec fn i32_bits(x: i32) -> u32 {
    if x >= 0 {
        x as u32
    } else {
        (x + 4294967296) as u32
    }
}

/// The `i32` whose two's complement bits are those of `v`.
pub open spec fn i32_of_bits(v: int) -> i32 {
    if v < 2147483648 {
        v as i32
    } else {
        (v - 4294967296) as i32
    }
}

/// The bytes `FSR`.
pub open spec fn stream_tag() -> Seq<u8> {
    seq![70u8, 83u8, 82u8]
}

/// The header written for a stage of `width` by `height` at `fps` frames per second.
pub open spec fn header_bytes(width: i32, height: i32, fps: u8) -> Seq<u8> {
    stream_tag() + seq![FILE_VERSION, fps] + u32_le_bytes(i32_bits(width)) + u32_le_bytes(
        i32_bits(height),
    )
}

/// The frame written for the encoded action `payload`.
pub open spec fn frame_bytes(payload: Seq<u8>) -> Seq<u8> {
    seq![ACTION_VERSION] + u32_le_bytes(payload.len() as u32) + payload
}

/// The frames written for the encoded actions `payloads`, in order.
pub open spec fn frames_bytes(payloads: Seq<Seq<u8>>) -> Seq<u8>
    decreases payloads.len(),
{
    if payloads.len() == 0 {
        Seq::empty()
    } else {
        frames_bytes(payloads.drop_last()) + frame_bytes(payloads.last())
    }
}

/// What parsing a header from the start of `s` comes to.
pub open spec fn header_outcome(s: Seq<u8>) -> ParseOutcome<StreamHeader> {
    let tag_seen = if s.len() < 3 {
        s.len() as int
    } else {
        3
    };
    if exists|i: int| 0 <= i < tag_seen && s[i] != stream_tag()[i] {
        ParseOutcome::Invalid
    } else if s.len() < 3 {
        ParseOutcome::Incomplete(3)
    } else if s.len() < 5 {
        ParseOutcome::Incomplete(1)
    } else if s.len() < 13 {
        ParseOutcome::Incomplete(4)
    } else {
        ParseOutcome::Done(
            StreamHeader {
                version: s[3],
                fps: s[4],
                stage_width: i32_of_bits(u32_le(s, 5)),
                stage_height: i32_of_bits(u32_le(s, 9)),
            },
            13,
        )
    }
}

/// What parsing an action frame from the start of `s` comes to.
pub open spec fn frame_outcome(s: Seq<u8>) -> ParseOutcome<ActionFrame> {
    if s.len() < 1 {
        ParseOutcome::Incomplete(1)
    } else if s.len() < 5 {
        ParseOutcome::Incomplete(4)
    } else if s.len() - 5 < u32_le(s, 1) {
        ParseOutcome::Incomplete(u32_le(s, 1) as usize)
    } else if u32_le(s, 1) < 1 {
        ParseOutcome::Incomplete(1)
    } else {
        ParseOutcome::Done(
            ActionFrame { version: s[0], size: u32_le(s, 1) as u32 },
            (5 + u32_le(s, 1)) as usize,
        )
    }
}

/// The payloads of the action frames that follow one another from the start
/// of `s`, up to the first that does not parse.
pub open spec fn payloads_of(s: Seq<u8>) -> Seq<Seq<u8>>
    decreases s.len(),
{
    match frame_outcome(s) {
        ParseOutcome::Done(f, n) => if 0 < n <= s.len() {
            seq![s.subrange(5, n as int)] + payloads_of(s.skip(n as int))
        } else {
            Seq::empty()
        },
        _ => Seq::empty(),
    }
}

/// What a stream reader holding `data` in a buffer of `capacity` bytes does next.
pub open spec fn step_for(data: Seq<u8>, capacity: usize) -> StreamStep {
    match frame_outcome(data) {
        ParseOutcome::Done(f, _) => StreamStep::Frame(f),
        ParseOutcome::Incomplete(needed) => if needed > capacity {
            if capacity * 2 > MAX_BUFFER_SIZE {
                StreamStep::Stop
            } else {
                StreamStep::GrowAndRead((capacity * 2) as usize)
            }
        } else {
            StreamStep::Read
        },
        ParseOutcome::Invalid => StreamStep::Stop,
    }
}

fn read_u32_le(input: &[u8], i: usize) -> (r: u32)
    requires
        i + 4 <= input@.len(),
    ensures
        r == u32_le(input@, i as int),
{
    let b0 = input[i] as u32;
    let b1 = input[i + 1] as u32;
    let b2 = input[i + 2] as u32;
    let b3 = input[i + 3] as u32;
    b0 + 256 * b1 + 65536 * b2 + 16777216 * b3
}

fn i32_from_bits(v: u32) -> (r: i32)
    ensures
        r == i32_of_bits(v as int),
{
    if v < 0x8000_0000 {
        v as i32
    } else {
        let low = (v - 0x8000_0000) as i32;
        low + i32::MIN
    }
}

fn bits_of_i32(x: i32) -> (r: u32)
    ensures
        r == i32_bits(x),
{
    if x >= 0 {
        x as u32
    } else {
        let shifted = (x - i32::MIN) as u32;
        shifted + 0x8000_0000
    }
}

fn push_u32_le(out: &mut Vec<u8>, v: u32)
    ensures
        final(out)@ == old(out)@ + u32_le_bytes(v),
{
    out.push((v % 256) as u8);
    out.push(((v / 256) % 256) as u8);
    out.push(((v / 65536) % 256) as u8);
    out.push((v / 16777216) as u8);
    assert(out@ =~= old(out)@ + u32_le_bytes(v));
}

/// Parses a stream header from the start of `input`.
pub fn parse_header(input: &[u8]) -> (r: ParseOutcome<StreamHeader>)
    ensures
        r == header_outcome(input@),
{
    let tag: [u8; 3] = [70u8, 83u8, 82u8];
    let seen = if input.len() < 3 {
        input.len()
    } else {
        3
    };
    let mut i: usize = 0;
    while i < seen
        invariant
            0 <= i <= seen,
            seen == (if input@.len() < 3 {
                input@.len()
            } else {
                3
            }),
            tag@ == stream_tag(),
            forall|j: int| 0 <= j < i ==> input@[j] == stream_tag()[j],
        decreases seen - i,
    {
        if input[i] != tag[i] {
            return ParseOutcome::Invalid;
        }
        i = i + 1;
    }
    if input.len() < 3 {
        ParseOutcome::Incomplete(3)
    } else if input.len() < 5 {
        ParseOutcome::Incomplete(1)
    } else if input.len() < 13 {
        ParseOutcome::Incomplete(4)
    } else {
        let width = i32_from_bits(read_u32_le(input, 5));
        let height = i32_from_bits(read_u32_le(input, 9));
        ParseOutcome::Done(
            StreamHeader { version: input[3], fps: input[4], stage_width: width, stage_height: height },
            13,
        )
    }
}

/// Parses an action frame (its version and payload size) from the start of
/// `input`; the payload is `input[5 .. 5 + size]`.
pub fn parse_action_frame(input: &[u8]) -> (r: ParseOutcome<ActionFrame>)
    ensures
        r == frame_outcome(input@),
{
    if input.len() < 1 {
        return ParseOutcome::Incomplete(1);
    }
    if input.len() < 5 {
        return ParseOutcome::Incomplete(4);
    }
    let size = read_u32_le(input, 1);
    if ((input.len() - 5) as u64) < (size as u64) {
        return ParseOutcome::Incomplete(size as usize);
    }
    if size < 1 {
        return ParseOutcome::Incomplete(1);
    }
    ParseOutcome::Done(ActionFrame { version: input[0], size }, 5 + size as usize)
}

/// The bytes of a stream of a stage `stage_width` by `stage_height` at
/// `frames_per_second`, holding the encoded actions `payloads` in order.
pub fn serialize_stream(
    payloads: &Vec<Vec<u8>>,
    stage_width: i32,
    stage_height: i32,
    frames_per_second: u8,
) -> (r: Vec<u8>)
    ensures
        r@ == header_bytes(stage_width, stage_height, frames_per_second) + frames_bytes(
            payloads@.map_values(|p: Vec<u8>| p@),
        ),
{
    let mut out: Vec<u8> = Vec::new();
    out.push(70u8);
    out.push(83u8);
    out.push(82u8);
    out.push(FILE_VERSION);
    out.push(frames_per_second);
    push_u32_le(&mut out, bits_of_i32(stage_width));
    push_u32_le(&mut out, bits_of_i32(stage_height));
    assert(out@ =~= header_bytes(stage_width, stage_height, frames_per_second));
    let ghost views = payloads@.map_values(|p: Vec<u8>| p@);
    let mut i: usize = 0;
    while i < payloads.len()
        invariant
            0 <= i <= payloads@.len(),
            views == payloads@.map_values(|p: Vec<u8>| p@),
            out@ == header_bytes(stage_width, stage_height, frames_per_second) + frames_bytes(
                views.take(i as int),
            ),
        decreases payloads@.len() - i,
    {
        let payload = &payloads[i];
        let ghost before = out@;
        out.push(ACTION_VERSION);
        push_u32_le(&mut out, payload.len() as u32);
        let mut k: usize = 0;
        while k < payload.len()
            invariant
                0 <= k <= payload@.len(),
                out@ == before + seq![ACTION_VERSION] + u32_le_bytes(payload@.len() as u32)
                    + payload@.take(k as int),
            decreases payload@.len() - k,
        {
            out.push(payload[k]);
            assert(payload@.take(k + 1) =~= payload@.take(k as int).push(payload@[k as int]));
            assert(out@ =~= before + seq![ACTION_VERSION] + u32_le_bytes(payload@.len() as u32)
                + payload@.take(k + 1));
            k = k + 1;
        }
        proof {
            assert(payload@.take(payload@.len() as int) =~= payload@);
            assert(views.take(i + 1).drop_last() =~= views.take(i as int));
            assert(views.take(i + 1).last() == payload@);
            assert(out@ =~= header_bytes(stage_width, stage_height, frames_per_second) + frames_bytes(
                views.take(i + 1),
            ));
        }
        i = i + 1;
    }
    assert(views.take(payloads@.len() as int) =~= views);
    out
}

/// What a stream reader holding `data` in a buffer of `capacity` bytes does
/// next: hand out the action frame that starts the buffer; or, when the buffer
/// holds too little, read more, first doubling the buffer when the step that
/// stopped needs more than it can hold, and stopping when doubling would pass
/// `MAX_BUFFER_SIZE`.
pub fn stream_step(data: &[u8], capacity: usize) -> (r: StreamStep)
    requires
        capacity <= usize::MAX / 2,
    ensures
        r == step_for(data@, capacity),
{
    match parse_action_frame(data) {
        ParseOutcome::Done(frame, _) => StreamStep::Frame(frame),
        ParseOutcome::Incomplete(needed) => {
            if needed > capacity {
                if capacity * 2 > MAX_BUFFER_SIZE {
                    StreamStep::Stop
                } else {
                    StreamStep::GrowAndRead(capacity * 2)
                }
            } else {
                StreamStep::Read
            }
        },
        ParseOutcome::Invalid => StreamStep::Stop,
    }
}

/// Opens a stream from the bytes read first: its header, and the number of
/// bytes the header took. A header that is not whole is an error, and so is a
/// version other than `FILE_VERSION`.
pub fn deserialize_stream(first_read: &[u8]) -> (r: Result<(StreamHeader, usize), StreamError>)
    ensures
        match header_outcome(first_read@) {
            ParseOutcome::Done(h, n) => if h.version == FILE_VERSION {
                r == Ok::<(StreamHeader, usize), StreamError>((h, n))
            } else {
                r == Err::<(StreamHeader, usize), StreamError>(
                    StreamError::UnsupportedVersion(h.version),
                )
            },
            _ => r == Err::<(StreamHeader, usize), StreamError>(StreamError::CouldNotParseHeader),
        },
{
    match parse_header(first_read) {
        ParseOutcome::Done(header, consumed) => {
            if header.version == FILE_VERSION {
                Ok((header, consumed))
            } else {
                Err(StreamError::UnsupportedVersion(header.version))
            }
        },
        _ => Err(StreamError::CouldNotParseHeader),
    }
}

proof fn lemma_u32_le_bytes(v: u32, prefix: Seq<u8>, rest: Seq<u8>)
    ensures
        u32_le(prefix + u32_le_bytes(v) + rest, prefix.len() as int) == v,
{
    let s = prefix + u32_le_bytes(v) + rest;
    let i = prefix.len() as int;
    assert(s[i] == (v % 256) as u8);
    assert(s[i + 1] == ((v / 256) % 256) as u8);
    assert(s[i + 2] == ((v / 65536) % 256) as u8);
    assert(s[i + 3] == (v / 16777216) as u8);
    assert((v % 256) + 256 * ((v / 256) % 256) + 65536 * ((v / 65536) % 256) + 16777216 * (v
        / 16777216) == v) by (nonlinear_arith);
}

proof fn lemma_i32_bits(x: i32)
    ensures
        i32_of_bits(i32_bits(x) as int) == x,
{
}

/// A header written for a stage of `width` by `height` at `fps` frames per
/// second reads back as version `FILE_VERSION` with those values, taking
/// `HEADER_LEN` bytes, whatever follows it.
pub proof fn law_header_round_trip(width: i32, height: i32, fps: u8, rest: Seq<u8>)
    ensures
        header_outcome(header_bytes(width, height, fps) + rest) == ParseOutcome::Done(
            StreamHeader { version: FILE_VERSION, fps, stage_width: width, stage_height: height },
            HEADER_LEN,
        ),
{
    let s = header_bytes(width, height, fps) + rest;
    let front = stream_tag() + seq![FILE_VERSION, fps];
    assert(s =~= front + u32_le_bytes(i32_bits(width)) + (u32_le_bytes(i32_bits(height)) + rest));
    lemma_u32_le_bytes(i32_bits(width), front, u32_le_bytes(i32_bits(height)) + rest);
    let front2 = front + u32_le_bytes(i32_bits(width));
    assert(s =~= front2 + u32_le_bytes(i32_bits(height)) + rest);
    lemma_u32_le_bytes(i32_bits(height), front2, rest);
    lemma_i32_bits(width);
    lemma_i32_bits(height);
    assert(forall|i: int| 0 <= i < 3 ==> s[i] == stream_tag()[i]);
    assert(s[3] == FILE_VERSION && s[4] == fps);
}

/// A payload that a frame can hold: 1 to `u32::MAX` bytes, framed within `usize`.
pub open spec fn frame_fits(payload: Seq<u8>) -> bool {
    1 <= payload.len() <= u32::MAX && FRAME_PREFIX_LEN + payload.len() <= usize::MAX
}

/// A frame written for a payload of 1 to `u32::MAX` bytes parses back as
/// version `ACTION_VERSION` with that payload's length, whatever follows it.
pub proof fn law_frame_round_trip(payload: Seq<u8>, rest: Seq<u8>)
    requires
        1 <= payload.len() <= u32::MAX,
        FRAME_PREFIX_LEN + payload.len() <= usize::MAX,
    ensures
        frame_outcome(frame_bytes(payload) + rest) == ParseOutcome::Done(
            ActionFrame { version: ACTION_VERSION, size: payload.len() as u32 },
            (FRAME_PREFIX_LEN + payload.len()) as usize,
        ),
        (frame_bytes(payload) + rest).subrange(5, 5 + payload.len() as int) == payload,
        (frame_bytes(payload) + rest).skip(5 + payload.len() as int) == rest,
{
    let s = frame_bytes(payload) + rest;
    let front = seq![ACTION_VERSION];
    assert(s =~= front + u32_le_bytes(payload.len() as u32) + (payload + rest));
    lemma_u32_le_bytes(payload.len() as u32, front, payload + rest);
    assert(s.subrange(5, 5 + payload.len() as int) =~= payload);
    assert(s.skip(5 + payload.len() as int) =~= rest);
}

proof fn lemma_frames_bytes_prepend(p: Seq<u8>, ps: Seq<Seq<u8>>)
    ensures
        frames_bytes(seq![p] + ps) == frame_bytes(p) + frames_bytes(ps),
    decreases ps.len(),
{
    if ps.len() == 0 {
        assert(seq![p] + ps =~= seq![p]);
        assert((seq![p]).drop_last() =~= Seq::<Seq<u8>>::empty());
        assert(frames_bytes(seq![p]) == frames_bytes(Seq::<Seq<u8>>::empty()) + frame_bytes(p));
        assert(frames_bytes(Seq::<Seq<u8>>::empty()) =~= Seq::<u8>::empty());
        assert(frame_bytes(p) + frames_bytes(ps) =~= frame_bytes(p));
        assert(Seq::<u8>::empty() + frame_bytes(p) =~= frame_bytes(p));
    } else {
        lemma_frames_bytes_prepend(p, ps.drop_last());
        assert((seq![p] + ps).drop_last() =~= seq![p] + ps.drop_last());
        assert((seq![p] + ps).last() == ps.last());
        assert(frame_bytes(p) + frames_bytes(ps) =~= frame_bytes(p) + frames_bytes(ps.drop_last())
            + frame_bytes(ps.last()));
    }
}

/// The frames written for payloads that frames can hold read back as those
/// payloads, in order.
pub proof fn law_frames_round_trip(payloads: Seq<Seq<u8>>)
    requires
        forall|i: int| 0 <= i < payloads.len() ==> frame_fits(#[trigger] payloads[i]),
    ensures
        payloads_of(frames_bytes(payloads)) == payloads,
    decreases payloads.len(),
{
    if payloads.len() == 0 {
        assert(frame_outcome(frames_bytes(payloads)) == ParseOutcome::<ActionFrame>::Incomplete(1));
        assert(payloads_of(frames_bytes(payloads)) =~= payloads);
    } else {
        let p = payloads[0];
        let ps = payloads.skip(1);
        assert(payloads =~= seq![p] + ps);
        lemma_frames_bytes_prepend(p, ps);
        assert(frame_fits(payloads[0]));
        law_frame_round_trip(p, frames_bytes(ps));
        assert forall|i: int| 0 <= i < ps.len() implies frame_fits(#[trigger] ps[i]) by {
            assert(ps[i] == payloads[i + 1]);
        }
        law_frames_round_trip(ps);
        let st = frames_bytes(payloads);
        assert(st == frame_bytes(p) + frames_bytes(ps));
        let n = (FRAME_PREFIX_LEN + p.len()) as usize;
        assert(payloads_of(st) == seq![st.subrange(5, n as int)] + payloads_of(st.skip(n as int)));
        assert(payloads_of(frames_bytes(payloads)) =~= seq![p] + ps);
    }
}

/// A whole stream written by `serialize_stream` opens with the header it was
/// written with, and the frames after the header read back as the payloads.
pub proof fn law_stream_round_trip(payloads: Seq<Seq<u8>>, width: i32, height: i32, fps: u8)
    requires
        forall|i: int| 0 <= i < payloads.len() ==> frame_fits(#[trigger] payloads[i]),
    ensures
        ({
            let stream = header_bytes(width, height, fps) + frames_bytes(payloads);
            &&& header_outcome(stream) == ParseOutcome::Done(
                StreamHeader { version: FILE_VERSION, fps, stage_width: width, stage_height: height },
                HEADER_LEN,
            )
            &&& payloads_of(stream.skip(HEADER_LEN as int)) == payloads
        }),
{
    let stream = header_bytes(width, height, fps) + frames_bytes(payloads);
    law_header_round_trip(width, height, fps, frames_bytes(payloads));
    assert(stream.skip(13) =~= frames_bytes(payloads));
    law_frames_round_trip(payloads);
}

/// A header parsed from the bytes read so far is the header parsed from any
/// longer read: more bytes change nothing once the header is whole.
pub proof fn law_header_outcome_extends(s: Seq<u8>, t: Seq<u8>)
    requires
        header_outcome(s) is Done,
    ensures
        header_outcome(s + t) == header_outcome(s),
{
    let st = s + t;
    assert(s.len() >= 13);
    assert forall|i: int| 0 <= i < s.len() implies st[i] == s[i] by {}
    if exists|i: int| 0 <= i < 3 && st[i] != stream_tag()[i] {
        let i = choose|i: int| 0 <= i < 3 && st[i] != stream_tag()[i];
        assert(s[i] != stream_tag()[i]);
    }
    assert(u32_le(st, 5) == u32_le(s, 5));
    assert(u32_le(st, 9) == u32_le(s, 9));
}

/// An action frame parsed from the bytes read so far is the frame parsed from
/// any longer read that fits in memory, with the same payload; what follows it is what followed
/// it before, then the new bytes.
pub proof fn law_frame_outcome_extends(s: Seq<u8>, t: Seq<u8>)
    requires
        frame_outcome(s) is Done,
        s.len() + t.len() <= usize::MAX,
    ensures
        frame_outcome(s + t) == frame_outcome(s),
        (s + t).subrange(5, frame_outcome(s)->Done_1 as int) == s.subrange(5, frame_outcome(s)->Done_1 as int),
        (s + t).skip(frame_outcome(s)->Done_1 as int) == s.skip(frame_outcome(s)->Done_1 as int) + t,
{
    let st = s + t;
    assert(s.len() >= 5);
    assert(st[1] == s[1] && st[2] == s[2] && st[3] == s[3] && st[4] == s[4] && st[0] == s[0]);
    assert(u32_le(st, 1) == u32_le(s, 1));
    let n = frame_outcome(s)->Done_1 as int;
    assert(n == 5 + u32_le(s, 1));
    assert(st.subrange(5, n) =~= s.subrange(5, n));
    assert(st.skip(n) =~= s.skip(n) + t);
}

/// The payloads read from bytes that start with a whole frame are that
/// frame's payload, then the payloads read from what follows it.
pub proof fn lemma_payloads_of_after_frame(s: Seq<u8>, t: Seq<u8>)
    requires
        frame_outcome(s) is Done,
        s.len() + t.len() <= usize::MAX,
    ensures
        payloads_of(s + t) == seq![s.subrange(5, frame_outcome(s)->Done_1 as int)] + payloads_of(
            s.skip(frame_outcome(s)->Done_1 as int) + t,
        ),
{
    law_frame_outcome_extends(s, t);
    let n = frame_outcome(s)->Done_1 as int;
    assert(n == 5 + u32_le(s, 1));
    assert(0 < n <= (s + t).len());
}

/// The payloads read from the bytes so far are the first of those read from
/// any longer read that fits in memory: reading more bytes only adds payloads
/// at the end.
pub proof fn law_payloads_of_extends(s: Seq<u8>, t: Seq<u8>)
    requires
        s.len() + t.len() <= usize::MAX,
    ensures
        payloads_of(s).len() <= payloads_of(s + t).len(),
        payloads_of(s + t).take(payloads_of(s).len() as int) == payloads_of(s),
    decreases s.len(),
{
    match frame_outcome(s) {
        ParseOutcome::Done(f, n) => {
            lemma_payloads_of_after_frame(s, t);
            assert(0 < n <= s.len());
            law_payloads_of_extends(s.skip(n as int), t);
            let rest = payloads_of(s.skip(n as int));
            let rest_t = payloads_of(s.skip(n as int) + t);
            assert(payloads_of(s) == seq![s.subrange(5, n as int)] + rest);
            assert((seq![s.subrange(5, n as int)] + rest_t).take(1 + rest.len() as int) =~= seq![
                s.subrange(5, n as int),
            ] + rest_t.take(rest.len() as int));
        },
        _ => {
            assert(payloads_of(s) =~= Seq::<Seq<u8>>::empty());
            assert(payloads_of(s + t).take(0) =~= Seq::<Seq<u8>>::empty());
        },
    }
}

} // verus!
