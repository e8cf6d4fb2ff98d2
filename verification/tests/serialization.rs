use fluster_core::reader::{ReadStep, StreamReader};
use fluster_core::serialization::{
    deserialize_stream, parse_action_frame, parse_header, serialize_stream, stream_step,
    ActionFrame, ParseOutcome, StreamError, StreamHeader, StreamStep, FILE_VERSION, HEADER_LEN,
    MAX_BUFFER_SIZE,
};

/// Reads the payloads of all action frames that follow a header.
fn read_payloads(bytes: &[u8]) -> Vec<Vec<u8>> {
    let mut read = Vec::new();
    let mut at = 0;
    while at < bytes.len() {
        match parse_action_frame(&bytes[at..]) {
            ParseOutcome::Done(frame, taken) => {
                read.push(bytes[at + taken - frame.size as usize..at + taken].to_vec());
                at += taken;
            }
            other => panic!("unexpected {:?}", other),
        }
    }
    read
}

#[test]
fn it_serializes_and_deserializes_streams() {
    let payloads: Vec<Vec<u8>> = vec![
        bincode::serialize(&(1u32, "1c3ad65b-ebbf-4d5e-8943-28b94df19361")).unwrap(),
        bincode::serialize(&(2u32, "b06f8577-aa30-4000-9967-9ba336e9248c", "first")).unwrap(),
        bincode::serialize(&(3u32, "a label")).unwrap(),
        bincode::serialize(&(4u32, 1u32, 2u32)).unwrap(),
        bincode::serialize(&5u32).unwrap(),
    ];
    let buffer = serialize_stream(&payloads, 960, 480, 60);
    match deserialize_stream(&buffer) {
        Ok((header, consumed)) => {
            assert_eq!((header.stage_width, header.stage_height), (960, 480));
            assert_eq!(header.fps, 60);
            assert_eq!(consumed, HEADER_LEN);
            let read = read_payloads(&buffer[consumed..]);
            assert_eq!(read.len(), payloads.len());
            for i in 0..payloads.len() {
                assert_eq!(read[i], payloads[i]);
            }
        }
        Err(err) => panic!("{:?}", err),
    }
}

#[test]
fn header_layout_is_exact() {
    let bytes = serialize_stream(&Vec::new(), -2, 258, 30);
    assert_eq!(
        bytes,
        vec![70, 83, 82, FILE_VERSION, 30, 0xFE, 0xFF, 0xFF, 0xFF, 2, 1, 0, 0]
    );
    assert_eq!(
        parse_header(&bytes),
        ParseOutcome::Done(
            StreamHeader { version: 1, fps: 30, stage_width: -2, stage_height: 258 },
            13
        )
    );
}

#[test]
fn a_short_or_foreign_header_is_refused() {
    assert_eq!(deserialize_stream(&[70, 83]), Err(StreamError::CouldNotParseHeader));
    assert_eq!(
        deserialize_stream(&[70, 83, 81, 1, 30, 0, 0, 0, 0, 0, 0, 0, 0]),
        Err(StreamError::CouldNotParseHeader)
    );
    assert_eq!(parse_header(&[70, 83, 82, 1, 30, 0]), ParseOutcome::Incomplete(4));
    assert_eq!(parse_header(&[70, 83, 81]), ParseOutcome::Invalid);
}

#[test]
fn another_version_is_refused() {
    let mut bytes = serialize_stream(&Vec::new(), 1, 1, 1);
    bytes[3] = 2;
    assert_eq!(deserialize_stream(&bytes), Err(StreamError::UnsupportedVersion(2)));
}

#[test]
fn frames_say_what_they_need() {
    assert_eq!(parse_action_frame(&[1, 3, 0]), ParseOutcome::Incomplete(4));
    assert_eq!(parse_action_frame(&[1, 3, 0, 0, 0, 9]), ParseOutcome::Incomplete(3));
    assert_eq!(parse_action_frame(&[1, 0, 0, 0, 0]), ParseOutcome::Incomplete(1));
    assert_eq!(
        parse_action_frame(&[1, 2, 0, 0, 0, 7, 8, 9]),
        ParseOutcome::Done(ActionFrame { version: 1, size: 2 }, 7)
    );
}

#[test]
fn stream_steps_read_grow_or_stop() {
    assert_eq!(
        stream_step(&[1, 1, 0, 0, 0, 5], 16),
        StreamStep::Frame(ActionFrame { version: 1, size: 1 })
    );
    assert_eq!(stream_step(&[1, 1], 16), StreamStep::Read);
    // 40 bytes of payload do not fit a 16-byte buffer: double it.
    assert_eq!(stream_step(&[1, 40, 0, 0, 0], 16), StreamStep::GrowAndRead(32));
    // Doubling past the largest buffer stops the reader.
    assert_eq!(
        stream_step(&[1, 0xFF, 0xFF, 0xFF, 0x7F], MAX_BUFFER_SIZE),
        StreamStep::Stop
    );
}

/// Feeds `bytes` to the reader through its free space, at most `chunk` at a time.
fn feed(reader: &mut StreamReader, bytes: &[u8], at: &mut usize, chunk: usize) -> bool {
    if *at >= bytes.len() {
        return false;
    }
    let space = reader.space();
    let n = chunk.min(space.len()).min(bytes.len() - *at);
    if n == 0 {
        return false;
    }
    space[..n].copy_from_slice(&bytes[*at..*at + n]);
    let taken = reader.filled(n);
    *at += taken;
    true
}

#[test]
fn a_reader_opens_and_reads_a_stream_in_pieces() {
    let payloads = vec![vec![1, 2, 3], vec![9; 1500], vec![7]];
    let bytes = serialize_stream(&payloads, 640, 360, 24);
    let mut reader = StreamReader::new();
    let mut at = 0;
    assert_eq!(reader.open(), Err(StreamError::CouldNotParseHeader));
    feed(&mut reader, &bytes, &mut at, 7);
    assert_eq!(reader.open(), Err(StreamError::CouldNotParseHeader));
    feed(&mut reader, &bytes, &mut at, 7);
    let header = reader.open().unwrap();
    assert_eq!((header.stage_width, header.stage_height, header.fps), (640, 360, 24));
    let mut read = Vec::new();
    let mut grew = false;
    loop {
        match reader.next_step() {
            ReadStep::Action(frame, payload) => {
                assert_eq!(frame.size as usize, payload.len());
                read.push(payload);
            }
            ReadStep::NeedBytes => {
                if reader.space().len() > 1000 {
                    grew = true;
                }
                if !feed(&mut reader, &bytes, &mut at, 400) {
                    break;
                }
            }
            ReadStep::End => break,
        }
    }
    assert!(grew);
    assert_eq!(read, payloads);
}

#[test]
fn a_reader_stops_at_a_frame_too_large_for_any_buffer() {
    let mut reader = StreamReader::new();
    let mut at = 0;
    feed(&mut reader, &[1, 0xFF, 0xFF, 0xFF, 0x7F], &mut at, 5);
    let mut steps = 0;
    loop {
        match reader.next_step() {
            ReadStep::NeedBytes => steps += 1,
            ReadStep::End => break,
            ReadStep::Action(_, _) => panic!("no whole frame was given"),
        }
    }
    // The buffer doubled from 1000 up to 4 096 000 bytes, then gave up.
    assert_eq!(steps, 12);
}

/// Reads all frames of `bytes` (after the header) feeding at most `chunk` bytes at a time.
fn read_in_chunks(bytes: &[u8], chunk: usize) -> (StreamHeader, Vec<Vec<u8>>) {
    let mut reader = StreamReader::new();
    let mut at = 0;
    let header = loop {
        match reader.open() {
            Ok(header) => break header,
            Err(StreamError::CouldNotParseHeader) => {
                assert!(feed(&mut reader, bytes, &mut at, chunk));
            }
            Err(other) => panic!("{:?}", other),
        }
    };
    let mut read = Vec::new();
    loop {
        match reader.next_step() {
            ReadStep::Action(_, payload) => read.push(payload),
            ReadStep::NeedBytes => {
                if !feed(&mut reader, bytes, &mut at, chunk) {
                    break;
                }
            }
            ReadStep::End => break,
        }
    }
    (header, read)
}

#[test]
fn reading_does_not_depend_on_the_size_of_the_pieces() {
    let payloads = vec![vec![4, 5], vec![6; 700], vec![8, 9, 10], vec![1]];
    let bytes = serialize_stream(&payloads, 320, 200, 12);
    let whole = read_in_chunks(&bytes, bytes.len());
    for chunk in [1, 2, 3, 5, 13, 64, 999] {
        let pieces = read_in_chunks(&bytes, chunk);
        assert_eq!(pieces.0, whole.0);
        assert_eq!(pieces.1, whole.1);
    }
    assert_eq!(whole.1, payloads);
}

#[test]
fn a_new_reader_has_its_whole_buffer_free() {
    let mut reader = StreamReader::new();
    assert_eq!(reader.space().len(), 1000);
    assert_eq!(reader.filled(2000), 1000);
}
