use retach::protocol::codec::MAX_FRAME_SIZE;
use retach::protocol::{decode_frame, encode, FrameReader, ProtocolError};

#[test]
fn encode_decode_round_trip() {
    // A Connect message: its tag, name, history, columns and rows
    let msg = (4u32, "test", 1000usize, 80u16, 24u16);
    let encoded = encode(&bincode::serialize(&msg).unwrap()).unwrap();
    let (data, consumed) = decode_frame(&encoded).unwrap().unwrap();
    assert_eq!(consumed, encoded.len());
    let decoded: (u32, String, usize, u16, u16) = bincode::deserialize(data).unwrap();
    match decoded {
        (4, name, history, cols, rows) => {
            assert_eq!(name, "test");
            assert_eq!(history, 1000);
            assert_eq!(cols, 80);
            assert_eq!(rows, 24);
        }
        _ => panic!("wrong variant"),
    }
}

#[test]
fn encode_decode_server_msg() {
    // A SessionList message: its tag and the sessions
    let msg = (3u32, vec![("s1", 123u32, 80u16, 24u16)]);
    let encoded = encode(&bincode::serialize(&msg).unwrap()).unwrap();
    let (data, _) = decode_frame(&encoded).unwrap().unwrap();
    let decoded: (u32, Vec<(String, u32, u16, u16)>) = bincode::deserialize(data).unwrap();
    match decoded {
        (3, list) => {
            assert_eq!(list.len(), 1);
            assert_eq!(list[0].0, "s1");
        }
        _ => panic!("wrong variant"),
    }
}

#[test]
fn decode_incomplete_frame() {
    // A Detach message is its tag alone
    let encoded = encode(&bincode::serialize(&2u32).unwrap()).unwrap();
    // Only give partial data
    let result = decode_frame(&encoded[..3]).unwrap();
    assert!(result.is_none());
    // Give header but not full body
    let result = decode_frame(&encoded[..encoded.len() - 1]).unwrap();
    assert!(result.is_none());
}

#[test]
fn decode_rejects_oversized_frame() {
    // Craft a header claiming a huge frame
    let len_bytes = ((MAX_FRAME_SIZE + 1) as u32).to_be_bytes();
    let mut buf = Vec::new();
    buf.extend_from_slice(&len_bytes);
    buf.extend_from_slice(&[0u8; 100]);
    let result = decode_frame(&buf);
    assert!(result.is_err());
    match result.unwrap_err() {
        ProtocolError::FrameTooLarge { size, max } => {
            assert_eq!(size, MAX_FRAME_SIZE + 1);
            assert_eq!(max, MAX_FRAME_SIZE);
        }
        other => panic!("expected FrameTooLarge, got {:?}", other),
    }
}

#[test]
fn decode_accepts_max_size_frame() {
    // A frame exactly at MAX_FRAME_SIZE should be accepted (if buffer is large enough)
    let len_bytes = (MAX_FRAME_SIZE as u32).to_be_bytes();
    let mut buf = Vec::new();
    buf.extend_from_slice(&len_bytes);
    // Don't actually allocate MAX_FRAME_SIZE — just check header passes
    let result = decode_frame(&buf).unwrap();
    // Should be None (incomplete), not an error
    assert!(result.is_none());
}

#[test]
fn encode_multiple_decode_sequential() {
    let mut buf = encode(&bincode::serialize(&2u32).unwrap()).unwrap();
    buf.extend_from_slice(&encode(&bincode::serialize(&3u32).unwrap()).unwrap());

    let (data1, consumed1) = decode_frame(&buf).unwrap().unwrap();
    let first: u32 = bincode::deserialize(data1).unwrap();
    assert_eq!(first, 2);
    let (data2, _) = decode_frame(&buf[consumed1..]).unwrap().unwrap();
    let second: u32 = bincode::deserialize(data2).unwrap();
    assert_eq!(second, 3);
}

#[test]
fn frame_has_big_endian_length() {
    let data = vec![7u8; 0x0102];
    let encoded = encode(&data).unwrap();
    assert_eq!(&encoded[..4], &[0, 0, 1, 2]);
    assert_eq!(&encoded[4..], &data[..]);
    assert_eq!(encode(&[]).unwrap(), vec![0, 0, 0, 0]);
}

#[test]
fn frame_reader_gives_messages_however_they_arrive() {
    let messages: Vec<Vec<u8>> = vec![b"one".to_vec(), Vec::new(), vec![0u8; 300], b"x".to_vec()];
    let mut stream = Vec::new();
    for m in &messages {
        stream.extend_from_slice(&encode(m).unwrap());
    }
    for step in [1usize, 2, 3, 5, 7, 64, 1000] {
        let mut reader = FrameReader::new();
        let mut got = Vec::new();
        for part in stream.chunks(step) {
            reader.feed(part);
            while let Some(m) = reader.next_frame().unwrap() {
                got.push(m);
            }
        }
        assert_eq!(got, messages);
        assert!(reader.into_leftover().is_empty());
    }
}

#[test]
fn frame_reader_keeps_leftover() {
    let mut stream = encode(b"first").unwrap();
    stream.extend_from_slice(&[0, 0, 0]);
    let mut reader = FrameReader::with_leftover(stream);
    assert_eq!(reader.next_frame().unwrap(), Some(b"first".to_vec()));
    assert_eq!(reader.next_frame().unwrap(), None);
    assert_eq!(reader.into_leftover(), vec![0, 0, 0]);
}

#[test]
fn frame_reader_refuses_oversized_frame() {
    let mut reader = FrameReader::new();
    reader.feed(&[0xff, 0xff, 0xff, 0xff]);
    match reader.next_frame() {
        Err(ProtocolError::FrameTooLarge { size, max }) => {
            assert_eq!(size, 0xffff_ffff);
            assert_eq!(max, MAX_FRAME_SIZE);
        }
        other => panic!("expected FrameTooLarge, got {:?}", other),
    }
}

#[test]
fn receive_fails_on_closed_connection() {
    let mut reader = FrameReader::new();
    assert_eq!(reader.receive(&[0, 0]).unwrap(), None);
    let message = encode(b"m").unwrap();
    assert_eq!(reader.receive(&message[2..]).unwrap(), Some(b"m".to_vec()));
    match reader.receive(&[]) {
        Err(ProtocolError::Deserialize(what)) => assert_eq!(what, "connection closed"),
        other => panic!("expected an error, got {:?}", other),
    }
}

#[test]
fn protocol_errors_as_text() {
    assert_eq!(
        ProtocolError::FrameTooLarge { size: 20, max: 10 }.to_text(),
        "frame too large: 20 bytes (max 10)"
    );
    assert_eq!(
        ProtocolError::EncodeTooLarge { size: 4294967296 }.to_text(),
        "message too large to encode: 4294967296 bytes exceeds u32 max"
    );
    assert_eq!(
        ProtocolError::Deserialize("bad tag".to_string()).to_text(),
        "deserialization failed: bad tag"
    );
}
