use bytes::Bytes;
use smalltalk::{
    CheckedHeader, FrameQueue, FrameReader, HeaderError, IsHeader, LengthHeader, MessageWrapper,
    ReadStatus, UpdateClientStatus, UpdateStatus, WriteError,
};

fn opts() -> bincode::DefaultOptions {
    bincode::DefaultOptions::new()
}

fn encode<M: serde::Serialize, H: IsHeader>(m: M) -> Vec<u8> {
    MessageWrapper::<M, H>::new(m).serialize(opts()).unwrap().to_vec()
}

/// Feeds `bytes` in chunks of `chunk` bytes, calling `update` until it yields
/// nothing after each read; returns every payload in order.
fn feed<H: IsHeader>(bytes: &[u8], chunk: usize) -> Vec<Vec<u8>>
where
    H::Error: std::fmt::Debug,
{
    let mut reader = FrameReader::<H>::new();
    let mut out = Vec::new();
    for part in bytes.chunks(chunk) {
        assert_eq!(reader.receive(part), ReadStatus::Received);
        while let Some(p) = reader.update().unwrap() {
            out.push(p.to_vec());
        }
    }
    out
}

#[test]
fn length_header_bytes_are_little_endian() {
    let h = LengthHeader::new(0x0102030405060708);
    assert_eq!(&h.as_bytes()[..], &[8, 7, 6, 5, 4, 3, 2, 1][..]);
    assert_eq!(&h.as_bytes_mut()[..], &[8, 7, 6, 5, 4, 3, 2, 1][..]);
    assert_eq!(h.size(), 0x0102030405060708);
    assert_eq!(LengthHeader::header_size(), 8);
    assert_eq!(LengthHeader::blank().size(), 0);
}

#[test]
fn length_header_round_trip() {
    for n in [0u64, 1, 5, 255, 256, 65_537, u64::MAX] {
        let h = LengthHeader::new(n);
        let back = LengthHeader::from_bytes(h.as_bytes()).unwrap();
        assert_eq!(back.size(), n);
        assert_eq!(back, h);
    }
}

#[test]
fn length_header_rejects_wrong_width() {
    let r = LengthHeader::from_bytes(Bytes::from_static(&[1, 2, 3]));
    assert_eq!(r, Err(HeaderError::WrongLength));
}

#[test]
fn checked_header_layout_and_round_trip() {
    let h = CheckedHeader::new(5);
    assert_eq!(&h.as_bytes()[..], &[0x53, 0x54, 5, 0, 0, 0, 0, 0, 0, 0, 5][..]);
    assert_eq!(CheckedHeader::header_size(), 11);
    for n in [0u64, 7, 300, 1 << 40, u64::MAX] {
        let back = CheckedHeader::from_bytes(CheckedHeader::new(n).as_bytes()).unwrap();
        assert_eq!(back.size(), n);
    }
}

#[test]
fn checked_header_rejects_bad_magic() {
    let mut raw = CheckedHeader::new(9).as_bytes().to_vec();
    raw[0] ^= 0xff;
    assert_eq!(CheckedHeader::from_bytes(Bytes::from(raw)), Err(HeaderError::BadMagic));
}

#[test]
fn checked_header_rejects_bad_checksum() {
    let mut raw = CheckedHeader::new(9).as_bytes().to_vec();
    raw[4] ^= 0x01;
    assert_eq!(CheckedHeader::from_bytes(Bytes::from(raw)), Err(HeaderError::BadChecksum));
    let short = CheckedHeader::new(9).as_bytes().slice(0..10);
    assert_eq!(CheckedHeader::from_bytes(short), Err(HeaderError::WrongLength));
}

#[test]
fn five_byte_payload_fed_one_byte_at_a_time() {
    let frame = encode::<[u8; 5], LengthHeader>([10, 20, 30, 40, 50]);
    assert_eq!(frame.len(), 13);
    assert_eq!(&frame[..8], &5u64.to_le_bytes()[..]);
    let mut reader = FrameReader::<LengthHeader>::new();
    let mut got = Vec::new();
    for (i, b) in frame.iter().enumerate() {
        reader.receive(&[*b]);
        match reader.update().unwrap() {
            Some(p) => got.push((i, p)),
            None => {}
        }
        if i < 12 {
            assert!(got.is_empty());
        }
    }
    assert_eq!(got.len(), 1);
    assert_eq!(got[0].0, 12);
    let m = MessageWrapper::<[u8; 5], LengthHeader>::from_bytes::<LengthHeader, [u8; 5], _>(
        &got[0].1,
        opts(),
    )
    .unwrap();
    assert_eq!(m.into_message(), [10, 20, 30, 40, 50]);
}

#[test]
fn message_round_trip_through_reader() {
    let texts = ["hello", "", "framing over a stream"];
    let mut stream = Vec::new();
    for t in texts {
        stream.extend(encode::<String, CheckedHeader>(t.to_string()));
    }
    let payloads = feed::<CheckedHeader>(&stream, stream.len());
    assert_eq!(payloads.len(), 3);
    for (p, t) in payloads.iter().zip(texts) {
        let m = MessageWrapper::<String, CheckedHeader>::from_bytes::<CheckedHeader, String, _>(
            &Bytes::from(p.clone()),
            opts(),
        )
        .unwrap();
        assert_eq!(m.message(), t);
    }
}

#[test]
fn fragmentation_gives_same_messages() {
    let mut stream = Vec::new();
    for v in [vec![1u32, 2, 3], vec![], vec![7; 40]] {
        stream.extend(encode::<Vec<u32>, LengthHeader>(v));
    }
    let whole = feed::<LengthHeader>(&stream, stream.len());
    assert_eq!(whole.len(), 3);
    for chunk in [1, 2, 7] {
        assert_eq!(feed::<LengthHeader>(&stream, chunk), whole);
    }
}

#[test]
fn two_frames_in_one_read_need_two_updates() {
    let mut stream = encode::<u64, LengthHeader>(11);
    stream.extend(encode::<u64, LengthHeader>(22));
    let mut reader = FrameReader::<LengthHeader>::new();
    reader.receive(&stream);
    let first = reader.update().unwrap().unwrap();
    let second = reader.update().unwrap().unwrap();
    assert!(reader.update().unwrap().is_none());
    assert_eq!(reader.buffered(), 0);
    let decode = |b: &Bytes| {
        MessageWrapper::<u64, LengthHeader>::from_bytes::<LengthHeader, u64, _>(b, opts())
            .unwrap()
            .into_message()
    };
    assert_eq!(decode(&first), 11);
    assert_eq!(decode(&second), 22);
}

#[test]
fn split_delivery_keeps_every_byte() {
    let stream = encode::<String, LengthHeader>("abcdef".to_string());
    let mut once = FrameReader::<LengthHeader>::new();
    once.receive(&stream[..10]);
    let mut twice = FrameReader::<LengthHeader>::new();
    twice.receive(&stream[..4]);
    twice.receive(&stream[4..10]);
    assert_eq!(once.buffered(), twice.buffered());
    once.receive(&stream[10..]);
    twice.receive(&stream[10..]);
    assert_eq!(once.update().unwrap(), twice.update().unwrap());
}

#[test]
fn empty_delivery_reports_closed() {
    let mut reader = FrameReader::<LengthHeader>::new();
    assert_eq!(reader.receive(&[]), ReadStatus::Closed);
    assert_eq!(reader.receive(&[1]), ReadStatus::Received);
    assert_eq!(reader.buffered(), 1);
    assert_eq!(reader.receive(&[]), ReadStatus::ClosedMidFrame);
}

#[test]
fn close_after_header_is_mid_frame() {
    let frame = encode::<u32, LengthHeader>(9);
    let mut reader = FrameReader::<LengthHeader>::new();
    reader.receive(&frame[..8]);
    assert_eq!(reader.update(), Ok(None));
    assert_eq!(reader.buffered(), 0);
    assert_eq!(reader.receive(&[]), ReadStatus::ClosedMidFrame);
    reader.receive(&frame[8..]);
    assert!(reader.update().unwrap().is_some());
    assert_eq!(reader.receive(&[]), ReadStatus::Closed);
}

#[test]
fn empty_payload_frame() {
    let frame = encode::<(), LengthHeader>(());
    assert_eq!(frame, vec![0u8; 8]);
    let payloads = feed::<LengthHeader>(&frame, 3);
    assert_eq!(payloads, vec![Vec::<u8>::new()]);
}

#[test]
fn malformed_header_stops_reader_until_cleared() {
    let mut stream = encode::<u32, CheckedHeader>(5);
    stream[1] = 0;
    let mut reader = FrameReader::<CheckedHeader>::new();
    reader.receive(&stream);
    assert_eq!(reader.update(), Err(HeaderError::BadMagic));
    assert_eq!(reader.buffered(), stream.len());
    assert_eq!(reader.update(), Err(HeaderError::BadMagic));
    assert_eq!(reader.buffered(), stream.len());
    reader.receive(&encode::<u32, CheckedHeader>(6));
    assert_eq!(reader.update(), Err(HeaderError::BadMagic));
    reader.clear_state();
    assert_eq!(reader.buffered(), 0);
    reader.receive(&encode::<u32, CheckedHeader>(6));
    assert!(reader.update().unwrap().is_some());
}

#[test]
fn partial_writes_resume_in_order() {
    let frames = [encode::<String, LengthHeader>("first".into()), encode::<u16, LengthHeader>(7)];
    let mut queue = FrameQueue::new();
    for f in &frames {
        queue.push(Bytes::from(f.clone()));
    }
    assert_eq!(queue.len(), 2);
    let mut sent = Vec::new();
    for limit in [3usize, 1, 100, 4, 100, 100] {
        let n = match queue.front() {
            Some(b) => limit.min(b.len()),
            None => 0,
        };
        if let Some(b) = queue.front() {
            sent.extend_from_slice(&b[..n]);
        }
        assert!(queue.advance(n).is_ok());
    }
    assert!(queue.is_empty());
    assert_eq!(sent, frames.concat());
}

#[test]
fn partial_write_shortens_front() {
    let mut queue = FrameQueue::new();
    queue.push(Bytes::from_static(b"abcdef"));
    queue.advance(2).ok().unwrap();
    assert_eq!(&queue.front().unwrap()[..], b"cdef");
    assert_eq!(queue.len(), 1);
    queue.advance(4).ok().unwrap();
    assert!(queue.front().is_none());
}

#[test]
fn zero_byte_write_is_disconnection() {
    let mut queue = FrameQueue::new();
    queue.push(Bytes::from_static(b"xyz"));
    assert!(matches!(queue.advance(0), Err(WriteError::Disconnected)));
    assert_eq!(&queue.front().unwrap()[..], b"xyz");
}

#[test]
fn empty_queue_write_succeeds() {
    let mut queue = FrameQueue::new();
    assert!(queue.advance(0).is_ok());
    assert!(queue.is_empty());
}

#[test]
fn frame_puts_header_first() {
    let f = MessageWrapper::<u8, CheckedHeader>::frame(&[9, 8, 7]);
    assert_eq!(&f[..11], &CheckedHeader::new(3).as_bytes()[..]);
    assert_eq!(&f[11..], &[9, 8, 7][..]);
}

#[test]
fn header_of_message_declares_encoded_length() {
    let m = MessageWrapper::<String, LengthHeader>::new("four".to_string());
    let h = m.header(opts()).unwrap();
    let body = m.serialize_self(opts()).unwrap();
    assert_eq!(h.size(), body.len() as u64);
    let whole = m.serialize(opts()).unwrap();
    assert_eq!(&whole[8..], &body[..]);
}

#[test]
fn message_mut_changes_payload() {
    let mut m = MessageWrapper::<u32, LengthHeader>::new(1);
    *m.message_mut() = 2;
    assert_eq!(*m.message(), 2);
}

#[test]
fn undecodable_payload_is_an_error() {
    let r = MessageWrapper::<u8, LengthHeader>::from_bytes::<LengthHeader, String, _>(
        &Bytes::from_static(&[1]),
        opts(),
    );
    assert!(r.is_err());
    let data: &[u8] = &[3];
    let ok = MessageWrapper::<u8, LengthHeader>::from_slice::<LengthHeader, u8, _>(&data, opts());
    assert_eq!(ok.unwrap().into_message(), 3);
}

#[test]
fn update_status_reports_flag() {
    assert!(UpdateStatus::new(true).new_msg());
    assert!(!UpdateStatus::new(false).new_msg());
    assert!(UpdateClientStatus::new(true).new_msg());
    assert!(!UpdateClientStatus::new(false).new_msg());
}
