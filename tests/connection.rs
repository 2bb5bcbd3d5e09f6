use smalltalk::{
    LengthHeader, MessageWrapper, ReadStatus, Reader, UpdateError, WriteError, Writer,
};

type TestReader = Reader<LengthHeader, String, Opts, ()>;

type Opts = bincode::DefaultOptions;

fn opts() -> Opts {
    bincode::DefaultOptions::new()
}

fn frame(s: &str) -> Vec<u8> {
    MessageWrapper::<String, LengthHeader>::new(s.to_string())
        .serialize(opts())
        .unwrap()
        .to_vec()
}

#[test]
fn reader_queues_messages_in_arrival_order() {
    let mut reader: Reader<LengthHeader, String, Opts, ()> = Reader::new((), opts());
    let mut bytes = frame("one");
    bytes.extend(frame("two"));
    assert_eq!(reader.receive(&bytes[..5]), ReadStatus::Received);
    assert!(!reader.update().unwrap());
    reader.receive(&bytes[5..]);
    assert!(reader.update().unwrap());
    assert!(reader.update().unwrap());
    assert!(!reader.update().unwrap());
    let first = reader.latest_message().unwrap();
    assert_eq!(first.message(), "one");
    let rest = reader.ready_messages();
    assert_eq!(rest.len(), 1);
    assert_eq!(rest[0].message(), "two");
    assert!(reader.latest_message().is_none());
    assert!(reader.ready_messages().is_empty());
}

#[test]
fn reader_undecodable_payload_fails_until_cleared() {
    let mut reader: Reader<LengthHeader, String, Opts, ()> = Reader::new((), opts());
    let bad = MessageWrapper::<u8, LengthHeader>::frame(&[0xff]);
    reader.receive(&bad);
    assert!(matches!(reader.update(), Err(UpdateError::MessageDeseri(_))));
    reader.receive(&frame("later"));
    assert!(!reader.update().unwrap());
    assert!(reader.latest_message().is_none());
    reader.clear_state();
    reader.receive(&frame("fresh"));
    assert!(reader.update().unwrap());
    assert_eq!(reader.latest_message().unwrap().into_message(), "fresh");
}

#[test]
fn reader_rejects_bad_header() {
    let mut reader: Reader<smalltalk::CheckedHeader, String, Opts, ()> = Reader::new((), opts());
    reader.receive(&[0u8; 11]);
    assert!(matches!(
        reader.update(),
        Err(UpdateError::HeaderParser(smalltalk::HeaderError::BadMagic))
    ));
}

#[test]
fn writer_queues_and_resumes_frames() {
    let mut writer: Writer<LengthHeader, String, Opts, Vec<u8>> = Writer::new(Vec::new(), opts());
    assert!(writer.front().is_none());
    writer.queue(&MessageWrapper::new("hi".to_string())).unwrap();
    writer.queue(&MessageWrapper::new("there".to_string())).unwrap();
    let first = writer.front().unwrap().clone();
    assert_eq!(&first[..], &frame("hi")[..]);
    writer.advance(3).unwrap();
    assert_eq!(&writer.front().unwrap()[..], &first[3..]);
    assert!(matches!(writer.advance(0), Err(WriteError::Disconnected)));
    writer.advance(first.len() - 3).unwrap();
    assert_eq!(&writer.front().unwrap()[..], &frame("there")[..]);
    let n = writer.front().unwrap().len();
    writer.advance(n).unwrap();
    assert!(writer.front().is_none());
}

#[test]
fn transport_half_is_kept() {
    let mut writer: Writer<LengthHeader, String, Opts, Vec<u8>> = Writer::new(vec![1], opts());
    writer.as_socket_mut().push(2);
    assert_eq!(writer.as_socket(), &vec![1, 2]);
    assert_eq!(writer.into_socket(), vec![1, 2]);
    let reader: Reader<LengthHeader, String, Opts, u8> = Reader::new(7, opts());
    assert_eq!(*reader.as_socket(), 7);
    assert_eq!(reader.into_socket(), 7);
}

#[test]
fn push_decoded_queues_message() {
    let mut reader: TestReader = Reader::new((), opts());
    reader.receive(&frame("x")[..3]);
    let r = reader.push_decoded(Ok(MessageWrapper::new("given".to_string())));
    assert!(matches!(r, Ok(true)));
    assert_eq!(reader.latest_message().unwrap().into_message(), "given");
    reader.receive(&frame("x")[3..]);
    assert!(reader.update().unwrap());
    assert_eq!(reader.latest_message().unwrap().into_message(), "x");
}

#[test]
fn push_decoded_error_fails_stream() {
    let mut reader: TestReader = Reader::new((), opts());
    let err = MessageWrapper::<String, LengthHeader>::from_bytes::<LengthHeader, String, _>(
        &bytes::Bytes::from_static(&[0xff]),
        opts(),
    );
    assert!(err.is_err());
    let r = reader.push_decoded(err);
    assert!(matches!(r, Err(UpdateError::MessageDeseri(_))));
    assert!(reader.latest_message().is_none());
    reader.receive(&frame("after"));
    assert!(!reader.update().unwrap());
}

#[test]
fn cleared_reader_matches_fresh_reader() {
    let mut bytes = frame("a");
    bytes.extend(frame("bb"));
    let mut used: TestReader = Reader::new((), opts());
    used.receive(&MessageWrapper::<u8, LengthHeader>::frame(&[0xff]));
    assert!(used.update().is_err());
    used.clear_state();
    let mut fresh: TestReader = Reader::new((), opts());
    for r in [&mut used, &mut fresh] {
        for part in bytes.chunks(3) {
            r.receive(part);
            while r.update().unwrap() {}
        }
    }
    let a: Vec<String> = used.ready_messages().into_iter().map(|m| m.into_message()).collect();
    let b: Vec<String> = fresh.ready_messages().into_iter().map(|m| m.into_message()).collect();
    assert_eq!(a, vec!["a".to_string(), "bb".to_string()]);
    assert_eq!(a, b);
}
