use docx_reader::io::{
    checked_offset, invalid_data, no_progress_error, IoErrorKind, NodeCappedReader, SeekFrom,
    SharedReader, MAX_XML_NODE_BYTES, NODE_LIMIT_MESSAGE,
};

#[test]
fn no_progress_error_is_stable_invalid_data() {
    let error = no_progress_error();
    assert_eq!(error.kind(), IoErrorKind::InvalidData);
    assert_eq!(error.to_string(), "deflate decoder made no progress");
}

#[test]
fn node_capped_reader_allows_up_to_limit_then_errors() {
    // A single read at the limit is fine.
    let mut at_limit = NodeCappedReader::new(vec![b'A'; 8], 8);
    let mut buf = Vec::new();
    assert_eq!(at_limit.read_to_end(&mut buf).unwrap(), 8);

    // One byte over the limit surfaces the zip-bomb error.
    let mut over_limit = NodeCappedReader::new(vec![b'A'; 9], 8);
    let mut sink = [0; 16];
    let err = over_limit.read(&mut sink).unwrap_err();
    assert_eq!(err.kind(), IoErrorKind::InvalidData);
    assert_eq!(err.to_string(), NODE_LIMIT_MESSAGE);
}

#[test]
fn reset_window_lets_a_new_node_start_from_zero() {
    // Two 6-byte reads exceed a limit of 8 only if the window is not reset.
    let mut reader = NodeCappedReader::new(vec![b'A'; 12], 8);
    let mut first = [0; 6];
    assert_eq!(reader.read(&mut first).unwrap(), 6);
    reader.reset_window();
    let mut second = [0; 6];
    assert_eq!(reader.read(&mut second).unwrap(), 6);
}

#[test]
fn cursors_seek_and_read_independently() {
    let source = SharedReader::new(b"abcdef".to_vec());
    let mut first = source.cursor();
    let mut second = source.cursor();
    first.seek(SeekFrom::Start(2)).expect("seek first");
    second.seek(SeekFrom::Start(4)).expect("seek second");
    let mut first_bytes = [0; 2];
    let mut second_bytes = [0; 2];
    first.read_exact(&mut first_bytes).expect("read first");
    second.read_exact(&mut second_bytes).expect("read second");
    assert_eq!(first_bytes, *b"cd");
    assert_eq!(second_bytes, *b"ef");
    assert_eq!(first.stream_position(), 4);
    assert_eq!(second.stream_position(), 6);
}

#[test]
fn cursor_rejects_seek_before_start() {
    let source = SharedReader::new(Vec::<u8>::new());
    let mut cursor = source.cursor();
    let error = cursor
        .seek(SeekFrom::Current(-1))
        .expect_err("negative position must fail");
    assert_eq!(error.kind(), IoErrorKind::InvalidInput);
    assert_eq!(error.to_string(), "invalid seek");
}

#[test]
fn without_reset_two_reads_over_the_limit_fail() {
    let mut reader = NodeCappedReader::new(vec![b'A'; 12], 8);
    let mut first = [0; 6];
    assert_eq!(reader.read(&mut first).unwrap(), 6);
    let mut second = [0; 6];
    let err = reader.read(&mut second).unwrap_err();
    assert_eq!(err.kind(), IoErrorKind::InvalidData);
    assert_eq!(err.to_string(), NODE_LIMIT_MESSAGE);
}

#[test]
fn read_to_end_collects_everything_under_the_limit() {
    let mut reader = NodeCappedReader::new(b"hello".to_vec(), MAX_XML_NODE_BYTES);
    let mut out = b">".to_vec();
    assert_eq!(reader.read_to_end(&mut out).unwrap(), 5);
    assert_eq!(out, b">hello");
    let mut sink = [0; 4];
    assert_eq!(reader.read(&mut sink).unwrap(), 0);
}

#[test]
fn seek_from_end_and_current() {
    let source = SharedReader::new(b"abcdef".to_vec());
    let mut cursor = source.cursor();
    assert_eq!(cursor.seek(SeekFrom::End(-2)).unwrap(), 4);
    assert_eq!(cursor.seek(SeekFrom::Current(-3)).unwrap(), 1);
    let mut buf = [0; 8];
    assert_eq!(cursor.read(&mut buf), 5);
    assert_eq!(&buf[..5], b"bcdef");
    assert_eq!(cursor.stream_position(), 6);
}

#[test]
fn read_exact_past_the_end_fails() {
    let source = SharedReader::new(b"abc".to_vec());
    let mut cursor = source.cursor();
    cursor.seek(SeekFrom::Start(2)).unwrap();
    let mut buf = [0; 2];
    let err = cursor.read_exact(&mut buf).unwrap_err();
    assert_eq!(err.kind(), IoErrorKind::UnexpectedEof);
}

#[test]
fn checked_offset_bounds() {
    assert_eq!(checked_offset(5, -5).unwrap(), 0);
    assert_eq!(checked_offset(5, 7).unwrap(), 12);
    assert_eq!(checked_offset(u64::MAX, 1).unwrap_err().kind(), IoErrorKind::InvalidInput);
    assert_eq!(checked_offset(0, i64::MIN).unwrap_err().to_string(), "invalid seek");
    let e = invalid_data("bad".to_string());
    assert_eq!(e.kind(), IoErrorKind::InvalidData);
    assert_eq!(e.to_string(), "bad");
}
