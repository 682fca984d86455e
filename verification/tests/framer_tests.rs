use std::io::{Cursor, Read};
use streaming_quotes::QuoteError;
use streaming_quotes::framer::StreamReader;

/// A source that always fails with an unrecoverable error.
struct BrokenSource;

impl Read for BrokenSource {
    fn read(&mut self, _buf: &mut [u8]) -> std::io::Result<usize> {
        Err(std::io::Error::new(std::io::ErrorKind::BrokenPipe, "broken"))
    }
}

/// A source that reports it would block.
struct SilentSource;

impl Read for SilentSource {
    fn read(&mut self, _buf: &mut [u8]) -> std::io::Result<usize> {
        Err(std::io::Error::new(std::io::ErrorKind::WouldBlock, "nothing yet"))
    }
}

#[test]
fn test_stream_reader() {
    let buf = vec![1u8, 2, 3];
    let mut stream = Cursor::new(buf);
    let mut reader = StreamReader::default();
    reader.read_from_stream(&mut stream).unwrap();
    let chunk = reader.extract_chunk(2).unwrap();
    assert_eq!(vec![1, 2], chunk);
    let rem = reader.extract_chunk(2);
    assert!(rem.is_none());
    let chunk = reader.extract_chunk(1).unwrap();
    assert_eq!(vec![3], chunk);
}

#[test]
fn chunks_come_out_in_feed_order() {
    let mut reader = StreamReader::new();
    reader.feed(&[1u8, 2, 3]);
    reader.feed(&[4u8, 5]);
    // Exactly the first four bytes fed, in order, across feed boundaries.
    assert_eq!(reader.extract_chunk(4).unwrap(), vec![1, 2, 3, 4]);
    // Never a partial chunk: one byte is buffered, two are asked for.
    assert!(reader.extract_chunk(2).is_none());
    assert_eq!(reader.extract_chunk(1).unwrap(), vec![5]);
    assert!(reader.extract_chunk(1).is_none());
}

#[test]
fn empty_source_is_not_an_error() {
    let mut stream = Cursor::new(Vec::<u8>::new());
    let mut reader = StreamReader::new();
    reader.read_from_stream(&mut stream).unwrap();
    assert!(reader.extract_chunk(1).is_none());
}

#[test]
fn would_block_means_no_data_not_an_error() {
    let mut reader = StreamReader::new();
    reader.feed(&[7u8]);
    reader.read_from_stream(&mut SilentSource).unwrap();
    // The buffer is untouched by a silent source.
    assert_eq!(reader.extract_chunk(1).unwrap(), vec![7]);
}

#[test]
fn broken_source_is_a_transport_error() {
    let mut reader = StreamReader::new();
    reader.feed(&[7u8]);
    assert_eq!(
        reader.read_from_stream(&mut BrokenSource).unwrap_err(),
        QuoteError::TransportError
    );
    // The buffer survives the failed read.
    assert_eq!(reader.extract_chunk(1).unwrap(), vec![7]);
}

#[test]
fn zero_length_chunk_is_always_ready() {
    let mut reader = StreamReader::new();
    assert_eq!(reader.extract_chunk(0).unwrap(), Vec::<u8>::new());
}
