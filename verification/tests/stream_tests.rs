use peekio::{
    other_error, peek_exact, peek_exact2, scan_chunk_stream, AsyncReadWriter, ChunkStream,
    HostPort, IoError, PeekProgress, PeekableReader, ReadEvent, ScanProgress, SocketAddress,
    SocketAddressV4, WriteSink,
};

fn chunks(parts: &[&[u8]]) -> ChunkStream {
    let v: Vec<Vec<u8>> = parts.iter().map(|p| p.to_vec()).collect();
    ChunkStream::new(v)
}

fn byte_by_byte(input: &[u8]) -> ChunkStream {
    let v: Vec<Vec<u8>> = input.iter().map(|b| vec![*b]).collect();
    ChunkStream::new(v)
}

#[test]
fn peek_is_repeatable_and_read_consumes() {
    let s = chunks(&[b"hel", b"lo w", b"orld"]);
    let mut r = PeekableReader::new(s);
    assert_eq!(r.poll_peek(5), b"hello".to_vec());
    assert_eq!(r.poll_peek(5), b"hello".to_vec());
    assert_eq!(r.poll_peek(2), b"he".to_vec());
    let first = r.read(3);
    assert_eq!(first, b"hel".to_vec());
    let second = r.read(10);
    assert_eq!(second, b"lo".to_vec());
    let third = r.read(10);
    assert_eq!(third, b" w".to_vec());
    let fourth = r.read(10);
    assert_eq!(fourth, b"orld".to_vec());
    assert_eq!(r.read(1), Vec::<u8>::new());
}

#[test]
fn read_after_peek_serves_exactly_the_peeked_head() {
    let s = chunks(&[b"ab", b"cdef"]);
    let mut r = PeekableReader::new(s);
    assert_eq!(r.poll_peek(4), b"abcd".to_vec());
    assert_eq!(r.read(2), b"ab".to_vec());
    assert_eq!(r.read(2), b"cd".to_vec());
    assert_eq!(r.read(4), b"ef".to_vec());
}

#[test]
fn peek_buffer_is_bounded_by_the_largest_request() {
    let s = chunks(&[b"abcdefghij"]);
    let mut r = PeekableReader::new(s);
    assert_eq!(r.poll_peek(5), b"abcde".to_vec());
    assert_eq!(r.buffered(), 5);
    assert_eq!(r.poll_peek(3), b"abc".to_vec());
    assert_eq!(r.buffered(), 5);
    assert_eq!(r.poll_peek(7), b"abcdefg".to_vec());
    assert_eq!(r.buffered(), 7);
}

#[test]
fn peek_short_count_at_eof() {
    let s = chunks(&[b"ab", b"c"]);
    let mut r = PeekableReader::new(s);
    assert_eq!(r.poll_peek(10), b"abc".to_vec());
    assert_eq!(r.read(3), b"abc".to_vec());
    assert_eq!(r.poll_peek(1), Vec::<u8>::new());
}

#[test]
fn peek_exact_fills_across_chunk_boundaries() {
    let s = chunks(&[b"ab", b"cde", b"f"]);
    let op = peek_exact(s, vec![0u8; 4]);
    let (wrapper, buf) = op.run().expect("four bytes are available");
    assert_eq!(buf, b"abcd".to_vec());
    let op2 = peek_exact2(wrapper, vec![0u8; 6]);
    let (mut wrapper, buf2) = op2.run().expect("six bytes are available");
    assert_eq!(buf2, b"abcdef".to_vec());
    assert_eq!(wrapper.read(6), b"abcdef".to_vec());
}

#[test]
fn peek_exact_byte_by_byte_chunking() {
    let s = byte_by_byte(b"abcdef");
    let op = peek_exact(s, vec![0u8; 6]);
    let (_, buf) = op.run().expect("six bytes are available");
    assert_eq!(buf, b"abcdef".to_vec());
}

#[test]
fn peek_exact_fails_on_early_eof() {
    let s = chunks(&[b"abc"]);
    let op = peek_exact(s, vec![0u8; 4]);
    let (wrapper, err) = op.run().expect_err("only three bytes exist");
    assert!(matches!(err, IoError::UnexpectedEof));
    assert_eq!(wrapper.buffered(), 3);
}

#[test]
fn peek_exact_zero_length_destination_succeeds() {
    let s = ChunkStream::new(Vec::new());
    let op = peek_exact(s, Vec::new());
    let (wrapper, buf) = op.run().expect("an empty destination needs no bytes");
    assert_eq!(buf, Vec::<u8>::new());
    assert_eq!(wrapper.buffered(), 0);
}

#[test]
fn separator_split_one_chunk() {
    let s = chunks(&[b"GET /x HTTP/1.1\r\n\r\nEXTRA"]);
    let (_, head, tail) = scan_chunk_stream(s, "\r\n\r\n").expect("separator present");
    assert_eq!(head, b"GET /x HTTP/1.1\r\n\r\n".to_vec());
    assert_eq!(tail, b"EXTRA".to_vec());
}

#[test]
fn separator_split_across_chunk_boundary() {
    let s = chunks(&[b"GET /x HTTP/1.1\r\n", b"\r\nEXTRA"]);
    let (_, head, tail) = scan_chunk_stream(s, "\r\n\r\n").expect("separator present");
    assert_eq!(head, b"GET /x HTTP/1.1\r\n\r\n".to_vec());
    assert_eq!(tail, b"EXTRA".to_vec());
}

#[test]
fn separator_split_byte_by_byte() {
    let s = byte_by_byte(b"GET /x HTTP/1.1\r\n\r\nEXTRA");
    let (mut rest, head, tail) = scan_chunk_stream(s, "\r\n\r\n").expect("separator present");
    assert_eq!(head, b"GET /x HTTP/1.1\r\n\r\n".to_vec());
    assert_eq!(tail, Vec::<u8>::new());
    let mut left = Vec::new();
    loop {
        match rest.read() {
            ReadEvent::Data(d) => left.extend(d),
            ReadEvent::Eof => break,
            _ => panic!("a scripted source only yields data or eof"),
        }
    }
    assert_eq!(left, b"EXTRA".to_vec());
}

#[test]
fn separator_finds_leftmost_occurrence() {
    let s = chunks(&[b"aa", b"xbbx", b"cc"]);
    let (_, head, tail) = scan_chunk_stream(s, "x").expect("separator present");
    assert_eq!(head, b"aax".to_vec());
    assert_eq!(tail, b"bbx".to_vec());
}

#[test]
fn separator_missing_is_connection_reset() {
    let s = chunks(&[b"no-terminator-here"]);
    let err = scan_chunk_stream(s, "\r\n\r\n").expect_err("no separator in the input");
    assert!(matches!(err, IoError::ConnectionReset));
}

#[test]
fn separator_on_empty_stream_is_connection_reset() {
    let s = ChunkStream::new(Vec::new());
    let err = scan_chunk_stream(s, "\r\n").expect_err("the stream is empty");
    assert!(matches!(err, IoError::ConnectionReset));
}

#[test]
fn scan_steps_suspend_fail_and_resolve() {
    let s = chunks(&[]);
    let mut op = peekio::read_until_separator(s, "\r\n");
    assert!(!op.is_done());
    assert!(matches!(op.step(ReadEvent::NotReady), ScanProgress::Suspend::<ChunkStream>));
    assert!(!op.is_done());
    assert!(matches!(
        op.step(ReadEvent::Data(b"partial".to_vec())),
        ScanProgress::Continue::<ChunkStream>
    ));
    match op.step(ReadEvent::Data(b" done\r\nrest".to_vec())) {
        ScanProgress::Done(_, head, tail) => {
            assert_eq!(head, b"partial done\r\n".to_vec());
            assert_eq!(tail, b"rest".to_vec());
        }
        _ => panic!("the separator arrived"),
    }
    assert!(op.is_done());
}

#[test]
fn scan_step_propagates_stream_errors_verbatim() {
    let s = chunks(&[]);
    let mut op = peekio::read_until_separator(s, "\r\n");
    match op.step(ReadEvent::Failed(other_error("boom"))) {
        ScanProgress::Fail(e) => match e {
            IoError::Other(m) => assert_eq!(m, "boom"),
            _ => panic!("the error must come through unchanged"),
        },
        _ => panic!("a stream error resolves the scan"),
    }
    assert!(op.is_done());
}

#[test]
fn scan_step_eof_is_connection_reset() {
    let s = chunks(&[]);
    let mut op = peekio::read_until_separator(s, "\r\n");
    assert!(matches!(
        op.step(ReadEvent::Data(b"abc".to_vec())),
        ScanProgress::Continue::<ChunkStream>
    ));
    assert!(matches!(
        op.step(ReadEvent::Eof),
        ScanProgress::Fail::<ChunkStream>(IoError::ConnectionReset)
    ));
    assert!(op.is_done());
}

#[test]
fn peek_steps_suspend_fail_and_resolve() {
    let s = chunks(&[]);
    let mut op = peek_exact(s, vec![0u8; 4]);
    assert!(!op.is_done());
    assert_eq!(op.needed(), 4);
    assert!(op.try_finish().is_none());
    assert!(matches!(op.step(ReadEvent::NotReady), PeekProgress::Suspend::<ChunkStream>));
    assert!(matches!(
        op.step(ReadEvent::Data(b"ab".to_vec())),
        PeekProgress::Continue::<ChunkStream>
    ));
    assert_eq!(op.needed(), 2);
    match op.step(ReadEvent::Data(b"cdef".to_vec())) {
        PeekProgress::Done(wrapper, buf) => {
            assert_eq!(buf, b"abcd".to_vec());
            assert_eq!(wrapper.buffered(), 6);
        }
        _ => panic!("enough bytes arrived"),
    }
    assert!(op.is_done());
}

#[test]
fn peek_step_eof_keeps_peeked_bytes() {
    let s = chunks(&[]);
    let mut op = peek_exact(s, vec![0u8; 4]);
    assert!(matches!(
        op.step(ReadEvent::Data(b"abc".to_vec())),
        PeekProgress::Continue::<ChunkStream>
    ));
    match op.step(ReadEvent::Eof) {
        PeekProgress::Fail(wrapper, err) => {
            assert!(matches!(err, IoError::UnexpectedEof));
            assert_eq!(wrapper.buffered(), 3);
        }
        _ => panic!("the stream ended one byte short"),
    }
    assert!(op.is_done());
}

#[test]
fn duplex_forwards_each_half_independently() {
    let s = chunks(&[b"ping"]);
    let mut d = AsyncReadWriter::new(s, WriteSink::new());
    assert_eq!(d.write(b"po"), 2);
    assert_eq!(d.read(4), b"ping".to_vec());
    assert_eq!(d.write(b"ng"), 2);
    d.flush();
    d.shutdown();
    assert_eq!(d.read(1), Vec::<u8>::new());
    let (_, sink) = d.into_parts();
    assert_eq!(sink.take_bytes(), b"pong".to_vec());
}

#[test]
fn other_error_carries_its_description() {
    match other_error("broken pipe") {
        IoError::Other(m) => assert_eq!(m, "broken pipe"),
        _ => panic!("the catch-all kind carries the description"),
    }
}

#[test]
fn host_port_reports_its_port() {
    let d = HostPort::DomainPort(String::from("example.org"), 8080);
    assert_eq!(d.port(), 8080);
    let a = HostPort::IPPort(SocketAddress::V4(SocketAddressV4 {
        octets: [127, 0, 0, 1],
        port: 443,
    }));
    assert_eq!(a.port(), 443);
}

#[test]
fn short_read_splits_a_large_chunk() {
    let s = chunks(&[b"pingpong"]);
    let mut r = PeekableReader::new(s);
    assert_eq!(r.read(4), b"ping".to_vec());
    assert_eq!(r.read(10), b"pong".to_vec());
    assert_eq!(r.read(1), Vec::<u8>::new());
}
