use robby::head::{read_http_header, HeadError, HeadStep};
use robby::read_at_most::read_at_most;
use robby::HEADER_CAPACITY;

const REQUEST: &[u8] = b"GET / HTTP/1.1\r\nHost: test-website.com\r\n\r\n";

fn feed_in_chunks(stream: &[u8], cap: usize, chunk: usize) -> (HeadStep, Vec<u8>) {
    let mut reader = read_http_header(vec![0u8; cap]);
    let mut at = 0;
    loop {
        let room = reader.remaining();
        let end = std::cmp::min(std::cmp::min(at + chunk, stream.len()), at + room);
        let step = reader.push(&stream[at..end]);
        at = end;
        if step != HeadStep::Pending {
            return (step, reader.into_buffer());
        }
    }
}

#[test]
fn head_in_one_read() {
    let (step, buf) = feed_in_chunks(REQUEST, HEADER_CAPACITY, REQUEST.len());
    assert_eq!(step, HeadStep::Complete { total: REQUEST.len(), split: REQUEST.len() });
    assert_eq!(buf, REQUEST.to_vec());
}

#[test]
fn head_byte_by_byte() {
    let (step, _) = feed_in_chunks(REQUEST, HEADER_CAPACITY, 1);
    assert_eq!(step, HeadStep::Complete { total: REQUEST.len(), split: REQUEST.len() });
}

#[test]
fn head_in_every_chunk_size() {
    for chunk in 1..=REQUEST.len() {
        let (step, _) = feed_in_chunks(REQUEST, HEADER_CAPACITY, chunk);
        match step {
            HeadStep::Complete { split, .. } => assert_eq!(split, REQUEST.len()),
            other => panic!("chunk {}: {:?}", chunk, other),
        }
    }
}

#[test]
fn sentinel_split_across_two_reads() {
    let mut reader = read_http_header(vec![0u8; HEADER_CAPACITY]);
    let cut = REQUEST.len() - 2;
    assert_eq!(reader.push(&REQUEST[..cut]), HeadStep::Pending);
    let step = reader.push(&REQUEST[cut..]);
    assert_eq!(step, HeadStep::Complete { total: REQUEST.len(), split: REQUEST.len() });
}

#[test]
fn bytes_after_the_head_are_kept() {
    let mut stream = REQUEST.to_vec();
    stream.extend_from_slice(b"body bytes");
    let mut reader = read_http_header(vec![0u8; HEADER_CAPACITY]);
    let step = reader.push(&stream);
    assert_eq!(step, HeadStep::Complete { total: stream.len(), split: REQUEST.len() });
    assert_eq!(reader.bytes(), &stream[..]);
    assert_eq!(reader.into_buffer(), stream);
}

#[test]
fn first_sentinel_is_the_end() {
    let stream = b"A\r\n\r\nB\r\n\r\n";
    let mut reader = read_http_header(vec![0u8; 64]);
    assert_eq!(reader.push(stream), HeadStep::Complete { total: 10, split: 5 });
}

#[test]
fn oversized_head_is_refused() {
    let stream = vec![b'a'; HEADER_CAPACITY + 1];
    let (step, buf) = feed_in_chunks(&stream, HEADER_CAPACITY, 1000);
    assert_eq!(step, HeadStep::Failed(HeadError::HeaderTooLarge));
    assert_eq!(buf.len(), HEADER_CAPACITY);
}

#[test]
fn head_that_exactly_fills_the_buffer_completes() {
    let (step, _) = feed_in_chunks(REQUEST, REQUEST.len(), 7);
    assert_eq!(step, HeadStep::Complete { total: REQUEST.len(), split: REQUEST.len() });
}

#[test]
fn early_close_is_unexpected_eof() {
    let mut reader = read_http_header(vec![0u8; HEADER_CAPACITY]);
    assert_eq!(reader.push(b"GET / HTTP/1.1\r\n"), HeadStep::Pending);
    assert_eq!(reader.push(b""), HeadStep::Failed(HeadError::UnexpectedEof));
}

#[test]
fn empty_buffer_reports_eof_on_close() {
    let mut reader = read_http_header(Vec::new());
    assert_eq!(reader.remaining(), 0);
    assert_eq!(reader.push(b""), HeadStep::Failed(HeadError::UnexpectedEof));
}

#[test]
fn read_at_most_stops_at_close() {
    let mut reader = read_at_most(vec![0u8; 8]);
    assert_eq!(reader.push(b"abc"), None);
    assert_eq!(reader.push(b""), Some(3));
    assert_eq!(reader.into_buffer(), b"abc".to_vec());
}

#[test]
fn read_at_most_stops_when_full() {
    let mut reader = read_at_most(vec![0u8; 4]);
    assert_eq!(reader.push(b"ab"), None);
    assert_eq!(reader.remaining(), 2);
    assert_eq!(reader.push(b"cd"), Some(4));
    assert_eq!(reader.into_buffer(), b"abcd".to_vec());
}
