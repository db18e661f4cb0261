use webdav_request::client::{PreparedRequest, WebDAVClient};
use webdav_request::error::Error;
use webdav_request::method::Method;
use webdav_request::reader::{LazyResponseReader, ResponseReader};

fn prepared(url: &str) -> PreparedRequest {
    WebDAVClient::new("user", "pass").get(url).build().unwrap()
}

/// Drives one read of the given capacity against the reader, feeding it
/// chunks from `chunks` (advancing `next`) until it can serve, exactly
/// as a caller's polling loop would.
fn read_step(
    reader: &mut ResponseReader,
    chunks: &[&[u8]],
    next: &mut usize,
    capacity: usize,
) -> Vec<u8> {
    loop {
        if !reader.needs_input(capacity) {
            return reader.serve(capacity);
        }
        if *next < chunks.len() {
            reader.push_chunk(chunks[*next]);
            *next += 1;
        } else {
            // end of body: flush whatever remains buffered
            return reader.serve(capacity);
        }
    }
}

#[test]
fn chunked_body_read_in_capacity_sized_pieces() {
    let body: Vec<u8> = (1..=10).collect();
    let chunks: [&[u8]; 3] = [&body[0..3], &body[3..8], &body[8..10]];
    let mut reader = ResponseReader::new();
    let mut next = 0;
    let mut sizes = Vec::new();
    let mut collected = Vec::new();
    for _ in 0..4 {
        let out = read_step(&mut reader, &chunks, &mut next, 4);
        sizes.push(out.len());
        collected.extend_from_slice(&out);
    }
    assert_eq!(sizes, vec![4, 4, 2, 0]);
    assert_eq!(collected, body);
}

#[test]
fn serve_never_exceeds_capacity_and_keeps_leftovers() {
    let mut reader = ResponseReader::new();
    reader.push_chunk(&[9, 8, 7, 6, 5]);
    let first = reader.serve(2);
    assert_eq!(first, vec![9, 8]);
    let second = reader.serve(10);
    assert_eq!(second, vec![7, 6, 5]);
    let third = reader.serve(10);
    assert_eq!(third, Vec::<u8>::new());
}

#[test]
fn lazy_stream_holds_request_until_first_poll() {
    let mut stream = LazyResponseReader::new(prepared("https://example.com/f"));
    // The first poll takes the one exchange description out ...
    let taken = stream.begin();
    let p: PreparedRequest = taken.expect("first poll yields the request");
    assert!(matches!(p.method, Method::Get));
    assert_eq!(p.url, "https://example.com/f");
    // ... and it is issued at most once.
    assert!(stream.begin().is_none());
}

#[test]
fn dropping_an_unpolled_stream_never_yields_the_request() {
    let stream = LazyResponseReader::new(prepared("https://example.com/f"));
    // Never polled: the exchange description is still held inside when
    // the stream is dropped, so no request can have been issued.
    assert_eq!(stream.failure_status(), None);
    drop(stream);
}

#[test]
fn non_success_status_gates_every_read() {
    let mut stream = LazyResponseReader::new(prepared("https://example.com/f"));
    stream.begin().unwrap();
    stream.on_status(404);
    assert_eq!(stream.failure_status(), Some(404));
    for _ in 0..3 {
        match stream.check_ready() {
            Err(Error::ResponseError(code)) => assert_eq!(code, 404),
            _ => panic!("read must fail with the refusing status"),
        }
    }
}

#[test]
fn success_status_starts_streaming() {
    let mut stream = LazyResponseReader::new(prepared("https://example.com/f"));
    stream.begin().unwrap();
    stream.on_status(200);
    assert!(stream.check_ready().is_ok());
    stream.push_chunk(&[1, 2, 3]);
    assert!(!stream.needs_input(2));
    assert_eq!(stream.serve(2), vec![1, 2]);
    assert_eq!(stream.serve(2), vec![3]);
}
