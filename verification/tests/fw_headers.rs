use family_frame::fw::headers::{
    copy_checksum, find_header_end, header_value, parse_response, parse_status, ResponseReader,
    HEADER_MAX,
};

fn response(status: &str, extra_headers: &str, body: &[u8]) -> Vec<u8> {
    let mut raw = format!("HTTP/1.1 {status}\r\n{extra_headers}\r\n").into_bytes();
    raw.extend_from_slice(body);
    raw
}

#[test]
fn status_200_and_304() {
    assert_eq!(parse_status("HTTP/1.1 200 OK\r\n"), Some(200));
    assert_eq!(parse_status("HTTP/1.0 304 Not Modified\r\n"), Some(304));
    assert_eq!(parse_status("HTTP/1.1 204 No Content\r\n"), Some(204));
    assert_eq!(parse_status("broken"), None);
}

#[test]
fn empty_204_body() {
    let raw = response("204 No Content", "X-Frame-Checksum: abc\r\n", b"");
    let mut dest = [0u8; 8];
    let (status, n, etag) = parse_response(&raw, &mut dest).expect("parse");
    assert_eq!(status, 204);
    assert_eq!(n, 0);
    assert_eq!(etag.as_str(), "abc");
}

#[test]
fn checksum_prefers_x_frame_over_quoted_etag() {
    let headers = "HTTP/1.1 200 OK\r\n\
         ETag: \"old\"\r\n\
         X-Frame-Checksum: deadbeef\r\n\r\n";
    assert_eq!(copy_checksum(headers).as_str(), "deadbeef");
}

#[test]
fn checksum_falls_back_to_etag_and_strips_quotes() {
    let headers = "HTTP/1.1 200 OK\r\nETag: \"abc123\"\r\n\r\n";
    assert_eq!(copy_checksum(headers).as_str(), "abc123");
}

#[test]
fn header_names_are_case_insensitive() {
    let headers = "HTTP/1.1 200 OK\r\nx-frame-checksum: AbC\r\n\r\n";
    assert_eq!(copy_checksum(headers).as_str(), "AbC");
    assert_eq!(header_value(headers, "X-Frame-Checksum").as_deref(), Some("AbC"));
}

#[test]
fn binary_body_after_headers_is_not_utf8_parsed() {
    let body = [
        0xFF, 0x00, 0xFE, b'\n', b'E', b'T', b'a', b'g', b':', b' ', b'x',
    ];
    let raw = response("200 OK", "X-Frame-Checksum: good\r\n", &body);
    let mut dest = [0u8; 32];
    let (status, n, etag) = parse_response(&raw, &mut dest).expect("parse");
    assert_eq!(status, 200);
    assert_eq!(n, body.len());
    assert_eq!(&dest[..n], &body);
    assert_eq!(etag.as_str(), "good");
}

#[test]
fn headers_split_across_chunks() {
    let mut dest = [0u8; 8];
    let mut r = ResponseReader::new();
    assert!(r.feed(b"HTTP/1.1 200 OK\r\nX-Frame-", &mut dest));
    assert!(r.finish().is_none());
    assert!(r.feed(b"Checksum: ab\r\n\r\nXY", &mut dest));
    let (status, n, etag) = r.finish().expect("complete");
    assert_eq!(status, 200);
    assert_eq!(n, 2);
    assert_eq!(&dest[..2], b"XY");
    assert_eq!(etag.as_str(), "ab");
}

#[test]
fn body_overflow_is_rejected() {
    let raw = response("200 OK", "", b"12345");
    let mut dest = [0u8; 4];
    assert!(parse_response(&raw, &mut dest).is_none());
}

#[test]
fn incomplete_headers_fail() {
    let mut dest = [0u8; 8];
    assert!(parse_response(b"HTTP/1.1 200 OK\r\nETag: x\r\n", &mut dest).is_none());
}

#[test]
fn headers_larger_than_buffer_fail() {
    let mut huge = b"HTTP/1.1 200 OK\r\n".to_vec();
    while huge.len() < HEADER_MAX + 8 {
        huge.extend_from_slice(b"X-Pad: yyyyyyyyyyyyyyyy\r\n");
    }
    huge.extend_from_slice(b"\r\n");
    let mut dest = [0u8; 8];
    assert!(parse_response(&huge, &mut dest).is_none());
}

#[test]
fn header_end_is_just_past_the_blank_line() {
    assert_eq!(find_header_end(b"A\r\n\r\nbody"), Some(5));
    assert_eq!(find_header_end(b"A\r\n\r"), None);
    assert_eq!(find_header_end(b""), None);
}

#[test]
fn feeding_byte_by_byte_matches_one_shot() {
    let raw = response("200 OK", "ETag: \"q1\"\r\n", b"abc");
    let mut one = [0u8; 8];
    let whole = parse_response(&raw, &mut one).expect("whole");
    let mut dest = [0u8; 8];
    let mut r = ResponseReader::new();
    for b in &raw {
        assert!(r.feed(std::slice::from_ref(b), &mut dest));
    }
    assert_eq!(r.finish().expect("bytes"), whole);
    assert_eq!(&dest[..3], b"abc");
}

#[test]
fn overflowed_reader_stays_failed() {
    let mut dest = [0u8; 2];
    let mut r = ResponseReader::new();
    assert!(!r.feed(b"HTTP/1.1 200 OK\r\n\r\nabc", &mut dest));
    assert!(!r.feed(b"", &mut dest));
    assert!(r.finish().is_none());
}

#[test]
fn long_checksum_is_dropped() {
    let long = "a".repeat(81);
    let headers = format!("HTTP/1.1 200 OK\r\nX-Frame-Checksum: {long}\r\n\r\n");
    assert_eq!(copy_checksum(&headers).as_str(), "");
    let ok = "b".repeat(80);
    let headers = format!("HTTP/1.1 200 OK\r\nX-Frame-Checksum: {ok}\r\n\r\n");
    assert_eq!(copy_checksum(&headers), ok);
}

#[test]
fn chunked_and_whole_feeds_leave_equal_buffers() {
    let raw = response("200 OK", "X-Frame-Checksum: ab\r\n", b"XYZ");
    let mut whole = [7u8; 8];
    let mut r1 = ResponseReader::new();
    assert!(r1.feed(&raw, &mut whole));
    let mut chunked = [7u8; 8];
    let mut r2 = ResponseReader::new();
    for piece in raw.chunks(5) {
        assert!(r2.feed(piece, &mut chunked));
    }
    assert_eq!(whole, chunked);
    assert_eq!(&whole[3..], &[7u8; 5]);
    assert_eq!(r1.finish(), r2.finish());
}

#[test]
fn overflow_after_headers_writes_nothing() {
    let mut dest = [0u8; 4];
    let mut r = ResponseReader::new();
    assert!(r.feed(b"HTTP/1.1 200 OK\r\n\r\nAB", &mut dest));
    assert!(!r.feed(b"CDE", &mut dest));
    assert_eq!(dest, [b'A', b'B', 0, 0]);
    assert!(!r.feed(b"F", &mut dest));
    assert!(r.finish().is_none());
}
