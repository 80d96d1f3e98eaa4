use http_packet::reader::{
    read_full_packet, read_until_crlf, read_until_double_crlf, MemSource, ReadErr, ReadErrKind,
};

#[test]
fn reads_up_to_crlf() {
    let input = b"Hello, world!\r\nRest of the data";
    let mut source = MemSource::new(input.to_vec());

    let result = read_until_crlf(&mut source);
    assert_eq!(result, b"Hello, world!\r\n".to_vec());
}

#[test]
fn handles_no_crlf() {
    let input = b"No line ending here";
    let mut source = MemSource::new(input.to_vec());

    let result = read_until_crlf(&mut source);
    assert_eq!(result, input.to_vec()); // Reads entire input since no CRLF
}

#[test]
fn reader_handles_empty_input() {
    let mut source = MemSource::new(Vec::new());
    let result = read_until_crlf(&mut source);
    assert_eq!(result, Vec::<u8>::new());

    let mut source2 = MemSource::new(Vec::new());
    let result2 = read_until_double_crlf(&mut source2);
    assert_eq!(result2, Vec::<u8>::new());
}

#[test]
fn stops_at_first_crlf() {
    let input = b"Line one\r\nLine two\r\n";
    let mut source = MemSource::new(input.to_vec());

    let result = read_until_crlf(&mut source);
    assert_eq!(result, b"Line one\r\n".to_vec());
}

#[test]
fn reads_up_to_double_crlf() {
    let input = b"Header line 1\r\nHeader line 2\r\n\r\nBody starts here";
    let mut source = MemSource::new(input.to_vec());

    let result = read_until_double_crlf(&mut source);
    assert_eq!(result, b"Header line 1\r\nHeader line 2\r\n\r\n".to_vec());
}

#[test]
fn handles_no_double_crlf() {
    let input = b"Just some text without the sequence";
    let mut source = MemSource::new(input.to_vec());

    let result = read_until_double_crlf(&mut source);
    assert_eq!(result, input.to_vec()); // Reads entire input since no terminator
}

#[test]
fn stops_at_first_double_crlf() {
    let input = b"First block\r\n\r\nSecond block\r\n\r\n";
    let mut source = MemSource::new(input.to_vec());

    let result = read_until_double_crlf(&mut source);
    assert_eq!(result, b"First block\r\n\r\n".to_vec());
}

#[test]
fn handles_partial_sequence_at_end() {
    let input = b"Almost there\r\n";
    let mut source = MemSource::new(input.to_vec());

    let result = read_until_double_crlf(&mut source);
    assert_eq!(result, input.to_vec()); // Doesn't find the full terminator
}

#[test]
fn reads_http_1_0_request_without_body() {
    let request = b"GET /index.html HTTP/1.0\r\nHost: example.com\r\n\r\n";
    let mut source = MemSource::new(request.to_vec());

    let result = read_full_packet(&mut source).unwrap();
    assert_eq!(result, (String::from_utf8_lossy(request).into_owned(), None));
}

#[test]
fn reads_http_1_0_response_with_body() {
    let response = b"HTTP/1.0 200 OK\r\nContent-Length: 13\r\n\r\nHello, world!";
    let mut source = MemSource::new(response.to_vec());

    let (headers, body) = read_full_packet(&mut source).unwrap();
    assert_eq!(headers, "HTTP/1.0 200 OK\r\nContent-Length: 13\r\n\r\n");
    assert_eq!(body, Some("Hello, world!".to_string()));
}

#[test]
fn returns_error_on_incomplete_headers() {
    let incomplete = b"GET / HTTP/1.0\r\nHost: example.com\r\n"; // Missing the terminator
    let mut source = MemSource::new(incomplete.to_vec());

    let result = read_full_packet(&mut source);
    assert!(result.is_err());
    assert_eq!(result.unwrap_err().kind(), ReadErrKind::UnexpectedEof);
}

#[test]
fn returns_error_on_incomplete_body() {
    let partial_body = b"HTTP/1.0 200 OK\r\nContent-Length: 20\r\n\r\nShort body";
    let mut source = MemSource::new(partial_body.to_vec());

    let result = read_full_packet(&mut source);
    assert!(result.is_err());
    assert_eq!(result.unwrap_err().kind(), ReadErrKind::UnexpectedEof);
}

#[test]
fn handles_request_with_content_length_zero() {
    let request = b"POST /submit HTTP/1.0\r\nContent-Length: 0\r\n\r\n";
    let mut source = MemSource::new(request.to_vec());

    let result = read_full_packet(&mut source).unwrap();
    assert_eq!(
        result,
        (String::from_utf8_lossy(request).into_owned(), Some(String::new()))
    );
}

#[test]
fn returns_error_on_invalid_content_length() {
    let bad_header = b"HTTP/1.0 200 OK\r\nContent-Length: notanumber\r\n\r\n";
    let mut source = MemSource::new(bad_header.to_vec());

    let result = read_full_packet(&mut source);
    assert!(result.is_err());
    assert_eq!(result.unwrap_err().kind(), ReadErrKind::InvalidData);
}

#[test]
fn content_length_name_is_case_insensitive() {
    let request = b"POST /u HTTP/1.0\r\ncOnTeNt-LeNgTh: 3\r\n\r\nabc";
    let mut source = MemSource::new(request.to_vec());

    let (_, body) = read_full_packet(&mut source).unwrap();
    assert_eq!(body, Some("abc".to_string()));
}

#[test]
fn body_read_stops_exactly_at_announced_length() {
    let request = b"POST /u HTTP/1.0\r\nContent-Length: 3\r\n\r\nabcdef";
    let mut source = MemSource::new(request.to_vec());

    let (_, body) = read_full_packet(&mut source).unwrap();
    assert_eq!(body, Some("abc".to_string()));
    // the rest of the stream stays unread
    let rest = read_until_crlf(&mut source);
    assert_eq!(rest, b"def".to_vec());
}

#[test]
fn eof_error_reports_expected_and_received() {
    let partial = b"HTTP/1.0 200 OK\r\nContent-Length: 20\r\n\r\nShort body";
    let mut source = MemSource::new(partial.to_vec());

    let err = read_full_packet(&mut source).unwrap_err();
    assert_eq!(err, ReadErr::EofInBody { expected: 20, received: 10 });
}

#[test]
fn first_content_length_wins() {
    let request = b"POST /u HTTP/1.0\r\nContent-Length: 2\r\nContent-Length: 4\r\n\r\nabcd";
    let mut source = MemSource::new(request.to_vec());

    let (_, body) = read_full_packet(&mut source).unwrap();
    assert_eq!(body, Some("ab".to_string()));
}

#[test]
fn content_length_overflow_is_invalid_data() {
    let request = b"POST /u HTTP/1.0\r\nContent-Length: 99999999999999999999999999\r\n\r\n";
    let mut source = MemSource::new(request.to_vec());

    let result = read_full_packet(&mut source);
    assert_eq!(result.unwrap_err().kind(), ReadErrKind::InvalidData);
}

#[test]
fn content_length_with_plus_sign() {
    // str::parse::<usize> accepts an explicit plus sign
    let request = b"POST /u HTTP/1.0\r\nContent-Length: +3\r\n\r\nabc";
    let mut source = MemSource::new(request.to_vec());

    let (_, body) = read_full_packet(&mut source).unwrap();
    assert_eq!(body, Some("abc".to_string()));
}
