use jsonrpc_wire::error::{INVALID_REQUEST, PARSE_ERROR};
use jsonrpc_wire::helpers::get_content_length;
use jsonrpc_wire::stream::{get_content_from_reader, SliceSource};

#[test]
fn test_get_content_length() {
    let bytes = "Foo: HTTP/1.1\r\nContent-Length: 5\r\n\r\nHelloEXTRA";
    let (message, remainder) = get_content_length(bytes.as_bytes()).unwrap();
    assert_eq!(message, b"Hello");
    assert_eq!(remainder, b"EXTRA");
}

#[test]
fn test_get_buffer_from_reader() {
    let bytes = "Foo: HTTP/1.1\r\nContent-Length: 5\r\n\r\nHelloEXTRA";
    let mut src = SliceSource::new(bytes.as_bytes().to_vec());
    let (n, contents) = get_content_from_reader(&mut src).unwrap();
    assert_eq!(n, 41);
    assert_eq!(contents, b"Hello");
}

#[test]
fn header_key_is_case_insensitive() {
    for key in ["content-length", "Content-Length", "CONTENT-LENGTH"] {
        let input = format!("{}: 5\r\n\r\nHelloEXTRA", key);
        let (message, remainder) = get_content_length(input.as_bytes()).unwrap();
        assert_eq!(message, b"Hello");
        assert_eq!(remainder, b"EXTRA");
    }
}

#[test]
fn header_key_is_trimmed() {
    let input = "  Content-Length\t: 5\r\n\r\nHello";
    let (message, _) = get_content_length(input.as_bytes()).unwrap();
    assert_eq!(message, b"Hello");
}

#[test]
fn header_value_accepts_plus_sign() {
    let input = "Content-Length: +5\r\n\r\nHello";
    let (message, _) = get_content_length(input.as_bytes()).unwrap();
    assert_eq!(message, b"Hello");
}

#[test]
fn first_content_length_wins() {
    let input = "Content-Length: 5\r\nContent-Length: 9\r\n\r\nHelloEXTRA";
    let (message, remainder) = get_content_length(input.as_bytes()).unwrap();
    assert_eq!(message, b"Hello");
    assert_eq!(remainder, b"EXTRA");
}

#[test]
fn bare_newlines_are_accepted() {
    let input = "Content-Length: 5\n\nHelloEXTRA";
    let (message, remainder) = get_content_length(input.as_bytes()).unwrap();
    assert_eq!(message, b"Hello");
    assert_eq!(remainder, b"EXTRA");
}

#[test]
fn truncated_body_fails() {
    // The data carries the text after the terminator line.
    let input = "Content-Length: 10\r\n\r\nHello";
    let err = get_content_length(input.as_bytes()).unwrap_err();
    assert_eq!(err.code, INVALID_REQUEST);
    assert_eq!(err.message, "the provided request is invalid");
    assert_eq!(err.data, Some(serde_json::Value::from("Hello")));
}

#[test]
fn missing_blank_line_fails() {
    // The data carries the unconsumed remainder where the blank-line scan
    // ran out of lines.
    let input = "Content-Length: 5\r\nHello";
    let err = get_content_length(input.as_bytes()).unwrap_err();
    assert_eq!(err.code, INVALID_REQUEST);
    assert_eq!(err.message, "the provided request header is invalid");
    assert_eq!(err.data, Some(serde_json::Value::from("Hello")));
}

#[test]
fn missing_newline_fails() {
    let input = "Content-Length: 5";
    let err = get_content_length(input.as_bytes()).unwrap_err();
    assert_eq!(err.code, INVALID_REQUEST);
}

#[test]
fn header_line_without_colon_fails() {
    let input = "Content-Length 5\r\n\r\nHello";
    let err = get_content_length(input.as_bytes()).unwrap_err();
    assert_eq!(err.code, INVALID_REQUEST);
}

#[test]
fn non_numeric_length_fails() {
    let input = "Content-Length: five\r\n\r\nHello";
    let err = get_content_length(input.as_bytes()).unwrap_err();
    assert_eq!(err.code, INVALID_REQUEST);
}

#[test]
fn streaming_truncated_body_fails() {
    let input = "Content-Length: 10\r\n\r\nHello";
    let mut src = SliceSource::new(input.as_bytes().to_vec());
    let err = get_content_from_reader(&mut src).unwrap_err();
    assert_eq!(err.code, INVALID_REQUEST);
}

#[test]
fn streaming_rejects_invalid_utf8_body() {
    let mut input = b"Content-Length: 2\r\n\r\n".to_vec();
    input.push(0xff);
    input.push(0xfe);
    let mut src = SliceSource::new(input);
    let err = get_content_from_reader(&mut src).unwrap_err();
    assert_eq!(err.code, PARSE_ERROR);
}

#[test]
fn header_value_whitespace_is_trimmed() {
    let input = "Content-Length: \t 5 \t\r\n\r\nHelloEXTRA";
    let (message, remainder) = get_content_length(input.as_bytes()).unwrap();
    assert_eq!(message, b"Hello");
    assert_eq!(remainder, b"EXTRA");
}

#[test]
fn header_value_with_inner_whitespace_fails() {
    let input = "Content-Length: 1 0\r\n\r\nHello world";
    let err = get_content_length(input.as_bytes()).unwrap_err();
    assert_eq!(err.code, INVALID_REQUEST);
}

#[test]
fn empty_header_value_fails() {
    let input = "Content-Length: \r\n\r\nHello";
    let err = get_content_length(input.as_bytes()).unwrap_err();
    assert_eq!(err.code, INVALID_REQUEST);
}

#[test]
fn zero_length_payload_is_empty() {
    let input = "Content-Length: 0\r\n\r\nEXTRA";
    let (message, remainder) = get_content_length(input.as_bytes()).unwrap();
    assert_eq!(message, b"");
    assert_eq!(remainder, b"EXTRA");
}

#[test]
fn framing_errors_echo_the_unconsumed_remainder() {
    // A value that is no number fails on its own line; the data carries what
    // follows that line.
    let input = "Content-Length: five\r\n\r\nHello";
    let err = get_content_length(input.as_bytes()).unwrap_err();
    assert_eq!(err.message, "the provided request header is invalid");
    assert_eq!(err.data, Some(serde_json::Value::from("\r\nHello")));

    let input = "Content-Length: abc\r\n\r\n";
    let err = get_content_length(input.as_bytes()).unwrap_err();
    assert_eq!(err.data, Some(serde_json::Value::from("\r\n")));
}

#[test]
fn streaming_header_without_final_newline_still_frames() {
    // A source that ends right after the blank line and a zero-length body:
    // exhaustion reads as a line end, so the count runs one past the input.
    let input = "Content-Length: 0";
    let mut src = SliceSource::new(input.as_bytes().to_vec());
    let (n, contents) = get_content_from_reader(&mut src).unwrap();
    assert_eq!(n, input.len() + 2);
    assert_eq!(contents, b"");
}

#[test]
fn streaming_counts_header_and_body_bytes() {
    // Two header lines of 15 and 17 bytes (their `\r` included, their `\n`
    // counted as one more each), the blank `\r` line, then 5 body bytes.
    let input = "Foo: HTTP/1.1\r\nContent-Length: 5\r\n\r\nHello";
    let mut src = SliceSource::new(input.as_bytes().to_vec());
    let (n, contents) = get_content_from_reader(&mut src).unwrap();
    assert_eq!(n, input.len());
    assert_eq!(contents, b"Hello");
}
