use http_server::error::Error;
use http_server::prelude::{Method, MimeType, Protocol};
use http_server::negotiation::negotiate;
use http_server::request::{Request, MAX_REQUEST_SIZE};
use http_server::prelude::Encoding;

fn header(request: &Request, name: &str) -> Option<String> {
    request.headers.get(name).cloned()
}

#[test]
fn decodes_a_request_without_body() {
    let request = Request::parse(b"GET /echo/hello HTTP/1.1\r\nHost: localhost:4221\r\n\r\n").unwrap();
    assert_eq!(request.method, Method::Get);
    assert_eq!(request.uri, "/echo/hello");
    assert_eq!(request.protocol, Protocol::Http1);
    assert_eq!(request.headers.len(), 1);
    assert_eq!(header(&request, "Host"), Some("localhost:4221".to_string()));
    assert!(request.content.is_none());
}

#[test]
fn decodes_a_request_with_body() {
    let input = b"POST /files/foo.txt HTTP/1.1\r\nContent-Type: application/octet-stream\r\nContent-Length: 3\r\n\r\nabc";
    let request = Request::parse(input).unwrap();
    assert_eq!(request.method, Method::Post);
    assert_eq!(request.uri, "/files/foo.txt");
    let content = request.content.unwrap();
    assert_eq!(content.mime_type, MimeType::OctetStream);
    assert_eq!(content.body, "abc");
}

#[test]
fn keeps_header_values_as_written() {
    let input = b"GET / HTTP/1.1\r\nX-One:  padded \r\nx-one: lower\r\nUser-Agent: curl/8.0\r\n\r\n";
    let request = Request::parse(input).unwrap();
    assert_eq!(header(&request, "X-One"), Some(" padded ".to_string()));
    assert_eq!(header(&request, "x-one"), Some("lower".to_string()));
    assert_eq!(header(&request, "User-Agent"), Some("curl/8.0".to_string()));
    assert_eq!(header(&request, "user-agent"), None);
}

#[test]
fn later_header_replaces_earlier_one() {
    let input = b"GET / HTTP/1.1\r\nA: 1\r\nB: 2\r\nA: 3\r\n\r\n";
    let request = Request::parse(input).unwrap();
    assert_eq!(request.headers.len(), 2);
    assert_eq!(header(&request, "A"), Some("3".to_string()));
    assert_eq!(request.headers.name_at(0), "A");
    assert_eq!(request.headers.value_at(0), "3");
    assert_eq!(request.headers.name_at(1), "B");
}

#[test]
fn first_line_without_separator_ends_the_headers() {
    let input = b"GET / HTTP/1.1\r\nA: 1\r\nnot a header\r\nB: 2\r\n\r\n";
    let request = Request::parse(input).unwrap();
    assert_eq!(request.headers.len(), 1);
    assert_eq!(header(&request, "A"), Some("1".to_string()));
    assert_eq!(header(&request, "B"), None);
}

#[test]
fn header_is_parted_at_first_separator() {
    let request = Request::parse(b"GET / HTTP/1.1\r\nA: b: c\r\n\r\n").unwrap();
    assert_eq!(header(&request, "A"), Some("b: c".to_string()));
}

#[test]
fn header_lines_are_read_as_written() {
    let request = Request::parse(b"GET / HTTP/1.1\r\nA: 1  \r\n\r\n").unwrap();
    assert_eq!(header(&request, "A"), Some("1  ".to_string()));
    let request = Request::parse(b"GET / HTTP/1.1\r\nContent-Length: 0\r\nX: \r\n\r\n").unwrap();
    assert_eq!(request.headers.len(), 2);
    assert_eq!(header(&request, "X"), Some("".to_string()));
    assert_eq!(header(&request, "Content-Length"), Some("0".to_string()));
    let request = Request::parse(b"GET / HTTP/1.1\r\nA: 1\r\nB: \t\r\r\n\r\n").unwrap();
    assert_eq!(header(&request, "B"), Some("\t\r".to_string()));
}

#[test]
fn blank_line_before_the_request_line_is_no_request_line() {
    assert_eq!(
        Request::parse(b"\r\nGET / HTTP/1.1\r\n\r\n").unwrap_err(),
        Error::MalformedStatusLine
    );
    let request = Request::parse(b"  GET / HTTP/1.1\r\nA: 1\r\n\r\n").unwrap();
    assert_eq!(request.method, Method::Get);
}

#[test]
fn line_feed_alone_ends_a_line() {
    let request = Request::parse(b"GET /x HTTP/1.1\nA: 1\nB: 2").unwrap();
    assert_eq!(request.uri, "/x");
    assert_eq!(header(&request, "A"), Some("1".to_string()));
    assert_eq!(header(&request, "B"), Some("2".to_string()));
}

#[test]
fn empty_input_has_no_status_line() {
    assert_eq!(Request::parse(b"").unwrap_err(), Error::MalformedStatusLine);
    assert_eq!(Request::parse(b"\r\n\r\n").unwrap_err(), Error::MalformedStatusLine);
}

#[test]
fn status_line_needs_three_tokens() {
    assert_eq!(Request::parse(b"GET /\r\n\r\n").unwrap_err(), Error::MalformedStatusLine);
    assert_eq!(Request::parse(b"GET\r\n\r\n").unwrap_err(), Error::MalformedStatusLine);
    assert_eq!(
        Request::parse(b"GET / HTTP/1.1 extra\r\n\r\n").unwrap_err(),
        Error::MalformedStatusLine
    );
    assert_eq!(Request::parse(b"GET  HTTP/1.1\r\n\r\n").unwrap_err(), Error::MalformedStatusLine);
    assert_eq!(
        Request::parse(b"GET /a b HTTP/1.1\r\n\r\n").unwrap_err(),
        Error::MalformedStatusLine
    );
}

#[test]
fn any_white_space_parts_the_tokens() {
    let request = Request::parse(b"GET  / HTTP/1.1\r\n\r\n").unwrap();
    assert_eq!((request.method, request.uri.as_str()), (Method::Get, "/"));
    let request = Request::parse(b"POST\t/x \t HTTP/1.1\r\n\r\n").unwrap();
    assert_eq!((request.method, request.uri.as_str()), (Method::Post, "/x"));
    let request = Request::parse("GET\u{a0}/y\u{3000}HTTP/1.1 \r\n\r\n".as_bytes()).unwrap();
    assert_eq!(request.uri, "/y");
    let request = Request::parse(b"GET /z HTTP/1.1 \r\nA: 1\r\n\r\n").unwrap();
    assert_eq!(request.uri, "/z");
    assert_eq!(request.headers.len(), 1);
    let request = Request::parse(b"GET /cr\rHTTP/1.1\r\n\r\n").unwrap();
    assert_eq!(request.uri, "/cr");
}

#[test]
fn unknown_method_is_refused() {
    assert_eq!(Request::parse(b"PUT / HTTP/1.1\r\n\r\n").unwrap_err(), Error::UnsupportedMethod);
    assert_eq!(Request::parse(b"get / HTTP/1.1\r\n\r\n").unwrap_err(), Error::UnsupportedMethod);
}

#[test]
fn unknown_protocol_is_refused() {
    assert_eq!(Request::parse(b"GET / HTTP/2\r\n\r\n").unwrap_err(), Error::UnsupportedProtocol);
}

#[test]
fn method_is_checked_before_protocol() {
    assert_eq!(Request::parse(b"PUT / HTTP/2\r\n\r\n").unwrap_err(), Error::UnsupportedMethod);
}

#[test]
fn header_section_must_be_utf8() {
    assert_eq!(
        Request::parse(b"GET / HTTP/1.1\r\nA: \xff\r\n\r\n").unwrap_err(),
        Error::EncodingError
    );
}

#[test]
fn body_must_be_utf8() {
    let input = b"POST / HTTP/1.1\r\nContent-Type: text/plain\r\nContent-Length: 2\r\n\r\n\xc3\x28";
    assert_eq!(Request::parse(input).unwrap_err(), Error::EncodingError);
}

#[test]
fn non_ascii_text_is_decoded() {
    let input = "POST /caf\u{e9} HTTP/1.1\r\nContent-Type: text/plain\r\nContent-Length: 5\r\n\r\nna\u{ef}ve".as_bytes();
    let request = Request::parse(input).unwrap();
    assert_eq!(request.uri, "/caf\u{e9}");
    assert_eq!(request.content.unwrap().body, "na\u{ef}v");
}

#[test]
fn content_length_must_be_a_number() {
    let input = b"POST / HTTP/1.1\r\nContent-Type: text/plain\r\nContent-Length: abc\r\n\r\nabc";
    assert_eq!(Request::parse(input).unwrap_err(), Error::InvalidContentLength);
    let input = b"POST / HTTP/1.1\r\nContent-Type: text/plain\r\nContent-Length: -1\r\n\r\nabc";
    assert_eq!(Request::parse(input).unwrap_err(), Error::InvalidContentLength);
    let input = b"POST / HTTP/1.1\r\nContent-Type: text/plain\r\nContent-Length: 99999999999999999999999\r\n\r\nabc";
    assert_eq!(Request::parse(input).unwrap_err(), Error::InvalidContentLength);
}

#[test]
fn content_length_may_carry_a_plus_sign() {
    let input = b"POST / HTTP/1.1\r\nContent-Type: text/plain\r\nContent-Length: +2\r\n\r\nabc";
    assert_eq!(Request::parse(input).unwrap().content.unwrap().body, "ab");
}

#[test]
fn media_type_must_be_known() {
    let input = b"POST / HTTP/1.1\r\nContent-Type: image/png\r\nContent-Length: 3\r\n\r\nabc";
    assert_eq!(Request::parse(input).unwrap_err(), Error::UnsupportedMimeType);
}

#[test]
fn body_needs_both_headers() {
    let only_length = b"POST / HTTP/1.1\r\nContent-Length: 3\r\n\r\nabc";
    assert!(Request::parse(only_length).unwrap().content.is_none());
    let only_type = b"POST / HTTP/1.1\r\nContent-Type: text/plain\r\n\r\nabc";
    assert!(Request::parse(only_type).unwrap().content.is_none());
}

#[test]
fn body_is_cut_at_the_announced_length() {
    let input = b"POST / HTTP/1.1\r\nContent-Type: text/plain\r\nContent-Length: 3\r\n\r\nabcdef";
    assert_eq!(Request::parse(input).unwrap().content.unwrap().body, "abc");
}

#[test]
fn short_body_is_taken_as_it_is() {
    let input = b"POST / HTTP/1.1\r\nContent-Type: text/plain\r\nContent-Length: 10\r\n\r\nabc";
    assert_eq!(Request::parse(input).unwrap().content.unwrap().body, "abc");
}

#[test]
fn empty_body_is_content() {
    let input = b"POST / HTTP/1.1\r\nContent-Type: text/plain\r\nContent-Length: 0\r\n\r\n";
    let content = Request::parse(input).unwrap().content.unwrap();
    assert_eq!(content.body, "");
    assert_eq!(content.mime_type, MimeType::PlainText);
}

#[test]
fn body_is_capped_at_the_size_limit() {
    let mut input = b"POST / HTTP/1.1\r\nContent-Type: text/plain\r\nContent-Length: 5000\r\n\r\n".to_vec();
    input.extend(std::iter::repeat(b'a').take(5000));
    let body = Request::parse(&input).unwrap().content.unwrap().body;
    assert_eq!(body.len(), MAX_REQUEST_SIZE);
}

#[test]
fn oversized_header_section_is_refused() {
    let mut input = b"GET /".to_vec();
    input.extend(std::iter::repeat(b'a').take(5000));
    input.extend_from_slice(b" HTTP/1.1\r\n\r\n");
    assert_eq!(Request::parse(&input).unwrap_err(), Error::PayloadTooLarge);
}

#[test]
fn oversized_input_without_blank_line_is_refused() {
    let input = vec![b'a'; MAX_REQUEST_SIZE + 1];
    assert_eq!(Request::parse(&input).unwrap_err(), Error::PayloadTooLarge);
}

#[test]
fn header_section_of_exactly_the_limit_is_accepted() {
    let mut input = b"GET /".to_vec();
    let fixed = b"GET / HTTP/1.1\r\n\r\n".len();
    input.extend(std::iter::repeat(b'a').take(MAX_REQUEST_SIZE - fixed));
    input.extend_from_slice(b" HTTP/1.1\r\n\r\n");
    assert_eq!(input.len(), MAX_REQUEST_SIZE);
    assert!(Request::parse(&input).is_ok());
    input.insert(5, b'a');
    assert_eq!(Request::parse(&input).unwrap_err(), Error::PayloadTooLarge);
}

#[test]
fn size_limit_comes_before_encoding() {
    let mut input = vec![0xffu8; MAX_REQUEST_SIZE + 1];
    input.extend_from_slice(b"\r\n\r\n");
    assert_eq!(Request::parse(&input).unwrap_err(), Error::PayloadTooLarge);
}

#[test]
fn decoding_gives_back_what_was_written() {
    let body = "first line\nsecond line";
    let input = format!(
        "POST /files/notes.txt HTTP/1.1\r\nHost: example.org\r\nContent-Type: text/plain\r\nContent-Length: {}\r\nAccept-Encoding: gzip\r\n\r\n{}",
        body.len(),
        body
    );
    let request = Request::parse(input.as_bytes()).unwrap();
    assert_eq!(request.method, Method::Post);
    assert_eq!(request.uri, "/files/notes.txt");
    assert_eq!(request.protocol, Protocol::Http1);
    assert_eq!(request.headers.len(), 4);
    assert_eq!(header(&request, "Host"), Some("example.org".to_string()));
    assert_eq!(header(&request, "Content-Type"), Some("text/plain".to_string()));
    assert_eq!(header(&request, "Content-Length"), Some("22".to_string()));
    assert_eq!(header(&request, "Accept-Encoding"), Some("gzip".to_string()));
    let content = request.content.unwrap();
    assert_eq!(content.mime_type, MimeType::PlainText);
    assert_eq!(content.body, body);
}

#[test]
fn negotiation_picks_a_supported_encoding() {
    let request = Request::parse(b"GET / HTTP/1.1\r\nAccept-Encoding: deflate, gzip, br\r\n\r\n").unwrap();
    assert_eq!(negotiate(&request.headers), Some(Encoding::Gzip));
    let request = Request::parse(b"GET / HTTP/1.1\r\nAccept-Encoding: deflate,gzip\r\n\r\n").unwrap();
    assert_eq!(negotiate(&request.headers), Some(Encoding::Gzip));
    let request = Request::parse(b"GET / HTTP/1.1\r\nAccept-Encoding: gzip\r\n\r\n").unwrap();
    assert_eq!(negotiate(&request.headers), Some(Encoding::Gzip));
}

#[test]
fn negotiation_ignores_what_it_does_not_know() {
    let request = Request::parse(b"GET / HTTP/1.1\r\nAccept-Encoding: deflate, br\r\n\r\n").unwrap();
    assert_eq!(negotiate(&request.headers), None);
    let request = Request::parse(b"GET / HTTP/1.1\r\nAccept-Encoding: gzip;q=0.5\r\n\r\n").unwrap();
    assert_eq!(negotiate(&request.headers), None);
    let request = Request::parse(b"GET / HTTP/1.1\r\nAccept-Encoding: GZIP\r\n\r\n").unwrap();
    assert_eq!(negotiate(&request.headers), None);
    let request = Request::parse(b"GET / HTTP/1.1\r\nAccept-Encoding: x,  gzip\r\n\r\n").unwrap();
    assert_eq!(negotiate(&request.headers), None);
    let request = Request::parse(b"GET / HTTP/1.1\r\n\r\n").unwrap();
    assert_eq!(negotiate(&request.headers), None);
}
