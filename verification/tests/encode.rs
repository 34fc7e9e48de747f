use std::io::Read;

use http_server::fields::TextMap;
use http_server::prelude::{Content, Encoding, MimeType, Protocol, StatusCode};
use http_server::request::Request;
use http_server::response::Response;

fn plain(code: StatusCode, content: Option<Content>) -> Response {
    Response { protocol: Protocol::Http1, code, content, headers: TextMap::new(), encoding: None }
}

fn split_head(bytes: &[u8]) -> (String, Vec<u8>) {
    let at = bytes.windows(4).position(|w| w == b"\r\n\r\n").unwrap();
    (String::from_utf8(bytes[..at + 4].to_vec()).unwrap(), bytes[at + 4..].to_vec())
}

#[test]
fn response_without_content_is_status_line_and_blank_line() {
    let mut response = plain(StatusCode::Okay, None);
    assert_eq!(response.encode(), b"HTTP/1.1 200 OK\r\n\r\n".to_vec());
    let mut response = plain(StatusCode::NotFound, None);
    assert_eq!(response.encode(), b"HTTP/1.1 404 Not Found\r\n\r\n".to_vec());
}

#[test]
fn every_status_has_its_code_and_reason() {
    assert_eq!(StatusCode::Okay.describe(), "200 OK");
    assert_eq!(StatusCode::Created.describe(), "201 Created");
    assert_eq!(StatusCode::Forbidden.describe(), "403 Forbidden");
    assert_eq!(StatusCode::NotFound.describe(), "404 Not Found");
    assert_eq!(StatusCode::MethodNotAllowed.describe(), "405 Method Not Allowed");
    assert_eq!(StatusCode::InternalError.describe(), "500 Internal Error");
    assert_eq!(StatusCode::Forbidden.code(), 403);
    assert_eq!(StatusCode::InternalError.reason(), "Internal Error");
}

#[test]
fn response_with_content_describes_its_body() {
    let mut response = plain(StatusCode::Okay, Some(Content::new(MimeType::PlainText, "hello")));
    assert_eq!(
        response.encode(),
        b"HTTP/1.1 200 OK\r\nContent-Type: text/plain\r\nContent-Length: 5\r\n\r\nhello".to_vec()
    );
}

#[test]
fn content_length_counts_bytes() {
    let mut response = plain(StatusCode::Okay, Some(Content::new(MimeType::Html, "na\u{ef}ve")));
    let (head, body) = split_head(&response.encode());
    assert_eq!(head, "HTTP/1.1 200 OK\r\nContent-Type: text/html\r\nContent-Length: 6\r\n\r\n");
    assert_eq!(body, "na\u{ef}ve".as_bytes());
}

#[test]
fn own_headers_come_before_the_derived_ones() {
    let mut response = plain(StatusCode::Created, Some(Content::new(MimeType::OctetStream, "x")));
    response.headers.insert("X-First".to_string(), "1".to_string());
    response.headers.insert("X-Second".to_string(), "2".to_string());
    assert_eq!(
        response.encode(),
        b"HTTP/1.1 201 Created\r\nX-First: 1\r\nX-Second: 2\r\nContent-Type: application/octet-stream\r\nContent-Length: 1\r\n\r\nx".to_vec()
    );
}

#[test]
fn headers_that_describe_the_body_are_never_taken_from_the_caller() {
    let mut response = plain(StatusCode::Okay, Some(Content::new(MimeType::PlainText, "abc")));
    response.headers.insert("Content-Length".to_string(), "999".to_string());
    response.headers.insert("Content-Type".to_string(), "image/png".to_string());
    response.headers.insert("Content-Encoding".to_string(), "br".to_string());
    response.headers.insert("X-Kept".to_string(), "yes".to_string());
    assert_eq!(
        response.encode(),
        b"HTTP/1.1 200 OK\r\nX-Kept: yes\r\nContent-Type: text/plain\r\nContent-Length: 3\r\n\r\nabc".to_vec()
    );
    let mut empty = plain(StatusCode::Okay, None);
    empty.headers.insert("Content-Length".to_string(), "999".to_string());
    assert_eq!(empty.encode(), b"HTTP/1.1 200 OK\r\n\r\n".to_vec());
}

#[test]
fn encoding_leaves_the_response_as_it_was() {
    let mut response = plain(StatusCode::Okay, Some(Content::new(MimeType::PlainText, "abc")));
    let first = response.encode();
    let second = response.encode();
    assert_eq!(first, second);
    assert_eq!(response.content.unwrap().body, "abc");
}

#[test]
fn compressed_body_decompresses_to_the_text() {
    let text = "hello hello hello hello hello hello hello hello";
    let mut response = plain(StatusCode::Okay, Some(Content::new(MimeType::PlainText, text)));
    response.encoding = Some(Encoding::Gzip);
    let (head, body) = split_head(&response.encode());
    assert_eq!(
        head,
        format!(
            "HTTP/1.1 200 OK\r\nContent-Encoding: gzip\r\nContent-Type: text/plain\r\nContent-Length: {}\r\n\r\n",
            body.len()
        )
    );
    assert_ne!(body, text.as_bytes());
    assert_eq!(&body[..3], &[0x1f, 0x8b, 8]);
    let mut decoded = String::new();
    flate2::read::GzDecoder::new(&body[..]).read_to_string(&mut decoded).unwrap();
    assert_eq!(decoded, text);
}

#[test]
fn encoding_without_content_writes_no_content_encoding() {
    let mut response = plain(StatusCode::Okay, None);
    response.encoding = Some(Encoding::Gzip);
    assert_eq!(response.encode(), b"HTTP/1.1 200 OK\r\n\r\n".to_vec());
}

#[test]
fn failed_compression_falls_back_to_the_plain_body() {
    let mut response = plain(StatusCode::Okay, Some(Content::new(MimeType::PlainText, "abc")));
    response.encoding = Some(Encoding::Gzip);
    assert_eq!(
        response.encode_with(None),
        b"HTTP/1.1 200 OK\r\nContent-Type: text/plain\r\nContent-Length: 3\r\n\r\nabc".to_vec()
    );
}

#[test]
fn given_compression_is_used_only_with_an_encoding() {
    let packed = vec![1u8, 2, 3, 4];
    let mut response = plain(StatusCode::Okay, Some(Content::new(MimeType::PlainText, "abc")));
    assert_eq!(
        response.encode_with(Some(packed.clone())),
        b"HTTP/1.1 200 OK\r\nContent-Type: text/plain\r\nContent-Length: 3\r\n\r\nabc".to_vec()
    );
    response.encoding = Some(Encoding::Gzip);
    let mut expected =
        b"HTTP/1.1 200 OK\r\nContent-Encoding: gzip\r\nContent-Type: text/plain\r\nContent-Length: 4\r\n\r\n".to_vec();
    expected.extend_from_slice(&packed);
    assert_eq!(response.encode_with(Some(packed)), expected);
}

#[test]
fn answer_takes_protocol_and_encoding_from_the_request() {
    let request = Request::parse(b"GET / HTTP/1.1\r\nAccept-Encoding: gzip\r\n\r\n").unwrap();
    let response = request.response(StatusCode::Okay, None).unwrap();
    assert_eq!(response.protocol, Protocol::Http1);
    assert_eq!(response.code, StatusCode::Okay);
    assert_eq!(response.encoding, Some(Encoding::Gzip));
    assert_eq!(response.headers.len(), 0);
    assert!(response.content.is_none());
    let request = Request::parse(b"GET / HTTP/1.1\r\n\r\n").unwrap();
    let response = request.reply(StatusCode::Created, Some(Content::new(MimeType::Html, "<p>")));
    assert_eq!(response.code, StatusCode::Created);
    assert_eq!(response.encoding, None);
    assert_eq!(response.content.unwrap().body, "<p>");
}

#[test]
fn content_describes_itself() {
    let content = Content::new(MimeType::PlainText, "na\u{ef}ve");
    assert_eq!(content.describe(), "Content(text/plain, 6 B)");
}
