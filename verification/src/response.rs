//! Responses and their encoding for the wire.

use vstd::prelude::*;
use vstd::string::StringExecFns;
use vstd::utf8::encode_utf8;

use crate::decimal::{decimal, format_number};
use crate::fields::{lemma_position, position, stored, TextMap};
use crate::prelude::{Content, ContentView, Encoding, Protocol, StatusCode};
use crate::text::same_text;
use crate::trusted::{gzip, gzip_of};

verus! {

/// An answer to a request.
///
/// `headers` holds what a handler adds. The headers that describe the body
/// (`Content-Type`, `Content-Length`, `Content-Encoding`) are derived from
/// `content` and `encoding` when the response is encoded.
#[derive(Debug)]
pub struct Response {
    pub protocol: Protocol,
    pub code: StatusCode,
    pub content: Option<Content>,
    pub headers: TextMap,
    pub encoding: Option<Encoding>,
}

/// What a `Response` holds.
pub struct ResponseView {
    pub protocol: Protocol,
    pub code: StatusCode,
    pub content: Option<ContentView>,
    pub headers: Seq<(Seq<char>, Seq<char>)>,
    pub encoding: Option<Encoding>,
}

impl View for Response {
    type V = ResponseView;

    open spec fn view(&self) -> ResponseView {
        ResponseView {
            protocol: self.protocol,
            code: self.code,
            content: match self.content {
                Some(c) => Some(c@),
                None => None,
            },
            headers: self.headers@,
            encoding: self.encoding,
        }
    }
}

impl ResponseView {
    /// A one-line description: protocol version and status, and the content if
    /// there is any.
    pub open spec fn summary(self) -> Seq<char> {
        let line = "Response: "@ + self.protocol.text() + " "@ + self.code.text();
        match self.content {
            Some(content) => line + " -> "@ + content.summary(),
            None => line,
        }
    }
}

/// Content as it stands in a message: the headers that describe it, a blank
/// line and the body.
pub open spec fn content_text(content: ContentView) -> Seq<char> {
    body_lines(content, None, encode_utf8(content.body).len()) + content.body
}

impl Content {
    /// The content as it stands in a message: the headers that describe it, a
    /// blank line and the body.
    pub fn to_text(&self) -> (r: String)
        ensures
            r@ == content_text(self@),
    {
        let mut r = String::new();
        push_header(&mut r, "Content-Type", self.mime_type.as_str());
        let length = format_number(self.body.as_str().as_bytes().len() as u64);
        push_header(&mut r, "Content-Length", length.as_str());
        r.append("\r\n");
        r.append(self.body.as_str());
        r
    }
}

/// Whether a header of this name describes the body. Such a header is written
/// from the content and the encoding of a response, never from its `headers`.
pub open spec fn is_derived(name: Seq<char>) -> bool {
    name == "Content-Type"@ || name == "Content-Length"@ || name == "Content-Encoding"@
}

/// The first line of a response.
pub open spec fn status_line(protocol: Protocol, code: StatusCode) -> Seq<char> {
    protocol.text() + " "@ + code.text() + "\r\n"@
}

/// One header as a line.
pub open spec fn header_line(name: Seq<char>, value: Seq<char>) -> Seq<char> {
    name + ": "@ + value + "\r\n"@
}

/// The lines of the headers of `headers` that do not describe the body, in
/// order.
pub open spec fn header_lines(headers: Seq<(Seq<char>, Seq<char>)>) -> Seq<char>
    decreases headers.len(),
{
    if headers.len() == 0 {
        Seq::empty()
    } else {
        let (name, value) = headers.last();
        if is_derived(name) {
            header_lines(headers.drop_last())
        } else {
            header_lines(headers.drop_last()) + header_line(name, value)
        }
    }
}

/// The lines that describe a body of `length` bytes and of the media type of
/// `content`, which is encoded with `encoding` if that is given, followed by
/// the blank line that ends the header section.
pub open spec fn body_lines(content: ContentView, encoding: Option<Encoding>, length: nat) -> Seq<
    char,
> {
    let encoding_line = match encoding {
        Some(e) => header_line("Content-Encoding"@, e.text()),
        None => Seq::empty(),
    };
    encoding_line + header_line("Content-Type"@, content.mime_type.text()) + header_line(
        "Content-Length"@,
        decimal(length),
    ) + "\r\n"@
}

/// The bytes of the response `r` on the wire, where `compressed` is what
/// compressing the body gave, if it was tried and succeeded.
///
/// The status line comes first, then the headers of `r.headers` that do not
/// describe the body. A response without content ends with a blank line. One
/// with content goes on with `Content-Encoding` if the body is compressed, with
/// `Content-Type` and `Content-Length`, a blank line and the body: compressed
/// if `r.encoding` is set and `compressed` is given, else as it is.
pub open spec fn encoded(r: ResponseView, compressed: Option<Seq<u8>>) -> Seq<u8> {
    let opening = status_line(r.protocol, r.code) + header_lines(r.headers);
    match r.content {
        None => encode_utf8(opening + "\r\n"@),
        Some(content) => match (r.encoding, compressed) {
            (Some(e), Some(body)) => encode_utf8(
                opening + body_lines(content, Some(e), body.len()),
            ) + body,
            _ => encode_utf8(
                opening + body_lines(content, None, encode_utf8(content.body).len()),
            ) + encode_utf8(content.body),
        },
    }
}

/// What compressing the body of `r` gives: `None` when `r` has no content or no
/// encoding, or when compressing fails.
pub open spec fn compressed_body(r: ResponseView) -> Option<Seq<u8>> {
    match (r.encoding, r.content) {
        (Some(Encoding::Gzip), Some(content)) => gzip_of(encode_utf8(content.body)),
        _ => None,
    }
}

/// What a handler stores under a name that describes the body is not written:
/// the header lines are what they were without it.
pub proof fn lemma_derived_header_is_not_written(
    headers: Seq<(Seq<char>, Seq<char>)>,
    name: Seq<char>,
    value: Seq<char>,
)
    requires
        is_derived(name),
    ensures
        header_lines(stored(headers, name, value)) == header_lines(headers),
{
    lemma_position(headers, name);
    match position(headers, name) {
        Some(i) => {
            lemma_header_lines_updated(headers, i, value);
        },
        None => {
            assert(headers.push((name, value)).drop_last() =~= headers);
        },
    }
}

/// Replacing the value of a header that describes the body leaves the header
/// lines as they were.
proof fn lemma_header_lines_updated(headers: Seq<(Seq<char>, Seq<char>)>, i: int, value: Seq<char>)
    requires
        0 <= i < headers.len(),
        is_derived(headers[i].0),
    ensures
        header_lines(headers.update(i, (headers[i].0, value))) == header_lines(headers),
    decreases headers.len(),
{
    let after = headers.update(i, (headers[i].0, value));
    if i == headers.len() - 1 {
        assert(after.drop_last() =~= headers.drop_last());
    } else {
        lemma_header_lines_updated(headers.drop_last(), i, value);
        assert(after.drop_last() =~= headers.drop_last().update(i, (headers[i].0, value)));
        assert(after.last() == headers.last());
    }
}

/// Whether a header of the name `name` describes the body.
fn derived(name: &str) -> (r: bool)
    ensures
        r == is_derived(name@),
{
    same_text(name, "Content-Type") || same_text(name, "Content-Length") || same_text(
        name,
        "Content-Encoding",
    )
}

/// Appends the header `name: value` as a line to `text`.
fn push_header(text: &mut String, name: &str, value: &str)
    ensures
        final(text)@ == old(text)@ + header_line(name@, value@),
{
    text.append(name);
    text.append(": ");
    text.append(value);
    text.append("\r\n");
}

impl Response {
    /// A one-line description of the response.
    pub fn describe(&self) -> (r: String)
        ensures
            r@ == self@.summary(),
    {
        let mut r = String::from_str("Response: ");
        r.append(self.protocol.as_str());
        r.append(" ");
        let status = self.code.describe();
        r.append(status.as_str());
        if let Some(content) = &self.content {
            r.append(" -> ");
            let summary = content.describe();
            r.append(summary.as_str());
        }
        r
    }

    /// The status line and the headers that do not describe the body.
    fn opening(&self) -> (text: String)
        ensures
            text@ == status_line(self.protocol, self.code) + header_lines(self.headers@),
    {
        let mut text = String::from_str(self.protocol.as_str());
        text.append(" ");
        let status = self.code.describe();
        text.append(status.as_str());
        text.append("\r\n");
        let mut k: usize = 0;
        assert(text@ =~= status_line(self.protocol, self.code) + header_lines(
            self.headers@.take(0),
        ));
        while k < self.headers.len()
            invariant
                k <= self.headers@.len(),
                text@ == status_line(self.protocol, self.code) + header_lines(
                    self.headers@.take(k as int),
                ),
            decreases self.headers@.len() - k,
        {
            let name = self.headers.name_at(k);
            let value = self.headers.value_at(k);
            proof {
                let next = self.headers@.take(k + 1);
                assert(next.drop_last() =~= self.headers@.take(k as int));
            }
            if !derived(name) {
                push_header(&mut text, name, value);
            }
            k += 1;
        }
        assert(self.headers@.take(k as int) =~= self.headers@);
        text
    }

    /// Encodes the response for the wire, given what compressing its body gave.
    ///
    /// `compressed` is used only when the response has content and an encoding:
    /// then it becomes the body and `Content-Encoding` is written. In every other
    /// case the body goes out as it is, without that header.
    pub fn encode_with(&self, compressed: Option<Vec<u8>>) -> (out: Vec<u8>)
        ensures
            out@ == encoded(self@, compressed.deep_view()),
    {
        let mut text = self.opening();
        let mut out: Vec<u8> = Vec::new();
        match &self.content {
            None => {
                text.append("\r\n");
                out.extend_from_slice(text.as_str().as_bytes());
            },
            Some(content) => {
                let plain = content.body.as_str().as_bytes();
                let packed = match (&self.encoding, &compressed) {
                    (Some(e), Some(body)) => {
                        push_header(&mut text, "Content-Encoding", e.as_str());
                        true
                    },
                    _ => false,
                };
                let body: &[u8] = match &compressed {
                    Some(z) => if packed {
                        z.as_slice()
                    } else {
                        plain
                    },
                    None => plain,
                };
                push_header(&mut text, "Content-Type", content.mime_type.as_str());
                let length = format_number(body.len() as u64);
                push_header(&mut text, "Content-Length", length.as_str());
                text.append("\r\n");
                out.extend_from_slice(text.as_str().as_bytes());
                out.extend_from_slice(body);
                proof {
                    let opening = status_line(self.protocol, self.code) + header_lines(
                        self.headers@,
                    );
                    if packed {
                        assert(text@ =~= opening + body_lines(
                            content@,
                            self.encoding,
                            body@.len(),
                        ));
                    } else {
                        assert(text@ =~= opening + body_lines(content@, None, body@.len()));
                    }
                }
            },
        }
        out
    }

    /// Encodes the response for the wire.
    ///
    /// A response with content and an encoding has its body compressed; should
    /// that fail, the body goes out as it is and no `Content-Encoding` is written.
    /// `Content-Type` and `Content-Length` describe the body that is sent.
    pub fn encode(&mut self) -> (out: Vec<u8>)
        ensures
            *final(self) == *old(self),
            out@ == encoded(old(self)@, compressed_body(old(self)@)),
    {
        let compressed = match (&self.encoding, &self.content) {
            (Some(Encoding::Gzip), Some(content)) => gzip(content.body.as_str().as_bytes()),
            _ => None,
        };
        self.encode_with(compressed)
    }
}

} // verus!
