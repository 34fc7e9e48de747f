//! Requests: decoding from the bytes of a connection, and answering.

use vstd::prelude::*;
use vstd::slice::slice_subrange;
use vstd::string::StringExecFns;
use vstd::utf8::{
    decode_utf8, decode_utf8_encode_utf8, encode_utf8, encode_utf8_decode_utf8, valid_utf8,
};

use crate::decimal::{number_of, parse_number};
use crate::error::Error;
use crate::fields::{distinct_names, stored, value_of, TextMap};
use crate::negotiation::{negotiate, negotiated};
use crate::prelude::{Content, ContentView, Method, MimeType, Protocol, StatusCode};
use crate::response::{Response, ResponseView};
use crate::text::{
    all_within, chars_of, cut, find, find_bytes, lemma_occurrence, lemma_occurrence_extended,
    lines_of, occurrence, same_bytes, slice_chars, slice_text, split_lines, split_words, words,
    Span,
};
use crate::trusted::utf8_text;

verus! {

/// The most bytes that a header section, and a body, may have.
pub const MAX_REQUEST_SIZE: usize = 4096;

/// The bytes that end a header section: two line breaks.
pub open spec fn blank_line() -> Seq<u8> {
    seq![13u8, 10u8, 13u8, 10u8]
}

/// The characters that part a header's name from its value.
pub open spec fn name_end() -> Seq<char> {
    seq![':', ' ']
}

/// A decoded request.
#[derive(Debug)]
pub struct Request {
    pub method: Method,
    pub uri: String,
    pub protocol: Protocol,
    pub headers: TextMap,
    pub content: Option<Content>,
}

/// What a `Request` holds.
pub struct RequestView {
    pub method: Method,
    pub uri: Seq<char>,
    pub protocol: Protocol,
    pub headers: Seq<(Seq<char>, Seq<char>)>,
    pub content: Option<ContentView>,
}

impl View for Request {
    type V = RequestView;

    open spec fn view(&self) -> RequestView {
        RequestView {
            method: self.method,
            uri: self.uri@,
            protocol: self.protocol,
            headers: self.headers@,
            content: match self.content {
                Some(c) => Some(c@),
                None => None,
            },
        }
    }
}

impl RequestView {
    /// A one-line description: method, target and protocol version, and the
    /// content if there is any.
    pub open spec fn summary(self) -> Seq<char> {
        let line = "Request: "@ + self.method.text() + " "@ + self.uri + " "@
            + self.protocol.text();
        match self.content {
            Some(content) => line + " -> "@ + content.summary(),
            None => line,
        }
    }
}

/// The length of the header section of `input`: up to the end of the first
/// blank line, or all of `input` when it holds none.
pub open spec fn header_end(input: Seq<u8>) -> int {
    section_end(input, blank_line())
}

/// The method, target and protocol version that a request line names. The
/// line must be made of exactly three tokens with white space between them:
/// its words.
pub open spec fn request_line(line: Seq<char>) -> Result<(Method, Seq<char>, Protocol), Error> {
    let tokens = words(line);
    if tokens.len() != 3 {
        Err(Error::MalformedStatusLine)
    } else {
        match Method::named(tokens[0]) {
            None => Err(Error::UnsupportedMethod),
            Some(method) => match Protocol::named(tokens[2]) {
                None => Err(Error::UnsupportedProtocol),
                Some(protocol) => Ok((method, tokens[1], protocol)),
            },
        }
    }
}

/// A request line is refused as malformed exactly when it is not made of three
/// words.
pub proof fn lemma_malformed_status_line(line: Seq<char>)
    ensures
        request_line(line) == Err::<(Method, Seq<char>, Protocol), _>(
            Error::MalformedStatusLine,
        ) <==> words(line).len() != 3,
{
}

/// The headers that `lines` add to `headers`. Each line is parted at its first
/// `": "` into name and value and stored, a later value for a name replacing the
/// earlier one. The first line without `": "` ends the headers: neither it nor
/// any line after it adds one.
pub open spec fn headers_from(lines: Seq<Seq<char>>, headers: Seq<(Seq<char>, Seq<char>)>) -> Seq<
    (Seq<char>, Seq<char>),
>
    decreases lines.len(),
{
    if lines.len() == 0 {
        headers
    } else {
        match occurrence(lines[0], name_end()) {
            Some(i) => headers_from(
                lines.skip(1),
                stored(headers, lines[0].take(i), lines[0].skip(i + 2)),
            ),
            None => headers,
        }
    }
}

/// What the header section of a request says.
pub struct Head {
    pub method: Method,
    pub uri: Seq<char>,
    pub protocol: Protocol,
    pub headers: Seq<(Seq<char>, Seq<char>)>,
}

/// `head` without the blank line at its end, if it has one.
pub open spec fn without_blank_line(head: Seq<u8>) -> Seq<u8> {
    if head.len() >= 4 && head.skip(head.len() - 4) == blank_line() {
        head.take(head.len() - 4)
    } else {
        head
    }
}

/// What the header section `head` says. Its lines are those before the blank
/// line that ends it, as they are written: the first is the request line, the
/// lines after it are headers.
pub open spec fn decoded_head(head: Seq<u8>) -> Result<Head, Error> {
    let section = without_blank_line(head);
    if !valid_utf8(section) {
        Err(Error::EncodingError)
    } else {
        let lines = lines_of(decode_utf8(section));
        if lines.len() == 0 {
            Err(Error::MalformedStatusLine)
        } else {
            match request_line(lines[0]) {
                Err(e) => Err(e),
                Ok((method, uri, protocol)) => Ok(
                    Head {
                        method,
                        uri,
                        protocol,
                        headers: headers_from(lines.skip(1), Seq::empty()),
                    },
                ),
            }
        }
    }
}

/// What the headers announce of a body: its media type, as written, and its
/// length. `Ok(None)` when `Content-Type` or `Content-Length` is missing.
pub open spec fn announced(headers: Seq<(Seq<char>, Seq<char>)>) -> Result<
    Option<(Seq<char>, nat)>,
    Error,
> {
    match (value_of(headers, "Content-Type"@), value_of(headers, "Content-Length"@)) {
        (Some(mime), Some(length)) => match number_of(length, usize::MAX as nat) {
            Some(n) => Ok(Some((mime, n))),
            None => Err(Error::InvalidContentLength),
        },
        _ => Ok(None),
    }
}

/// The number of bytes that are wanted as the body when `declared` bytes are
/// announced: as many, but no more than `MAX_REQUEST_SIZE`.
pub open spec fn wanted_length(declared: nat) -> nat {
    if declared <= MAX_REQUEST_SIZE {
        declared
    } else {
        MAX_REQUEST_SIZE as nat
    }
}

/// The number of bytes that are read as the body when `declared` bytes are
/// announced and `available` bytes follow the header section: as many as are
/// wanted, but no more than there are.
pub open spec fn body_length(declared: nat, available: nat) -> nat {
    if wanted_length(declared) <= available {
        wanted_length(declared)
    } else {
        available
    }
}

/// The content of a request with the headers `headers` whose header section is
/// followed by the bytes `rest`.
pub open spec fn decoded_content(headers: Seq<(Seq<char>, Seq<char>)>, rest: Seq<u8>) -> Result<
    Option<ContentView>,
    Error,
> {
    match announced(headers) {
        Err(e) => Err(e),
        Ok(None) => Ok(None),
        Ok(Some((mime, declared))) => {
            let body = rest.take(body_length(declared, rest.len()) as int);
            if !valid_utf8(body) {
                Err(Error::EncodingError)
            } else {
                match MimeType::named(mime) {
                    None => Err(Error::UnsupportedMimeType),
                    Some(mime_type) => Ok(Some(ContentView { mime_type, body: decode_utf8(body) })),
                }
            }
        },
    }
}

/// The request that the bytes `input` of a connection hold, or why they hold
/// none.
pub open spec fn decoded(input: Seq<u8>) -> Result<RequestView, Error> {
    let end = header_end(input);
    if end > MAX_REQUEST_SIZE {
        Err(Error::PayloadTooLarge)
    } else {
        match decoded_head(input.take(end)) {
            Err(e) => Err(e),
            Ok(head) => match decoded_content(head.headers, input.skip(end)) {
                Err(e) => Err(e),
                Ok(content) => Ok(
                    RequestView {
                        method: head.method,
                        uri: head.uri,
                        protocol: head.protocol,
                        headers: head.headers,
                        content,
                    },
                ),
            },
        }
    }
}

/// Whether `input` holds all that decoding reads, so that bytes that arrive
/// after it change nothing: the header section is there in full, or is too long
/// already, and so is the body that the headers announce.
pub open spec fn complete(input: Seq<u8>) -> bool {
    match occurrence(input, blank_line()) {
        None => input.len() > MAX_REQUEST_SIZE,
        Some(i) => i + 4 > MAX_REQUEST_SIZE || match decoded_head(input.take(i + 4)) {
            Err(_) => true,
            Ok(head) => match announced(head.headers) {
                Ok(Some((_, declared))) => input.len() - (i + 4) >= wanted_length(declared),
                _ => true,
            },
        },
    }
}

/// Once the input is complete, bytes that arrive after it do not change what
/// is decoded.
pub proof fn lemma_complete_input_is_final(input: Seq<u8>, more: Seq<u8>)
    requires
        complete(input),
    ensures
        decoded(input + more) == decoded(input),
        complete(input + more),
{
    let all = input + more;
    lemma_occurrence_extended(input, more, blank_line());
    lemma_occurrence(input, blank_line());
    match occurrence(input, blank_line()) {
        None => {},
        Some(i) => {
            let end = i + 4;
            if end <= MAX_REQUEST_SIZE {
                assert(all.take(end) =~= input.take(end));
                match decoded_head(input.take(end)) {
                    Err(_) => {},
                    Ok(head) => {
                        let rest = input.skip(end);
                        assert(all.skip(end) =~= rest + more);
                        match announced(head.headers) {
                            Ok(Some((_, declared))) => {
                                let length = body_length(declared, rest.len());
                                assert((rest + more).take(length as int) =~= rest.take(
                                    length as int,
                                ));
                            },
                            _ => {},
                        }
                    },
                }
            }
        },
    }
}

/// A decoded request has content exactly if it has both a `Content-Type` and a
/// `Content-Length` header. The body is as long as the header announces, but
/// no longer than `MAX_REQUEST_SIZE` and no longer than what follows the header
/// section.
pub proof fn lemma_decoded_content(input: Seq<u8>)
    requires
        decoded(input) is Ok,
    ensures
        ({
            let rq = decoded(input)->Ok_0;
            let available = (input.len() - header_end(input)) as nat;
            &&& rq.content is Some <==> value_of(rq.headers, "Content-Type"@) is Some && value_of(
                rq.headers,
                "Content-Length"@,
            ) is Some
            &&& rq.content matches Some(content) ==> {
                &&& announced(rq.headers) matches Ok(Some((_, declared)))
                &&& encode_utf8(content.body).len() == body_length(declared, available)
                &&& encode_utf8(content.body).len() <= declared
                &&& encode_utf8(content.body).len() <= MAX_REQUEST_SIZE
                &&& encode_utf8(content.body).len() <= available
            }
        }),
{
    let rq = decoded(input)->Ok_0;
    let end = header_end(input);
    lemma_occurrence(input, blank_line());
    let rest = input.skip(end);
    match announced(rq.headers) {
        Ok(Some((_, declared))) => {
            let body = rest.take(body_length(declared, rest.len()) as int);
            decode_utf8_encode_utf8(body);
        },
        _ => {},
    }
}

/// A request is refused as too large exactly when its header section is longer
/// than `MAX_REQUEST_SIZE`.
pub proof fn lemma_too_large(input: Seq<u8>)
    ensures
        decoded(input) == Err::<RequestView, _>(Error::PayloadTooLarge) <==> header_end(input)
            > MAX_REQUEST_SIZE,
{
}

/// Input whose header section is longer than `MAX_REQUEST_SIZE` is refused as
/// too large whatever arrives after it: nothing past the limit needs to be read.
pub proof fn lemma_too_large_is_final(input: Seq<u8>, more: Seq<u8>)
    requires
        header_end(input) > MAX_REQUEST_SIZE,
    ensures
        complete(input),
        decoded(input + more) == Err::<RequestView, _>(Error::PayloadTooLarge),
{
    lemma_occurrence(input, blank_line());
    lemma_complete_input_is_final(input, more);
}

/// The length of the section of `input` that `delimiter` ends: up to the end
/// of the first occurrence of the delimiter, or all of `input` when the
/// delimiter does not occur.
pub open spec fn section_end(input: Seq<u8>, delimiter: Seq<u8>) -> int {
    match occurrence(input, delimiter) {
        Some(i) => i + delimiter.len(),
        None => input.len() as int,
    }
}

/// Reads `input` up to the end of the first occurrence of `delimiter`, or to
/// its end when the delimiter does not occur, and gives the length of what was
/// read. Fails with `PayloadTooLarge` exactly when that is more than
/// `MAX_REQUEST_SIZE` bytes.
pub fn read_until(input: &[u8], delimiter: &[u8]) -> (r: Result<usize, Error>)
    ensures
        match r {
            Ok(end) => end == section_end(input@, delimiter@) && end <= MAX_REQUEST_SIZE && end
                <= input@.len(),
            Err(e) => e == Error::PayloadTooLarge && section_end(input@, delimiter@)
                > MAX_REQUEST_SIZE,
        },
{
    let length = input.len();
    let end = match find_bytes(input, delimiter) {
        Some(i) => i + delimiter.len(),
        None => length,
    };
    if end > MAX_REQUEST_SIZE {
        Err(Error::PayloadTooLarge)
    } else {
        Ok(end)
    }
}

/// Reads the request line.
fn parse_request_line(text: &str, chars: &[char]) -> (r: Result<(Method, String, Protocol), Error>)
    requires
        text@ == chars@,
    ensures
        match r {
            Ok((method, uri, protocol)) => request_line(chars@) == Ok::<_, Error>(
                (method, uri@, protocol),
            ),
            Err(e) => request_line(chars@) == Err::<(Method, Seq<char>, Protocol), _>(e),
        },
{
    let tokens = split_words(chars);
    if tokens.len() != 3 {
        return Err(Error::MalformedStatusLine);
    }
    let method = match Method::try_from(slice_text(text, tokens[0])) {
        Ok(m) => m,
        Err(e) => {
            return Err(e);
        },
    };
    let protocol = match Protocol::try_from(slice_text(text, tokens[2])) {
        Ok(p) => p,
        Err(e) => {
            return Err(e);
        },
    };
    let uri = String::from_str(slice_text(text, tokens[1]));
    Ok((method, uri, protocol))
}

/// Reads the headers that `lines` of `text` hold.
fn parse_headers(text: &str, chars: &[char], lines: &Vec<Span>) -> (headers: TextMap)
    requires
        text@ == chars@,
        all_within(lines@, chars@.len()),
    ensures
        headers@ == headers_from(cut(chars@, lines@), Seq::empty()),
        distinct_names(headers@),
{
    let mut headers = TextMap::new();
    let separator = [':', ' '];
    let ghost all = cut(chars@, lines@);
    let mut k: usize = 0;
    assert(all.skip(0) == all);
    while k < lines.len()
        invariant_except_break
            headers_from(all, Seq::empty()) == headers_from(all.skip(k as int), headers@),
        invariant
            k <= lines.len(),
            text@ == chars@,
            all == cut(chars@, lines@),
            all_within(lines@, chars@.len()),
            separator@ == name_end(),
            distinct_names(headers@),
        ensures
            headers_from(all, Seq::empty()) == headers@,
        decreases lines.len() - k,
    {
        let span = lines[k];
        let line = slice_chars(chars, span);
        let line_text = slice_text(text, span);
        let ghost rest = all.skip(k as int);
        assert(rest.skip(1) == all.skip(k + 1));
        match find(line, separator.as_slice()) {
            Some(i) => {
                let name = slice_text(line_text, Span { start: 0, end: i });
                let value = slice_text(line_text, Span { start: i + 2, end: line.len() });
                headers.insert(String::from_str(name), String::from_str(value));
            },
            None => {
                break ;
            },
        }
        k += 1;
    }
    headers
}

/// What a decoded header section says.
struct ParsedHead {
    method: Method,
    uri: String,
    protocol: Protocol,
    headers: TextMap,
}

impl ParsedHead {
    spec fn model(self) -> Head {
        Head {
            method: self.method,
            uri: self.uri@,
            protocol: self.protocol,
            headers: self.headers@,
        }
    }
}

/// Decodes a header section.
fn parse_head(head: &[u8]) -> (r: Result<ParsedHead, Error>)
    ensures
        match r {
            Ok(h) => decoded_head(head@) == Ok::<_, Error>(h.model()) && distinct_names(h.headers@),
            Err(e) => decoded_head(head@) == Err::<Head, _>(e),
        },
{
    let delimiter = [13u8, 10u8, 13u8, 10u8];
    assert(delimiter@ =~= blank_line());
    let length = head.len();
    let section = if length >= 4 && same_bytes(
        slice_subrange(head, length - 4, length),
        delimiter.as_slice(),
    ) {
        slice_subrange(head, 0, length - 4)
    } else {
        head
    };
    assert(section@ == without_blank_line(head@));
    let text = match utf8_text(section) {
        Some(s) => s,
        None => {
            return Err(Error::EncodingError);
        },
    };
    proof {
        encode_utf8_decode_utf8(text@);
    }
    let all = chars_of(text);
    let chars = all.as_slice();
    let lines = split_lines(chars);
    if lines.len() == 0 {
        return Err(Error::MalformedStatusLine);
    }
    let first = lines[0];
    let (method, uri, protocol) = match parse_request_line(
        slice_text(text, first),
        slice_chars(chars, first),
    ) {
        Ok(parts) => parts,
        Err(e) => {
            return Err(e);
        },
    };
    let mut others = lines;
    others.remove(0);
    assert(cut(chars@, others@) == cut(chars@, lines@).skip(1));
    let headers = parse_headers(text, chars, &others);
    Ok(ParsedHead { method, uri, protocol, headers })
}

/// The smaller of two numbers.
fn smaller(a: usize, b: usize) -> (r: usize)
    ensures
        r == if a <= b {
            a
        } else {
            b
        },
{
    if a <= b {
        a
    } else {
        b
    }
}

/// Reads what `headers` announce of a body.
fn parse_announced(headers: &TextMap) -> (r: Result<Option<(&String, usize)>, Error>)
    ensures
        match r {
            Ok(Some((mime, n))) => announced(headers@) == Ok::<_, Error>(Some((mime@, n as nat))),
            Ok(None) => announced(headers@) == Ok::<Option<(Seq<char>, nat)>, Error>(None),
            Err(e) => announced(headers@) == Err::<Option<(Seq<char>, nat)>, _>(e),
        },
{
    match (headers.get("Content-Type"), headers.get("Content-Length")) {
        (Some(mime), Some(length)) => {
            let digits = chars_of(length.as_str());
            match parse_number(digits.as_slice(), usize::MAX as u64) {
                Some(n) => Ok(Some((mime, n as usize))),
                None => Err(Error::InvalidContentLength),
            }
        },
        _ => Ok(None),
    }
}

/// Reads the content that `headers` announce from the bytes after the header
/// section.
fn parse_content(headers: &TextMap, rest: &[u8]) -> (r: Result<Option<Content>, Error>)
    ensures
        match r {
            Ok(Some(c)) => decoded_content(headers@, rest@) == Ok::<_, Error>(Some(c@)),
            Ok(None) => decoded_content(headers@, rest@) == Ok::<Option<ContentView>, Error>(None),
            Err(e) => decoded_content(headers@, rest@) == Err::<Option<ContentView>, _>(e),
        },
{
    match parse_announced(headers) {
        Err(e) => Err(e),
        Ok(None) => Ok(None),
        Ok(Some((mime, declared))) => {
            let wanted = smaller(declared, MAX_REQUEST_SIZE);
            let length = smaller(wanted, rest.len());
            let body = slice_subrange(rest, 0, length);
            let text = match utf8_text(body) {
                Some(s) => s,
                None => {
                    return Err(Error::EncodingError);
                },
            };
            proof {
                encode_utf8_decode_utf8(text@);
            }
            match MimeType::try_from(mime) {
                Ok(mime_type) => Ok(Some(Content::new(mime_type, text))),
                Err(e) => Err(e),
            }
        },
    }
}

/// The answer to the request `rq` with the status `code` and the content
/// `content`: in the protocol version of the request, with the encoding that
/// the request asks for, and without headers of its own.
pub open spec fn answer(
    rq: RequestView,
    code: StatusCode,
    content: Option<ContentView>,
) -> ResponseView {
    ResponseView {
        protocol: rq.protocol,
        code,
        content,
        headers: Seq::empty(),
        encoding: negotiated(rq.headers),
    }
}

impl Request {
    /// Decodes the request that the bytes `input` of a connection hold.
    ///
    /// The header section ends with the first blank line and may not be longer
    /// than `MAX_REQUEST_SIZE`. Its lines are read as they are written. A body
    /// is read only when both `Content-Type` and `Content-Length` are present: as
    /// many bytes as are announced, but no more than `MAX_REQUEST_SIZE` and no
    /// more than `input` holds.
    pub fn parse(input: &[u8]) -> (r: Result<Request, Error>)
        ensures
            match r {
                Ok(rq) => decoded(input@) == Ok::<_, Error>(rq@) && distinct_names(rq.headers@),
                Err(e) => decoded(input@) == Err::<RequestView, _>(e),
            },
    {
        let delimiter = [13u8, 10u8, 13u8, 10u8];
        assert(delimiter@ =~= blank_line());
        let end = match read_until(input, delimiter.as_slice()) {
            Ok(end) => end,
            Err(e) => {
                return Err(e);
            },
        };
        let head = match parse_head(slice_subrange(input, 0, end)) {
            Ok(h) => h,
            Err(e) => {
                return Err(e);
            },
        };
        let rest = slice_subrange(input, end, input.len());
        match parse_content(&head.headers, rest) {
            Ok(content) => Ok(
                Request {
                    method: head.method,
                    uri: head.uri,
                    protocol: head.protocol,
                    headers: head.headers,
                    content,
                },
            ),
            Err(e) => Err(e),
        }
    }

    /// Whether `input`, the bytes that a connection has delivered so far, holds
    /// all that `parse` reads. While it does not, the request is still arriving;
    /// once it does, bytes that arrive later change nothing.
    pub fn is_complete(input: &[u8]) -> (r: bool)
        ensures
            r == complete(input@),
    {
        let delimiter = [13u8, 10u8, 13u8, 10u8];
        let length = input.len();
        let end = match find_bytes(input, delimiter.as_slice()) {
            Some(i) => {
                i + 4
            },
            None => {
                return length > MAX_REQUEST_SIZE;
            },
        };
        if end > MAX_REQUEST_SIZE {
            return true;
        }
        let head = match parse_head(slice_subrange(input, 0, end)) {
            Ok(h) => h,
            Err(_) => {
                return true;
            },
        };
        match parse_announced(&head.headers) {
            Ok(Some((_, declared))) => input.len() - end >= smaller(declared, MAX_REQUEST_SIZE),
            _ => true,
        }
    }

    /// A one-line description of the request.
    pub fn describe(&self) -> (r: String)
        ensures
            r@ == self@.summary(),
    {
        let mut r = String::from_str("Request: ");
        r.append(self.method.as_str());
        r.append(" ");
        r.append(self.uri.as_str());
        r.append(" ");
        r.append(self.protocol.as_str());
        if let Some(content) = &self.content {
            r.append(" -> ");
            let summary = content.describe();
            r.append(summary.as_str());
        }
        r
    }

    /// An answer to this request with the status `code` and the content
    /// `content`, in the protocol version of the request and with the encoding
    /// that its `Accept-Encoding` header asks for. It has no headers of its own.
    pub fn reply(&self, code: StatusCode, content: Option<Content>) -> (r: Response)
        ensures
            r@ == answer(
                self@,
                code,
                match content {
                    Some(c) => Some(c@),
                    None => None,
                },
            ),
    {
        let encoding = negotiate(&self.headers);
        Response { protocol: self.protocol, code, content, headers: TextMap::new(), encoding }
    }

    /// The answer that `reply` makes. It never fails.
    pub fn response(&self, code: StatusCode, content: Option<Content>) -> (r: Result<
        Response,
        Error,
    >)
        ensures
            r matches Ok(response) && response@ == answer(
                self@,
                code,
                match content {
                    Some(c) => Some(c@),
                    None => None,
                },
            ),
    {
        Ok(self.reply(code, content))
    }
}

} // verus!
