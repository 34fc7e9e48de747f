//! The failures that the engine reports.

use vstd::prelude::*;
use vstd::string::StringExecFns;

use crate::text::{all_within, chars_of, cut, pieces, slice_text, split};

verus! {

/// The lines `lines` for a report: each behind a bar and three spaces, with a
/// line feed between each two.
pub open spec fn barred(lines: Seq<Seq<char>>) -> Seq<char>
    decreases lines.len(),
{
    if lines.len() == 0 {
        Seq::empty()
    } else if lines.len() == 1 {
        "|   "@ + lines[0]
    } else {
        barred(lines.drop_last()) + "\n"@ + "|   "@ + lines.last()
    }
}

/// The report of a failure that `text` describes: a heading, and below it the
/// lines of `text` behind bars.
pub open spec fn framed(text: Seq<char>) -> Seq<char> {
    "| Error:\n"@ + barred(pieces(text, '\n'))
}

/// Frames the description `text` of a failure for a report.
pub fn frame(text: &str) -> (r: String)
    ensures
        r@ == framed(text@),
{
    let chars = chars_of(text);
    let spans = split(chars.as_slice(), '\n');
    let ghost lines = pieces(text@, '\n');
    let mut r = String::from_str("| Error:\n");
    let mut k: usize = 0;
    while k < spans.len()
        invariant
            k <= spans@.len(),
            chars@ == text@,
            lines == cut(chars@, spans@),
            all_within(spans@, chars@.len()),
            r@ == "| Error:\n"@ + barred(lines.take(k as int)),
        decreases spans@.len() - k,
    {
        let span = spans[k];
        proof {
            let next = lines.take(k + 1);
            assert(next.drop_last() =~= lines.take(k as int));
        }
        if k > 0 {
            r.append("\n");
        }
        r.append("|   ");
        r.append(slice_text(text, span));
        k += 1;
    }
    assert(lines.take(k as int) =~= lines);
    r
}

/// Why a request could not be decoded, routed or answered.
///
/// Decoding failures name what was wrong with the bytes. Handler failures name
/// what the handler missed; the dispatcher answers each of them with
/// `500 Internal Error`.
#[derive(Clone, Copy, Debug, PartialEq, Eq, Structural)]
pub enum Error {
    /// The header section is longer than the request size limit.
    PayloadTooLarge,
    /// The first line is not made of exactly three tokens.
    MalformedStatusLine,
    /// The method token names no supported method.
    UnsupportedMethod,
    /// The protocol token names no supported protocol version.
    UnsupportedProtocol,
    /// The header section or the body is not UTF-8 text.
    EncodingError,
    /// The `Content-Length` header holds no number that fits a `usize`.
    InvalidContentLength,
    /// The text names no supported media type.
    UnsupportedMimeType,
    /// The text names no supported content encoding.
    UnsupportedEncoding,
    /// The route captured no `message`.
    MissingMessage,
    /// The route captured no `filename`.
    MissingFilename,
    /// The request has no `User-Agent` header.
    MissingUserAgent,
    /// The request carries no content to store.
    MissingContent,
    /// A pattern segment of a route is no regular expression.
    InvalidPattern,
    /// The `--port` argument holds no number that fits a `u32`.
    InvalidPort,
    /// Reading or writing a file failed.
    Io,
}

impl Error {
    /// The message that describes the failure.
    pub open spec fn text(self) -> Seq<char> {
        match self {
            Error::PayloadTooLarge => "Request exceeds 4096 bytes."@,
            Error::MalformedStatusLine => "Failed to parse status line."@,
            Error::UnsupportedMethod => "Failed to parse request method."@,
            Error::UnsupportedProtocol => "Failed to parse HTTP version."@,
            Error::EncodingError => "Request is not valid UTF-8."@,
            Error::InvalidContentLength => "Failed to parse content length."@,
            Error::UnsupportedMimeType => "Failed to parse mime type."@,
            Error::UnsupportedEncoding => "Failed to parse encoding method."@,
            Error::MissingMessage => "Failed to get message from context."@,
            Error::MissingFilename => "Failed to get filename from context."@,
            Error::MissingUserAgent => "Failed to get user agent from request headers."@,
            Error::MissingContent => "Request did not contain content."@,
            Error::InvalidPattern => "Failed to compile route pattern."@,
            Error::InvalidPort => "Failed to parse port."@,
            Error::Io => "Failed to read or write file."@,
        }
    }

    /// The message that describes the failure.
    pub fn message(&self) -> (r: &'static str)
        ensures
            r@ == self.text(),
    {
        match self {
            Error::PayloadTooLarge => "Request exceeds 4096 bytes.",
            Error::MalformedStatusLine => "Failed to parse status line.",
            Error::UnsupportedMethod => "Failed to parse request method.",
            Error::UnsupportedProtocol => "Failed to parse HTTP version.",
            Error::EncodingError => "Request is not valid UTF-8.",
            Error::InvalidContentLength => "Failed to parse content length.",
            Error::UnsupportedMimeType => "Failed to parse mime type.",
            Error::UnsupportedEncoding => "Failed to parse encoding method.",
            Error::MissingMessage => "Failed to get message from context.",
            Error::MissingFilename => "Failed to get filename from context.",
            Error::MissingUserAgent => "Failed to get user agent from request headers.",
            Error::MissingContent => "Request did not contain content.",
            Error::InvalidPattern => "Failed to compile route pattern.",
            Error::InvalidPort => "Failed to parse port.",
            Error::Io => "Failed to read or write file.",
        }
    }

    /// The report of the failure: its message, framed.
    pub fn report(&self) -> (r: String)
        ensures
            r@ == framed(self.text()),
    {
        frame(self.message())
    }
}

} // verus!
