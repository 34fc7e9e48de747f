//! The vocabulary of the protocol: versions, methods, status codes, media types,
//! content and content encodings.

use vstd::prelude::*;
use vstd::std_specs::convert::TryFromSpecImpl;
use vstd::string::StringExecFns;

use crate::decimal::{decimal, format_number};
pub use crate::error::Error;
pub use crate::request::Request;
pub use crate::response::Response;
use crate::text::same_text;

verus! {

/// A protocol version.
#[derive(Clone, Copy, Debug, PartialEq, Eq, Structural)]
pub enum Protocol {
    Http1,
}

impl Protocol {
    /// The token that names the version on the wire.
    pub open spec fn text(self) -> Seq<char> {
        match self {
            Protocol::Http1 => "HTTP/1.1"@,
        }
    }

    /// The version that `s` names, if any.
    pub open spec fn named(s: Seq<char>) -> Option<Protocol> {
        if s == "HTTP/1.1"@ {
            Some(Protocol::Http1)
        } else {
            None
        }
    }

    /// The token that names the version on the wire.
    pub fn as_str(&self) -> (r: &'static str)
        ensures
            r@ == self.text(),
    {
        match self {
            Protocol::Http1 => "HTTP/1.1",
        }
    }
}

impl<'a> TryFromSpecImpl<&'a str> for Protocol {
    open spec fn obeys_try_from_spec() -> bool {
        true
    }

    open spec fn try_from_spec(s: &'a str) -> Result<Protocol, Error> {
        match Protocol::named(s@) {
            Some(p) => Ok(p),
            None => Err(Error::UnsupportedProtocol),
        }
    }
}

impl<'a> TryFrom<&'a str> for Protocol {
    type Error = Error;

    fn try_from(s: &'a str) -> (r: Result<Protocol, Error>) {
        if same_text(s, "HTTP/1.1") {
            Ok(Protocol::Http1)
        } else {
            Err(Error::UnsupportedProtocol)
        }
    }
}

/// The status of a response: a numeric code with its canonical reason.
#[derive(Clone, Copy, Debug, PartialEq, Eq, Structural)]
pub enum StatusCode {
    Okay,
    Created,
    Forbidden,
    NotFound,
    MethodNotAllowed,
    InternalError,
}

impl StatusCode {
    /// The numeric code.
    pub open spec fn number(self) -> nat {
        match self {
            StatusCode::Okay => 200,
            StatusCode::Created => 201,
            StatusCode::Forbidden => 403,
            StatusCode::NotFound => 404,
            StatusCode::MethodNotAllowed => 405,
            StatusCode::InternalError => 500,
        }
    }

    /// The canonical reason.
    pub open spec fn reason_text(self) -> Seq<char> {
        match self {
            StatusCode::Okay => "OK"@,
            StatusCode::Created => "Created"@,
            StatusCode::Forbidden => "Forbidden"@,
            StatusCode::NotFound => "Not Found"@,
            StatusCode::MethodNotAllowed => "Method Not Allowed"@,
            StatusCode::InternalError => "Internal Error"@,
        }
    }

    /// The code and the reason as they stand in a status line.
    pub open spec fn text(self) -> Seq<char> {
        decimal(self.number()) + " "@ + self.reason_text()
    }

    /// The numeric code.
    pub fn code(&self) -> (r: u16)
        ensures
            r == self.number(),
    {
        match self {
            StatusCode::Okay => 200,
            StatusCode::Created => 201,
            StatusCode::Forbidden => 403,
            StatusCode::NotFound => 404,
            StatusCode::MethodNotAllowed => 405,
            StatusCode::InternalError => 500,
        }
    }

    /// The canonical reason.
    pub fn reason(&self) -> (r: &'static str)
        ensures
            r@ == self.reason_text(),
    {
        match self {
            StatusCode::Okay => "OK",
            StatusCode::Created => "Created",
            StatusCode::Forbidden => "Forbidden",
            StatusCode::NotFound => "Not Found",
            StatusCode::MethodNotAllowed => "Method Not Allowed",
            StatusCode::InternalError => "Internal Error",
        }
    }

    /// The code and the reason as they stand in a status line.
    pub fn describe(&self) -> (r: String)
        ensures
            r@ == self.text(),
    {
        let mut r = format_number(self.code() as u64);
        r.append(" ");
        r.append(self.reason());
        r
    }
}

/// A request method.
#[derive(Clone, Copy, Debug, PartialEq, Eq, Structural)]
pub enum Method {
    Get,
    Post,
}

impl Method {
    /// The token that names the method on the wire.
    pub open spec fn text(self) -> Seq<char> {
        match self {
            Method::Get => "GET"@,
            Method::Post => "POST"@,
        }
    }

    /// The method that `s` names, if any.
    pub open spec fn named(s: Seq<char>) -> Option<Method> {
        if s == "GET"@ {
            Some(Method::Get)
        } else if s == "POST"@ {
            Some(Method::Post)
        } else {
            None
        }
    }

    /// The token that names the method on the wire.
    pub fn as_str(&self) -> (r: &'static str)
        ensures
            r@ == self.text(),
    {
        match self {
            Method::Get => "GET",
            Method::Post => "POST",
        }
    }
}

impl<'a> TryFromSpecImpl<&'a str> for Method {
    open spec fn obeys_try_from_spec() -> bool {
        true
    }

    open spec fn try_from_spec(s: &'a str) -> Result<Method, Error> {
        match Method::named(s@) {
            Some(m) => Ok(m),
            None => Err(Error::UnsupportedMethod),
        }
    }
}

impl<'a> TryFrom<&'a str> for Method {
    type Error = Error;

    fn try_from(s: &'a str) -> (r: Result<Method, Error>) {
        if same_text(s, "GET") {
            Ok(Method::Get)
        } else if same_text(s, "POST") {
            Ok(Method::Post)
        } else {
            Err(Error::UnsupportedMethod)
        }
    }
}

/// A media type.
#[derive(Clone, Copy, Debug, PartialEq, Eq, Structural)]
pub enum MimeType {
    PlainText,
    Html,
    OctetStream,
}

impl MimeType {
    /// The text that names the media type on the wire.
    pub open spec fn text(self) -> Seq<char> {
        match self {
            MimeType::PlainText => "text/plain"@,
            MimeType::Html => "text/html"@,
            MimeType::OctetStream => "application/octet-stream"@,
        }
    }

    /// The media type that `s` names, if any.
    pub open spec fn named(s: Seq<char>) -> Option<MimeType> {
        if s == "text/plain"@ {
            Some(MimeType::PlainText)
        } else if s == "text/html"@ {
            Some(MimeType::Html)
        } else if s == "application/octet-stream"@ {
            Some(MimeType::OctetStream)
        } else {
            None
        }
    }

    /// The text that names the media type on the wire.
    pub fn as_str(&self) -> (r: &'static str)
        ensures
            r@ == self.text(),
    {
        match self {
            MimeType::PlainText => "text/plain",
            MimeType::Html => "text/html",
            MimeType::OctetStream => "application/octet-stream",
        }
    }
}

impl<'a> TryFromSpecImpl<&'a str> for MimeType {
    open spec fn obeys_try_from_spec() -> bool {
        true
    }

    open spec fn try_from_spec(s: &'a str) -> Result<MimeType, Error> {
        match MimeType::named(s@) {
            Some(m) => Ok(m),
            None => Err(Error::UnsupportedMimeType),
        }
    }
}

impl<'a> TryFrom<&'a str> for MimeType {
    type Error = Error;

    fn try_from(s: &'a str) -> (r: Result<MimeType, Error>) {
        if same_text(s, "text/plain") {
            Ok(MimeType::PlainText)
        } else if same_text(s, "text/html") {
            Ok(MimeType::Html)
        } else if same_text(s, "application/octet-stream") {
            Ok(MimeType::OctetStream)
        } else {
            Err(Error::UnsupportedMimeType)
        }
    }
}

impl<'a> TryFromSpecImpl<&'a String> for MimeType {
    open spec fn obeys_try_from_spec() -> bool {
        true
    }

    open spec fn try_from_spec(s: &'a String) -> Result<MimeType, Error> {
        match MimeType::named(s@) {
            Some(m) => Ok(m),
            None => Err(Error::UnsupportedMimeType),
        }
    }
}

impl<'a> TryFrom<&'a String> for MimeType {
    type Error = Error;

    fn try_from(s: &'a String) -> (r: Result<MimeType, Error>) {
        MimeType::try_from(s.as_str())
    }
}

/// A body with its media type.
#[derive(Debug)]
pub struct Content {
    pub mime_type: MimeType,
    pub body: String,
}

/// What a `Content` holds.
pub struct ContentView {
    pub mime_type: MimeType,
    pub body: Seq<char>,
}

impl View for Content {
    type V = ContentView;

    open spec fn view(&self) -> ContentView {
        ContentView { mime_type: self.mime_type, body: self.body@ }
    }
}

impl Clone for Content {
    fn clone(&self) -> (r: Content)
        ensures
            r@ == self@,
    {
        Content { mime_type: self.mime_type, body: self.body.clone() }
    }
}

impl ContentView {
    /// A one-line description: the media type and the body's length in bytes.
    pub open spec fn summary(self) -> Seq<char> {
        "Content("@ + self.mime_type.text() + ", "@ + decimal(
            vstd::utf8::encode_utf8(self.body).len(),
        ) + " B)"@
    }
}

impl Content {
    /// Content of type `mime_type` with the text `body`.
    pub fn new(mime_type: MimeType, body: &str) -> (r: Content)
        ensures
            r@ == (ContentView { mime_type, body: body@ }),
    {
        Content { mime_type, body: String::from_str(body) }
    }

    /// A one-line description: the media type and the body's length in bytes.
    pub fn describe(&self) -> (r: String)
        ensures
            r@ == self@.summary(),
    {
        let mut r = String::from_str("Content(");
        r.append(self.mime_type.as_str());
        r.append(", ");
        let size = format_number(self.body.as_str().as_bytes().len() as u64);
        r.append(size.as_str());
        r.append(" B)");
        r
    }
}

/// A content encoding that the engine can apply to a body. Encodings are
/// ordered by preference, the preferred one first.
#[derive(Clone, Copy, Debug, PartialEq, Eq, PartialOrd, Ord, Structural)]
pub enum Encoding {
    Gzip,
}

impl Encoding {
    /// The token that names the encoding on the wire.
    pub open spec fn text(self) -> Seq<char> {
        match self {
            Encoding::Gzip => "gzip"@,
        }
    }

    /// The encoding that `s` names, if any.
    pub open spec fn named(s: Seq<char>) -> Option<Encoding> {
        if s == "gzip"@ {
            Some(Encoding::Gzip)
        } else {
            None
        }
    }

    /// The place of the encoding in the order of preference; the lowest is
    /// preferred.
    pub open spec fn rank(self) -> nat {
        match self {
            Encoding::Gzip => 0,
        }
    }

    /// The token that names the encoding on the wire.
    pub fn as_str(&self) -> (r: &'static str)
        ensures
            r@ == self.text(),
    {
        match self {
            Encoding::Gzip => "gzip",
        }
    }

    /// The place of the encoding in the order of preference.
    pub fn preference(&self) -> (r: u8)
        ensures
            r == self.rank(),
    {
        match self {
            Encoding::Gzip => 0,
        }
    }
}

impl<'a> TryFromSpecImpl<&'a str> for Encoding {
    open spec fn obeys_try_from_spec() -> bool {
        true
    }

    open spec fn try_from_spec(s: &'a str) -> Result<Encoding, Error> {
        match Encoding::named(s@) {
            Some(e) => Ok(e),
            None => Err(Error::UnsupportedEncoding),
        }
    }
}

impl<'a> TryFrom<&'a str> for Encoding {
    type Error = Error;

    fn try_from(s: &'a str) -> (r: Result<Encoding, Error>) {
        if same_text(s, "gzip") {
            Ok(Encoding::Gzip)
        } else {
            Err(Error::UnsupportedEncoding)
        }
    }
}

impl<'a> TryFromSpecImpl<&'a String> for Encoding {
    open spec fn obeys_try_from_spec() -> bool {
        true
    }

    open spec fn try_from_spec(s: &'a String) -> Result<Encoding, Error> {
        match Encoding::named(s@) {
            Some(e) => Ok(e),
            None => Err(Error::UnsupportedEncoding),
        }
    }
}

impl<'a> TryFrom<&'a String> for Encoding {
    type Error = Error;

    fn try_from(s: &'a String) -> (r: Result<Encoding, Error>) {
        Encoding::try_from(s.as_str())
    }
}

} // verus!
