//! The calls that leave the verified code: UTF-8 validation, regular
//! expressions and gzip.
//!
//! Nothing in this file is proved. The contract of each function says what the
//! function it calls is documented to do, and the rest of the library is proved
//! from those contracts. What a regular expression matches and what gzip
//! produces is not spelled out: each has a name here, and the contracts of the
//! library speak of those names.

use std::io::Write;

use flate2::write::GzEncoder;
use flate2::Compression;
use regex::Regex;
use vstd::prelude::*;
use vstd::utf8::{encode_utf8, valid_utf8};

verus! {

/// Whether `pattern` is a regular expression that `regex::Regex::new` compiles.
pub uninterp spec fn regex_compiles(pattern: Seq<char>) -> bool;

/// The capture groups of the leftmost match of the regular expression `pattern`
/// in `text`, as `regex::Regex::captures` reports them: for every group of the
/// pattern, in the order of their opening parentheses and starting with the
/// implicit group of the whole match, the name of the group, if it has one, and
/// the text that it matched, if it took part in the match. `None` when the
/// pattern does not compile or matches nowhere in `text`.
pub uninterp spec fn regex_captures(pattern: Seq<char>, text: Seq<char>) -> Option<
    Seq<(Option<Seq<char>>, Option<Seq<char>>)>,
>;

/// The gzip stream that `flate2` writes for `data` at its default compression
/// level, or `None` when the encoder reports a failure.
pub uninterp spec fn gzip_of(data: Seq<u8>) -> Option<Seq<u8>>;

/// Calls `core::str::from_utf8`, which checks that `bytes` is UTF-8 and hands
/// the same bytes back as text. The result is `Some` exactly when `bytes` is
/// valid UTF-8, and then it is the text whose encoding `bytes` is.
#[verifier::external_body]
pub(crate) fn utf8_text<'a>(bytes: &'a [u8]) -> (r: Option<&'a str>)
    ensures
        r is Some <==> valid_utf8(bytes@),
        r matches Some(s) ==> encode_utf8(s@) == bytes@,
{
    core::str::from_utf8(bytes).ok()
}

/// Calls `regex::Regex::new` and says whether it compiled `pattern`. The
/// result is what `regex_compiles` names.
#[verifier::external_body]
pub(crate) fn pattern_compiles(pattern: &str) -> (r: bool)
    ensures
        r == regex_compiles(pattern@),
{
    Regex::new(pattern).is_ok()
}

/// Compiles `pattern` with `regex::Regex::new` and searches `text` with
/// `Regex::captures`. The groups of the match are handed out as owned text, in
/// the order of `Regex::capture_names`: the name from there, the matched text
/// from `Captures::get`. The result is what `regex_captures` names.
#[verifier::external_body]
pub(crate) fn pattern_captures(pattern: &str, text: &str) -> (r: Option<
    Vec<(Option<String>, Option<String>)>,
>)
    ensures
        r.deep_view() == regex_captures(pattern@, text@),
{
    let re = Regex::new(pattern).ok()?;
    let caps = re.captures(text)?;
    let mut groups = Vec::new();
    for (i, name) in re.capture_names().enumerate() {
        groups.push((name.map(String::from), caps.get(i).map(|m| String::from(m.as_str()))));
    }
    Some(groups)
}

/// Compresses `data` with `flate2::write::GzEncoder` at
/// `Compression::default()`, writing into memory. The result is what `gzip_of`
/// names.
#[verifier::external_body]
pub(crate) fn gzip(data: &[u8]) -> (r: Option<Vec<u8>>)
    ensures
        r.deep_view() == gzip_of(data@),
{
    let mut encoder = GzEncoder::new(Vec::new(), Compression::default());
    encoder.write_all(data).ok()?;
    encoder.finish().ok()
}

} // verus!
