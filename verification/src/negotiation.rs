//! Content negotiation: which encoding to answer in, given what a request
//! accepts. Only the names of encodings count; weights are not read.

use vstd::prelude::*;

use crate::fields::{value_of, TextMap};
use crate::prelude::Encoding;
use crate::text::{all_within, chars_of, cut, pieces, slice_text, split, Span};

verus! {

/// `token` without one space at its start, if it has one.
pub open spec fn without_space(token: Seq<char>) -> Seq<char> {
    if token.len() > 0 && token[0] == ' ' {
        token.skip(1)
    } else {
        token
    }
}

/// The encoding that a token of an `Accept-Encoding` list names, if any.
pub open spec fn offered(token: Seq<char>) -> Option<Encoding> {
    Encoding::named(without_space(token))
}

/// The preferred one of two choices: the encoding of lower rank, the first of
/// the two where the ranks are equal.
pub open spec fn better(a: Option<Encoding>, b: Option<Encoding>) -> Option<Encoding> {
    match (a, b) {
        (Some(x), Some(y)) => if y.rank() < x.rank() {
            Some(y)
        } else {
            Some(x)
        },
        (Some(x), None) => Some(x),
        (None, _) => b,
    }
}

/// The preferred encoding among those that `tokens` name.
pub open spec fn preferred(tokens: Seq<Seq<char>>) -> Option<Encoding>
    decreases tokens.len(),
{
    if tokens.len() == 0 {
        None
    } else {
        better(preferred(tokens.drop_last()), offered(tokens.last()))
    }
}

/// The encoding to answer a request with the headers `headers` in: the
/// preferred one among those that its `Accept-Encoding` header lists, separated
/// by commas, each with an optional space before it.
pub open spec fn negotiated(headers: Seq<(Seq<char>, Seq<char>)>) -> Option<Encoding> {
    match value_of(headers, "Accept-Encoding"@) {
        Some(list) => preferred(pieces(list, ',')),
        None => None,
    }
}

/// The preferred encoding is one that a token names, and no token names one of
/// lower rank. There is none only if no token names an encoding.
pub proof fn lemma_preferred(tokens: Seq<Seq<char>>)
    ensures
        match preferred(tokens) {
            Some(e) => (exists|i: int| 0 <= i < tokens.len() && offered(tokens[i]) == Some(e))
                && forall|i: int|
                0 <= i < tokens.len() ==> match #[trigger] offered(tokens[i]) {
                    Some(o) => e.rank() <= o.rank(),
                    None => true,
                },
            None => forall|i: int|
                0 <= i < tokens.len() ==> (#[trigger] offered(tokens[i])) is None,
        },
    decreases tokens.len(),
{
    if tokens.len() > 0 {
        let front = tokens.drop_last();
        lemma_preferred(front);
        assert forall|i: int| 0 <= i < front.len() implies front[i] == tokens[i] by {}
        match preferred(tokens) {
            Some(e) => {
                if offered(tokens.last()) != Some(e) {
                    let i = choose|i: int| 0 <= i < front.len() && offered(front[i]) == Some(e);
                    assert(offered(tokens[i]) == Some(e));
                }
                assert forall|i: int| 0 <= i < tokens.len() implies match #[trigger] offered(
                    tokens[i],
                ) {
                    Some(o) => e.rank() <= o.rank(),
                    None => true,
                } by {}
            },
            None => {
                assert forall|i: int| 0 <= i < tokens.len() implies (#[trigger] offered(
                    tokens[i],
                )) is None by {}
            },
        }
    }
}

/// Picks the encoding to answer a request with the headers `headers` in.
pub fn negotiate(headers: &TextMap) -> (r: Option<Encoding>)
    ensures
        r == negotiated(headers@),
{
    let list = match headers.get("Accept-Encoding") {
        Some(list) => list.as_str(),
        None => {
            return None;
        },
    };
    let chars = chars_of(list);
    let tokens = split(chars.as_slice(), ',');
    let ghost all = pieces(list@, ',');
    let mut best: Option<Encoding> = None;
    let mut k: usize = 0;
    while k < tokens.len()
        invariant
            k <= tokens.len(),
            chars@ == list@,
            all == pieces(list@, ','),
            all == cut(chars@, tokens@),
            all_within(tokens@, chars@.len()),
            best == preferred(all.take(k as int)),
        decreases tokens.len() - k,
    {
        let span = tokens[k];
        let start: usize = if span.start < span.end && chars[span.start] == ' ' {
            span.start + 1
        } else {
            span.start
        };
        let token = slice_text(list, Span { start, end: span.end });
        proof {
            let next = all.take(k + 1);
            assert(next.drop_last() =~= all.take(k as int));
            assert(token@ =~= without_space(all[k as int]));
        }
        let choice = match Encoding::try_from(token) {
            Ok(e) => Some(e),
            Err(_) => None,
        };
        best = match (best, choice) {
            (Some(x), Some(y)) => if y.preference() < x.preference() {
                Some(y)
            } else {
                Some(x)
            },
            (Some(x), None) => Some(x),
            (None, c) => c,
        };
        k += 1;
    }
    assert(all.take(k as int) =~= all);
    best
}

} // verus!
