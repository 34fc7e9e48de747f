//! Searching and splitting of character sequences.
//!
//! Every operation is stated over `Seq<char>`, the view of `str` and `String`, and
//! computed over a `&[char]` with the same view. Results are reported as positions
//! ([`Span`]) so that callers can cut the owning `&str` without copying.

use vstd::prelude::*;
use vstd::slice::slice_subrange;
use vstd::utf8::encode_utf8_decode_utf8;

verus! {

/// The half-open range `start..end` of positions in a sequence.
#[derive(Clone, Copy, Debug)]
pub struct Span {
    pub start: usize,
    pub end: usize,
}

impl Span {
    /// The range lies inside a sequence of `len` items.
    pub open spec fn within(self, len: nat) -> bool {
        self.start <= self.end <= len
    }

    /// The items of `s` that the range covers.
    pub open spec fn of<T>(self, s: Seq<T>) -> Seq<T> {
        s.subrange(self.start as int, self.end as int)
    }
}

/// The sub-sequences of `s` that `spans` cover, in order.
pub open spec fn cut<T>(s: Seq<T>, spans: Seq<Span>) -> Seq<Seq<T>> {
    Seq::new(spans.len(), |k: int| spans[k].of(s))
}

/// Every range of `spans` lies inside a sequence of `len` items.
pub open spec fn all_within(spans: Seq<Span>, len: nat) -> bool {
    forall|k: int| 0 <= k < spans.len() ==> (#[trigger] spans[k]).within(len)
}

/// `pat` stands in `s` at position `i`.
pub open spec fn occurs_at<T>(s: Seq<T>, pat: Seq<T>, i: int) -> bool {
    0 <= i && i + pat.len() <= s.len() && s.subrange(i, i + pat.len()) == pat
}

/// The first position at or after `from` where `pat` stands in `s`.
pub open spec fn occurrence_from<T>(s: Seq<T>, pat: Seq<T>, from: int) -> Option<int>
    decreases s.len() - from,
{
    if from < 0 || from + pat.len() > s.len() {
        None
    } else if occurs_at(s, pat, from) {
        Some(from)
    } else {
        proof {
            if from == s.len() {
                assert(s.subrange(from, from + pat.len()) =~= pat);
            }
        }
        occurrence_from(s, pat, from + 1)
    }
}

/// The first position where `pat` stands in `s`.
pub open spec fn occurrence<T>(s: Seq<T>, pat: Seq<T>) -> Option<int> {
    occurrence_from(s, pat, 0)
}

/// What `occurrence_from` finds is an occurrence, and the earliest one from `from` on.
pub proof fn lemma_occurrence_from<T>(s: Seq<T>, pat: Seq<T>, from: int)
    requires
        0 <= from,
    ensures
        match occurrence_from(s, pat, from) {
            Some(i) => from <= i && occurs_at(s, pat, i) && forall|j: int|
                from <= j < i ==> !occurs_at(s, pat, j),
            None => forall|j: int| from <= j ==> !occurs_at(s, pat, j),
        },
    decreases s.len() - from,
{
    if from + pat.len() <= s.len() && !occurs_at(s, pat, from) {
        if from == s.len() {
            assert(s.subrange(from, from + pat.len()) =~= pat);
        }
        lemma_occurrence_from(s, pat, from + 1);
    }
}

/// The first occurrence is an occurrence with none before it; `None` means that
/// `pat` stands nowhere in `s`.
pub proof fn lemma_occurrence<T>(s: Seq<T>, pat: Seq<T>)
    ensures
        match occurrence(s, pat) {
            Some(i) => occurs_at(s, pat, i) && forall|j: int| 0 <= j < i ==> !occurs_at(s, pat, j),
            None => forall|j: int| !occurs_at(s, pat, j),
        },
{
    lemma_occurrence_from(s, pat, 0);
}

/// An occurrence with none before it is the first occurrence.
pub proof fn lemma_occurrence_is<T>(s: Seq<T>, pat: Seq<T>, i: int)
    requires
        occurs_at(s, pat, i),
        forall|j: int| 0 <= j < i ==> !occurs_at(s, pat, j),
    ensures
        occurrence(s, pat) == Some(i),
{
    lemma_occurrence(s, pat);
}

/// A pattern that stands nowhere has no first occurrence.
pub proof fn lemma_occurrence_none<T>(s: Seq<T>, pat: Seq<T>)
    requires
        forall|j: int| !occurs_at(s, pat, j),
    ensures
        occurrence(s, pat) is None,
{
    lemma_occurrence(s, pat);
}

/// Where `pat` stands in `s`, it stands in `s` followed by `more`; and where it
/// stands in that without reaching into `more`, it stands in `s`.
pub proof fn lemma_occurs_extended<T>(s: Seq<T>, more: Seq<T>, pat: Seq<T>, i: int)
    requires
        0 <= i,
        i + pat.len() <= s.len(),
    ensures
        occurs_at(s + more, pat, i) == occurs_at(s, pat, i),
{
    assert((s + more).subrange(i, i + pat.len()) =~= s.subrange(i, i + pat.len()));
}

/// The first occurrence of `pat` in `s` is its first occurrence in `s` followed
/// by `more`. If `pat` does not occur in `s`, an occurrence in `s` followed by
/// `more` reaches into `more`.
pub proof fn lemma_occurrence_extended<T>(s: Seq<T>, more: Seq<T>, pat: Seq<T>)
    ensures
        occurrence(s, pat) is Some ==> occurrence(s + more, pat) == occurrence(s, pat),
        occurrence(s, pat) is None ==> match occurrence(s + more, pat) {
            Some(i) => i + pat.len() > s.len(),
            None => true,
        },
{
    lemma_occurrence(s, pat);
    lemma_occurrence(s + more, pat);
    match occurrence(s, pat) {
        Some(i) => {
            lemma_occurs_extended(s, more, pat, i);
            assert forall|j: int| 0 <= j < i implies !occurs_at(s + more, pat, j) by {
                lemma_occurs_extended(s, more, pat, j);
            }
            lemma_occurrence_is(s + more, pat, i);
        },
        None => {
            match occurrence(s + more, pat) {
                Some(i) => {
                    if i + pat.len() <= s.len() {
                        lemma_occurs_extended(s, more, pat, i);
                    }
                },
                None => {},
            }
        },
    }
}

/// A one-item pattern stands where the item does.
pub proof fn lemma_occurs_single<T>(s: Seq<T>, x: T, i: int)
    ensures
        occurs_at(s, seq![x], i) <==> (0 <= i < s.len() && s[i] == x),
{
    if 0 <= i < s.len() {
        if s[i] == x {
            assert(s.subrange(i, i + 1) =~= seq![x]);
        } else {
            assert(s.subrange(i, i + 1)[0] == s[i]);
        }
    }
}

/// The parts of `s` between the occurrences of the separator `sep`, found from
/// left to right. There is always at least one part; parts may be empty.
pub open spec fn pieces<T>(s: Seq<T>, sep: T) -> Seq<Seq<T>>
    decreases s.len(),
{
    match occurrence(s, seq![sep]) {
        Some(i) => {
            if 0 <= i < s.len() {
                seq![s.take(i)] + pieces(s.skip(i + 1), sep)
            } else {
                seq![s]
            }
        },
        None => seq![s],
    }
}

/// A text without the separator is one piece.
pub proof fn lemma_pieces_one<T>(s: Seq<T>, sep: T)
    requires
        !s.contains(sep),
    ensures
        pieces(s, sep) == seq![s],
{
    assert forall|j: int| !occurs_at(s, seq![sep], j) by {
        lemma_occurs_single(s, sep, j);
    }
    lemma_occurrence_none(s, seq![sep]);
}

/// `line` without one carriage return at its end, if it has one.
pub open spec fn without_cr(line: Seq<char>) -> Seq<char> {
    if line.len() > 0 && line.last() == '\r' {
        line.drop_last()
    } else {
        line
    }
}

/// The lines of `s`. A line ends at a line feed, which is not part of it, nor is
/// a carriage return directly before that line feed. What follows the last line
/// feed is a line of its own unless it is empty.
pub open spec fn lines_of(s: Seq<char>) -> Seq<Seq<char>>
    decreases s.len(),
{
    if s.len() == 0 {
        seq![]
    } else {
        match occurrence(s, seq!['\n']) {
            Some(i) => {
                if 0 <= i < s.len() {
                    seq![without_cr(s.take(i))] + lines_of(s.skip(i + 1))
                } else {
                    seq![s]
                }
            },
            None => seq![s],
        }
    }
}

/// White space, as Unicode's `White_Space` property defines it.
pub open spec fn is_whitespace(c: char) -> bool {
    let u = c as u32;
    ||| 0x09 <= u <= 0x0d
    ||| u == 0x20
    ||| u == 0x85
    ||| u == 0xa0
    ||| u == 0x1680
    ||| 0x2000 <= u <= 0x200a
    ||| u == 0x2028
    ||| u == 0x2029
    ||| u == 0x202f
    ||| u == 0x205f
    ||| u == 0x3000
}

/// The number of characters at the start of `s` that are not white space.
pub open spec fn leading_text(s: Seq<char>) -> nat
    decreases s.len(),
{
    if s.len() > 0 && !is_whitespace(s[0]) {
        1 + leading_text(s.skip(1))
    } else {
        0
    }
}

/// The text at the start of `s` is no longer than `s`, holds no white space,
/// and ends before a white-space character.
pub proof fn lemma_leading_text(s: Seq<char>)
    ensures
        leading_text(s) <= s.len(),
        forall|j: int| 0 <= j < leading_text(s) ==> !is_whitespace(s[j]),
        leading_text(s) < s.len() ==> is_whitespace(s[leading_text(s) as int]),
    decreases s.len(),
{
    if s.len() > 0 && !is_whitespace(s[0]) {
        let t = s.skip(1);
        lemma_leading_text(t);
        assert forall|j: int| 0 <= j < leading_text(s) implies !is_whitespace(s[j]) by {
            if j > 0 {
                assert(s[j] == t[j - 1]);
            }
        }
        if leading_text(s) < s.len() {
            assert(s[leading_text(s) as int] == t[leading_text(t) as int]);
        }
    }
}

/// A run without white space at the start of `s` that ends before a
/// white-space character, or at the end of `s`, is all the text at its start.
pub proof fn lemma_leading_text_is(s: Seq<char>, n: int)
    requires
        0 <= n <= s.len(),
        forall|j: int| 0 <= j < n ==> !is_whitespace(s[j]),
        n < s.len() ==> is_whitespace(s[n]),
    ensures
        leading_text(s) == n,
{
    lemma_leading_text(s);
}

/// The words of `s`: its longest runs of characters that are not white space,
/// from left to right. White space stands between words and is part of none;
/// no word is empty.
pub open spec fn words(s: Seq<char>) -> Seq<Seq<char>>
    decreases s.len(),
{
    if s.len() == 0 {
        Seq::empty()
    } else if is_whitespace(s[0]) {
        words(s.skip(1))
    } else {
        proof {
            lemma_leading_text(s);
        }
        seq![s.take(leading_text(s) as int)] + words(s.skip(leading_text(s) as int))
    }
}

/// A word: text that is not empty and holds no white space.
pub open spec fn is_word(s: Seq<char>) -> bool {
    s.len() > 0 && forall|i: int| 0 <= i < s.len() ==> !is_whitespace(#[trigger] s[i])
}

/// A word alone is one word.
pub proof fn lemma_words_one(word: Seq<char>)
    requires
        is_word(word),
    ensures
        words(word) == seq![word],
{
    let n = word.len() as int;
    assert(!is_whitespace(word[0]));
    lemma_leading_text_is(word, n);
    assert(word.take(n) =~= word);
    assert(word.skip(n).len() == 0);
    assert(words(word.skip(n)) =~= Seq::<Seq<char>>::empty());
    assert(words(word) == seq![word.take(n)] + words(word.skip(n)));
    assert(seq![word] + Seq::<Seq<char>>::empty() =~= seq![word]);
}

/// A word, a white-space character and more text: the words are that word and
/// the words of what follows.
pub proof fn lemma_words_more(word: Seq<char>, gap: char, more: Seq<char>)
    requires
        is_word(word),
        is_whitespace(gap),
    ensures
        words(word + seq![gap] + more) == seq![word] + words(more),
{
    let s = word + seq![gap] + more;
    let n = word.len() as int;
    assert forall|j: int| 0 <= j < n implies !is_whitespace(s[j]) by {
        assert(s[j] == word[j]);
    }
    assert(s[n] == gap);
    assert(s[0] == word[0]);
    assert(!is_whitespace(s[0]));
    lemma_leading_text_is(s, n);
    assert(s.take(n) =~= word);
    let rest = s.skip(n);
    assert(rest[0] == gap);
    assert(rest.skip(1) =~= more);
    assert(words(rest) == words(rest.skip(1)));
    assert(words(s) == seq![s.take(n)] + words(rest));
}

/// The characters of `s`.
pub fn chars_of(s: &str) -> (out: Vec<char>)
    ensures
        out@ == s@,
{
    let mut out: Vec<char> = Vec::new();
    for c in it: s.chars()
        invariant
            out@ == it.seq().take(it.index()),
            it.seq() == s@,
    {
        out.push(c);
    }
    out
}

/// Whether two byte strings are equal.
pub fn same_bytes(a: &[u8], b: &[u8]) -> (r: bool)
    ensures
        r == (a@ == b@),
{
    if a.len() != b.len() {
        return false;
    }
    let mut i: usize = 0;
    while i < a.len()
        invariant
            i <= a.len(),
            a.len() == b.len(),
            forall|j: int| 0 <= j < i ==> a@[j] == b@[j],
        decreases a.len() - i,
    {
        if a[i] != b[i] {
            return false;
        }
        i += 1;
    }
    assert(a@ =~= b@);
    true
}

/// Whether two strings hold the same text.
pub fn same_text(a: &str, b: &str) -> (r: bool)
    ensures
        r == (a@ == b@),
{
    let r = same_bytes(a.as_bytes(), b.as_bytes());
    proof {
        encode_utf8_decode_utf8(a@);
        encode_utf8_decode_utf8(b@);
    }
    r
}

/// Whether two character strings are equal.
pub fn same_chars(a: &[char], b: &[char]) -> (r: bool)
    ensures
        r == (a@ == b@),
{
    if a.len() != b.len() {
        return false;
    }
    let mut i: usize = 0;
    while i < a.len()
        invariant
            i <= a.len(),
            a.len() == b.len(),
            forall|j: int| 0 <= j < i ==> a@[j] == b@[j],
        decreases a.len() - i,
    {
        if a[i] != b[i] {
            return false;
        }
        i += 1;
    }
    assert(a@ =~= b@);
    true
}

/// The text of `s` from character `span.start` up to character `span.end`.
pub fn slice_text(s: &str, span: Span) -> (out: &str)
    requires
        span.within(s@.len()),
    ensures
        out@ == span.of(s@),
{
    s.substring_char(span.start, span.end)
}

/// The characters of `s` that `span` covers.
pub fn slice_chars(s: &[char], span: Span) -> (out: &[char])
    requires
        span.within(s@.len()),
    ensures
        out@ == span.of(s@),
{
    slice_subrange(s, span.start, span.end)
}

/// Finds the first position where `pat` stands in `s`.
pub fn find(s: &[char], pat: &[char]) -> (r: Option<usize>)
    ensures
        match r {
            Some(i) => occurrence(s@, pat@) == Some(i as int) && i + pat@.len() <= s@.len(),
            None => occurrence(s@, pat@) is None,
        },
{
    if pat.len() > s.len() {
        return None;
    }
    let last: usize = s.len() - pat.len();
    let mut i: usize = 0;
    loop
        invariant
            i <= last,
            last == s.len() - pat.len(),
            occurrence(s@, pat@) == occurrence_from(s@, pat@, i as int),
        decreases last - i,
    {
        if same_chars(slice_subrange(s, i, i + pat.len()), pat) {
            return Some(i);
        }
        if i == last {
            return None;
        }
        i += 1;
    }
}

/// Finds the first position where `pat` stands in the bytes `s`.
pub fn find_bytes(s: &[u8], pat: &[u8]) -> (r: Option<usize>)
    ensures
        match r {
            Some(i) => occurrence(s@, pat@) == Some(i as int) && i + pat@.len() <= s@.len(),
            None => occurrence(s@, pat@) is None,
        },
{
    if pat.len() > s.len() {
        return None;
    }
    let last: usize = s.len() - pat.len();
    let mut i: usize = 0;
    loop
        invariant
            i <= last,
            last == s.len() - pat.len(),
            occurrence(s@, pat@) == occurrence_from(s@, pat@, i as int),
        decreases last - i,
    {
        if same_bytes(slice_subrange(s, i, i + pat.len()), pat) {
            return Some(i);
        }
        if i == last {
            return None;
        }
        i += 1;
    }
}

/// Finds the first position of the character `c` in `s`.
pub fn find_char(s: &[char], c: char) -> (r: Option<usize>)
    ensures
        match r {
            Some(i) => occurrence(s@, seq![c]) == Some(i as int) && i < s.len() && s@[i as int]
                == c,
            None => occurrence(s@, seq![c]) is None,
        },
{
    let mut i: usize = 0;
    while i < s.len()
        invariant
            i <= s.len(),
            forall|j: int| 0 <= j < i ==> s@[j] != c,
        decreases s.len() - i,
    {
        if s[i] == c {
            proof {
                assert forall|j: int| 0 <= j < i implies !occurs_at(s@, seq![c], j) by {
                    lemma_occurs_single(s@, c, j);
                }
                lemma_occurs_single(s@, c, i as int);
                lemma_occurrence_is(s@, seq![c], i as int);
            }
            return Some(i);
        }
        i += 1;
    }
    proof {
        assert forall|j: int| !occurs_at(s@, seq![c], j) by {
            lemma_occurs_single(s@, c, j);
        }
        lemma_occurrence_none(s@, seq![c]);
    }
    None
}

/// Splits `s` at every occurrence of the separator `sep`.
pub fn split(s: &[char], sep: char) -> (out: Vec<Span>)
    ensures
        all_within(out@, s@.len()),
        cut(s@, out@) == pieces(s@, sep),
{
    let mut out: Vec<Span> = Vec::new();
    let mut start: usize = 0;
    proof {
        assert(s@.skip(0) == s@);
    }
    loop
        invariant_except_break
            pieces(s@, sep) == cut(s@, out@) + pieces(s@.skip(start as int), sep),
        invariant
            start <= s.len(),
            all_within(out@, s@.len()),
        ensures
            all_within(out@, s@.len()),
            cut(s@, out@) == pieces(s@, sep),
        decreases s.len() - start,
    {
        let rest = slice_subrange(s, start, s.len());
        match find_char(rest, sep) {
            Some(i) => {
                out.push(Span { start, end: start + i });
                proof {
                    assert(rest@.take(i as int) == s@.subrange(start as int, start + i));
                    assert(rest@.skip(i + 1) == s@.skip(start + i + 1));
                }
                start = start + i + 1;
            },
            None => {
                out.push(Span { start, end: s.len() });
                break ;
            },
        }
    }
    out
}

/// Splits `s` into its lines.
pub fn split_lines(s: &[char]) -> (out: Vec<Span>)
    ensures
        all_within(out@, s@.len()),
        cut(s@, out@) == lines_of(s@),
{
    let mut out: Vec<Span> = Vec::new();
    let mut start: usize = 0;
    proof {
        assert(s@.skip(0) == s@);
    }
    while start < s.len()
        invariant
            start <= s.len(),
            all_within(out@, s@.len()),
            lines_of(s@) == cut(s@, out@) + lines_of(s@.skip(start as int)),
        decreases s.len() - start,
    {
        let rest = slice_subrange(s, start, s.len());
        match find_char(rest, '\n') {
            Some(i) => {
                let end: usize = if i > 0 && s[start + i - 1] == '\r' {
                    start + i - 1
                } else {
                    start + i
                };
                out.push(Span { start, end });
                proof {
                    let line = rest@.take(i as int);
                    assert(without_cr(line) == s@.subrange(start as int, end as int));
                    assert(rest@.skip(i + 1) == s@.skip(start + i + 1));
                }
                start = start + i + 1;
            },
            None => {
                out.push(Span { start, end: s.len() });
                start = s.len();
            },
        }
    }
    out
}

/// Whether `c` is white space.
pub fn whitespace(c: char) -> (r: bool)
    ensures
        r == is_whitespace(c),
{
    let u: u32 = c as u32;
    (0x09 <= u && u <= 0x0d) || u == 0x20 || u == 0x85 || u == 0xa0 || u == 0x1680 || (0x2000 <= u
        && u <= 0x200a) || u == 0x2028 || u == 0x2029 || u == 0x202f || u == 0x205f || u == 0x3000
}

/// Splits `s` into its words.
pub fn split_words(s: &[char]) -> (out: Vec<Span>)
    ensures
        all_within(out@, s@.len()),
        cut(s@, out@) == words(s@),
{
    let mut out: Vec<Span> = Vec::new();
    let mut start: usize = 0;
    assert(s@.skip(0) =~= s@);
    assert(cut(s@, out@) + words(s@) =~= words(s@));
    while start < s.len()
        invariant
            start <= s.len(),
            all_within(out@, s@.len()),
            words(s@) == cut(s@, out@) + words(s@.skip(start as int)),
        decreases s.len() - start,
    {
        let ghost rest = s@.skip(start as int);
        assert(rest[0] == s@[start as int]);
        if whitespace(s[start]) {
            assert(rest.skip(1) =~= s@.skip(start + 1));
            start += 1;
        } else {
            let mut end: usize = start + 1;
            while end < s.len() && !whitespace(s[end])
                invariant
                    start < end <= s.len(),
                    forall|j: int| start <= j < end ==> !is_whitespace(s@[j]),
                decreases s.len() - end,
            {
                end += 1;
            }
            let ghost before = out@;
            out.push(Span { start, end });
            proof {
                assert forall|j: int| 0 <= j < end - start implies !is_whitespace(rest[j]) by {
                    assert(rest[j] == s@[start + j]);
                }
                if end - start < rest.len() {
                    assert(rest[end - start] == s@[end as int]);
                }
                lemma_leading_text_is(rest, end - start);
                assert(rest.take(end - start) =~= s@.subrange(start as int, end as int));
                assert(rest.skip(end - start) =~= s@.skip(end as int));
                assert(cut(s@, out@) =~= cut(s@, before) + seq![rest.take(end - start)]);
            }
            start = end;
        }
    }
    assert(words(s@.skip(start as int)) =~= Seq::<Seq<char>>::empty());
    assert(cut(s@, out@) + Seq::<Seq<char>>::empty() =~= cut(s@, out@));
    out
}

} // verus!
