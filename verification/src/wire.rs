//! The bytes of a request on the wire, and the proof that decoding gives back
//! the request that was written.

use vstd::prelude::*;
use vstd::utf8::*;

use crate::decimal::number_of;
use crate::error::Error;
use crate::fields::{
    distinct_names, last_value, lemma_distinct_pairs_are_kept, lemma_last_value_is_kept,
    stored_all, value_of,
};
use crate::prelude::{Method, MimeType, Protocol};
use crate::request::{
    blank_line, complete, decoded, decoded_content, decoded_head, header_end, headers_from,
    lemma_complete_input_is_final, name_end, request_line, without_blank_line, Head,
    RequestView, MAX_REQUEST_SIZE,
};
use crate::text::{
    is_whitespace, is_word, lemma_occurrence, lemma_occurrence_extended, lemma_occurrence_is,
    lemma_occurrence_none, lemma_occurs_single, lemma_words_more, lemma_words_one, lines_of,
    occurrence, occurs_at, words,
};
use crate::unicode::{
    lemma_ascii_occurs_in_bytes, lemma_ascii_occurs_in_text, lemma_encode_concat,
};

verus! {

/// The characters that end a line.
pub open spec fn line_end() -> Seq<char> {
    seq!['\r', '\n']
}

/// The lines `lines`, which are not empty, with a line end between each two.
pub open spec fn block(lines: Seq<Seq<char>>) -> Seq<char>
    decreases lines.len(),
{
    if lines.len() <= 1 {
        if lines.len() == 1 {
            lines[0]
        } else {
            Seq::empty()
        }
    } else {
        lines[0] + line_end() + block(lines.skip(1))
    }
}

/// A line that can be written: it is not empty and holds no line feed.
pub open spec fn plain(line: Seq<char>) -> bool {
    line.len() > 0 && !line.contains('\n')
}

/// Every line of `lines` can be written.
pub open spec fn all_plain(lines: Seq<Seq<char>>) -> bool {
    forall|i: int| 0 <= i < lines.len() ==> plain(#[trigger] lines[i])
}

/// The lines of `lines`, each followed by a line end, and a blank line behind
/// them.
spec fn section(lines: Seq<Seq<char>>) -> Seq<char>
    decreases lines.len(),
{
    if lines.len() == 0 {
        line_end()
    } else {
        lines[0] + line_end() + section(lines.skip(1))
    }
}

/// A block of lines followed by two line ends is those lines, each followed by
/// a line end, and a blank line behind them.
proof fn lemma_section(lines: Seq<Seq<char>>)
    requires
        lines.len() > 0,
    ensures
        section(lines) == block(lines) + line_end() + line_end(),
    decreases lines.len(),
{
    if lines.len() == 1 {
        assert(section(lines.skip(1)) == line_end());
    } else {
        lemma_section(lines.skip(1));
    }
}

/// What follows a written line does not start with a blank line unless nothing
/// but the blank line follows.
proof fn lemma_section_start(lines: Seq<Seq<char>>)
    requires
        all_plain(lines),
    ensures
        section(lines).len() >= 2,
        lines.len() > 0 ==> section(lines)[0] != '\n' && section(lines)[1] != '\n',
        lines.len() == 0 ==> section(lines) == line_end(),
{
}

/// In a written header section, the blank line stands at the end and nowhere
/// before it.
proof fn lemma_section_blank_line(lines: Seq<Seq<char>>, j: int)
    requires
        all_plain(lines),
        occurs_at(section(lines), line_end() + line_end(), j),
    ensures
        j + 4 == section(lines).len(),
    decreases lines.len(),
{
    let whole = section(lines);
    let found = whole.subrange(j, j + 4);
    assert(whole[j] == found[0] && whole[j + 1] == found[1] && whole[j + 2] == found[2] && whole[j
        + 3] == found[3]);
    if lines.len() > 0 {
        let others = lines.skip(1);
        let rest = section(others);
        let n = lines[0].len() as int;
        assert forall|i: int| 0 <= i < others.len() implies plain(#[trigger] others[i]) by {}
        lemma_section_start(others);
        if j >= n + 2 {
            assert(rest.subrange(j - (n + 2), j - (n + 2) + 4) =~= found);
            lemma_section_blank_line(others, j - (n + 2));
        }
    }
}

/// A written line alone is one line.
proof fn lemma_lines_last(line: Seq<char>)
    requires
        plain(line),
    ensures
        lines_of(line) == seq![line],
{
    assert forall|j: int| !occurs_at(line, seq!['\n'], j) by {
        lemma_occurs_single(line, '\n', j);
    }
    lemma_occurrence_none(line, seq!['\n']);
}

/// A written line, a line end and more text: the lines are that line and the
/// lines of what follows.
proof fn lemma_lines_more(line: Seq<char>, more: Seq<char>)
    requires
        plain(line),
    ensures
        lines_of(line + line_end() + more) == seq![line] + lines_of(more),
{
    let text = line + line_end() + more;
    let n = line.len() as int;
    assert forall|j: int| 0 <= j < n + 1 implies !occurs_at(text, seq!['\n'], j) by {
        lemma_occurs_single(text, '\n', j);
    }
    lemma_occurs_single(text, '\n', n + 1);
    lemma_occurrence_is(text, seq!['\n'], n + 1);
    let cut = text.take(n + 1);
    assert(cut.drop_last() =~= line);
    assert(text.skip(n + 2) =~= more);
}

/// The lines of a block of written lines are those lines.
pub proof fn lemma_lines_of_block(lines: Seq<Seq<char>>)
    requires
        lines.len() > 0,
        all_plain(lines),
    ensures
        lines_of(block(lines)) == lines,
    decreases lines.len(),
{
    let first = lines[0];
    if lines.len() == 1 {
        lemma_lines_last(first);
    } else {
        let others = lines.skip(1);
        assert forall|i: int| 0 <= i < others.len() implies plain(#[trigger] others[i]) by {}
        lemma_lines_of_block(others);
        lemma_lines_more(first, block(others));
    }
}

/// The request line of the request `rq`.
pub open spec fn request_line_text(rq: RequestView) -> Seq<char> {
    rq.method.text() + seq![' '] + rq.uri + seq![' '] + rq.protocol.text()
}

/// A header as a line: the name, `": "` and the value.
pub open spec fn header_text(header: (Seq<char>, Seq<char>)) -> Seq<char> {
    header.0 + name_end() + header.1
}

/// The headers `headers` as lines.
pub open spec fn header_texts(headers: Seq<(Seq<char>, Seq<char>)>) -> Seq<Seq<char>> {
    Seq::new(headers.len(), |i: int| header_text(headers[i]))
}

/// The header section of the request `rq`: the request line and the headers,
/// each on a line of its own, and a blank line.
pub open spec fn head_text(rq: RequestView) -> Seq<char> {
    block(seq![request_line_text(rq)] + header_texts(rq.headers)) + line_end() + line_end()
}

/// The bytes of the body of the request `rq`.
pub open spec fn body_bytes(rq: RequestView) -> Seq<u8> {
    match rq.content {
        Some(content) => encode_utf8(content.body),
        None => Seq::empty(),
    }
}

/// The bytes of the request `rq` on the wire: its header section and its
/// body.
pub open spec fn written(rq: RequestView) -> Seq<u8> {
    encode_utf8(head_text(rq)) + body_bytes(rq)
}

/// A header that can be written and read back: neither name nor value holds a
/// line feed, and the name does not hold `": "`.
pub open spec fn writable_header(header: (Seq<char>, Seq<char>)) -> bool {
    &&& !header.0.contains('\n')
    &&& !header.1.contains('\n')
    &&& occurrence(header.0, name_end()) is None
}

/// The headers that are read from the header lines `fields`: for every name
/// the value of the last line that has it, in the order in which the names
/// first come.
pub open spec fn collected(fields: Seq<(Seq<char>, Seq<char>)>) -> Seq<(Seq<char>, Seq<char>)> {
    stored_all(Seq::empty(), fields)
}

/// What is read back of the request `rq`, whose `headers` are its header lines
/// as they are written, where a name may come more than once: the same
/// request, with the headers that are read from those lines.
pub open spec fn read_back(rq: RequestView) -> RequestView {
    RequestView {
        method: rq.method,
        uri: rq.uri,
        protocol: rq.protocol,
        headers: collected(rq.headers),
        content: rq.content,
    }
}

/// A request that can be written and read back. Its `headers` are its header
/// lines as they are written; a name may come more than once.
///
/// Its target is a word: not empty and without white space. Its headers can
/// be written. Its header section fits `MAX_REQUEST_SIZE`. If it has content,
/// the last `Content-Type` header names the media type, the last
/// `Content-Length` header gives the length of the body in bytes, and that
/// length fits `MAX_REQUEST_SIZE`; if it has none, one of those two headers is
/// missing.
pub open spec fn writable(rq: RequestView) -> bool {
    &&& is_word(rq.uri)
    &&& forall|i: int| 0 <= i < rq.headers.len() ==> writable_header(#[trigger] rq.headers[i])
    &&& encode_utf8(head_text(rq)).len() <= MAX_REQUEST_SIZE
    &&& match rq.content {
        Some(content) => {
            &&& last_value(rq.headers, "Content-Type"@) == Some(content.mime_type.text())
            &&& last_value(rq.headers, "Content-Length"@) matches Some(length) && number_of(
                length,
                usize::MAX as nat,
            ) == Some(encode_utf8(content.body).len())
            &&& encode_utf8(content.body).len() <= MAX_REQUEST_SIZE
        },
        None => last_value(rq.headers, "Content-Type"@) is None || last_value(
            rq.headers,
            "Content-Length"@,
        ) is None,
    }
}

/// The tokens that name methods and protocol versions name them apart, and
/// each is a word.
proof fn lemma_tokens(method: Method, protocol: Protocol)
    ensures
        Method::named(method.text()) == Some(method),
        Protocol::named(protocol.text()) == Some(protocol),
        is_word(method.text()),
        is_word(protocol.text()),
{
    reveal_strlit("GET");
    reveal_strlit("POST");
    reveal_strlit("HTTP/1.1");
    assert("GET"@[0] == 'G' && "POST"@[0] == 'P');
}

/// A word holds no line feed.
proof fn lemma_word_is_plain(word: Seq<char>)
    requires
        is_word(word),
    ensures
        !word.contains('\n'),
{
    if word.contains('\n') {
        let i = choose|i: int| 0 <= i < word.len() && word[i] == '\n';
        assert(is_whitespace(word[i]));
    }
}

/// The text that names a media type names that media type.
proof fn lemma_mime_type(mime_type: MimeType)
    ensures
        MimeType::named(mime_type.text()) == Some(mime_type),
{
    reveal_strlit("text/plain");
    reveal_strlit("text/html");
    reveal_strlit("application/octet-stream");
    assert("text/plain"@[5] == 'p');
    assert("text/html"@[5] == 'h');
}

/// The request line of a request reads as its method, target and protocol
/// version.
proof fn lemma_request_line(rq: RequestView)
    requires
        is_word(rq.uri),
    ensures
        request_line(request_line_text(rq)) == Ok::<_, Error>((rq.method, rq.uri, rq.protocol)),
{
    lemma_tokens(rq.method, rq.protocol);
    let m = rq.method.text();
    let p = rq.protocol.text();
    let line = request_line_text(rq);
    assert(line =~= m + seq![' '] + (rq.uri + seq![' '] + p));
    lemma_words_more(m, ' ', rq.uri + seq![' '] + p);
    lemma_words_more(rq.uri, ' ', p);
    lemma_words_one(p);
    assert(words(line) =~= seq![m, rq.uri, p]);
}

/// A header line is parted between its name and its value.
proof fn lemma_header_line(header: (Seq<char>, Seq<char>))
    requires
        occurrence(header.0, name_end()) is None,
    ensures
        occurrence(header_text(header), name_end()) == Some(header.0.len() as int),
        header_text(header).take(header.0.len() as int) == header.0,
        header_text(header).skip(header.0.len() as int + 2) == header.1,
{
    let line = header_text(header);
    let name = header.0;
    let n = name.len() as int;
    lemma_occurrence(name, name_end());
    assert(line.subrange(n, n + 2) =~= name_end());
    assert forall|j: int| 0 <= j < n implies !occurs_at(line, name_end(), j) by {
        if occurs_at(line, name_end(), j) {
            let found = line.subrange(j, j + 2);
            if j + 2 <= n {
                assert(name.subrange(j, j + 2) =~= found);
                assert(occurs_at(name, name_end(), j));
            }
        }
    }
    lemma_occurrence_is(line, name_end(), n);
}

/// The lines of headers that can be written, read from the `k`-th on, add the
/// headers from the `k`-th on to what was read from those before it.
proof fn lemma_headers_from(headers: Seq<(Seq<char>, Seq<char>)>, k: int)
    requires
        0 <= k <= headers.len(),
        forall|i: int| 0 <= i < headers.len() ==> writable_header(#[trigger] headers[i]),
    ensures
        headers_from(header_texts(headers).skip(k), collected(headers.take(k))) == collected(
            headers,
        ),
    decreases headers.len() - k,
{
    let lines = header_texts(headers).skip(k);
    if k < headers.len() {
        let header = headers[k];
        lemma_header_line(header);
        assert(headers.take(k + 1).drop_last() =~= headers.take(k));
        assert(lines.skip(1) =~= header_texts(headers).skip(k + 1));
        lemma_headers_from(headers, k + 1);
    } else {
        assert(headers.take(k) =~= headers);
    }
}

/// For every name, the header that is read back of a written request is the
/// last header line of that name; no name is read back twice.
pub proof fn lemma_written_headers_keep_last_value(rq: RequestView, name: Seq<char>)
    ensures
        distinct_names(read_back(rq).headers),
        value_of(read_back(rq).headers, name) == last_value(rq.headers, name),
{
    lemma_last_value_is_kept(rq.headers, name);
}

/// A request line whose target is a word can be written.
proof fn lemma_line_is_plain(rq: RequestView)
    requires
        is_word(rq.uri),
    ensures
        plain(request_line_text(rq)),
{
    lemma_tokens(rq.method, rq.protocol);
    let m = rq.method.text();
    let p = rq.protocol.text();
    let line = request_line_text(rq);
    if line.contains('\n') {
        let at = choose|at: int| 0 <= at < line.len() && line[at] == '\n';
        if at < m.len() {
            assert(is_whitespace(m[at]));
        } else if m.len() < at < m.len() + 1 + rq.uri.len() {
            assert(is_whitespace(rq.uri[at - m.len() - 1]));
        } else if at > m.len() + 1 + rq.uri.len() {
            assert(is_whitespace(p[at - m.len() - 2 - rq.uri.len()]));
        }
    }
}

/// The line of a header that can be written can be written.
proof fn lemma_header_is_plain(header: (Seq<char>, Seq<char>))
    requires
        writable_header(header),
    ensures
        plain(header_text(header)),
{
    let line = header_text(header);
    if line.contains('\n') {
        let at = choose|at: int| 0 <= at < line.len() && line[at] == '\n';
        if at < header.0.len() {
            assert(header.0.contains(header.0[at]));
        } else if at >= header.0.len() + 2 {
            assert(header.1.contains(header.1[at - header.0.len() - 2]));
        }
    }
}

/// The lines of the header section of a request that can be written can be
/// written.
proof fn lemma_head_lines(rq: RequestView)
    requires
        writable(rq),
    ensures
        all_plain(seq![request_line_text(rq)] + header_texts(rq.headers)),
{
    let lines = seq![request_line_text(rq)] + header_texts(rq.headers);
    lemma_tokens(rq.method, rq.protocol);
    lemma_word_is_plain(rq.method.text());
    lemma_word_is_plain(rq.uri);
    lemma_word_is_plain(rq.protocol.text());
    assert forall|i: int| 0 <= i < lines.len() implies plain(#[trigger] lines[i]) by {
        if i == 0 {
            lemma_line_is_plain(rq);
        } else {
            assert(lines[i] == header_text(rq.headers[i - 1]));
            lemma_header_is_plain(rq.headers[i - 1]);
        }
    }
}

/// The header section of a request that can be written reads as the method,
/// target, protocol version and headers of the request.
proof fn lemma_head_decodes(rq: RequestView)
    requires
        writable(rq),
    ensures
        decoded_head(encode_utf8(head_text(rq))) == Ok::<_, Error>(
            Head {
                method: rq.method,
                uri: rq.uri,
                protocol: rq.protocol,
                headers: collected(rq.headers),
            },
        ),
{
    let lines = seq![request_line_text(rq)] + header_texts(rq.headers);
    let head = head_text(rq);
    let end = line_end() + line_end();
    assert(head =~= block(lines) + end);
    lemma_encode_concat(block(lines), end);
    is_ascii_chars_encode_utf8(end);
    assert(encode_utf8(end) =~= blank_line());
    let bytes = encode_utf8(head);
    assert(bytes.skip(bytes.len() - 4) =~= blank_line());
    assert(bytes.take(bytes.len() - 4) =~= encode_utf8(block(lines)));
    assert(without_blank_line(bytes) == encode_utf8(block(lines)));
    encode_utf8_valid_utf8(block(lines));
    encode_utf8_decode_utf8(block(lines));
    lemma_head_lines(rq);
    lemma_lines_of_block(lines);
    lemma_request_line(rq);
    assert(lines.skip(1) =~= header_texts(rq.headers));
    lemma_headers_from(rq.headers, 0);
    assert(header_texts(rq.headers).skip(0) =~= header_texts(rq.headers));
    assert(rq.headers.take(0) =~= Seq::empty());
}

/// In the bytes of a request that can be written, the header section ends
/// where its text ends, whatever follows it.
proof fn lemma_head_ends(rq: RequestView, rest: Seq<u8>)
    requires
        writable(rq),
    ensures
        occurrence(encode_utf8(head_text(rq)) + rest, blank_line()) == Some(
            encode_utf8(head_text(rq)).len() - 4,
        ),
        header_end(encode_utf8(head_text(rq)) + rest) == encode_utf8(head_text(rq)).len(),
{
    let lines = seq![request_line_text(rq)] + header_texts(rq.headers);
    let head = head_text(rq);
    let bytes = encode_utf8(head);
    let pat = line_end() + line_end();
    lemma_head_lines(rq);
    lemma_section(lines);
    is_ascii_chars_encode_utf8(pat);
    assert(encode_utf8(pat) =~= blank_line());
    let at = head.len() - 4;
    assert(head.subrange(at, at + 4) =~= pat);
    lemma_ascii_occurs_in_bytes(head, pat, at);
    let end = bytes.len() - 4;
    assert forall|k: int| 0 <= k < end implies !occurs_at(bytes, blank_line(), k) by {
        if occurs_at(bytes, blank_line(), k) {
            lemma_ascii_occurs_in_text(head, pat, k);
            let j = choose|j: int|
                occurs_at(head, pat, j) && encode_utf8(head.take(j)).len() == k && encode_utf8(
                    head.skip(j + pat.len()),
                ).len() + k + pat.len() == encode_utf8(head).len();
            lemma_section_blank_line(lines, j);
        }
    }
    lemma_occurrence_is(bytes, blank_line(), end);
    lemma_occurrence_extended(bytes, rest, blank_line());
}

/// The body of a request that can be written reads as the content of the
/// request.
proof fn lemma_content_decodes(rq: RequestView)
    requires
        writable(rq),
    ensures
        decoded_content(collected(rq.headers), body_bytes(rq)) == Ok::<_, Error>(rq.content),
{
    lemma_last_value_is_kept(rq.headers, "Content-Type"@);
    lemma_last_value_is_kept(rq.headers, "Content-Length"@);
    match rq.content {
        Some(content) => {
            let body = encode_utf8(content.body);
            encode_utf8_valid_utf8(content.body);
            encode_utf8_decode_utf8(content.body);
            lemma_mime_type(content.mime_type);
            assert(body.take(body.len() as int) =~= body);
        },
        None => {},
    }
}

/// Decoding the bytes of a request that can be written gives the request
/// back: its method, target, protocol version and content as they are, and
/// the headers that are read from its header lines. Where no two header lines
/// have the same name, those are the header lines themselves.
pub proof fn lemma_written_request_decodes(rq: RequestView)
    requires
        writable(rq),
    ensures
        decoded(written(rq)) == Ok::<_, Error>(read_back(rq)),
        distinct_names(rq.headers) ==> decoded(written(rq)) == Ok::<_, Error>(rq),
{
    if distinct_names(rq.headers) {
        lemma_distinct_pairs_are_kept(rq.headers);
    }
    let head = encode_utf8(head_text(rq));
    let body = body_bytes(rq);
    let input = written(rq);
    lemma_head_ends(rq, body);
    lemma_head_decodes(rq);
    lemma_content_decodes(rq);
    assert(input.take(head.len() as int) =~= head);
    assert(input.skip(head.len() as int) =~= body);
}

/// The bytes of a request that can be written are complete: whatever arrives
/// after them, decoding gives the request back.
pub proof fn lemma_written_request_is_complete(rq: RequestView, more: Seq<u8>)
    requires
        writable(rq),
    ensures
        complete(written(rq)),
        decoded(written(rq) + more) == Ok::<_, Error>(read_back(rq)),
{
    lemma_last_value_is_kept(rq.headers, "Content-Type"@);
    lemma_last_value_is_kept(rq.headers, "Content-Length"@);
    let body = body_bytes(rq);
    let input = written(rq);
    lemma_head_ends(rq, body);
    lemma_head_decodes(rq);
    lemma_written_request_decodes(rq);
    lemma_complete_input_is_final(input, more);
}

} // verus!
