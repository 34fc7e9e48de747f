//! Facts about UTF-8 that connect text with its bytes: where ASCII characters
//! stand in the one, their bytes stand in the other.

use vstd::prelude::*;
use vstd::utf8::*;

use crate::text::occurs_at;

verus! {

/// The encoding of a text in two parts is the encoding of the first part
/// followed by that of the second.
pub proof fn lemma_encode_concat(a: Seq<char>, b: Seq<char>)
    ensures
        encode_utf8(a + b) == encode_utf8(a) + encode_utf8(b),
    decreases a.len(),
{
    if a.len() > 0 {
        lemma_encode_concat(a.drop_first(), b);
        assert((a + b).drop_first() == a.drop_first() + b);
    }
}

/// In valid UTF-8 that starts with `n` ASCII bytes, a character starts after
/// them.
pub proof fn lemma_ascii_run_boundary(bytes: Seq<u8>, n: int)
    requires
        valid_utf8(bytes),
        0 <= n <= bytes.len(),
        forall|i: int| 0 <= i < n ==> bytes[i] <= 0x7f,
    ensures
        is_char_boundary(bytes, n),
    decreases n,
{
    if n > 0 {
        let rest = bytes.skip(1);
        assert forall|i: int| 0 <= i < n - 1 implies rest[i] <= 0x7f by {}
        lemma_ascii_run_boundary(rest, n - 1);
    }
}

/// Where the encoding of the ASCII text `pat` stands in the encoding of `text`,
/// `pat` stands in `text`: before it stands the text whose encoding stands
/// before the bytes, and after it the text whose encoding stands after them.
pub proof fn lemma_ascii_occurs_in_text(text: Seq<char>, pat: Seq<char>, k: int)
    requires
        is_ascii_chars(pat),
        pat.len() > 0,
        occurs_at(encode_utf8(text), encode_utf8(pat), k),
    ensures
        exists|j: int|
            occurs_at(text, pat, j) && encode_utf8(text.take(j)).len() == k && encode_utf8(
                text.skip(j + pat.len()),
            ).len() + k + pat.len() == encode_utf8(text).len(),
{
    let bytes = encode_utf8(text);
    let n = pat.len() as int;
    is_ascii_chars_encode_utf8(pat);
    encode_utf8_valid_utf8(text);
    encode_utf8_decode_utf8(text);
    encode_utf8_decode_utf8(pat);
    let found = bytes.subrange(k, k + n);
    is_char_boundary_iff_not_is_continuation_byte(bytes, k);
    valid_utf8_split(bytes, k);
    decode_utf8_split(bytes, k);
    let before = bytes.subrange(0, k);
    let from = bytes.subrange(k, bytes.len() as int);
    assert forall|i: int| 0 <= i < n implies from[i] <= 0x7f by {}
    lemma_ascii_run_boundary(from, n);
    valid_utf8_split(from, n);
    decode_utf8_split(from, n);
    let after = from.subrange(n, from.len() as int);
    assert(from.subrange(0, n) =~= found);
    let j = decode_utf8(before).len() as int;
    assert(text.subrange(j, j + n) =~= pat);
    assert(text.take(j) =~= decode_utf8(before));
    assert(text.skip(j + n) =~= decode_utf8(after));
    decode_utf8_encode_utf8(before);
    decode_utf8_encode_utf8(after);
    assert(occurs_at(text, pat, j));
}

/// Where the ASCII text `pat` stands in `text`, its encoding stands in the
/// encoding of `text`, after the encoding of what stands before it.
pub proof fn lemma_ascii_occurs_in_bytes(text: Seq<char>, pat: Seq<char>, j: int)
    requires
        occurs_at(text, pat, j),
    ensures
        occurs_at(encode_utf8(text), encode_utf8(pat), encode_utf8(text.take(j)).len() as int),
        encode_utf8(text).len() == encode_utf8(text.take(j)).len() + encode_utf8(pat).len()
            + encode_utf8(text.skip(j + pat.len())).len(),
{
    let before = text.take(j);
    let after = text.skip(j + pat.len());
    assert(text =~= before + (pat + after));
    lemma_encode_concat(before, pat + after);
    lemma_encode_concat(pat, after);
    let k = encode_utf8(before).len() as int;
    assert(encode_utf8(text).subrange(k, k + encode_utf8(pat).len()) =~= encode_utf8(pat));
}

} // verus!
