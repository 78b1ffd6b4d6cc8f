//! Grapheme segmentation and display width, from the `unicode-segmentation` and
//! `unicode-width` crates.
use vstd::prelude::*;
use vstd::utf8::encode_utf8;
use unicode_segmentation::UnicodeSegmentation;
use unicode_width::UnicodeWidthStr;

verus! {

/// The extended grapheme clusters of `s`, in order (UAX #29 as implemented by
/// `unicode-segmentation`).
pub uninterp spec fn grapheme_split(s: Seq<char>) -> Seq<Seq<char>>;

/// The displayed width in columns of `s` (UAX #11 as implemented by `unicode-width`, ambiguous
/// characters counting as one column).
pub uninterp spec fn display_width(s: Seq<char>) -> usize;

/// Number of UTF-8 bytes of `s`.
pub open spec fn utf8_len(s: Seq<char>) -> nat {
    encode_utf8(s).len()
}

/// `<str as UnicodeSegmentation>::grapheme_indices(s, true)`, collected with each cluster
/// copied into a `String`.
///
/// Trusted: the clusters are `grapheme_split(s@)`; each is non-empty, they concatenate to `s`
/// (the iterator yields consecutive slices `s[start..next]` from 0 to `s.len()`), and the index
/// paired with a cluster is its byte offset in `s`, the UTF-8 length of the clusters before it.
#[verifier::external_body]
pub(crate) fn grapheme_indices(s: &str) -> (r: Vec<(usize, String)>)
    ensures
        r@.len() == grapheme_split(s@).len(),
        forall|i: int| 0 <= i < r@.len() ==> #[trigger] r@[i].1@ == grapheme_split(s@)[i],
        forall|i: int| 0 <= i < r@.len() ==> #[trigger] r@[i].1@.len() > 0,
        forall|i: int|
            0 <= i < r@.len() ==> #[trigger] r@[i].0 == utf8_len(grapheme_split(s@).take(i).flatten()),
        r@.map_values(|p: (usize, String)| p.1@).flatten() == s@,
{
    s.grapheme_indices(true).map(|(i, g)| (i, g.to_string())).collect()
}

/// `<str as UnicodeWidthStr>::width(s)`.
///
/// Trusted: the result is `display_width(s@)`; the empty string is zero columns wide and a
/// single printable ASCII character (U+0020 to U+007E) is one column wide.
#[verifier::external_body]
pub(crate) fn str_width(s: &str) -> (r: usize)
    ensures
        r == display_width(s@),
        s@.len() == 0 ==> r == 0,
        s@.len() == 1 && ' ' <= s@[0] <= '~' ==> r == 1,
{
    s.width()
}

/// Number of UTF-8 bytes of the first `k` characters of `s`: the byte index of character `k`.
pub open spec fn byte_offset(s: Seq<char>, k: int) -> nat {
    utf8_len(s.take(k))
}

/// `b` is the byte index of a character of `s` (or of its end).
pub open spec fn is_boundary(s: Seq<char>, b: int) -> bool {
    exists|k: int| 0 <= k <= s.len() && #[trigger] byte_offset(s, k) == b
}

/// The character index whose byte index is `b`.
pub open spec fn char_at_byte(s: Seq<char>, b: int) -> int {
    choose|k: int| 0 <= k <= s.len() && #[trigger] byte_offset(s, k) == b
}

/// Every character takes one to four bytes.
pub proof fn lemma_utf8_len_char(c: char)
    ensures
        1 <= utf8_len(seq![c]) <= 4,
{
    let s = seq![c];
    assert(s.drop_first() =~= Seq::<char>::empty());
    assert(encode_utf8(s.drop_first()) =~= Seq::<u8>::empty());
    let e = vstd::utf8::encode_scalar(s[0] as u32);
    assert(1 <= e.len() <= 4);
    assert(encode_utf8(s) == e + encode_utf8(s.drop_first()));
    assert(encode_utf8(s) =~= e);
}

/// Byte lengths add up over concatenation.
pub proof fn lemma_utf8_len_concat(a: Seq<char>, b: Seq<char>)
    ensures
        utf8_len(a + b) == utf8_len(a) + utf8_len(b),
    decreases a.len(),
{
    if a.len() > 0 {
        lemma_utf8_len_concat(a.drop_first(), b);
        assert((a + b).drop_first() =~= a.drop_first() + b);
        assert((a + b)[0] == a[0]);
    } else {
        assert(a + b =~= b);
    }
}

/// Byte indices grow strictly with character indices.
pub proof fn lemma_byte_offset_strict(s: Seq<char>, j: int, k: int)
    requires
        0 <= j < k <= s.len(),
    ensures
        byte_offset(s, j) < byte_offset(s, k),
        byte_offset(s, k) >= byte_offset(s, j) + (k - j),
    decreases k - j,
{
    assert(s.take(k) =~= s.take(k - 1) + seq![s[k - 1]]);
    lemma_utf8_len_concat(s.take(k - 1), seq![s[k - 1]]);
    lemma_utf8_len_char(s[k - 1]);
    if j < k - 1 {
        lemma_byte_offset_strict(s, j, k - 1);
    }
}

/// A byte index names at most one character index.
pub proof fn lemma_char_at_byte(s: Seq<char>, k: int)
    requires
        0 <= k <= s.len(),
    ensures
        is_boundary(s, byte_offset(s, k) as int),
        char_at_byte(s, byte_offset(s, k) as int) == k,
{
    let b = byte_offset(s, k) as int;
    assert(is_boundary(s, b));
    let c = char_at_byte(s, b);
    if c < k {
        lemma_byte_offset_strict(s, c, k);
    } else if c > k {
        lemma_byte_offset_strict(s, k, c);
    }
}

/// The byte index of the end is the byte length.
pub proof fn lemma_byte_offset_end(s: Seq<char>)
    ensures
        byte_offset(s, s.len() as int) == utf8_len(s),
{
    assert(s.take(s.len() as int) =~= s);
}

} // verus!
