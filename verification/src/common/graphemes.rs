//! Splitting text into user-visible characters (extended grapheme clusters).

use vstd::prelude::*;

use unicode_segmentation::UnicodeSegmentation;
use vstd::utf8::encode_utf8;

verus! {

/// The extended grapheme clusters of `text`, as Unicode UAX #29 defines them
/// (the segmentation that `unicode_segmentation` computes).
pub uninterp spec fn extended_graphemes(text: Seq<char>) -> Seq<Seq<char>>;

/// The number of bytes in the UTF-8 encoding of `chars`.
pub open spec fn byte_len(chars: Seq<char>) -> nat {
    encode_utf8(chars).len()
}

/// A grapheme cluster together with the length of its UTF-8 encoding.
pub struct Grapheme {
    /// The characters of the cluster.
    pub chars: Vec<char>,
    /// Bytes the cluster occupies in UTF-8.
    pub bytes: usize,
}

/// The character sequences of a list of graphemes.
pub open spec fn grapheme_texts(gs: Seq<Grapheme>) -> Seq<Seq<char>> {
    gs.map_values(|g: Grapheme| g.chars@)
}

/// Splits `text` into extended grapheme clusters
/// (`UnicodeSegmentation::graphemes(text, true)`), in order.
///
/// Trusted: claims that the clusters are `extended_graphemes(text@)`, that each
/// is non-empty, that together they spell `text` (a segmentation partitions
/// the string), and that each reports its UTF-8 length (`str::len`).
#[verifier::external_body]
pub(crate) fn split_graphemes(text: &str) -> (r: Vec<Grapheme>)
    ensures
        grapheme_texts(r@) == extended_graphemes(text@),
        grapheme_texts(r@).flatten() == text@,
        forall|i: int| 0 <= i < r@.len() ==> (#[trigger] r@[i]).chars@.len() > 0,
        forall|i: int| 0 <= i < r@.len() ==> (#[trigger] r@[i]).bytes == byte_len(r@[i].chars@),
{
    text.graphemes(true).map(|g| Grapheme { chars: g.chars().collect(), bytes: g.len() }).collect()
}

/// Encoding a concatenation concatenates the encodings.
pub proof fn lemma_encode_concat(a: Seq<char>, b: Seq<char>)
    ensures
        encode_utf8(a + b) == encode_utf8(a) + encode_utf8(b),
    decreases a.len(),
{
    if a.len() == 0 {
        assert(a + b =~= b);
        assert(encode_utf8(a) =~= Seq::<u8>::empty());
        assert(Seq::<u8>::empty() + encode_utf8(b) =~= encode_utf8(b));
    } else {
        assert((a + b).drop_first() =~= a.drop_first() + b);
        assert((a + b)[0] == a[0]);
        lemma_encode_concat(a.drop_first(), b);
        assert(encode_utf8(a + b) =~= encode_utf8(a) + encode_utf8(b));
    }
}

/// Total UTF-8 length of the first `n` clusters.
pub open spec fn prefix_bytes(gs: Seq<Seq<char>>, n: int) -> nat
    decreases n,
{
    if n <= 0 {
        0
    } else {
        prefix_bytes(gs, n - 1) + byte_len(gs[n - 1])
    }
}

/// The bytes of the first `n` clusters are the bytes of their concatenation.
pub proof fn lemma_prefix_bytes(gs: Seq<Seq<char>>, n: int)
    requires
        0 <= n <= gs.len(),
    ensures
        prefix_bytes(gs, n) == byte_len(gs.take(n).flatten()),
    decreases n,
{
    if n == 0 {
        assert(gs.take(0).flatten() =~= Seq::<char>::empty());
        assert(encode_utf8(Seq::<char>::empty()) =~= Seq::<u8>::empty());
    } else {
        lemma_prefix_bytes(gs, n - 1);
        assert(gs.take(n) =~= gs.take(n - 1).push(gs[n - 1]));
        gs.take(n - 1).lemma_flatten_push(gs[n - 1]);
        lemma_encode_concat(gs.take(n - 1).flatten(), gs[n - 1]);
    }
}

/// Prefix byte counts never decrease.
pub proof fn lemma_prefix_bytes_monotone(gs: Seq<Seq<char>>, a: int, b: int)
    requires
        0 <= a <= b,
    ensures
        prefix_bytes(gs, a) <= prefix_bytes(gs, b),
    decreases b - a,
{
    if a < b {
        lemma_prefix_bytes_monotone(gs, a, b - 1);
    }
}

/// The number of grapheme clusters in `text`.
pub fn grapheme_count(text: &str) -> (n: usize)
    ensures
        n == extended_graphemes(text@).len(),
{
    let gs = split_graphemes(text);
    gs.len()
}

} // verus!
