//! Grapheme segmentation and display width, from `unicode-segmentation` and `unicode-width`.
use vstd::prelude::*;

use unicode_segmentation::UnicodeSegmentation;
use unicode_width::{UnicodeWidthChar, UnicodeWidthStr};

verus! {

/// The character counts of the extended grapheme clusters `text` divides into, in order.
pub uninterp spec fn grapheme_spans(text: Seq<char>) -> Seq<usize>;

/// The columns `text` occupies on a terminal, as `UnicodeWidthStr::width` measures it.
pub uninterp spec fn display_width(text: Seq<char>) -> usize;

/// The columns one character occupies, as `UnicodeWidthChar::width` reports; none for a control
/// character.
pub uninterp spec fn char_columns(c: char) -> Option<usize>;

/// The sum of a sequence of counts.
pub open spec fn total(counts: Seq<usize>) -> int
    decreases counts.len(),
{
    if counts.len() == 0 {
        0
    } else {
        total(counts.drop_last()) + counts.last()
    }
}

/// `UnicodeSegmentation::graphemes(text, true)`, each cluster counted in characters.
///
/// Claims what the crate's documentation says of the iterator: the clusters are consecutive,
/// non-empty pieces of the text that together are the whole text. Which boundaries Unicode's
/// rules choose is only named.
#[verifier::external_body]
pub(crate) fn grapheme_lengths(text: &[char]) -> (lengths: Vec<usize>)
    ensures
        lengths@ == grapheme_spans(text@),
        total(lengths@) == text@.len(),
        forall|i: int| 0 <= i < lengths@.len() ==> lengths@[i] > 0,
{
    let joined: String = text.iter().collect();
    joined.graphemes(true).map(|cluster| cluster.chars().count()).collect()
}

/// `UnicodeWidthStr::width`: the columns `text` occupies, named rather than stated.
#[verifier::external_body]
pub(crate) fn width_of(text: &[char]) -> (columns: usize)
    ensures
        columns == display_width(text@),
{
    let joined: String = text.iter().collect();
    UnicodeWidthStr::width(joined.as_str())
}

/// `UnicodeWidthChar::width`: the columns one character occupies, named rather than stated.
#[verifier::external_body]
pub(crate) fn char_width(c: char) -> (columns: Option<usize>)
    ensures
        columns == char_columns(c),
{
    UnicodeWidthChar::width(c)
}

} // verus!
