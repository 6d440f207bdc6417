use unicode_segmentation::UnicodeSegmentation;
use vstd::prelude::*;

verus! {

/// The division of a text into extended grapheme clusters: the characters a
/// user perceives, per Unicode text segmentation. It is a function of the
/// text alone; its exact statement is Unicode's segmentation algorithm.
pub uninterp spec fn graphemes_of(s: Seq<char>) -> Seq<Seq<char>>;

/// Split text into its extended grapheme clusters.
///
/// Relies on unicode_segmentation's `graphemes` iterator (with extended
/// clusters selected): the clusters partition the text into non-empty pieces,
/// and depend on the text alone.
#[verifier::external_body]
pub(crate) fn split_graphemes(text: &str) -> (r: Vec<String>)
    ensures
        r@.map_values(|g: String| g@) == graphemes_of(text@),
        forall|i: int| 0 <= i < r@.len() ==> (#[trigger] r@[i])@.len() > 0,
        text@.len() == 0 ==> r@.len() == 0,
{
    text.graphemes(true).map(|g| g.to_string()).collect()
}

} // verus!
