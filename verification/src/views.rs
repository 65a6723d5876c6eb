//! Mathematical views of the string collections that the library handles.

use vstd::prelude::*;

verus! {

/// The character sequences of a sequence of strings, in the same order.
pub open spec fn string_views(strings: Seq<String>) -> Seq<Seq<char>> {
    Seq::new(strings.len(), |i: int| strings[i]@)
}

/// The character sequence of an optional string.
pub open spec fn option_view(text: Option<String>) -> Option<Seq<char>> {
    match text {
        Some(text) => Some(text@),
        None => None,
    }
}

/// The character sequences of a sequence of optional strings, in the same
/// order.
pub open spec fn option_views(texts: Seq<Option<String>>) -> Seq<Option<Seq<char>>> {
    Seq::new(texts.len(), |i: int| option_view(texts[i]))
}

/// The views of a sequence grow with the sequence.
pub proof fn lemma_string_views_push(strings: Seq<String>, last: String)
    ensures
        string_views(strings.push(last)) == string_views(strings).push(last@),
{
    assert(string_views(strings.push(last)) =~= string_views(strings).push(last@));
}

} // verus!
