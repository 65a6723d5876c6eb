//! The link extractor: the targets of the anchors of a page, in the order in
//! which they stand in its text.

use crate::pattern::{
    accepted, compile_expression, expression_text, group_spans, group_texts, span_fits, span_text,
    spans_in_order,
};
use crate::views::{lemma_string_views_push, option_views, string_views};
use regex::Regex;
use vstd::prelude::*;

verus! {

/// The expression that recognizes an anchor with a quoted `href`. Its first
/// capture group is the target, which may not start with `#`, `/` or `\`.
pub const ANCHOR_PATTERN: &'static str =
    r###"<a[^>]*?href\s*=\s*['"]([^#\\/].*?)['"][^>]*?>"###;

/// The capture group of [`ANCHOR_PATTERN`] that holds the target.
pub const TARGET_GROUP: usize = 1;

/// The function that keeps what is present.
pub open spec fn present() -> spec_fn(Option<Seq<char>>) -> Option<Seq<char>> {
    |text: Option<Seq<char>>| text
}

/// The texts under the spans, in order, leaving out the absent ones.
pub open spec fn captured(text: Seq<char>, spans: Seq<Option<(int, int)>>) -> Seq<Seq<char>> {
    Seq::new(spans.len(), |i: int| span_text(text, spans[i])).filter_map(present())
}

/// The targets of the anchors that `anchor` finds in `text`, in source order.
pub open spec fn anchor_targets(anchor: Regex, text: Seq<char>) -> Seq<Seq<char>> {
    captured(text, group_spans(anchor, text, TARGET_GROUP as nat))
}

/// The function that keeps the spans that are present.
pub open spec fn present_span() -> spec_fn(Option<(int, int)>) -> Option<(int, int)> {
    |span: Option<(int, int)>| span
}

/// The spans that are present, in their order.
pub open spec fn taken_spans(spans: Seq<Option<(int, int)>>) -> Seq<(int, int)> {
    spans.filter_map(present_span())
}

/// The spans of the targets that `anchor` finds in `text`.
pub open spec fn anchor_spans(anchor: Regex, text: Seq<char>) -> Seq<(int, int)> {
    taken_spans(group_spans(anchor, text, TARGET_GROUP as nat))
}

/// `texts` are the pieces of `text` under `spans`, one for one, and the
/// spans follow each other through the text without overlap.
pub open spec fn in_source_order(
    spans: Seq<(int, int)>,
    texts: Seq<Seq<char>>,
    text: Seq<char>,
) -> bool {
    &&& texts.len() == spans.len()
    &&& forall|i: int|
        0 <= i < spans.len() ==> span_fits(#[trigger] spans[i], text.len()) && texts[i]
            == text.subrange(spans[i].0, spans[i].1)
    &&& forall|i: int, j: int|
        0 <= i < j < spans.len() ==> (#[trigger] spans[i]).1 <= (#[trigger] spans[j]).0
}

/// The extractor returns one string for each span that a match gives to the
/// target group, and the strings stand in the text in the order in which they
/// are returned.
pub proof fn lemma_captured_in_source_order(text: Seq<char>, spans: Seq<Option<(int, int)>>)
    requires
        spans_in_order(spans, text.len()),
    ensures
        in_source_order(taken_spans(spans), captured(text, spans), text),
    decreases spans.len(),
{
    if spans.len() > 0 {
        let rest = spans.drop_last();
        let last = spans.last();
        let texts = Seq::new(spans.len(), |i: int| span_text(text, spans[i]));
        assert(texts.drop_last() =~= Seq::new(rest.len(), |i: int| span_text(text, rest[i])));
        assert(spans_in_order(rest, text.len())) by {
            assert forall|i: int| 0 <= i < rest.len() implies rest[i] == spans[i] by {}
        }
        lemma_captured_in_source_order(text, rest);
        if last is Some {
            let before = taken_spans(rest);
            assert forall|i: int| 0 <= i < before.len() implies (#[trigger] before[i]).1
                <= last.unwrap().0 by {
                assert(before.contains(before[i]));
                rest.lemma_filter_map_contains(present_span(), before[i]);
                let held = choose|held: Option<(int, int)>| #[trigger]
                    rest.contains(held) && present_span()(held) == Some(before[i]);
                let at = choose|at: int| 0 <= at < rest.len() && rest[at] == held;
                assert(spans[at] == held);
                assert(spans[spans.len() - 1] == last);
            }
        }
    }
}

/// Where the engine reports, for a text of anchors, one match per anchor
/// with the target group on the anchor's target, the extractor returns
/// exactly the targets, in the order of the anchors and without merging
/// equal ones.
pub proof fn lemma_targets_of_reported_anchors(
    anchor: Regex,
    text: Seq<char>,
    targets: Seq<(int, int)>,
)
    requires
        group_spans(anchor, text, TARGET_GROUP as nat) == Seq::new(
            targets.len(),
            |i: int| Some(targets[i]),
        ),
    ensures
        anchor_targets(anchor, text).len() == targets.len(),
        forall|i: int|
            0 <= i < targets.len() ==> #[trigger] anchor_targets(anchor, text)[i] == text.subrange(
                targets[i].0,
                targets[i].1,
            ),
{
    let spans = group_spans(anchor, text, TARGET_GROUP as nat);
    lemma_all_present_are_captured(text, spans);
}

/// Spans that are all present are all captured, one for one.
proof fn lemma_all_present_are_captured(text: Seq<char>, spans: Seq<Option<(int, int)>>)
    requires
        forall|i: int| 0 <= i < spans.len() ==> (#[trigger] spans[i]) is Some,
    ensures
        captured(text, spans).len() == spans.len(),
        forall|i: int|
            0 <= i < spans.len() ==> #[trigger] captured(text, spans)[i] == text.subrange(
                spans[i].unwrap().0,
                spans[i].unwrap().1,
            ),
    decreases spans.len(),
{
    if spans.len() > 0 {
        let rest = spans.drop_last();
        let texts = Seq::new(spans.len(), |i: int| span_text(text, spans[i]));
        assert(texts.drop_last() =~= Seq::new(rest.len(), |i: int| span_text(text, rest[i])));
        assert forall|i: int| 0 <= i < rest.len() implies (#[trigger] rest[i]) is Some by {
            assert(rest[i] == spans[i]);
        }
        lemma_all_present_are_captured(text, rest);
        assert forall|i: int| 0 <= i < spans.len() implies #[trigger] captured(text, spans)[i]
            == text.subrange(spans[i].unwrap().0, spans[i].unwrap().1) by {
            if i < rest.len() {
                assert(rest[i] == spans[i]);
                assert(captured(text, spans)[i] == captured(text, rest)[i]);
            }
        }
    }
}

/// Compiles [`ANCHOR_PATTERN`], the expression by which the extractor
/// recognizes anchors: `Some` exactly where the engine accepts the pattern.
pub fn anchor_expression() -> (anchor: Option<Regex>)
    ensures
        anchor is Some <==> accepted(ANCHOR_PATTERN@),
        anchor matches Some(regex) ==> expression_text(regex) == ANCHOR_PATTERN@,
{
    compile_expression(ANCHOR_PATTERN)
}

/// Keeps the texts that are present, in their order.
pub fn present_texts(found: Vec<Option<String>>) -> (texts: Vec<String>)
    ensures
        string_views(texts@) == option_views(found@).filter_map(present()),
{
    let ghost views = option_views(found@);
    let mut texts: Vec<String> = Vec::new();
    let mut i: usize = 0;
    assert(views.take(0).filter_map(present()) =~= Seq::<Seq<char>>::empty());
    assert(string_views(texts@) =~= Seq::<Seq<char>>::empty());
    while i < found.len()
        invariant
            i <= found.len(),
            views == option_views(found@),
            string_views(texts@) == views.take(i as int).filter_map(present()),
        decreases found.len() - i,
    {
        proof {
            views.lemma_filter_map_take_succ(present(), i as int);
        }
        match &found[i] {
            Some(text) => {
                proof {
                    lemma_string_views_push(texts@, *text);
                }
                texts.push(text.clone());
            },
            None => {},
        }
        i += 1;
    }
    assert(views.take(found@.len() as int) =~= views);
    texts
}

/// The targets of the anchors in `text`, one string per anchor that `anchor`
/// recognizes, in the order in which they stand in the text. Text that holds
/// no well-formed anchor yields fewer strings, never an error. The anchors
/// of a page are those that [`anchor_expression`] recognizes.
pub fn get_urls_from(text: &str, anchor: &Regex) -> (urls: Vec<String>)
    ensures
        string_views(urls@) == anchor_targets(*anchor, text@),
        in_source_order(anchor_spans(*anchor, text@), string_views(urls@), text@),
{
    let found = group_texts(anchor, text, TARGET_GROUP);
    proof {
        lemma_captured_in_source_order(text@, group_spans(*anchor, text@, TARGET_GROUP as nat));
    }
    assert(option_views(found@) =~= Seq::new(
        group_spans(*anchor, text@, TARGET_GROUP as nat).len(),
        |i: int| span_text(text@, group_spans(*anchor, text@, TARGET_GROUP as nat)[i]),
    ));
    present_texts(found)
}

} // verus!
