//! What the library takes from the regular-expression engine.
//!
//! A compiled expression is opaque here. Its behaviour on a text is named by
//! two uninterpreted functions, one for the leftmost match and one for the
//! spans of a capture group; two more name the texts that the engine
//! accepts as expressions and the text that an expression was compiled
//! from. The wrappers below say how the engine's functions relate to them.
//! Spans are counted in characters.

use crate::views::option_views;
use regex::Regex;
use vstd::prelude::*;

verus! {

/// The regex crate's `Regex`, a compiled expression, taken as it is.
#[verifier::external_type_specification]
#[verifier::external_body]
pub struct ExRegex(Regex);

/// The regex crate's `Error`, the reason why an expression did not compile.
#[verifier::external_type_specification]
#[verifier::external_body]
pub struct ExError(regex::Error);

/// Whether the engine accepts `pattern` as an expression, as `Regex::new`
/// decides it from the text alone.
pub uninterp spec fn accepted(pattern: Seq<char>) -> bool;

/// The text that `regex` was compiled from, as `Regex::as_str` gives it.
pub uninterp spec fn expression_text(regex: Regex) -> Seq<char>;

/// The span of the leftmost-first match of `regex` in `text`: the index of
/// its first character and the index just past its last one. `None` where
/// nothing in `text` matches.
pub uninterp spec fn leftmost_match(regex: Regex, text: Seq<char>) -> Option<(int, int)>;

/// For each of the successive non-overlapping matches of `regex` in `text`,
/// the span that capture group `group` takes in it, or `None` where the
/// group has no part in that match.
pub uninterp spec fn group_spans(regex: Regex, text: Seq<char>, group: nat) -> Seq<
    Option<(int, int)>,
>;

/// A span lies within a text of `len` characters.
pub open spec fn span_fits(span: (int, int), len: nat) -> bool {
    0 <= span.0 <= span.1 <= len
}

/// Whether `regex` matches somewhere in `text`.
pub open spec fn has_match(regex: Regex, text: Seq<char>) -> bool {
    leftmost_match(regex, text) is Some
}

/// Whether `regex` matches at the front of `text`: its leftmost match lies
/// within the text and starts with the first character.
pub open spec fn has_prefix(regex: Regex, text: Seq<char>) -> bool {
    leftmost_match(regex, text) matches Some(span) && span.0 == 0 && span_fits(span, text.len())
}

/// The characters of `text` that a span covers.
pub open spec fn span_text(text: Seq<char>, span: Option<(int, int)>) -> Option<Seq<char>> {
    match span {
        Some(span) => Some(text.subrange(span.0, span.1)),
        None => None,
    }
}

/// Every span lies within a text of `len` characters, and a later span
/// starts no earlier than an earlier one ends.
pub open spec fn spans_in_order(spans: Seq<Option<(int, int)>>, len: nat) -> bool {
    &&& forall|i: int|
        0 <= i < spans.len() && (#[trigger] spans[i]) is Some ==> span_fits(spans[i].unwrap(), len)
    &&& forall|i: int, j: int|
        0 <= i < j < spans.len() && (#[trigger] spans[i]) is Some && (#[trigger] spans[j]) is Some
            ==> spans[i].unwrap().1 <= spans[j].unwrap().0
}

/// `Regex::new`: succeeds exactly on the expressions that the engine
/// accepts, and what it hands back was compiled from that text.
#[verifier::external_body]
fn compile(pattern: &str) -> (compiled: Result<Regex, regex::Error>)
    ensures
        compiled is Ok <==> accepted(pattern@),
        compiled matches Ok(regex) ==> expression_text(regex) == pattern@,
{
    Regex::new(pattern)
}

/// Compiles an expression: `Some` exactly where the engine accepts it, and
/// then compiled from that text; `None` where the engine refuses it.
pub fn compile_expression(pattern: &str) -> (compiled: Option<Regex>)
    ensures
        compiled is Some <==> accepted(pattern@),
        compiled matches Some(regex) ==> expression_text(regex) == pattern@,
{
    match compile(pattern) {
        Ok(regex) => Some(regex),
        Err(_) => None,
    }
}

/// `Regex::is_match`: true exactly when the expression matches somewhere in
/// the text.
#[verifier::external_body]
pub(crate) fn is_match(regex: &Regex, text: &str) -> (found: bool)
    ensures
        found == has_match(*regex, text@),
{
    regex.is_match(text)
}

/// `Regex::find`: the leftmost-first match lies within the text, and it is
/// handed back as the text before it and the text after it; `None` where
/// nothing in the text matches.
#[verifier::external_body]
pub(crate) fn around_match<'a>(regex: &Regex, text: &'a str) -> (around: Option<
    (&'a str, &'a str),
>)
    ensures
        match around {
            Some((before, after)) => match leftmost_match(*regex, text@) {
                Some(span) => span_fits(span, text@.len()) && before@ == text@.subrange(0, span.0)
                    && after@ == text@.subrange(span.1, text@.len() as int),
                None => false,
            },
            None => leftmost_match(*regex, text@) is None,
        },
{
    regex.find(text).map(|found| (&text[..found.start()], &text[found.end()..]))
}

/// The texts that stand under `spans` in `text`, where the spans lie within
/// the text and follow each other.
pub open spec fn texts_under(
    texts: Seq<Option<Seq<char>>>,
    text: Seq<char>,
    spans: Seq<Option<(int, int)>>,
) -> bool {
    &&& spans_in_order(spans, text.len())
    &&& texts.len() == spans.len()
    &&& forall|i: int| 0 <= i < texts.len() ==> #[trigger] texts[i] == span_text(text, spans[i])
}

/// `Regex::captures_iter`, with `Captures::get` on each match: the text that
/// capture group `group` took in each successive match, `None` where it took
/// no part. The groups lie within the text and, as the matches do not overlap,
/// follow each other.
#[verifier::external_body]
pub(crate) fn group_texts(regex: &Regex, text: &str, group: usize) -> (texts: Vec<Option<String>>)
    ensures
        texts_under(option_views(texts@), text@, group_spans(*regex, text@, group as nat)),
{
    regex
        .captures_iter(text)
        .map(|found| found.get(group).map(|part| part.as_str().to_string()))
        .collect()
}

} // verus!
