//! The stages that turn a raw reference into a page identifier, or drop it.

use crate::pattern::{around_match, has_match, has_prefix, is_match, leftmost_match};
use crate::views::{lemma_string_views_push, option_view, string_views};
use regex::Regex;
use vstd::prelude::*;

verus! {

/// The separator whose single trailing occurrence is trimmed.
pub const PATH_SEPARATOR: char = '/';

/// The character that marks a reference as a leftover of another scheme.
pub const SCHEME_MARKER: char = ':';

/// `text` without its last character, if that character is the path separator.
pub open spec fn without_trailing_slash(text: Seq<char>) -> Seq<char> {
    if text.len() > 0 && text.last() == PATH_SEPARATOR {
        text.drop_last()
    } else {
        text
    }
}

/// Whether `text` can stand as a page identifier: it is not empty and holds
/// no scheme marker.
pub open spec fn is_identifier(text: Seq<char>) -> bool {
    text.len() > 0 && !text.contains(SCHEME_MARKER)
}

/// `str::ends_with` for a single character: true exactly when the text is not
/// empty and its last character is `c`.
#[verifier::external_body]
fn ends_with_char(text: &str, c: char) -> (found: bool)
    ensures
        found == (text@.len() > 0 && text@.last() == c),
{
    text.ends_with(c)
}

/// `str::contains` for a single character: true exactly when `c` occurs in
/// the text.
#[verifier::external_body]
fn contains_char(text: &str, c: char) -> (found: bool)
    ensures
        found == text@.contains(c),
{
    text.contains(c)
}

/// `String::pop` removes the last character and returns it, or returns `None`
/// and leaves the string alone when it is empty.
pub assume_specification[ String::pop ](text: &mut String) -> (last: Option<char>)
    ensures
        old(text)@.len() == 0 ==> last is None && final(text)@ == old(text)@,
        old(text)@.len() > 0 ==> last == Some(old(text)@.last()) && final(text)@ == old(
            text,
        )@.drop_last(),
;

/// Removes exactly one trailing path separator from `text`, if there is one.
pub fn remove_trailing_slash(text: String) -> (trimmed: String)
    ensures
        trimmed@ == without_trailing_slash(text@),
{
    let mut text = text;
    if ends_with_char(text.as_str(), PATH_SEPARATOR) {
        text.pop();
    }
    text
}

/// Tells whether `text` survives the leftover filter: it must be non-empty
/// and free of scheme markers.
pub fn is_crawling_leftover(text: &str) -> (keep: bool)
    ensures
        keep == is_identifier(text@),
{
    if text.is_empty() {
        return false;
    }
    if contains_char(text, SCHEME_MARKER) {
        return false;
    }
    true
}

/// The test that the domain filter applies to each reference.
pub open spec fn matching(regex: Regex) -> spec_fn(Seq<char>) -> bool {
    |text: Seq<char>| has_match(regex, text)
}

/// `text` without the match of `regex` at its front. A text that `regex`
/// matches nowhere, or only further in, is left as it is.
pub open spec fn without_prefix(regex: Regex, text: Seq<char>) -> Seq<char> {
    if has_prefix(regex, text) {
        text.subrange(leftmost_match(regex, text).unwrap().1, text.len() as int)
    } else {
        text
    }
}

/// What is left of a reference whose prefix is stripped: the text without a
/// trailing separator if that can stand as an identifier, else nothing.
pub open spec fn cleaned(stripped: Seq<char>) -> Option<Seq<char>> {
    let trimmed = without_trailing_slash(stripped);
    if is_identifier(trimmed) {
        Some(trimmed)
    } else {
        None
    }
}

/// The stages after the domain filter: prefix strip, trailing-slash trim and
/// leftover filter.
pub open spec fn stripped_and_cleaned(prefix: Regex, reference: Seq<char>) -> Option<Seq<char>> {
    cleaned(without_prefix(prefix, reference))
}

/// The identifier that the whole pipeline makes of one raw reference, or
/// `None` where a stage drops it.
pub open spec fn normalized(domain: Regex, prefix: Regex, raw: Seq<char>) -> Option<Seq<char>> {
    if has_match(domain, raw) {
        stripped_and_cleaned(prefix, raw)
    } else {
        None
    }
}

/// The stages after the domain filter, as a function of the reference.
pub open spec fn cleaner(prefix: Regex) -> spec_fn(Seq<char>) -> Option<Seq<char>> {
    |reference: Seq<char>| stripped_and_cleaned(prefix, reference)
}

/// The whole pipeline, as a function of the raw reference.
pub open spec fn normalizer(domain: Regex, prefix: Regex) -> spec_fn(Seq<char>) -> Option<
    Seq<char>,
> {
    |raw: Seq<char>| normalized(domain, prefix, raw)
}

/// The identifiers that the pipeline makes of a list of raw references: those
/// of the references that no stage drops, in the order of the references.
pub open spec fn normalized_all(domain: Regex, prefix: Regex, raws: Seq<Seq<char>>) -> Seq<
    Seq<char>,
> {
    raws.filter_map(normalizer(domain, prefix))
}

/// Makes a new vector that holds only the items that `regex` matches, in
/// their order.
pub fn filter_regex(items: &[String], regex: &Regex) -> (kept: Vec<String>)
    ensures
        string_views(kept@) == string_views(items@).filter(matching(*regex)),
{
    let ghost views = string_views(items@);
    let mut kept: Vec<String> = Vec::new();
    let mut i: usize = 0;
    proof {
        reveal(Seq::filter);
        assert(views.take(0) =~= Seq::<Seq<char>>::empty());
        assert(string_views(kept@) =~= Seq::<Seq<char>>::empty());
    }
    while i < items.len()
        invariant
            i <= items.len(),
            views == string_views(items@),
            string_views(kept@) == views.take(i as int).filter(matching(*regex)),
        decreases items.len() - i,
    {
        proof {
            assert(views.take(i + 1) =~= views.take(i as int).push(views[i as int]));
            views.take(i as int).lemma_filter_push(views[i as int], matching(*regex));
        }
        if is_match(regex, items[i].as_str()) {
            proof {
                lemma_string_views_push(kept@, items@[i as int]);
            }
            kept.push(items[i].clone());
        }
        i += 1;
    }
    assert(views.take(items@.len() as int) =~= views);
    kept
}

/// What is left of `text` once a match is known by the text before it and
/// the text after it: the text after a match that starts the text, and the
/// whole text where there is no match or it starts further in.
pub open spec fn front_stripped(text: Seq<char>, around: Option<(Seq<char>, Seq<char>)>) -> Seq<
    char,
> {
    match around {
        Some((before, after)) => if before.len() == 0 {
            after
        } else {
            text
        },
        None => text,
    }
}

/// The character sequences of the two texts around a match.
pub open spec fn around_views(around: Option<(&str, &str)>) -> Option<(Seq<char>, Seq<char>)> {
    match around {
        Some((before, after)) => Some((before@, after@)),
        None => None,
    }
}

/// Strips a match from the front of `text`, given the text before and the
/// text after the match: only a match with nothing before it is stripped.
pub fn strip_front(text: &str, around: Option<(&str, &str)>) -> (stripped: String)
    ensures
        stripped@ == front_stripped(text@, around_views(around)),
{
    match around {
        Some((before, after)) => {
            if before.is_empty() {
                after.to_owned()
            } else {
                text.to_owned()
            }
        },
        None => text.to_owned(),
    }
}

/// Removes from the front of `text` what `regex` matches there. A text in
/// which nothing matches, or in which the leftmost match starts further in,
/// comes back unchanged.
pub fn filter_prefix(text: &str, regex: &Regex) -> (stripped: String)
    ensures
        stripped@ == without_prefix(*regex, text@),
        stripped@.len() <= text@.len(),
{
    strip_front(text, around_match(regex, text))
}

/// The last two stages on a reference whose prefix is stripped: trims one
/// trailing separator, then keeps the text only if it can stand as an
/// identifier.
pub fn clean_reference(stripped: String) -> (identifier: Option<String>)
    ensures
        option_view(identifier) == cleaned(stripped@),
{
    let trimmed = remove_trailing_slash(stripped);
    if is_crawling_leftover(trimmed.as_str()) {
        Some(trimmed)
    } else {
        None
    }
}

/// Runs one raw reference through the pipeline: the domain filter, the
/// prefix strip, the trailing-slash trim and the leftover filter. A
/// reference that a filter rejects yields `None`.
pub fn normalize_reference(raw: &str, domain: &Regex, prefix: &Regex) -> (identifier: Option<
    String,
>)
    ensures
        option_view(identifier) == normalized(*domain, *prefix, raw@),
{
    if is_match(domain, raw) {
        clean_reference(filter_prefix(raw, prefix))
    } else {
        None
    }
}

/// Filtering by the domain first and running the later stages on what is
/// left gives what the whole pipeline gives reference by reference.
pub proof fn lemma_stages_compose(domain: Regex, prefix: Regex, raws: Seq<Seq<char>>)
    ensures
        raws.filter(matching(domain)).filter_map(cleaner(prefix)) == normalized_all(
            domain,
            prefix,
            raws,
        ),
    decreases raws.len(),
{
    reveal(Seq::filter);
    if raws.len() > 0 {
        let rest = raws.drop_last();
        let last = raws.last();
        lemma_stages_compose(domain, prefix, rest);
        if has_match(domain, last) {
            let kept = rest.filter(matching(domain));
            assert(kept.push(last).drop_last() =~= kept);
        }
    }
}

/// Runs every raw reference through the pipeline and collects the
/// identifiers of those that no stage drops, in the order of the references.
pub fn normalize_references(raws: &[String], domain: &Regex, prefix: &Regex) -> (identifiers: Vec<
    String,
>)
    ensures
        string_views(identifiers@) == normalized_all(*domain, *prefix, string_views(raws@)),
{
    let wanted = filter_regex(raws, domain);
    let ghost views = string_views(wanted@);
    let mut identifiers: Vec<String> = Vec::new();
    let mut i: usize = 0;
    proof {
        assert(views.take(0) =~= Seq::<Seq<char>>::empty());
        assert(string_views(identifiers@) =~= Seq::<Seq<char>>::empty());
    }
    while i < wanted.len()
        invariant
            i <= wanted.len(),
            views == string_views(wanted@),
            string_views(identifiers@) == views.take(i as int).filter_map(cleaner(*prefix)),
        decreases wanted.len() - i,
    {
        proof {
            views.lemma_filter_map_take_succ(cleaner(*prefix), i as int);
        }
        match clean_reference(filter_prefix(wanted[i].as_str(), prefix)) {
            Some(identifier) => {
                proof {
                    lemma_string_views_push(identifiers@, identifier);
                }
                identifiers.push(identifier);
            },
            None => {},
        }
        i += 1;
    }
    proof {
        assert(views.take(wanted@.len() as int) =~= views);
        lemma_stages_compose(*domain, *prefix, string_views(raws@));
    }
    identifiers
}

/// The pipeline never lengthens a reference: what it keeps is an identifier
/// that is no longer than the raw reference, so neither a stripped prefix nor
/// a trimmed separator comes back.
pub proof fn lemma_normalized_never_longer(domain: Regex, prefix: Regex, raw: Seq<char>)
    ensures
        normalized(domain, prefix, raw) matches Some(identifier) ==> is_identifier(identifier)
            && identifier.len() <= raw.len(),
        without_prefix(prefix, raw).len() <= raw.len(),
        without_trailing_slash(raw).len() <= raw.len(),
{
}

/// Running the pipeline again on an identifier that the domain filter does
/// not match drops it: the identifier is never handed back changed.
pub proof fn lemma_rerun_drops_unmatched(domain: Regex, prefix: Regex, identifier: Seq<char>)
    requires
        !has_match(domain, identifier),
    ensures
        normalized(domain, prefix, identifier) is None,
{
}

/// An identifier at whose front the prefix expression finds nothing and
/// that does not end in a separator passes the stages after the domain
/// filter unchanged, so the pipeline hands it back as it is or drops it at
/// the domain filter.
pub proof fn lemma_rerun_keeps_settled(domain: Regex, prefix: Regex, identifier: Seq<char>)
    requires
        is_identifier(identifier),
        !has_prefix(prefix, identifier),
        identifier.last() != PATH_SEPARATOR,
    ensures
        stripped_and_cleaned(prefix, identifier) == Some(identifier),
        normalized(domain, prefix, identifier) == if has_match(domain, identifier) {
            Some(identifier)
        } else {
            None
        },
{
}

} // verus!
