//! The pipeline from the text of a page to the identifiers that it links to.

use crate::extract::{anchor_targets, get_urls_from};
use crate::normalize::{normalize_references, normalized_all};
use crate::views::string_views;
use regex::Regex;
use vstd::prelude::*;

verus! {

/// The expression of the default domain filter: references to the site of
/// interest.
pub const SITE_PATTERN: &'static str = r###".*traplinked.*"###;

/// The expression of the default prefix strip: scheme, host and an optional
/// locale segment.
pub const SITE_PREFIX_PATTERN: &'static str = r###"http[s]?://www.traplinked.com/(en/|nl/)?"###;

/// The identifier of the entry page from which reachability is judged by
/// default.
pub const DEFAULT_ROOT: &'static str = "index";

/// The identifiers that the page with the given text links to: the targets
/// of its anchors, each run through the normalization pipeline, in the order
/// of the anchors.
pub fn page_links(text: &str, anchor: &Regex, domain: &Regex, prefix: &Regex) -> (links: Vec<
    String,
>)
    ensures
        string_views(links@) == normalized_all(*domain, *prefix, anchor_targets(*anchor, text@)),
{
    let urls = get_urls_from(text, anchor);
    normalize_references(urls.as_slice(), domain, prefix)
}

/// The address of a page of the site: the page's name behind the base
/// address.
pub fn page_url(base_url: &str, page: &str) -> (url: String)
    ensures
        url@ == base_url@ + page@,
{
    let mut url = base_url.to_owned();
    url.append(page);
    url
}

} // verus!
