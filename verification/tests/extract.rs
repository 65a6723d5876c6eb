use orphan_pages::extract::{
    anchor_expression, get_urls_from, present_texts, ANCHOR_PATTERN, TARGET_GROUP,
};
use orphan_pages::pattern::compile_expression;
use regex::Regex;

fn anchor() -> Regex {
    anchor_expression().unwrap()
}

#[test]
fn anchor_expression_is_compiled_from_the_pattern() {
    assert_eq!(anchor().as_str(), ANCHOR_PATTERN);
}

#[test]
fn compile_expression_keeps_the_text_or_refuses() {
    assert_eq!(compile_expression("a+b").unwrap().as_str(), "a+b");
    assert_eq!(compile_expression("").unwrap().as_str(), "");
    assert!(compile_expression("(").is_none());
    assert!(compile_expression("a{2,1}").is_none());
}

#[test]
fn a_bar_is_no_quote() {
    assert!(get_urls_from("<a href=|www|>", &anchor()).is_empty());
    assert!(get_urls_from("<a href=|www'>", &anchor()).is_empty());
    assert!(get_urls_from("<a href='www|>", &anchor()).is_empty());
}

#[test]
fn a_bar_inside_a_target_is_kept() {
    assert_eq!(get_urls_from("<a href='a|b'>", &anchor()), vec!["a|b"]);
    assert_eq!(get_urls_from(r###"<a href="a|b|c">"###, &anchor()), vec!["a|b|c"]);
}

#[test]
fn anchors_in_a_row_give_their_targets() {
    let text = r###"<a class="k" href = 'one' id=x>first, then <a href="two">second and <a href=  'one' >"###;
    assert_eq!(get_urls_from(text, &anchor()), vec!["one", "two", "one"]);
}

#[test]
fn regex_matches_url() {
    let url = r###"<a href='www.traplinked.com'>, some other text, <a  href =   "www.chip.de">"###;
    assert_eq!(
        get_urls_from(&url, &anchor()),
        vec!["www.traplinked.com", "www.chip.de"]
    );
}

#[test]
fn malformed_urls() {
    let url = r###"<a href='www.www.www'> <a>, <a href=www>"###;
    assert_eq!(get_urls_from(&url, &anchor()), vec!["www.www.www"]);
}

#[test]
fn anchor_pattern_compiles_with_one_target_group() {
    let anchor = anchor();
    assert_eq!(anchor.captures_len(), 2);
    assert_eq!(TARGET_GROUP, 1);
}

#[test]
fn text_without_anchor_yields_nothing() {
    assert!(get_urls_from("", &anchor()).is_empty());
    assert!(get_urls_from("no markup at all", &anchor()).is_empty());
    assert!(get_urls_from("<a name='top'>", &anchor()).is_empty());
}

#[test]
fn excluded_first_characters_are_skipped() {
    let text = r###"<a href='#top'> <a href="/abs"> <a href='\esc'> <a href='kept.html'>"###;
    assert_eq!(get_urls_from(text, &anchor()), vec!["kept.html"]);
}

#[test]
fn extra_attributes_and_both_quote_styles() {
    let text = r###"<a class="x" href = "one.html" id='a'>1</a><a id=b href='two.html' rel="y">2</a>"###;
    assert_eq!(get_urls_from(text, &anchor()), vec!["one.html", "two.html"]);
}

#[test]
fn targets_come_in_source_order_one_per_anchor() {
    let text = "<a href='c'><a href='a'><a href='b'><a href='a'>";
    assert_eq!(get_urls_from(text, &anchor()), vec!["c", "a", "b", "a"]);
}

#[test]
fn targets_with_multibyte_characters() {
    let text = "é<a href='ü.html'>ä<a href='ö'>";
    assert_eq!(get_urls_from(text, &anchor()), vec!["ü.html", "ö"]);
}

#[test]
fn groups_that_took_no_part_are_left_out() {
    let optional = Regex::new(r"x(a)?y").unwrap();
    assert_eq!(get_urls_from("xay xy xay", &optional), vec!["a", "a"]);
}

#[test]
fn extraction_does_not_hand_the_text_back() {
    let text = "<a href='page.html'>";
    let urls = get_urls_from(text, &anchor());
    assert_eq!(urls.len(), 1);
    assert_ne!(urls[0], text);
    assert_eq!(urls[0], "page.html");
}

#[test]
fn present_texts_keeps_order() {
    let found = vec![
        Some("a".to_string()),
        None,
        Some("b".to_string()),
        None,
        None,
        Some("a".to_string()),
    ];
    assert_eq!(present_texts(found), vec!["a", "b", "a"]);
    assert!(present_texts(vec![]).is_empty());
    assert!(present_texts(vec![None, None]).is_empty());
}
