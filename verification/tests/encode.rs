use html_stream::encode::character_reference;
use html_stream::encode::encode_double_quoted_attribute;
use html_stream::encode::encode_element_text;
use std::borrow::Cow;

fn element(text: &str) -> String {
    encode_element_text(Cow::Borrowed(text)).into_owned()
}

fn attribute(text: &str) -> String {
    encode_double_quoted_attribute(Cow::Borrowed(text)).into_owned()
}

#[test]
fn attribute_value_with_ampersand_and_quote() {
    assert_eq!(attribute("a&b\"c"), "a&amp;b&quot;c");
}

#[test]
fn element_text_with_adjacent_ampersands() {
    assert_eq!(element("&&"), "&amp;&amp;");
}

#[test]
fn element_text_without_specials_is_unchanged() {
    assert_eq!(element("plain text > \" ' ;"), "plain text > \" ' ;");
    assert_eq!(element(""), "");
}

#[test]
fn element_text_escapes_ampersand_and_less_than() {
    assert_eq!(element("a<b&c"), "a&lt;b&amp;c");
    assert_eq!(element("<<"), "&lt;&lt;");
    assert_eq!(element("&lt;"), "&amp;lt;");
}

#[test]
fn element_text_leaves_quotes_alone() {
    assert_eq!(element("say \"hi\""), "say \"hi\"");
}

#[test]
fn attribute_value_leaves_less_than_alone() {
    assert_eq!(attribute("a<b"), "a<b");
}

#[test]
fn attribute_value_is_escaped_in_one_pass() {
    assert_eq!(attribute("\""), "&quot;");
    assert_eq!(attribute("\"&\""), "&quot;&amp;&quot;");
    assert_eq!(attribute("&quot;"), "&amp;quot;");
}

#[test]
fn text_outside_ascii_passes_through() {
    assert_eq!(element("caf\u{e9} & th\u{e9} < \u{1f600}"), "caf\u{e9} &amp; th\u{e9} &lt; \u{1f600}");
    assert_eq!(attribute("\u{4f60}\"\u{597d}"), "\u{4f60}&quot;\u{597d}");
}

#[test]
fn escaped_element_text_has_no_bare_specials() {
    let escaped = element("a & b < c && <d> &amp;");
    assert!(!escaped.contains('<'));
    for (at, _) in escaped.match_indices('&') {
        let rest = &escaped[at..];
        assert!(rest.starts_with("&amp;") || rest.starts_with("&lt;"));
    }
}

#[test]
fn unescaped_input_is_handed_back_as_it_came() {
    assert!(matches!(encode_element_text(Cow::Borrowed("plain")), Cow::Borrowed("plain")));
    let owned = encode_element_text(Cow::Owned(String::from("plain")));
    assert!(matches!(owned, Cow::Owned(_)));
    assert_eq!(owned, "plain");
    let owned = encode_double_quoted_attribute(Cow::Owned(String::from("a\"b")));
    assert_eq!(owned, "a&quot;b");
}

#[test]
fn references_of_the_special_characters() {
    assert_eq!(character_reference("&"), "&amp;");
    assert_eq!(character_reference("<"), "&lt;");
    assert_eq!(character_reference("\""), "&quot;");
    assert_eq!(character_reference("x"), "x");
    assert_eq!(character_reference("&&"), "&&");
    assert_eq!(character_reference(""), "");
}

#[test]
fn escaping_works_piece_by_piece() {
    let (first, second) = ("a&", "&<b\"");
    let whole = format!("{}{}", first, second);
    assert_eq!(element(&whole), format!("{}{}", element(first), element(second)));
    assert_eq!(attribute(&whole), format!("{}{}", attribute(first), attribute(second)));
}

#[test]
fn escaped_attribute_value_has_no_bare_specials() {
    let escaped = attribute("a \" b & c \"\" && &quot; <d>");
    assert!(!escaped.contains('"'));
    for (at, _) in escaped.match_indices('&') {
        let rest = &escaped[at..];
        assert!(rest.starts_with("&amp;") || rest.starts_with("&quot;"));
    }
}

#[test]
fn attribute_value_without_specials_is_unchanged() {
    assert_eq!(attribute("plain < > ' ;"), "plain < > ' ;");
    assert!(matches!(encode_double_quoted_attribute(Cow::Borrowed("en")), Cow::Borrowed("en")));
}
