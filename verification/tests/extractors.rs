use css_checker::css::{extract_all_classes_from_line, extract_class_name_from_pos, extract_css_classes};
use css_checker::html::{extract_html_classes, parse_class_list};

fn strings(items: &[&str]) -> Vec<String> {
    items.iter().map(|s| s.to_string()).collect()
}

#[test]
fn html_class_attribute_tokens() {
    let out = extract_html_classes("<div class=\"a b c\"></div>");
    assert_eq!(out, strings(&["a", "b", "c"]));
}

#[test]
fn html_tokens_unaffected_by_surrounding_markup() {
    let out = extract_html_classes("<p>text</p><div id=\"z\" class=\"a b c\" data-x=\"1\"></div>");
    assert_eq!(out, strings(&["a", "b", "c"]));
}

#[test]
fn html_multiple_tags_and_attributes() {
    let out = extract_html_classes("<div class=\"a\"><span class=\"b c\"></span>");
    assert_eq!(out, strings(&["a", "b", "c"]));
}

#[test]
fn html_single_quotes() {
    let out = extract_html_classes("<div class='a b'></div>");
    assert_eq!(out, strings(&["a", "b"]));
}

#[test]
fn html_quote_closing_policy() {
    // After class='x' closes on the second ', the quotes of data-y="z" are
    // outside any class attribute and contribute nothing.
    let out = extract_html_classes("<a class='x' data-y=\"z\">");
    assert_eq!(out, strings(&["x"]));
}

#[test]
fn html_any_quote_kind_closes() {
    // The value opened by " is closed by the next quote of either kind.
    let out = extract_html_classes("<a class=\"x y'>");
    assert_eq!(out, strings(&["x", "y"]));
}

#[test]
fn html_unclosed_quote_abandoned_at_tag_end() {
    // The quote opened in the first tag never closes before `>`; leaving the
    // tag abandons that value entirely, and the next tag is scanned afresh.
    let out = extract_html_classes("<a class=\"x><b class='y'>");
    assert_eq!(out, strings(&["y"]));
}

#[test]
fn html_unclosed_quote_abandoned_at_new_tag() {
    // A `<` inside an unclosed value starts a fresh tag; the abandoned value
    // contributes nothing and the new tag's attribute is read normally.
    let out = extract_html_classes("<a class=\"x<b class='y'>");
    assert_eq!(out, strings(&["y"]));
}

#[test]
fn html_unterminated_attribute_yields_nothing() {
    let out = extract_html_classes("<div class=unterminated></div>");
    assert_eq!(out, Vec::<String>::new());
}

#[test]
fn html_empty_class_yields_nothing() {
    let out = extract_html_classes("<div class=\"\"></div>");
    assert_eq!(out, Vec::<String>::new());
}

#[test]
fn html_class_outside_tag_ignored() {
    let out = extract_html_classes("plain class=\"x\" text");
    assert_eq!(out, Vec::<String>::new());
}

#[test]
fn html_extra_whitespace_in_value() {
    let out = extract_html_classes("<div class=\"  a \t b  \"></div>");
    assert_eq!(out, strings(&["a", "b"]));
}

#[test]
fn html_accented_class_names() {
    let out = extract_html_classes("<div class=\"héllo wörld\"></div>");
    assert_eq!(out, strings(&["héllo", "wörld"]));
}

#[test]
fn parse_class_list_splits_on_whitespace() {
    assert_eq!(parse_class_list("a b\tc"), strings(&["a", "b", "c"]));
}

#[test]
fn parse_class_list_empty_and_blank() {
    assert_eq!(parse_class_list(""), Vec::<String>::new());
    assert_eq!(parse_class_list("   \t  "), Vec::<String>::new());
}

#[test]
fn css_selector_line_tokens() {
    let out = extract_css_classes(".foo, .bar {\n  color: red;\n}\n");
    assert_eq!(out, strings(&["foo", "bar"]));
}

#[test]
fn css_rule_bodies_not_scanned() {
    let out = extract_css_classes(".a {\ncolor: red;\n}\n.b {\n");
    assert_eq!(out, strings(&["a", "b"]));
}

#[test]
fn css_several_classes_one_line() {
    let out = extract_css_classes(".a.b { }\n");
    assert_eq!(out, strings(&["a", "b"]));
}

#[test]
fn css_crlf_line_endings() {
    let out = extract_css_classes(".x {\r\n}\r\n.y {\r\n");
    assert_eq!(out, strings(&["x", "y"]));
}

#[test]
fn css_hyphen_and_underscore() {
    let out = extract_css_classes(".btn-primary, .nav_item {\n");
    assert_eq!(out, strings(&["btn-primary", "nav_item"]));
}

#[test]
fn css_accented_class_name() {
    let out = extract_css_classes(".émphase {\n");
    assert_eq!(out, strings(&["émphase"]));
}

#[test]
fn css_dot_without_identifier_yields_nothing() {
    assert_eq!(extract_all_classes_from_line("selector ."), Vec::<String>::new());
    assert_eq!(extract_all_classes_from_line("."), Vec::<String>::new());
}

#[test]
fn css_dot_before_non_identifier_skipped() {
    // The first dot is followed by a class character, the second is not.
    assert_eq!(extract_all_classes_from_line(".a . {"), strings(&["a"]));
}

#[test]
fn class_name_from_pos_cases() {
    let chars: Vec<char> = "abc def".chars().collect();
    assert_eq!(extract_class_name_from_pos(&chars, 0), Some("abc".to_string()));
    assert_eq!(extract_class_name_from_pos(&chars, 3), None);
    assert_eq!(extract_class_name_from_pos(&chars, 7), None);
    assert_eq!(extract_class_name_from_pos(&chars, 100), None);
}
