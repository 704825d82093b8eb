use css_checker::compare::{check_classes, class_difference, class_set, compare_classes};
use css_checker::css::collect_css_classes;
use css_checker::html::collect_html_classes;

fn strings(items: &[&str]) -> Vec<String> {
    items.iter().map(|s| s.to_string()).collect()
}

#[test]
fn end_to_end_example() {
    let html_files = strings(&["<div class=\"card title\"></div>"]);
    let css_files = strings(&[".card { color: red; } .header { }"]);
    let (html_only, css_only) = check_classes(&html_files, &css_files);
    assert_eq!(html_only, strings(&["title"]));
    assert_eq!(css_only, strings(&["header"]));
}

#[test]
fn scan_twice_yields_identical_report() {
    let html_files = strings(&["<a class=\"a b\">", "<b class='c'>"]);
    let css_files = strings(&[".b {\n.d {\n"]);
    let first = check_classes(&html_files, &css_files);
    let second = check_classes(&html_files, &css_files);
    assert_eq!(first, second);
}

#[test]
fn empty_html_side_reports_all_css_classes() {
    let html_files: Vec<String> = Vec::new();
    let css_files = strings(&[".a {\n.b {\n"]);
    let (html_only, css_only) = check_classes(&html_files, &css_files);
    assert_eq!(html_only, Vec::<String>::new());
    assert_eq!(css_only, strings(&["a", "b"]));
}

#[test]
fn empty_css_side_reports_all_html_classes() {
    let html_files = strings(&["<i class=\"a b\">"]);
    let css_files: Vec<String> = Vec::new();
    let (html_only, css_only) = check_classes(&html_files, &css_files);
    assert_eq!(html_only, strings(&["a", "b"]));
    assert_eq!(css_only, Vec::<String>::new());
}

#[test]
fn collectors_concatenate_across_files() {
    let html = collect_html_classes(&strings(&["<a class=\"a\">", "<b class=\"b c\">"]));
    assert_eq!(html, strings(&["a", "b", "c"]));
    let css = collect_css_classes(&strings(&[".x {\n", ".y {\n"]));
    assert_eq!(css, strings(&["x", "y"]));
}

#[test]
fn class_set_deduplicates_keeping_first() {
    let out = class_set(&strings(&["a", "b", "a", "c", "b"]));
    assert_eq!(out, strings(&["a", "b", "c"]));
}

#[test]
fn class_difference_keeps_order() {
    let out = class_difference(&strings(&["a", "b", "c"]), &strings(&["b"]));
    assert_eq!(out, strings(&["a", "c"]));
}

#[test]
fn compare_classes_deduplicates_both_sides() {
    let (html_only, css_only) = compare_classes(
        &strings(&["a", "a", "b"]),
        &strings(&["b", "c", "c"]),
    );
    assert_eq!(html_only, strings(&["a"]));
    assert_eq!(css_only, strings(&["c"]));
}

#[test]
fn matching_sides_report_nothing() {
    let html_files = strings(&["<div class=\"card\"></div>"]);
    let css_files = strings(&[".card {\n"]);
    let (html_only, css_only) = check_classes(&html_files, &css_files);
    assert_eq!(html_only, Vec::<String>::new());
    assert_eq!(css_only, Vec::<String>::new());
}
