use markdoc::html_gen::{add_section_wrappers_to_html, generate_html};

fn b(s: &str) -> Vec<u8> {
    s.as_bytes().to_vec()
}

fn s(v: &[u8]) -> String {
    String::from_utf8(v.to_vec()).unwrap()
}

#[test]
fn no_headings_is_identity() {
    let html = b("<p>hello</p><ul><li>x</li></ul>");
    let out = add_section_wrappers_to_html(&html).unwrap();
    assert_eq!(out, html);
}

#[test]
fn empty_input_is_identity() {
    let html = b("");
    let out = add_section_wrappers_to_html(&html).unwrap();
    assert_eq!(out, html);
}

#[test]
fn single_heading_wrapped() {
    let html = b("<h1>Getting Started</h1>");
    let out = add_section_wrappers_to_html(&html).unwrap();
    assert_eq!(
        s(&out),
        "\n<div class=\"getting-started\">\n<h1>Getting Started</h1></div>"
    );
}

#[test]
fn nested_sections_scenario() {
    let html = b("<h1>Intro</h1><p>text</p><h2>Details</h2><p>more</p>");
    let out = add_section_wrappers_to_html(&html).unwrap();
    assert_eq!(
        s(&out),
        "\n<div class=\"intro\">\n<h1>Intro</h1><p>text</p>\n<div class=\"details\">\n<h2>Details</h2><p>more</p></div>\n</div>"
    );
}

#[test]
fn sibling_sections_scenario() {
    let html = b("<h1>A</h1><h1>B</h1>");
    let out = add_section_wrappers_to_html(&html).unwrap();
    assert_eq!(
        s(&out),
        "\n<div class=\"a\">\n<h1>A</h1></div>\n<div class=\"b\">\n<h1>B</h1></div>"
    );
    // The first section is fully closed before the second opens.
    let text = s(&out);
    let second_open = text.rfind("<div class=\"b\">").unwrap();
    let first_close = text.find("</div>").unwrap();
    assert!(first_close < second_open);
}

#[test]
fn balanced_wrapper_tags() {
    for input in [
        "",
        "<p>x</p>",
        "<h1>A</h1>",
        "<h1>A</h1><h2>B</h2><h3>C</h3><h2>D</h2><h1>E</h1>",
        "<h3>deep</h3><h1>up</h1>",
    ] {
        let html = b(input);
        let out = s(&add_section_wrappers_to_html(&html).unwrap());
        let opens = out.matches("<div class=").count();
        let closes = out.matches("</div>").count();
        assert_eq!(opens, closes);
    }
}

#[test]
fn nesting_depths_follow_levels() {
    let html = b("<h1>A</h1><h2>B</h2><h3>C</h3><h2>D</h2><h1>E</h1>");
    let out = s(&add_section_wrappers_to_html(&html).unwrap());
    // After each heading tag, the number of unmatched <div> openings is the
    // nesting depth; for levels [1,2,3,2,1] it is [1,2,3,2,1].
    let expected_depths = [1usize, 2, 3, 2, 1];
    for (idx, tag) in ["<h1>A", "<h2>B", "<h3>C", "<h2>D", "<h1>E"].iter().enumerate() {
        let pos = out.find(tag).unwrap();
        let prefix = &out[..pos];
        let depth = prefix.matches("<div class=").count() - prefix.matches("</div>").count();
        assert_eq!(depth, expected_depths[idx]);
    }
}

#[test]
fn order_preserved_when_wrappers_removed() {
    let input = "<h1>Intro</h1><p>text</p><h2>Details</h2><p>more</p>";
    let out = s(&add_section_wrappers_to_html(&b(input)).unwrap());
    let stripped = out
        .replace("\n<div class=\"intro\">\n", "")
        .replace("\n<div class=\"details\">\n", "")
        .replace("</div>\n", "")
        .replace("</div>", "");
    assert_eq!(stripped, input);
}

#[test]
fn slug_determinism() {
    let html = b("<h1>Hello, World!</h1>");
    let first = add_section_wrappers_to_html(&html).unwrap();
    let second = add_section_wrappers_to_html(&html).unwrap();
    assert_eq!(first, second);
    assert!(s(&first).contains("<div class=\"hello-world\">"));
}

#[test]
fn distinct_texts_distinct_slugs() {
    let out = s(&add_section_wrappers_to_html(&b("<h1>Getting Started</h1><h1>Reference</h1>"))
        .unwrap());
    assert!(out.contains("<div class=\"getting-started\">"));
    assert!(out.contains("<div class=\"reference\">"));
}

#[test]
fn duplicate_headings_share_slug() {
    let out = s(&add_section_wrappers_to_html(&b("<h1>Notes</h1><h1>Notes</h1>")).unwrap());
    assert_eq!(out.matches("<div class=\"notes\">").count(), 2);
}

#[test]
fn inline_markup_ignored_for_slug() {
    let out = s(&add_section_wrappers_to_html(&b("<h2>Big <em>Deal</em></h2>")).unwrap());
    assert!(out.contains("<div class=\"big-deal\">"));
}

#[test]
fn heading_with_attributes_recognised() {
    let out = s(&add_section_wrappers_to_html(&b("<h1 id=\"top\">Top</h1>")).unwrap());
    assert!(out.contains("<div class=\"top\">"));
}

#[test]
fn quoted_attribute_may_contain_gt() {
    let out = s(&add_section_wrappers_to_html(&b("<h1 title=\"a>b\">T</h1>")).unwrap());
    assert_eq!(out, "\n<div class=\"t\">\n<h1 title=\"a>b\">T</h1></div>");
}

#[test]
fn single_quoted_attribute_may_contain_gt() {
    let out = s(&add_section_wrappers_to_html(&b("<h1 title='a>b'>T</h1>")).unwrap());
    assert_eq!(out, "\n<div class=\"t\">\n<h1 title='a>b'>T</h1></div>");
}

#[test]
fn uppercase_heading_recognised() {
    let out = s(&add_section_wrappers_to_html(&b("<H1>Top</H1>")).unwrap());
    assert_eq!(out, "\n<div class=\"top\">\n<H1>Top</H1></div>");
}

#[test]
fn mixed_case_close_tag_recognised() {
    let out = s(&add_section_wrappers_to_html(&b("<h2>Mix</H2>")).unwrap());
    assert!(out.contains("<div class=\"mix\">"));
}

#[test]
fn unclosed_heading_is_malformed() {
    assert!(add_section_wrappers_to_html(&b("<h1>oops")).is_err());
}

#[test]
fn nested_heading_is_malformed() {
    assert!(add_section_wrappers_to_html(&b("<h1>a<h2>b</h2></h1>")).is_err());
}

#[test]
fn generate_html_renders_and_wraps() {
    let md = b("# Title\n\nSome text.\n");
    let css = b("body { color: red; }");
    let out = s(&generate_html(&md, &css).unwrap());
    assert!(out.starts_with(
        "<!DOCTYPE html>\n<html>\n<head>\n    <meta charset=\"UTF-8\">\n    <style>body { color: red; }</style>\n</head>\n<body>\n"
    ));
    assert!(out.ends_with("\n</body>\n</html>"));
    assert!(out.contains("<div class=\"title\">"));
    assert!(out.contains("<h1>Title</h1>"));
}

#[test]
fn generate_html_without_headings_keeps_fragment() {
    let md = b("just a paragraph\n");
    let out = s(&generate_html(&md, &b("")).unwrap());
    assert!(out.contains("<p>just a paragraph</p>"));
    assert!(!out.contains("<div class="));
}
