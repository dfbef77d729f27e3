use lexi::output::render_definition;
use lexi::readable::{contains_html_tag, html_to_text};

#[test]
fn numeric_and_named_entities_decode_and_others_stay() {
    assert_eq!(html_to_text("a&#65;&#x42;&#X43;&#+68;b"), "aABCDb");
    assert_eq!(html_to_text("&#0;x"), "&#0;x");
    assert_eq!(html_to_text("&#xD800;"), "&#xD800;");
    assert_eq!(html_to_text("&#x4E2D;&#25991;"), "中文");
    assert_eq!(html_to_text("&hellip;&unknown;"), "…&unknown;");
}

#[test]
fn tags_are_recognized_only_before_a_letter() {
    assert!(!contains_html_tag("a < b"));
    assert!(!contains_html_tag("<1> and < b>"));
    assert!(contains_html_tag("x</b>"));
    assert!(contains_html_tag("<br>"));
}

#[test]
fn rendering_keeps_raw_and_plain_text_and_falls_back_when_blank() {
    assert_eq!(render_definition("<b>x</b>", true), "<b>x</b>");
    assert_eq!(render_definition("n. a < b", false), "n. a < b");
    assert_eq!(render_definition("<b> </b>", false), "<b> </b>");
    assert_eq!(
        render_definition("<a href='entry://x'></a>", false),
        "\nReference: entry://x"
    );
    assert_eq!(render_definition("<p>one</p><p>two</p>", false), "one\ntwo");
}
