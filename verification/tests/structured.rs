use lexi::structured::{dom, forwarding, parse, reference_targets, scan_html, taller_than, MAX_HTML_TAGS};

#[test]
fn complexity_preflight_bounds_nesting_including_foreign_raw_text() {
    for tag in ["div", "span", "span/"] {
        let nested = format!(
            "{}Meaning.{}",
            format!("<{tag}>").repeat(20_000),
            "</span>".repeat(20_000)
        );
        for html in [nested.clone(), format!("<svg><title>{nested}</title></svg>")] {
            assert!(scan_html(&html, false).too_complex);
            assert!(dom(&html).is_none());
        }
    }
    let wide = "<span></span>".repeat(MAX_HTML_TAGS + 1);
    assert!(scan_html(&wide, false).too_complex);
    assert!(dom(&wide).is_none());
}

#[test]
fn complexity_budget_does_not_limit_ordinary_definition_text_length() {
    let html = format!(
        "<span class='CK'><span class='DC'>word</span><span class='JS'><span class='CY'><span class='CX'><span class='JX'>{}</span></span></span></span></span>",
        "Ordinary meaning. ".repeat(4000)
    );
    assert!(html.len() > 50_000);
    assert!(!scan_html(&html, false).too_complex);
    assert!(parse(&html, "word").is_some());
}

#[test]
fn scan_counts_start_tags_and_collects_targets_outside_invisible_tags() {
    let scan = scan_html(
        "<span><a href='entry://one'>x</a><link href='entry://skip'><br></span>",
        true,
    );
    assert_eq!(scan.tags, 4);
    assert!(!scan.too_complex);
    assert_eq!(scan.references, vec!["entry://one".to_string()]);
    assert!(scan_html("<span>x</span>", false).open.is_empty());
}

#[test]
fn reference_targets_come_in_document_order() {
    assert_eq!(
        reference_targets("<p><a href='entry://a'>a</a><b><a href='entry://b'/></b><a href='http://c'>c</a></p>"),
        ["entry://a", "entry://b"]
    );
    assert!(reference_targets("plain text").is_empty());
}

#[test]
fn a_single_recognized_root_is_required_for_a_layout() {
    let one = "<span class='CK'><span class='DC'>w</span><span class='JS'><span class='CY'><span class='CX'><span class='JX'>m</span></span></span></span></span>";
    assert!(parse(one, "w").is_some());
    assert!(parse(&format!("{one}{one}"), "w").is_none());
    assert!(parse("<span class='CK'><span class='DC'>w</span></span>", "w").is_none());
}

#[test]
fn empty_anchors_are_forwarded_open_and_then_closed() {
    let f = forwarding(true, true, "a");
    assert!(f.add_end_tag && !f.self_closing);
    let f = forwarding(true, true, "br");
    assert!(!f.add_end_tag && f.self_closing);
    let f = forwarding(false, true, "a");
    assert!(!f.add_end_tag && f.self_closing);
    let f = forwarding(true, false, "a");
    assert!(!f.add_end_tag && !f.self_closing);
}

#[test]
fn trees_within_the_depth_limit_are_kept_and_measured() {
    let tree = dom("<p>x</p>").unwrap();
    assert!(taller_than(&tree, 0));
    assert!(!taller_than(&tree, 128));
    let nested = format!("{}x{}", "<div>".repeat(100), "</div>".repeat(100));
    let tree = dom(&nested).unwrap();
    assert!(taller_than(&tree, 100));
    assert!(!taller_than(&tree, 128));
}
