use lexi::output::{write_line, write_miss, write_record, Options, Style, Terminal};
use lexi::readable::html_to_text;
use lexi::structured::{parse, reference_targets};

const POST: &str = "<span class='CK'><span class='DC'>post 1</span><span class='JS'><span class='CY'><span class='CX'><span class='DX'>noun</span><span class='JX'><span class='entryNum'>1.</span>A marker.</span><span class='GZ'>标记。</span><span class='LJ'><span class='LY'>First marker example.</span><span class='LS'>第一个例句。</span></span><span class='LJ'><span class='LY'>Second marker example.</span><span class='LS'>第二个例句。</span></span><span class='GZ'>■(rare) A distinct subsense.</span><span class='GZ'>（罕见）不同的子义项。</span><span class='LJ'><span class='LY'>Subsense example.</span></span><span class='DX'>verb</span><span class='JX'><span class='entryNum'>1.</span>To display.</span><span class='GZ'>张贴。</span><span class='LJ'><span class='LY'>Display example.</span><span class='LS'>张贴例句。</span></span></span></span></span><span class='DC'>post 2</span><span class='JS'><span class='CY'><span class='CX'><span class='DX'>noun</span><span class='JX'><span class='entryNum'>1.</span>By delivery.</span><span class='GZ'>邮寄。</span></span></span></span><span class='DC'>post 3</span><span class='JS'><span class='CY'><span class='CX'><span class='DX'>adverb</span><span class='JX'><span class='entryNum'>1.</span>By express.</span><span class='GZ'>快递地。</span></span></span><span class='YY'><span class='section_title'>Etymology</span><span class='CX'><span class='JX'>An old source.</span></span></span></span></span>\n";

const HELLO: &str = "<span class='CK'><span class='DC'>hello</span><span class='JS'><span class='CY'><span class='CX'><span class='DX'>exclamation</span><span class='JX'><span class='entryNum'>1.</span>Used as a greeting.</span><span class='GZ'>用于问候。</span><span class='LJ'><span class='LY'>Hello, friend!</span></span><span class='DX'>(pl. -os)</span><span class='JX'><span class='entryNum'>1.</span>A spoken greeting.</span><span class='GZ'></span><span class='DX'>(-oes, -oed)</span><span class='JX'><span class='entryNum'>1.</span>To greet someone.</span><span class='GZ'>打招呼。</span></span></span></span></span>\n";

const RUN: &str = "<span class='CK'><span class='DC'>run</span><span class='JS'><span class='CY'><span class='CX'><span class='DX'>(runs, running, ran)</span><span class='JX'><span class='entryNum'>1.</span>To move quickly on foot.</span><span class='GZ'>跑。</span><span class='JX'><span class='entryNum'>2.</span>Another meaning.</span><span class='GZ'>经营。</span></span></span><span class='CZ'><span class='section_title'>Phrases</span><span class='CX'><span class='YX'>run away</span><span class='JX'>To escape.</span><span class='GZ'>逃跑。</span><span class='LJ'><span class='LY'>First phrase example.</span><span class='LS'>第一个短语例句。</span></span><span class='LJ'><span class='LY'>Second phrase example.</span><span class='LS'>第二个短语例句。</span></span><span class='GZ'>■A phrase subsense.</span><span class='LJ'><span class='LY'>Phrase subsense example.</span></span><span class='YX'>run over</span><span class='JX'>见 over<a href='entry://over'/></span><span class='YX'>run with</span><span class='JX'>To support.</span><span class='LJ'><span class='LS'>只有译文的例句。</span></span></span></span><span class='YY'><span class='section_title'>Etymology</span><span class='CX'><span class='JX'>From an older form.</span></span></span><span class='PS'>runner</span><span class='YF'>A usage note.</span><div class='XQ'><span class='section_title'>Unfamiliar section</span><span>Keep every word.</span><a href='entry://future'>see also</a></div></span></span>\n";


fn rendered(headword: &str, definition: &str, options: Options) -> String {
    let mut buf = String::new();
    write_record(
        &mut buf,
        "arbitrary import name",
        headword,
        definition,
        options,
        true,
    );
    buf
}

#[test]
fn pads_definition_newline_and_separates_records() {
    let mut buf = String::new();
    write_record(&mut buf, "oxford", "a", "one", Options::default(), true);
    write_record(&mut buf, "oxford", "b", "two\n", Options::default(), false);
    assert_eq!(buf, "a\none\n\nb\ntwo\n");
}

#[test]
fn show_dictionary_uses_bracket_title_and_verbatim_definition() {
    let mut buf = String::new();
    write_record(
        &mut buf,
        "Oxford",
        "hello",
        "  keep \nand a blank\n",
        Options {
            show_dictionary: true,
            ..Options::default()
        },
        true,
    );
    assert_eq!(buf, "[Oxford] hello\n  keep \nand a blank\n");
}

#[test]
fn default_output_makes_html_definitions_readable() {
    let mut buf = String::new();
    write_record(
        &mut buf,
        "oxford",
        "hello",
        &[
            r#"<link rel="stylesheet" type="text/css" href="sf_cb.css"/>"#,
            r#"<span class="DC">hello</span>"#,
            r#"<span class="DX">(亦作 hallo 或 hullo)</span>"#,
            r#"<span class="DX">exclamation</span>"#,
            r#"<span class="entryNum">1.</span>"#,
            r#"<span class="entryDot">■</span>"#,
            "used as a greeting",
            r#"<span class="GZ">（用于打招呼或问候）哈罗，喂</span>"#,
            "<hr>",
            r#"<span class="section_title">语源</span>"#,
            r#"<span class="italic">hollo</span>"#,
        ]
        .concat(),
        Options::default(),
        true,
    );
    assert_eq!(
        buf,
        [
            "hello\n",
            "hello (亦作 hallo 或 hullo) exclamation\n",
            "1. ■ used as a greeting （用于打招呼或问候）哈罗，喂\n",
            "\n",
            "语源 hollo\n",
        ]
        .concat()
    );
}

#[test]
fn raw_keeps_stored_definition_markup() {
    let mut buf = String::new();
    write_record(
        &mut buf,
        "oxford",
        "hello",
        "<span>hello &amp; world</span>",
        Options {
            raw: true,
            ..Options::default()
        },
        true,
    );
    assert_eq!(buf, "hello\n<span>hello &amp; world</span>\n");
}

#[test]
fn readable_output_strips_scripts_and_decodes_entities() {
    let mut buf = String::new();
    write_record(
        &mut buf,
        "oxford",
        "a",
        "<script>alert(1)</script><p>A&nbsp;B &amp; C</p><p>second</p>",
        Options::default(),
        true,
    );
    assert_eq!(buf, "a\nA B & C\nsecond\n");
}

#[test]
fn plain_text_with_less_than_stays_verbatim() {
    let mut buf = String::new();
    write_record(
        &mut buf,
        "oxford",
        "n",
        "n. a < b\n",
        Options::default(),
        true,
    );
    assert_eq!(buf, "n\nn. a < b\n");
}

#[test]
fn structured_post_preserves_groups_senses_and_counts_actual_omissions() {
    let output = rendered("post", POST, Options::default());
    assert!(
        output.starts_with("post\n\npost 1\n\n  noun\n\n  1. A marker.\n     标记。\n"),
        "{output}"
    );
    assert_eq!(output.matches("\npost\n").count(), 0);
    assert!(output.contains("\n     > First marker example.\n       第一个例句。"));
    assert!(!output.contains("Second marker example."));
    assert!(!output.contains("Subsense example."));
    assert!(
        output.contains("\n     - (rare) A distinct subsense.\n       （罕见）不同的子义项。")
    );
    assert!(output.contains("Display example."));
    assert!(!output.contains("An old source."));
    assert!(output.ends_with("Omitted: 2 examples and etymology; use --full to show all.\n"));
    assert_eq!(output.matches("Omitted:").count(), 1);
    let positions = ["post 1", "To display.", "post 2", "By delivery.", "post 3"]
        .map(|part| output.find(part).unwrap());
    assert!(positions.windows(2).all(|pair| pair[0] < pair[1]));
}

#[test]
fn full_restores_examples_etymology_and_leaves_raw_verbatim() {
    let full = rendered(
        "post",
        POST,
        Options {
            full: true,
            ..Options::default()
        },
    );
    for content in [
        "First marker example.",
        "Second marker example.",
        "Subsense example.",
        "Display example.",
        "An old source.",
    ] {
        assert!(full.contains(content), "{content}");
    }
    assert!(!full.contains("Omitted:"));
    let raw = rendered(
        "post",
        POST,
        Options {
            raw: true,
            terminal: Terminal {
                color: true,
                width: Some(12),
            },
            ..Options::default()
        },
    );
    assert_eq!(raw, format!("post\n{POST}"));
}

#[test]
fn footer_reports_only_content_actually_hidden_and_does_not_promote_subsense_examples() {
    let wrap = |body: &str, section: &str| {
        format!(
            "<span class='CK'><span class='DC'>word</span><span class='JS'><span class='CY'><span class='CX'>{body}</span></span>{section}</span></span>"
        )
    };
    let body = "<span class='JX'>A main meaning.</span><span class='GZ'>■A subsense.</span><span class='LJ'><span class='LY'>Hidden example.</span></span><span class='JX'>Second meaning.</span><span class='LJ'><span class='LS'>Visible translation only.</span></span>";
    let output = rendered("word", &wrap(body, ""), Options::default());
    assert!(output.contains("A subsense."));
    assert!(!output.contains("Hidden example."));
    assert!(output.contains("Visible translation only."));
    assert!(output.ends_with("Omitted: 1 example; use --full to show all.\n"));
    let etymology = "<span class='YY'><hr><span class='section_title'>Origin</span><span class='CX'><span class='JX'>Earlier form.</span><span class='LJ'><span class='LY'>Origin example.</span></span></span></span>";
    let output = rendered(
        "word",
        &wrap("<span class='JX'>Meaning.</span>", etymology),
        Options::default(),
    );
    assert!(output.ends_with("Omitted: 1 example and etymology; use --full to show all.\n"));
    let etymology = etymology.replace(
        "<span class='LJ'><span class='LY'>Origin example.</span></span>",
        "",
    );
    let output = rendered(
        "word",
        &wrap("<span class='JX'>Meaning.</span>", &etymology),
        Options::default(),
    );
    assert!(output.ends_with("Omitted: etymology; use --full to show all.\n"));
    let ambiguous = body.replace(
        "<span class='LY'>Hidden example.</span>",
        "<span class='future'>Unrecognized example content.</span>",
    );
    let html = wrap(&ambiguous, "");
    assert_eq!(
        rendered("word", &html, Options::default()),
        format!("word\n{}\n", html_to_text(&html))
    );
}

#[test]
fn malformed_inline_tags_recover_in_order_and_non_decorative_marker_text_survives() {
    let html = "<span class='CK'><span class='DC'>word</span><span class='JS'><span class='CY'><span class='CX'><span class='JX'><span class='entryNum'>1.</span><span class='entryDot'>important</span>A <b>bold <i>and</b> italic</i> meaning.</span><span class='GZ'>Translation.</span></span></span></span></span>";
    let output = rendered("word", html, Options::default());
    assert_eq!(
        output,
        "word\n\n  1. importantA bold and italic meaning.\n     Translation.\n"
    );
    assert!(!output.contains("Omitted:"));
}

#[test]
fn missing_labels_or_translations_are_not_invented() {
    let output = rendered("hello", HELLO, Options::default());
    assert!(output.contains("Hello, friend!"));
    assert!(!output.contains("noun"));
    assert!(!output.contains("verb"));
    assert!(output.contains("  (pl. -os)\n\n  1. A spoken greeting.\n\n  (-oes, -oed)"));
    assert!(!output.contains("Omitted:"));
}

#[test]
fn phrases_follow_the_same_example_rule_and_keep_links_unknown_sections() {
    let output = rendered("run", RUN, Options::default());
    assert!(output.contains("First phrase example."));
    assert!(!output.contains("Second phrase example."));
    assert!(!output.contains("Phrase subsense example."));
    for content in [
        "Another meaning.",
        "A phrase subsense.",
        "run away",
        "run over",
        "见 over (entry://over)",
        "run with",
        "只有译文的例句。",
        "runner",
        "A usage note.",
        "Unfamiliar section",
        "Keep every word.",
        "entry://future",
    ] {
        assert!(output.contains(content), "missing {content}: {output}");
    }
    assert!(output.ends_with("Omitted: 2 examples and etymology; use --full to show all.\n"));
    assert!(!output.contains("  verb\n"));
}

#[test]
fn unknown_and_unreliable_html_fall_back_whole_without_omissions() {
    for html in [
        "<div>Unknown format <span class=\"YY\">keep etymology</span><span class=\"LJ\">keep example</span></div>",
        "<span class=\"CK\"><span class=\"DC\">word</span><span class=\"JS\"><span class=\"CY\"><span class=\"CX\"><span class=\"JX\">damaged<span class=\"GZ\">nested</span></span></span></span><span class=\"YY\">keep etymology</span></span></span>",
        "outside<span class=\"CK\"><span class=\"DC\">word</span><span class=\"JS\"><span class=\"CY\"><span class=\"CX\"><span class=\"JX\">inside</span></span></span></span></span>",
    ] {
        let output = rendered("word", html, Options::default());
        assert_eq!(output, format!("word\n{}\n", html_to_text(html)));
        assert!(!output.contains("Omitted:"));
        assert_eq!(
            output,
            rendered(
                "word",
                html,
                Options {
                    full: true,
                    ..Options::default()
                }
            )
        );
    }
    let link = rendered(
        "alias",
        "<a href='entry://target'>Visible target</a>",
        Options::default(),
    );
    assert_eq!(link, "alias\nVisible target\nReference: entry://target\n");
}

#[test]
fn empty_entry_anchors_survive_every_structural_boundary() {
    let anchor = "<a href='entry://target'></a>";
    let wrap = |body: &str| {
        format!(
            "<span class='CK'><span class='DC'>word</span><span class='JS'><span class='CY'><span class='CX'>{body}</span></span></span></span>"
        )
    };
    let html = wrap("<span class='JX'>Meaning.</span>");
    let mut cases = vec![format!("{html}{anchor}")];
    for class in ["CK", "DC", "JS", "CY", "CX", "JX"] {
        cases.push(html.replace(
            &format!("class='{class}'>"),
            &format!("class='{class}'>{anchor}"),
        ));
        cases.push(html.replace(
            &format!("class='{class}'>"),
            &format!("class='{class}' href='entry://target'>"),
        ));
    }
    for class in ["DX", "GZ", "YX", "YD", "entryDot", "entryNum"] {
        cases.push(wrap(&format!(
            "<span class='JX'>Meaning.<span class='{class}'>{anchor}</span></span>"
        )));
    }
    for class in ["DX", "GZ", "YX", "YD"] {
        cases.push(wrap(&format!(
            "<span class='JX'>Meaning.</span><span class='{class}'>{anchor}</span>"
        )));
    }
    cases.push(wrap(
        "<span class='JX'>Meaning.<a class='entryDot' href='entry://target'></a></span>",
    ));
    cases.push(wrap(
        "<span class='JX'>Meaning.</span><span class='LJ' href='entry://target'></span>",
    ));
    cases.push(wrap(&format!(
        "<span class='JX'>Meaning.</span><span class='LJ'>{anchor}</span>"
    )));
    cases.push(wrap(&format!("<span class='JX'>Meaning.</span><span class='LJ'><span class='LY'>{anchor}</span></span>")));
    cases.push(html.replace("</span></span></span></span>", &format!("</span></span><span class='YY'><span class='section_title'>Origin</span><span class='CX'><span class='JX'>Earlier.</span></span>{anchor}</span></span></span>")));
    for html in cases {
        for full in [false, true] {
            let output = rendered(
                "word",
                &html,
                Options {
                    full,
                    ..Options::default()
                },
            );
            assert_eq!(
                output.matches("entry://target").count(),
                1,
                "{html}: {output}"
            );
            assert!(!output.contains("Omitted:"), "{output}");
        }
        assert_eq!(
            rendered(
                "word",
                &html,
                Options {
                    raw: true,
                    ..Options::default()
                }
            ),
            format!("word\n{html}\n")
        );
    }
}

#[test]
fn over_complex_html_falls_back_without_losing_text_references_or_raw() {
    for tag in ["div", "span"] {
        let html = format!(
            "{}Meaning.<a href='entry://target&amp;more'></a>{}",
            format!("<{tag}>").repeat(20_000),
            format!("</{tag}>").repeat(20_000)
        );
        assert!(parse(&html, "word").is_none());
        for full in [false, true] {
            let output = rendered(
                "word",
                &html,
                Options {
                    full,
                    ..Options::default()
                },
            );
            assert_eq!(output, "word\nMeaning.\nReference: entry://target&more\n");
        }
        assert_eq!(
            rendered(
                "word",
                &html,
                Options {
                    raw: true,
                    ..Options::default()
                }
            ),
            format!("word\n{html}\n")
        );
    }
    let html = format!(
        "{}<a href='entry://last'></a>",
        "<span>x</span>".repeat(8193)
    );
    assert!(parse(&html, "word").is_none());
    assert_eq!(reference_targets(&html), ["entry://last"]);
}

#[test]
fn reference_scans_respect_raw_text_attributes_and_bounded_foreign_content() {
    let html = "<script>\"<a href='entry://script'>\"</script><style><a href='entry://style'></style><textarea><a href='entry://textarea'></textarea><!-- <a href='entry://comment'> --><a href='entry://real&amp;target'></a>";
    for html in [
        html.to_owned(),
        format!("{}{}{html}", "<div>".repeat(200), "</div>".repeat(200)),
    ] {
        assert_eq!(reference_targets(&html), ["entry://real&target"]);
    }
    assert_eq!(
        reference_targets("<svg><title><a href='entry://foreign'>word</a></title></svg>"),
        ["entry://foreign"]
    );
}

#[test]
fn pos_headings_are_bold_but_inflections_stay_muted_without_inference() {
    let options = Options {
        terminal: Terminal {
            width: None,
            color: true,
        },
        ..Options::default()
    };
    let post = rendered("post", POST, options);
    for label in ["noun", "verb", "adverb"] {
        assert!(post.contains(&format!("\x1b[1m  {label}\x1b[0m")), "{post}");
    }
    let hello = rendered("hello", HELLO, options);
    assert!(hello.contains("\x1b[1m  exclamation\x1b[0m"));
    assert!(hello.contains("\x1b[2m  (pl. -os)\x1b[0m"));
    assert!(!hello.contains("  noun"));
    assert!(!hello.contains("  verb"));
}

#[test]
fn terminal_wrapping_is_cjk_aware_and_styles_do_not_change_content() {
    let line = "English 中文释义 words 中文释义";
    let mut plain = String::new();
    let mut color = String::new();
    for (buf, enabled) in [(&mut plain, false), (&mut color, true)] {
        write_line(
            buf,
            line,
            "  ",
            "  ",
            Style::Heading,
            Terminal {
                width: Some(16),
                color: enabled,
            },
        );
    }
    assert_eq!(color.replace("\x1b[1m", "").replace("\x1b[0m", ""), plain);
    assert!(plain.lines().count() > 1);
    for line in plain.lines() {
        assert!(line.starts_with("  "));
        assert!(textwrap::core::display_width(line) <= 16, "{line}");
    }
    for width in [0, 1, 2, 3, 4, 5] {
        let output = rendered(
            "post",
            POST,
            Options {
                terminal: Terminal {
                    width: Some(width),
                    color: true,
                },
                ..Options::default()
            },
        );
        assert!(output.contains("\x1b[1m"));
    }
    let pipe = rendered("post", POST, Options::default());
    assert!(!pipe.contains('\x1b'));
    assert!(pipe.contains("Omitted: 2 examples and etymology; use --full to show all."));
    let plain_definition = "  pure text 中文 that must not wrap\n";
    let output = rendered(
        "text",
        plain_definition,
        Options {
            terminal: Terminal {
                width: Some(4),
                color: false,
            },
            ..Options::default()
        },
    );
    assert!(output.ends_with(plain_definition));
}

#[test]
fn miss_uses_the_contract_prefix() {
    let mut buf = String::new();
    write_miss(&mut buf, "helo");
    assert_eq!(buf, "No entry found for: helo\n");
}

#[test]
fn colour_adds_only_style_codes_to_a_record() {
    for (headword, definition) in [("post", POST), ("hello", HELLO), ("run", RUN), ("a", "plain\n")] {
        for full in [false, true] {
            let plain = rendered(headword, definition, Options { full, ..Options::default() });
            let colour = rendered(
                headword,
                definition,
                Options {
                    full,
                    terminal: Terminal { width: None, color: true },
                    ..Options::default()
                },
            );
            assert!(!plain.contains('\x1b'));
            let erased = colour.replace("\x1b[1m", "").replace("\x1b[2m", "").replace("\x1b[0m", "");
            assert_eq!(erased, plain);
        }
    }
}
