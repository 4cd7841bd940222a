use station_export::blocks::{parse_html, HtmlNode};
use station_export::inline::parse_inline;
use station_export::text::{count_words, count_words_simple};

fn item_text(item: &Vec<station_export::inline::InlineNode>) -> String {
    let mut s = String::new();
    for run in item {
        s.push_str(&run.text);
    }
    s
}

#[test]
fn strong_em_is_one_bold_italic_run() {
    let runs = parse_inline("<strong><em>x</em></strong>");
    assert_eq!(runs.len(), 1);
    assert_eq!(runs[0].text, "x");
    assert!(runs[0].bold);
    assert!(runs[0].italic);
    assert!(!runs[0].underline);
    assert!(!runs[0].code);
}

#[test]
fn three_item_list_keeps_item_texts() {
    let nodes = parse_html("<ul><li>one</li><li><p>two</p></li><li>three</li></ul>");
    assert_eq!(nodes.len(), 1);
    match &nodes[0] {
        HtmlNode::UnorderedList { items } => {
            assert_eq!(items.len(), 3);
            assert_eq!(item_text(&items[0]), "one");
            assert_eq!(item_text(&items[1]), "two");
            assert_eq!(item_text(&items[2]), "three");
        }
        _ => panic!("expected an unordered list"),
    }
}

#[test]
fn uneven_table_rows_parse_as_given() {
    let nodes = parse_html("<table><tr><td>A</td></tr><tr><td>B</td><td>C</td></tr></table>");
    assert_eq!(nodes.len(), 1);
    match &nodes[0] {
        HtmlNode::Table { rows } => {
            assert_eq!(rows.len(), 2);
            assert_eq!(rows[0].len(), 1);
            assert_eq!(rows[1].len(), 2);
            assert_eq!(item_text(&rows[0][0]), "A");
            assert_eq!(item_text(&rows[1][0]), "B");
            assert_eq!(item_text(&rows[1][1]), "C");
        }
        _ => panic!("expected a table"),
    }
}

#[test]
fn unknown_inline_tag_preserves_text() {
    let runs = parse_inline("<foo>hello</foo>");
    assert_eq!(runs.len(), 1);
    assert_eq!(runs[0].text, "hello");
    assert!(!runs[0].bold && !runs[0].italic && !runs[0].underline && !runs[0].code);
}

#[test]
fn unknown_tag_inside_paragraph_preserves_text() {
    let nodes = parse_html("<p><foo>hello</foo></p>");
    assert_eq!(nodes.len(), 1);
    match &nodes[0] {
        HtmlNode::Paragraph { children } => {
            assert_eq!(item_text(children), "hello");
        }
        _ => panic!("expected a paragraph"),
    }
}

#[test]
fn entities_decode_in_paragraph_text() {
    let nodes = parse_html("<p>Fish &amp; Chips &lt;fresh&gt; &ldquo;daily&rdquo;&hellip;</p>");
    match &nodes[0] {
        HtmlNode::Paragraph { children } => {
            assert_eq!(
                item_text(children),
                "Fish & Chips <fresh> \u{201c}daily\u{201d}\u{2026}"
            );
        }
        _ => panic!("expected a paragraph"),
    }
}

#[test]
fn plain_text_without_tags_becomes_paragraph() {
    let nodes = parse_html("  Just text &amp; more  ");
    assert_eq!(nodes.len(), 1);
    match &nodes[0] {
        HtmlNode::Paragraph { children } => {
            assert_eq!(item_text(children), "Just text & more");
        }
        _ => panic!("expected a paragraph"),
    }
}

#[test]
fn heading_levels_parse() {
    let nodes = parse_html("<h1>A</h1><h3>B</h3><h6>C</h6>");
    assert_eq!(nodes.len(), 3);
    match &nodes[0] {
        HtmlNode::Heading { level, children } => {
            assert_eq!(*level, 1);
            assert_eq!(item_text(children), "A");
        }
        _ => panic!("expected a heading"),
    }
    match &nodes[1] {
        HtmlNode::Heading { level, .. } => assert_eq!(*level, 3),
        _ => panic!("expected a heading"),
    }
    match &nodes[2] {
        HtmlNode::Heading { level, .. } => assert_eq!(*level, 6),
        _ => panic!("expected a heading"),
    }
}

#[test]
fn blockquote_flattens_inner_paragraph() {
    let nodes = parse_html("<blockquote><p>Wise words</p></blockquote>");
    match &nodes[0] {
        HtmlNode::Blockquote { children } => {
            assert_eq!(item_text(children), "Wise words");
        }
        _ => panic!("expected a blockquote"),
    }
}

#[test]
fn code_block_keeps_raw_lines_and_decodes_entities() {
    let nodes = parse_html("<pre><code>let x = 1;\nif x &lt; 2 { }</code></pre>");
    match &nodes[0] {
        HtmlNode::CodeBlock { text } => {
            assert_eq!(text, "let x = 1;\nif x < 2 { }");
        }
        _ => panic!("expected a code block"),
    }
}

#[test]
fn image_attributes_are_read() {
    let nodes = parse_html("<img src='x.png' alt=\"Pic\">");
    match &nodes[0] {
        HtmlNode::Image { src, alt } => {
            assert_eq!(src, "x.png");
            assert_eq!(alt, "Pic");
        }
        _ => panic!("expected an image"),
    }
}

#[test]
fn horizontal_rule_and_wrapper_tags() {
    let nodes = parse_html("<div><p>In</p><hr></div>");
    assert_eq!(nodes.len(), 2);
    assert!(matches!(&nodes[0], HtmlNode::Paragraph { .. }));
    assert!(matches!(&nodes[1], HtmlNode::HorizontalRule));
}

#[test]
fn tag_names_match_case_insensitively() {
    let nodes = parse_html("<P>Hi <B>there</B></P>");
    match &nodes[0] {
        HtmlNode::Paragraph { children } => {
            assert_eq!(children.len(), 2);
            assert_eq!(children[0].text, "Hi ");
            assert_eq!(children[1].text, "there");
            assert!(children[1].bold);
        }
        _ => panic!("expected a paragraph"),
    }
}

#[test]
fn br_becomes_newline_run() {
    let runs = parse_inline("one<br>two");
    assert_eq!(runs.len(), 3);
    assert_eq!(runs[1].text, "\n");
}

#[test]
fn link_and_underline_set_the_underline_flag() {
    let runs = parse_inline("<a href=\"https://example.org\">link</a> and <u>under</u>");
    assert_eq!(runs.len(), 3);
    assert_eq!(runs[0].text, "link");
    assert!(runs[0].underline);
    assert_eq!(runs[2].text, "under");
    assert!(runs[2].underline);
}

#[test]
fn unclosed_tag_takes_rest_as_content() {
    let nodes = parse_html("<p>open ended");
    assert_eq!(nodes.len(), 1);
    match &nodes[0] {
        HtmlNode::Paragraph { children } => {
            assert_eq!(item_text(children), "open ended");
        }
        _ => panic!("expected a paragraph"),
    }
}

#[test]
fn nested_same_name_tags_balance() {
    let nodes = parse_html("<div><div><p>deep</p></div></div>");
    assert_eq!(nodes.len(), 1);
    match &nodes[0] {
        HtmlNode::Paragraph { children } => {
            assert_eq!(item_text(children), "deep");
        }
        _ => panic!("expected a paragraph"),
    }
}

#[test]
fn ordered_list_parses_items_in_order() {
    let nodes = parse_html("<ol><li>first</li><li>second</li></ol>");
    match &nodes[0] {
        HtmlNode::OrderedList { items } => {
            assert_eq!(items.len(), 2);
            assert_eq!(item_text(&items[0]), "first");
            assert_eq!(item_text(&items[1]), "second");
        }
        _ => panic!("expected an ordered list"),
    }
}

#[test]
fn word_counts_strip_tags() {
    assert_eq!(count_words("<p>Hello brave new world</p>"), 4);
    assert_eq!(count_words(""), 0);
    assert_eq!(count_words("<br><hr>"), 0);
    assert_eq!(count_words_simple("<h1>One</h1><p>two three</p>"), 3);
}

#[test]
fn the_whole_entity_table_decodes() {
    let runs = parse_inline(
        "&amp;&lt;&gt;&quot;&#39;&apos;&nbsp;&#x27;&#x2F;&mdash;&ndash;&hellip;&lsquo;&rsquo;&ldquo;&rdquo;",
    );
    assert_eq!(runs.len(), 1);
    assert_eq!(
        runs[0].text,
        "&<>\"'' '/\u{2014}\u{2013}\u{2026}\u{2018}\u{2019}\u{201c}\u{201d}"
    );
}

#[test]
fn unrecognised_entity_text_is_kept_literally() {
    let runs = parse_inline("&unknown; &amp2; &#x2f;");
    assert_eq!(runs.len(), 1);
    assert_eq!(runs[0].text, "&unknown; &amp2; &#x2f;");
}

#[test]
fn scanned_tag_and_attribute_names_are_lowercased() {
    let cs = station_export::text::chars_of("<P CLASS='x' Data-Id=7>rest");
    let tag = station_export::scan::read_opening_tag(&cs, 0).unwrap();
    assert_eq!(tag.name, vec!['p']);
    assert_eq!(tag.attrs.len(), 2);
    assert_eq!(tag.attrs[0].0, vec!['c', 'l', 'a', 's', 's']);
    assert_eq!(tag.attrs[0].1, vec!['x']);
    assert_eq!(tag.attrs[1].0, vec!['d', 'a', 't', 'a', '-', 'i', 'd']);
    assert_eq!(tag.attrs[1].1, vec!['7']);
}

#[test]
fn unicode_blanks_separate_words_and_trim() {
    assert_eq!(count_words("one\u{a0}two"), 2);
    assert_eq!(count_words("a\u{2003}b c"), 3);
    let nodes = parse_html("\u{2003}hi\u{2003}");
    match &nodes[0] {
        HtmlNode::Paragraph { children } => assert_eq!(item_text(children), "hi"),
        _ => panic!("expected a paragraph"),
    }
}

#[test]
fn a_document_of_paragraphs_recovers_every_text() {
    let nodes = parse_html("<p>one</p><p>two &amp; three</p><p></p>");
    assert_eq!(nodes.len(), 3);
    let expected = ["one", "two & three", ""];
    for (node, want) in nodes.iter().zip(expected.iter()) {
        match node {
            HtmlNode::Paragraph { children } => assert_eq!(item_text(children), *want),
            _ => panic!("expected a paragraph"),
        }
    }
}
