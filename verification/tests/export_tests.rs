use station_export::blocks::{parse_html, HtmlNode};
use station_export::docx::build_docx;
use station_export::pdf::{build_pdf, PageOp, TOP_Y_UM};

fn bytes_contain(haystack: &[u8], needle: &[u8]) -> bool {
    if needle.is_empty() || haystack.len() < needle.len() {
        return false;
    }
    for start in 0..=(haystack.len() - needle.len()) {
        if &haystack[start..start + needle.len()] == needle {
            return true;
        }
    }
    false
}

fn pdf_texts(w: &station_export::pdf::PdfWriter) -> Vec<String> {
    let mut out = Vec::new();
    for op in &w.ops {
        if let PageOp::Text { text, .. } = op {
            out.push(text.clone());
        }
    }
    out
}

#[test]
fn report_example_parses_to_expected_model() {
    let nodes = parse_html("<h1>Title</h1><p>Hello <strong>world</strong></p>");
    assert_eq!(nodes.len(), 2);
    match &nodes[0] {
        HtmlNode::Heading { level, children } => {
            assert_eq!(*level, 1);
            assert_eq!(children.len(), 1);
            assert_eq!(children[0].text, "Title");
        }
        _ => panic!("expected a heading"),
    }
    match &nodes[1] {
        HtmlNode::Paragraph { children } => {
            assert_eq!(children.len(), 2);
            assert_eq!(children[0].text, "Hello ");
            assert!(!children[0].bold);
            assert_eq!(children[1].text, "world");
            assert!(children[1].bold);
        }
        _ => panic!("expected a paragraph"),
    }
}

#[test]
fn report_example_yields_nonempty_buffers() {
    let markup = "<h1>Title</h1><p>Hello <strong>world</strong></p>";
    let docx = build_docx("Report", markup).expect("flow document should build");
    assert!(!docx.is_empty());

    let w = build_pdf("Report", markup);
    assert!(w.page_count >= 1);
    let texts = pdf_texts(&w);
    assert!(texts.iter().any(|t| t.contains("Title")));
    assert!(texts.iter().any(|t| t.contains("world")));
    assert!(texts.iter().any(|t| t.contains("Report")));
}

#[test]
fn empty_markup_still_yields_title_buffer() {
    assert_eq!(parse_html("").len(), 0);

    let docx = build_docx("Report", "").expect("flow document should build");
    assert!(!docx.is_empty());

    let w = build_pdf("Report", "");
    assert_eq!(w.page_count, 1);
    let texts = pdf_texts(&w);
    assert_eq!(texts.len(), 1);
    assert_eq!(texts[0], "Report");
}

#[test]
fn png_data_uri_is_embedded_http_image_is_not() {
    // "iVBORw0KGgo=" decodes to the eight PNG magic bytes plus padding.
    let embedded = build_docx(
        "Doc",
        "<img src=\"data:image/png;base64,iVBORw0KGgoAAAANSUhEUg==\" alt=\"Logo\">",
    )
    .expect("flow document should build");
    assert!(bytes_contain(&embedded, b".png"));

    let linked = build_docx("Doc", "<img src=\"http://example.org/logo.png\" alt=\"Logo\">")
        .expect("flow document should build");
    assert!(!bytes_contain(&linked, b".png"));
    assert!(embedded.len() > linked.len());
}

#[test]
fn http_image_renders_as_placeholder_in_page_output() {
    let w = build_pdf("Doc", "<img src=\"http://example.org/logo.png\" alt=\"Logo\">");
    let texts = pdf_texts(&w);
    assert!(texts.iter().any(|t| t.contains("[Image: Logo]")));

    let w2 = build_pdf("Doc", "<img src=\"http://example.org/logo.png\" alt=\"\">");
    let texts2 = pdf_texts(&w2);
    assert!(texts2.iter().any(|t| t.contains("[Image]")));
}

#[test]
fn long_paragraph_breaks_onto_a_new_page() {
    let mut markup = String::from("<p>");
    for _ in 0..4000 {
        markup.push_str("word ");
    }
    markup.push_str("</p>");
    let w = build_pdf("Doc", &markup);
    assert!(w.page_count >= 2);
    // The first line written after a page break sits exactly at the top margin.
    let mut found_reset = false;
    for op in &w.ops {
        if let PageOp::Text { page, y_um, .. } = op {
            if *page == 2 && *y_um == TOP_Y_UM {
                found_reset = true;
            }
        }
    }
    assert!(found_reset);
}

#[test]
fn uneven_table_renders_without_error_in_both_forms() {
    let markup = "<table><tr><td>A</td></tr><tr><td>B</td><td>C</td></tr></table>";
    let docx = build_docx("Doc", markup).expect("flow document should build");
    assert!(!docx.is_empty());

    let w = build_pdf("Doc", markup);
    let texts = pdf_texts(&w);
    assert!(texts.iter().any(|t| t == "A"));
    assert!(texts.iter().any(|t| t.contains("B | C")));
}

#[test]
fn list_items_are_prefixed_in_page_output() {
    let w = build_pdf("Doc", "<ol><li>alpha</li><li>beta</li></ol>");
    let texts = pdf_texts(&w);
    assert!(texts.iter().any(|t| t.starts_with("1. alpha")));
    assert!(texts.iter().any(|t| t.starts_with("2. beta")));

    let w2 = build_pdf("Doc", "<ul><li>alpha</li></ul>");
    let texts2 = pdf_texts(&w2);
    assert!(texts2.iter().any(|t| t.starts_with("\u{2022} alpha")));
}

#[test]
fn code_block_renders_line_by_line_monospace() {
    let w = build_pdf("Doc", "<pre><code>first line\nsecond line</code></pre>");
    let mut mono_lines = Vec::new();
    for op in &w.ops {
        if let PageOp::Text { text, mono, size_pt, .. } = op {
            if *mono {
                assert_eq!(*size_pt, 9);
                mono_lines.push(text.clone());
            }
        }
    }
    assert_eq!(mono_lines, vec!["first line".to_string(), "second line".to_string()]);
}

#[test]
fn every_block_kind_exports_in_both_forms() {
    let mut markup = String::new();
    markup.push_str("<h2>Section</h2>");
    markup.push_str("<p>Some <em>styled</em> <u>text</u> with <code>code()</code></p>");
    markup.push_str("<ul><li>one</li><li>two</li></ul>");
    markup.push_str("<ol><li>first</li></ol>");
    markup.push_str("<blockquote><p>Quoted wisdom</p></blockquote>");
    markup.push_str("<pre><code>fn main() {}\nlet x;</code></pre>");
    markup.push_str("<hr>");
    markup.push_str("<table><tr><th>H</th></tr><tr><td>D1</td><td>D2</td></tr></table>");
    markup.push_str("<img src=\"http://example.org/i.png\" alt=\"Art\">");
    let markup = markup.as_str();
    let docx = build_docx("Everything", markup).expect("flow document should build");
    assert!(!docx.is_empty());

    let w = build_pdf("Everything", markup);
    let texts = pdf_texts(&w);
    assert!(texts.iter().any(|t| t.contains("Section")));
    assert!(texts.iter().any(|t| t.contains("Quoted wisdom")));
    assert!(texts.iter().any(|t| t.contains("fn main() {}")));
    assert!(texts.iter().any(|t| t.contains("H")));
    assert!(texts.iter().any(|t| t.contains("D1 | D2")));
    assert!(texts.iter().any(|t| t.contains("[Image: Art]")));
}

#[test]
fn source_lines_split_like_the_standard_library() {
    // A carriage return before a newline vanishes with it; a bare final
    // one survives line splitting but is a blank to the word wrapper.
    let w = build_pdf("Doc", "<pre><code>a\r\nb</code></pre>");
    let mut mono_lines = Vec::new();
    for op in &w.ops {
        if let PageOp::Text { text, mono, .. } = op {
            if *mono {
                mono_lines.push(text.clone());
            }
        }
    }
    assert_eq!(mono_lines, vec!["a".to_string(), "b".to_string()]);

    let w2 = build_pdf("Doc", "<pre><code>c\r</code></pre>");
    let mut mono_lines2 = Vec::new();
    for op in &w2.ops {
        if let PageOp::Text { text, mono, .. } = op {
            if *mono {
                mono_lines2.push(text.clone());
            }
        }
    }
    assert_eq!(mono_lines2, vec!["c".to_string()]);
}
