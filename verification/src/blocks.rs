//! The block parser: top-level scanner output becomes an ordered sequence
//! of block nodes.  Wrapper tags are transparent; unknown tags are skipped;
//! plain text outside any tag becomes a synthetic paragraph.

use vstd::prelude::*;
use crate::text::{
    spec_decode, decode_entities, spec_trim, trim_chars, lemma_trim_len, ieq_seq, ieq_vec,
    skip_ws, skip_ws_exec, lemma_skip_ws_bounds, sub_vec, string_from, chars_of,
};
use crate::scan::{
    spec_read_opening_tag, read_opening_tag, spec_read_until_closing, read_until_closing,
    lemma_read_opening_tag_bounds, lemma_rutc_bounds, scan_to, scan_to_exec, lemma_scan_to_bounds,
    spec_strip_tags, strip_tags_simple,
};
use crate::inline::{
    InlineNode, InlineModel, inlines_model, spec_parse_inline, parse_inline_chars,
};

verus! {

/// One block node of the document model.
pub enum HtmlNode {
    Heading { level: u8, children: Vec<InlineNode> },
    Paragraph { children: Vec<InlineNode> },
    UnorderedList { items: Vec<Vec<InlineNode>> },
    OrderedList { items: Vec<Vec<InlineNode>> },
    Blockquote { children: Vec<InlineNode> },
    CodeBlock { text: String },
    HorizontalRule,
    Table { rows: Vec<Vec<Vec<InlineNode>>> },
    Image { src: String, alt: String },
}

/// Mathematical model of one block node.
pub ghost enum BlockModel {
    Heading { level: u8, children: Seq<InlineModel> },
    Paragraph { children: Seq<InlineModel> },
    UnorderedList { items: Seq<Seq<InlineModel>> },
    OrderedList { items: Seq<Seq<InlineModel>> },
    Blockquote { children: Seq<InlineModel> },
    CodeBlock { text: Seq<char> },
    HorizontalRule,
    Table { rows: Seq<Seq<Seq<InlineModel>>> },
    Image { src: Seq<char>, alt: Seq<char> },
}

/// The models of a sequence of item run-lists, in order.
pub open spec fn items_model(s: Seq<Vec<InlineNode>>) -> Seq<Seq<InlineModel>> {
    s.map_values(|v: Vec<InlineNode>| inlines_model(v@))
}

/// The models of a sequence of table rows, in order.
pub open spec fn rows_model(s: Seq<Vec<Vec<InlineNode>>>) -> Seq<Seq<Seq<InlineModel>>> {
    s.map_values(|r: Vec<Vec<InlineNode>>| items_model(r@))
}

impl HtmlNode {
    /// The model this block stands for.
    pub open spec fn model(&self) -> BlockModel {
        match self {
            HtmlNode::Heading { level, children } => BlockModel::Heading {
                level: *level,
                children: inlines_model(children@),
            },
            HtmlNode::Paragraph { children } => BlockModel::Paragraph {
                children: inlines_model(children@),
            },
            HtmlNode::UnorderedList { items } => BlockModel::UnorderedList {
                items: items_model(items@),
            },
            HtmlNode::OrderedList { items } => BlockModel::OrderedList {
                items: items_model(items@),
            },
            HtmlNode::Blockquote { children } => BlockModel::Blockquote {
                children: inlines_model(children@),
            },
            HtmlNode::CodeBlock { text } => BlockModel::CodeBlock { text: text@ },
            HtmlNode::HorizontalRule => BlockModel::HorizontalRule,
            HtmlNode::Table { rows } => BlockModel::Table { rows: rows_model(rows@) },
            HtmlNode::Image { src, alt } => BlockModel::Image { src: src@, alt: alt@ },
        }
    }
}

/// The models of a sequence of blocks, in order.
pub open spec fn blocks_model(ns: Seq<HtmlNode>) -> Seq<BlockModel> {
    ns.map_values(|n: HtmlNode| n.model())
}

/// The value of the first attribute whose name matches `key` modulo ASCII
/// case, or the empty sequence.
pub open spec fn attr_value(attrs: Seq<(Seq<char>, Seq<char>)>, key: Seq<char>) -> Seq<char>
    decreases attrs.len(),
{
    if attrs.len() == 0 {
        Seq::empty()
    } else if ieq_seq(attrs[0].0, key) {
        attrs[0].1
    } else {
        attr_value(attrs.drop_first(), key)
    }
}

/// Exec computation of [`attr_value`].
pub fn attr_value_exec(attrs: &Vec<(Vec<char>, Vec<char>)>, key: &[char]) -> (r: Vec<char>)
    ensures
        r@ == attr_value(crate::scan::attrs_model(attrs@), key@),
{
    let mut i: usize = 0;
    proof {
        assert(crate::scan::attrs_model(attrs@).skip(0) =~= crate::scan::attrs_model(attrs@));
    }
    while i < attrs.len()
        invariant
            0 <= i <= attrs@.len(),
            attr_value(crate::scan::attrs_model(attrs@), key@) == attr_value(
                crate::scan::attrs_model(attrs@).skip(i as int),
                key@,
            ),
        decreases attrs@.len() - i,
    {
        proof {
            assert(crate::scan::attrs_model(attrs@).skip(i as int)[0] == (
                attrs@[i as int].0@,
                attrs@[i as int].1@,
            ));
            assert(crate::scan::attrs_model(attrs@).skip(i as int).drop_first()
                =~= crate::scan::attrs_model(attrs@).skip(i + 1));
        }
        if ieq_vec(&attrs[i].0, key) {
            let n = attrs[i].1.len();
            let out = sub_vec(&attrs[i].1, 0, n);
            proof {
                assert(out@ =~= attrs@[i as int].1@);
            }
            return out;
        }
        i += 1;
    }
    proof {
        assert(crate::scan::attrs_model(attrs@).skip(i as int).len() == 0);
    }
    Vec::new()
}

/// The list items parsed from position `i` of a list element's inner
/// markup: each `<li>` element's content, with wrapper `<p>` tags
/// stripped, parsed into runs.
pub open spec fn spec_parse_list_items(cs: Seq<char>, i: int) -> Seq<Seq<InlineModel>>
    decreases cs.len() - i when 0 <= i <= cs.len() via spec_parse_list_items_dec
{
    if i >= cs.len() {
        Seq::empty()
    } else if cs[i] == '<' && spec_read_opening_tag(cs, i) is Some && ieq_seq(
        spec_read_opening_tag(cs, i)->Some_0.name,
        seq!['l', 'i'],
    ) {
        let t = spec_read_opening_tag(cs, i)->Some_0;
        let r = spec_read_until_closing(cs, t.end, t.name);
        let stripped = spec_strip_tags(r.0, seq!['p']);
        seq![spec_parse_inline(stripped)] + spec_parse_list_items(cs, r.1)
    } else {
        spec_parse_list_items(cs, i + 1)
    }
}

#[via_fn]
proof fn spec_parse_list_items_dec(cs: Seq<char>, i: int) {
    if 0 <= i < cs.len() && cs[i] == '<' && spec_read_opening_tag(cs, i) is Some {
        lemma_read_opening_tag_bounds(cs, i);
        let t = spec_read_opening_tag(cs, i)->Some_0;
        lemma_rutc_bounds(cs, t.end, t.name, t.end, 1);
    }
}

/// Exec computation of [`spec_parse_list_items`].
pub fn parse_list_items(cs: &Vec<char>) -> (r: Vec<Vec<InlineNode>>)
    ensures
        items_model(r@) == spec_parse_list_items(cs@, 0),
{
    let mut items: Vec<Vec<InlineNode>> = Vec::new();
    let mut i: usize = 0;
    while i < cs.len()
        invariant
            0 <= i <= cs@.len(),
            spec_parse_list_items(cs@, 0) =~= items_model(items@) + spec_parse_list_items(
                cs@,
                i as int,
            ),
        decreases cs@.len() - i,
    {
        let mut stepped = false;
        if cs[i] == '<' {
            match read_opening_tag(cs, i) {
                Some(t) => {
                    if ieq_vec(&t.name, &['l', 'i']) {
                        let (inner, end) = read_until_closing(cs, t.end, t.name.as_slice());
                        let ghost inner0 = inner@;
                        let pat: &[char] = &['p'];
                        let stripped = strip_tags_simple(inner, pat);
                        let runs = parse_inline_chars(&stripped);
                        proof {
                            let st = spec_read_opening_tag(cs@, i as int)->Some_0;
                            assert(st.name == t.name@);
                            assert(st.end == t.end as int);
                            let sr = spec_read_until_closing(cs@, st.end, st.name);
                            assert(sr.0 == inner0);
                            assert(sr.1 == end as int);
                            assert(pat@ =~= seq!['p']);
                            assert(stripped@ == spec_strip_tags(inner0, seq!['p']));
                            assert(ieq_seq(st.name, seq!['l', 'i']));
                            assert(spec_parse_list_items(cs@, i as int) == seq![
                                spec_parse_inline(stripped@),
                            ] + spec_parse_list_items(cs@, end as int));
                            assert(items_model(items@.push(runs)) =~= items_model(items@).push(
                                inlines_model(runs@),
                            ));
                            assert(items_model(items@).push(inlines_model(runs@))
                                + spec_parse_list_items(cs@, end as int) =~= items_model(items@)
                                + (seq![inlines_model(runs@)] + spec_parse_list_items(
                                cs@,
                                end as int,
                            )));
                        }
                        items.push(runs);
                        i = end;
                        stepped = true;
                    }
                },
                None => {},
            }
        }
        if !stepped {
            proof {
                assert(spec_parse_list_items(cs@, i as int) == spec_parse_list_items(
                    cs@,
                    i + 1int,
                ));
            }
            i += 1;
        }
    }
    proof {
        assert(items_model(items@) + spec_parse_list_items(cs@, i as int) =~= items_model(items@));
    }
    items
}

/// The table cells parsed from position `i` of a row element's inner
/// markup: each `<td>` or `<th>` element's content, with wrapper `<p>`
/// tags stripped, parsed into runs.
pub open spec fn spec_parse_table_row(cs: Seq<char>, i: int) -> Seq<Seq<InlineModel>>
    decreases cs.len() - i when 0 <= i <= cs.len() via spec_parse_table_row_dec
{
    if i >= cs.len() {
        Seq::empty()
    } else if cs[i] == '<' && spec_read_opening_tag(cs, i) is Some && (ieq_seq(
        spec_read_opening_tag(cs, i)->Some_0.name,
        seq!['t', 'd'],
    ) || ieq_seq(spec_read_opening_tag(cs, i)->Some_0.name, seq!['t', 'h'])) {
        let t = spec_read_opening_tag(cs, i)->Some_0;
        let r = spec_read_until_closing(cs, t.end, t.name);
        let stripped = spec_strip_tags(r.0, seq!['p']);
        seq![spec_parse_inline(stripped)] + spec_parse_table_row(cs, r.1)
    } else {
        spec_parse_table_row(cs, i + 1)
    }
}

#[via_fn]
proof fn spec_parse_table_row_dec(cs: Seq<char>, i: int) {
    if 0 <= i < cs.len() && cs[i] == '<' && spec_read_opening_tag(cs, i) is Some {
        lemma_read_opening_tag_bounds(cs, i);
        let t = spec_read_opening_tag(cs, i)->Some_0;
        lemma_rutc_bounds(cs, t.end, t.name, t.end, 1);
    }
}

/// Exec computation of [`spec_parse_table_row`].
pub fn parse_table_row(cs: &Vec<char>) -> (r: Vec<Vec<InlineNode>>)
    ensures
        items_model(r@) == spec_parse_table_row(cs@, 0),
{
    let mut cells: Vec<Vec<InlineNode>> = Vec::new();
    let mut i: usize = 0;
    while i < cs.len()
        invariant
            0 <= i <= cs@.len(),
            spec_parse_table_row(cs@, 0) =~= items_model(cells@) + spec_parse_table_row(
                cs@,
                i as int,
            ),
        decreases cs@.len() - i,
    {
        let mut stepped = false;
        if cs[i] == '<' {
            match read_opening_tag(cs, i) {
                Some(t) => {
                    if ieq_vec(&t.name, &['t', 'd']) || ieq_vec(&t.name, &['t', 'h']) {
                        let (inner, end) = read_until_closing(cs, t.end, t.name.as_slice());
                        let ghost inner0 = inner@;
                        let pat: &[char] = &['p'];
                        let stripped = strip_tags_simple(inner, pat);
                        let runs = parse_inline_chars(&stripped);
                        proof {
                            let st = spec_read_opening_tag(cs@, i as int)->Some_0;
                            let sr = spec_read_until_closing(cs@, st.end, st.name);
                            assert(sr.0 == inner0);
                            assert(pat@ =~= seq!['p']);
                            assert(stripped@ == spec_strip_tags(inner0, seq!['p']));
                            assert(spec_parse_table_row(cs@, i as int) == seq![
                                spec_parse_inline(stripped@),
                            ] + spec_parse_table_row(cs@, end as int));
                            assert(items_model(cells@.push(runs)) =~= items_model(cells@).push(
                                inlines_model(runs@),
                            ));
                            assert(items_model(cells@).push(inlines_model(runs@))
                                + spec_parse_table_row(cs@, end as int) =~= items_model(cells@)
                                + (seq![inlines_model(runs@)] + spec_parse_table_row(
                                cs@,
                                end as int,
                            )));
                        }
                        cells.push(runs);
                        i = end;
                        stepped = true;
                    }
                },
                None => {},
            }
        }
        if !stepped {
            proof {
                assert(spec_parse_table_row(cs@, i as int) == spec_parse_table_row(
                    cs@,
                    i + 1int,
                ));
            }
            i += 1;
        }
    }
    proof {
        assert(items_model(cells@) + spec_parse_table_row(cs@, i as int) =~= items_model(cells@));
    }
    cells
}

/// The table rows parsed from position `i`: each `<tr>` element becomes
/// one row of cells.
pub open spec fn spec_parse_table_rows(cs: Seq<char>, i: int) -> Seq<Seq<Seq<InlineModel>>>
    decreases cs.len() - i when 0 <= i <= cs.len() via spec_parse_table_rows_dec
{
    if i >= cs.len() {
        Seq::empty()
    } else if cs[i] == '<' && spec_read_opening_tag(cs, i) is Some && ieq_seq(
        spec_read_opening_tag(cs, i)->Some_0.name,
        seq!['t', 'r'],
    ) {
        let t = spec_read_opening_tag(cs, i)->Some_0;
        let r = spec_read_until_closing(cs, t.end, t.name);
        seq![spec_parse_table_row(r.0, 0)] + spec_parse_table_rows(cs, r.1)
    } else {
        spec_parse_table_rows(cs, i + 1)
    }
}

#[via_fn]
proof fn spec_parse_table_rows_dec(cs: Seq<char>, i: int) {
    if 0 <= i < cs.len() && cs[i] == '<' && spec_read_opening_tag(cs, i) is Some {
        lemma_read_opening_tag_bounds(cs, i);
        let t = spec_read_opening_tag(cs, i)->Some_0;
        lemma_rutc_bounds(cs, t.end, t.name, t.end, 1);
    }
}

/// The table block parsed from a table element's inner markup: the
/// `thead`, `tbody` and `tfoot` wrappers are stripped, then each `<tr>`
/// yields one row.
pub open spec fn spec_parse_table(cs: Seq<char>) -> BlockModel {
    let s1 = spec_strip_tags(cs, seq!['t', 'h', 'e', 'a', 'd']);
    let s2 = spec_strip_tags(s1, seq!['t', 'b', 'o', 'd', 'y']);
    let s3 = spec_strip_tags(s2, seq!['t', 'f', 'o', 'o', 't']);
    BlockModel::Table { rows: spec_parse_table_rows(s3, 0) }
}

/// Exec computation of [`spec_parse_table`].
pub fn parse_table(cs: Vec<char>) -> (r: HtmlNode)
    ensures
        r.model() == spec_parse_table(cs@),
{
    let ghost cs0 = cs@;
    let s1 = strip_tags_simple(cs, &['t', 'h', 'e', 'a', 'd']);
    let s2 = strip_tags_simple(s1, &['t', 'b', 'o', 'd', 'y']);
    let s3 = strip_tags_simple(s2, &['t', 'f', 'o', 'o', 't']);
    let mut rows: Vec<Vec<Vec<InlineNode>>> = Vec::new();
    let mut i: usize = 0;
    while i < s3.len()
        invariant
            0 <= i <= s3@.len(),
            spec_parse_table_rows(s3@, 0) =~= rows_model(rows@) + spec_parse_table_rows(
                s3@,
                i as int,
            ),
        decreases s3@.len() - i,
    {
        let mut stepped = false;
        if s3[i] == '<' {
            match read_opening_tag(&s3, i) {
                Some(t) => {
                    if ieq_vec(&t.name, &['t', 'r']) {
                        let (inner, end) = read_until_closing(&s3, t.end, t.name.as_slice());
                        let cells = parse_table_row(&inner);
                        proof {
                            assert(rows_model(rows@.push(cells)) =~= rows_model(rows@).push(
                                items_model(cells@),
                            ));
                            assert(rows_model(rows@).push(items_model(cells@))
                                + spec_parse_table_rows(s3@, end as int) =~= rows_model(rows@)
                                + (seq![items_model(cells@)] + spec_parse_table_rows(
                                s3@,
                                end as int,
                            )));
                        }
                        rows.push(cells);
                        i = end;
                        stepped = true;
                    }
                },
                None => {},
            }
        }
        if !stepped {
            proof {
                assert(spec_parse_table_rows(s3@, i as int) == spec_parse_table_rows(
                    s3@,
                    i + 1int,
                ));
            }
            i += 1;
        }
    }
    proof {
        assert(rows_model(rows@) + spec_parse_table_rows(s3@, i as int) =~= rows_model(rows@));
    }
    HtmlNode::Table { rows }
}

/// The heading level a tag name stands for, `h1` through `h6`.
pub open spec fn heading_level(name: Seq<char>) -> Option<u8> {
    if ieq_seq(name, seq!['h', '1']) {
        Some(1u8)
    } else if ieq_seq(name, seq!['h', '2']) {
        Some(2u8)
    } else if ieq_seq(name, seq!['h', '3']) {
        Some(3u8)
    } else if ieq_seq(name, seq!['h', '4']) {
        Some(4u8)
    } else if ieq_seq(name, seq!['h', '5']) {
        Some(5u8)
    } else if ieq_seq(name, seq!['h', '6']) {
        Some(6u8)
    } else {
        None
    }
}

/// Exec computation of [`heading_level`].
pub fn heading_level_exec(name: &Vec<char>) -> (r: Option<u8>)
    ensures
        r == heading_level(name@),
{
    if ieq_vec(name, &['h', '1']) {
        Some(1u8)
    } else if ieq_vec(name, &['h', '2']) {
        Some(2u8)
    } else if ieq_vec(name, &['h', '3']) {
        Some(3u8)
    } else if ieq_vec(name, &['h', '4']) {
        Some(4u8)
    } else if ieq_vec(name, &['h', '5']) {
        Some(5u8)
    } else if ieq_vec(name, &['h', '6']) {
        Some(6u8)
    } else {
        None
    }
}

/// A transparent wrapper tag: its children are spliced in place.
pub open spec fn is_wrapper_name(name: Seq<char>) -> bool {
    ||| ieq_seq(name, seq!['d', 'i', 'v'])
    ||| ieq_seq(name, seq!['s', 'e', 'c', 't', 'i', 'o', 'n'])
    ||| ieq_seq(name, seq!['a', 'r', 't', 'i', 'c', 'l', 'e'])
    ||| ieq_seq(name, seq!['m', 'a', 'i', 'n'])
    ||| ieq_seq(name, seq!['h', 'e', 'a', 'd', 'e', 'r'])
    ||| ieq_seq(name, seq!['f', 'o', 'o', 't', 'e', 'r'])
}

/// Exec computation of [`is_wrapper_name`].
pub fn is_wrapper_name_exec(name: &Vec<char>) -> (r: bool)
    ensures
        r == is_wrapper_name(name@),
{
    ieq_vec(name, &['d', 'i', 'v']) || ieq_vec(name, &['s', 'e', 'c', 't', 'i', 'o', 'n'])
        || ieq_vec(name, &['a', 'r', 't', 'i', 'c', 'l', 'e']) || ieq_vec(name, &['m', 'a', 'i', 'n'])
        || ieq_vec(name, &['h', 'e', 'a', 'd', 'e', 'r']) || ieq_vec(
        name,
        &['f', 'o', 'o', 't', 'e', 'r'],
    )
}

/// The blocks parsed from position `i` of the (trimmed) markup.  Mirrors
/// the tolerant top-level scan: blanks between blocks are skipped, each
/// recognised block element is consumed through its closing tag, wrapper
/// tags are parsed recursively and spliced, unknown tags are skipped, and
/// plain text becomes a synthetic paragraph.
pub open spec fn spec_parse_blocks(cs: Seq<char>, i: int) -> Seq<BlockModel>
    decreases cs.len() - i, 0int when 0 <= i <= cs.len() via spec_parse_blocks_dec
{
    let p = skip_ws(cs, i);
    if p >= cs.len() {
        Seq::empty()
    } else if cs[p] == '<' {
        match spec_read_opening_tag(cs, p) {
            None => spec_parse_blocks(cs, p + 1),
            Some(t) => {
                let r = spec_read_until_closing(cs, t.end, t.name);
                match heading_level(t.name) {
                    Some(lv) => seq![
                        BlockModel::Heading { level: lv, children: spec_parse_inline(r.0) },
                    ] + spec_parse_blocks(cs, r.1),
                    None => {
                        if ieq_seq(t.name, seq!['p']) {
                            seq![
                                BlockModel::Paragraph { children: spec_parse_inline(r.0) },
                            ] + spec_parse_blocks(cs, r.1)
                        } else if ieq_seq(t.name, seq!['u', 'l']) {
                            seq![
                                BlockModel::UnorderedList {
                                    items: spec_parse_list_items(r.0, 0),
                                },
                            ] + spec_parse_blocks(cs, r.1)
                        } else if ieq_seq(t.name, seq!['o', 'l']) {
                            seq![
                                BlockModel::OrderedList { items: spec_parse_list_items(r.0, 0) },
                            ] + spec_parse_blocks(cs, r.1)
                        } else if ieq_seq(t.name, seq!['b', 'l', 'o', 'c', 'k', 'q', 'u', 'o', 't', 'e']) {
                            seq![
                                BlockModel::Blockquote {
                                    children: spec_parse_inline(
                                        spec_strip_tags(r.0, seq!['p']),
                                    ),
                                },
                            ] + spec_parse_blocks(cs, r.1)
                        } else if ieq_seq(t.name, seq!['p', 'r', 'e']) {
                            seq![
                                BlockModel::CodeBlock {
                                    text: spec_decode(
                                        spec_strip_tags(r.0, seq!['c', 'o', 'd', 'e']),
                                    ),
                                },
                            ] + spec_parse_blocks(cs, r.1)
                        } else if ieq_seq(t.name, seq!['h', 'r']) {
                            seq![BlockModel::HorizontalRule] + spec_parse_blocks(cs, t.end)
                        } else if ieq_seq(t.name, seq!['t', 'a', 'b', 'l', 'e']) {
                            seq![spec_parse_table(r.0)] + spec_parse_blocks(cs, r.1)
                        } else if ieq_seq(t.name, seq!['i', 'm', 'g']) {
                            seq![
                                BlockModel::Image {
                                    src: attr_value(t.attrs, seq!['s', 'r', 'c']),
                                    alt: attr_value(t.attrs, seq!['a', 'l', 't']),
                                },
                            ] + spec_parse_blocks(cs, t.end)
                        } else if is_wrapper_name(t.name) {
                            spec_parse_html(r.0) + spec_parse_blocks(cs, r.1)
                        } else if ieq_seq(t.name, seq!['b', 'r']) {
                            spec_parse_blocks(cs, t.end)
                        } else {
                            spec_parse_blocks(cs, r.1)
                        }
                    },
                }
            },
        }
    } else {
        let j = scan_to(cs, p, '<');
        let tv = spec_trim(cs.subrange(p, j));
        if tv.len() > 0 {
            seq![
                BlockModel::Paragraph {
                    children: seq![
                        InlineModel {
                            text: spec_decode(tv),
                            bold: false,
                            italic: false,
                            underline: false,
                            code: false,
                        },
                    ],
                },
            ] + spec_parse_blocks(cs, j)
        } else {
            spec_parse_blocks(cs, j)
        }
    }
}

#[via_fn]
proof fn spec_parse_blocks_dec(cs: Seq<char>, i: int) {
    lemma_skip_ws_bounds(cs, i);
    let p = skip_ws(cs, i);
    if p < cs.len() {
        if cs[p] == '<' {
            if spec_read_opening_tag(cs, p) is Some {
                lemma_read_opening_tag_bounds(cs, p);
                let t = spec_read_opening_tag(cs, p)->Some_0;
                lemma_rutc_bounds(cs, t.end, t.name, t.end, 1);
            }
        } else {
            lemma_scan_to_bounds(cs, p + 1, '<');
            assert(scan_to(cs, p, '<') == scan_to(cs, p + 1, '<'));
        }
    }
}

/// The blocks parsed from a whole markup string: the input is trimmed and
/// scanned from its start.
pub open spec fn spec_parse_html(cs: Seq<char>) -> Seq<BlockModel>
    decreases cs.len(), 1int via spec_parse_html_dec
{
    spec_parse_blocks(spec_trim(cs), 0)
}

#[via_fn]
proof fn spec_parse_html_dec(cs: Seq<char>) {
    lemma_trim_len(cs);
}

proof fn lemma_model_push(acc: Seq<HtmlNode>, n: HtmlNode, rest: Seq<BlockModel>)
    ensures
        blocks_model(acc.push(n)) + rest =~= blocks_model(acc) + (seq![n.model()] + rest),
{
    assert(blocks_model(acc.push(n)) =~= blocks_model(acc).push(n.model()));
    assert(blocks_model(acc).push(n.model()) + rest =~= blocks_model(acc) + (seq![n.model()]
        + rest));
}

proof fn lemma_model_append(acc: Seq<HtmlNode>, more: Seq<HtmlNode>, rest: Seq<BlockModel>)
    ensures
        blocks_model(acc + more) + rest =~= blocks_model(acc) + (blocks_model(more) + rest),
{
    assert(blocks_model(acc + more) =~= blocks_model(acc) + blocks_model(more));
    assert((blocks_model(acc) + blocks_model(more)) + rest =~= blocks_model(acc) + (blocks_model(
        more,
    ) + rest));
}

/// Parses a whole markup string, given as characters, into block nodes:
/// exec computation of [`spec_parse_html`].
pub fn parse_html_chars(cs: &Vec<char>) -> (r: Vec<HtmlNode>)
    ensures
        blocks_model(r@) == spec_parse_html(cs@),
    decreases cs@.len(),
{
    let tr = trim_chars(cs);
    proof {
        lemma_trim_len(cs@);
    }
    let mut nodes: Vec<HtmlNode> = Vec::new();
    let mut cur: usize = 0;
    loop
        invariant
            0 <= cur <= tr@.len(),
            tr@ == spec_trim(cs@),
            tr@.len() <= cs@.len(),
            spec_parse_blocks(tr@, 0) =~= blocks_model(nodes@) + spec_parse_blocks(
                tr@,
                cur as int,
            ),
        ensures
            blocks_model(nodes@) =~= spec_parse_blocks(tr@, 0),
            tr@ == spec_trim(cs@),
        decreases tr@.len() - cur,
    {
        let p = skip_ws_exec(&tr, cur);
        if p >= tr.len() {
            proof {
                assert(spec_parse_blocks(tr@, cur as int) =~= Seq::<BlockModel>::empty());
                assert(blocks_model(nodes@) + spec_parse_blocks(tr@, cur as int) =~= blocks_model(
                    nodes@,
                ));
            }
            break;
        }
        if tr[p] == '<' {
            match read_opening_tag(&tr, p) {
                None => {
                    proof {
                        assert(spec_parse_blocks(tr@, cur as int) == spec_parse_blocks(
                            tr@,
                            p + 1int,
                        ));
                    }
                    cur = p + 1;
                },
                Some(t) => {
                    match heading_level_exec(&t.name) {
                        Some(lv) => {
                            let (inner, end) = read_until_closing(&tr, t.end, t.name.as_slice());
                            let children = parse_inline_chars(&inner);
                            let node = HtmlNode::Heading { level: lv, children };
                            let ghost rest = spec_parse_blocks(tr@, end as int);
                            proof {
                                assert(spec_parse_blocks(tr@, cur as int) == seq![node.model()]
                                    + rest);
                                lemma_model_push(nodes@, node, rest);
                            }
                            nodes.push(node);
                            cur = end;
                        },
                        None => {
                            if ieq_vec(&t.name, &['p']) {
                                let (inner, end) = read_until_closing(&tr, t.end, t.name.as_slice());
                                let children = parse_inline_chars(&inner);
                                let node = HtmlNode::Paragraph { children };
                                let ghost rest = spec_parse_blocks(tr@, end as int);
                                proof {
                                    assert(spec_parse_blocks(tr@, cur as int) == seq![node.model()]
                                        + rest);
                                    lemma_model_push(nodes@, node, rest);
                                }
                                nodes.push(node);
                                cur = end;
                            } else if ieq_vec(&t.name, &['u', 'l']) {
                                let (inner, end) = read_until_closing(&tr, t.end, t.name.as_slice());
                                let items = parse_list_items(&inner);
                                let node = HtmlNode::UnorderedList { items };
                                let ghost rest = spec_parse_blocks(tr@, end as int);
                                proof {
                                    assert(spec_parse_blocks(tr@, cur as int) == seq![node.model()]
                                        + rest);
                                    lemma_model_push(nodes@, node, rest);
                                }
                                nodes.push(node);
                                cur = end;
                            } else if ieq_vec(&t.name, &['o', 'l']) {
                                let (inner, end) = read_until_closing(&tr, t.end, t.name.as_slice());
                                let items = parse_list_items(&inner);
                                let node = HtmlNode::OrderedList { items };
                                let ghost rest = spec_parse_blocks(tr@, end as int);
                                proof {
                                    assert(spec_parse_blocks(tr@, cur as int) == seq![node.model()]
                                        + rest);
                                    lemma_model_push(nodes@, node, rest);
                                }
                                nodes.push(node);
                                cur = end;
                            } else if ieq_vec(
                                &t.name,
                                &['b', 'l', 'o', 'c', 'k', 'q', 'u', 'o', 't', 'e'],
                            ) {
                                let (inner, end) = read_until_closing(&tr, t.end, t.name.as_slice());
                                let ghost inner0 = inner@;
                                let pat: &[char] = &['p'];
                                let stripped = strip_tags_simple(inner, pat);
                                let children = parse_inline_chars(&stripped);
                                let node = HtmlNode::Blockquote { children };
                                let ghost rest = spec_parse_blocks(tr@, end as int);
                                proof {
                                    assert(pat@ =~= seq!['p']);
                                    assert(stripped@ == spec_strip_tags(inner0, seq!['p']));
                                    assert(spec_parse_blocks(tr@, cur as int) == seq![node.model()]
                                        + rest);
                                    lemma_model_push(nodes@, node, rest);
                                }
                                nodes.push(node);
                                cur = end;
                            } else if ieq_vec(&t.name, &['p', 'r', 'e']) {
                                let (inner, end) = read_until_closing(&tr, t.end, t.name.as_slice());
                                let ghost inner0 = inner@;
                                let pat: &[char] = &['c', 'o', 'd', 'e'];
                                let stripped = strip_tags_simple(inner, pat);
                                let text = decode_entities(&stripped);
                                let node = HtmlNode::CodeBlock { text };
                                let ghost rest = spec_parse_blocks(tr@, end as int);
                                proof {
                                    assert(pat@ =~= seq!['c', 'o', 'd', 'e']);
                                    assert(stripped@ == spec_strip_tags(
                                        inner0,
                                        seq!['c', 'o', 'd', 'e'],
                                    ));
                                    assert(spec_parse_blocks(tr@, cur as int) == seq![node.model()]
                                        + rest);
                                    lemma_model_push(nodes@, node, rest);
                                }
                                nodes.push(node);
                                cur = end;
                            } else if ieq_vec(&t.name, &['h', 'r']) {
                                let node = HtmlNode::HorizontalRule;
                                let ghost rest = spec_parse_blocks(tr@, t.end as int);
                                proof {
                                    assert(spec_parse_blocks(tr@, cur as int) == seq![node.model()]
                                        + rest);
                                    lemma_model_push(nodes@, node, rest);
                                }
                                let end = t.end;
                                nodes.push(node);
                                cur = end;
                            } else if ieq_vec(&t.name, &['t', 'a', 'b', 'l', 'e']) {
                                let (inner, end) = read_until_closing(&tr, t.end, t.name.as_slice());
                                let ghost inner0 = inner@;
                                let node = parse_table(inner);
                                let ghost rest = spec_parse_blocks(tr@, end as int);
                                proof {
                                    assert(node.model() == spec_parse_table(inner0));
                                    assert(spec_parse_blocks(tr@, cur as int) == seq![node.model()]
                                        + rest);
                                    lemma_model_push(nodes@, node, rest);
                                }
                                nodes.push(node);
                                cur = end;
                            } else if ieq_vec(&t.name, &['i', 'm', 'g']) {
                                let skey: &[char] = &['s', 'r', 'c'];
                                let akey: &[char] = &['a', 'l', 't'];
                                let src_cs = attr_value_exec(&t.attrs, skey);
                                let alt_cs = attr_value_exec(&t.attrs, akey);
                                let src = string_from(&src_cs);
                                let alt = string_from(&alt_cs);
                                let node = HtmlNode::Image { src, alt };
                                let ghost rest = spec_parse_blocks(tr@, t.end as int);
                                proof {
                                    assert(skey@ =~= seq!['s', 'r', 'c']);
                                    assert(akey@ =~= seq!['a', 'l', 't']);
                                    assert(spec_parse_blocks(tr@, cur as int) == seq![node.model()]
                                        + rest);
                                    lemma_model_push(nodes@, node, rest);
                                }
                                let end = t.end;
                                nodes.push(node);
                                cur = end;
                            } else if is_wrapper_name_exec(&t.name) {
                                let (inner, end) = read_until_closing(&tr, t.end, t.name.as_slice());
                                let ghost inner0 = inner@;
                                let mut sub = parse_html_chars(&inner);
                                let ghost sub0 = sub@;
                                let ghost rest = spec_parse_blocks(tr@, end as int);
                                proof {
                                    assert(spec_parse_blocks(tr@, cur as int) == spec_parse_html(
                                        inner0,
                                    ) + rest);
                                    lemma_model_append(nodes@, sub0, rest);
                                }
                                nodes.append(&mut sub);
                                cur = end;
                            } else if ieq_vec(&t.name, &['b', 'r']) {
                                proof {
                                    assert(spec_parse_blocks(tr@, cur as int) == spec_parse_blocks(
                                        tr@,
                                        t.end as int,
                                    ));
                                }
                                cur = t.end;
                            } else {
                                let (_inner, end) = read_until_closing(&tr, t.end, t.name.as_slice());
                                proof {
                                    assert(spec_parse_blocks(tr@, cur as int) == spec_parse_blocks(
                                        tr@,
                                        end as int,
                                    ));
                                }
                                cur = end;
                            }
                        },
                    }
                },
            }
        } else {
            let j = scan_to_exec(&tr, p, '<');
            proof {
                lemma_scan_to_bounds(tr@, p + 1, '<');
                assert(scan_to(tr@, p as int, '<') == scan_to(tr@, p + 1, '<'));
            }
            let raw = sub_vec(&tr, p, j);
            let tv = trim_chars(&raw);
            if tv.len() > 0 {
                let text = decode_entities(&tv);
                let mut children: Vec<InlineNode> = Vec::new();
                children.push(
                    InlineNode { text, bold: false, italic: false, underline: false, code: false },
                );
                let node = HtmlNode::Paragraph { children };
                let ghost rest = spec_parse_blocks(tr@, j as int);
                proof {
                    assert(inlines_model(node->Paragraph_children@) =~= seq![
                        InlineModel {
                            text: spec_decode(spec_trim(tr@.subrange(p as int, j as int))),
                            bold: false,
                            italic: false,
                            underline: false,
                            code: false,
                        },
                    ]);
                    assert(spec_parse_blocks(tr@, cur as int) == seq![node.model()] + rest);
                    lemma_model_push(nodes@, node, rest);
                }
                nodes.push(node);
                cur = j;
            } else {
                proof {
                    assert(spec_parse_blocks(tr@, cur as int) == spec_parse_blocks(tr@, j as int));
                }
                cur = j;
            }
        }
    }
    nodes
}

/// Parses a whole markup string into the document model's block nodes.
pub fn parse_html(html: &str) -> (r: Vec<HtmlNode>)
    ensures
        blocks_model(r@) == spec_parse_html(html@),
{
    let cs = chars_of(html);
    parse_html_chars(&cs)
}

/// Plain-text preservation at the block level: markup holding no tag at
/// all parses to a single synthetic paragraph whose one run carries the
/// entity-decoded, trimmed input.  Together with the inline parser's
/// text-preservation law this recovers the plain text of tag-free
/// markup exactly.
pub proof fn lemma_plain_markup_is_one_paragraph(cs: Seq<char>)
    requires
        forall|k: int| 0 <= k < cs.len() ==> cs[k] != '<',
        spec_trim(cs).len() > 0,
    ensures
        spec_parse_html(cs) == seq![
            BlockModel::Paragraph {
                children: seq![
                    InlineModel {
                        text: spec_decode(spec_trim(cs)),
                        bold: false,
                        italic: false,
                        underline: false,
                        code: false,
                    },
                ],
            },
        ],
{
    let tr = spec_trim(cs);
    crate::text::lemma_skip_ws_bounds(cs, 0);
    crate::text::lemma_rskip_ws_bounds(cs, crate::text::skip_ws(cs, 0), cs.len() as int);
    crate::text::lemma_skip_ws_stops(cs, 0);
    crate::text::lemma_rskip_ws_stops(cs, crate::text::skip_ws(cs, 0), cs.len() as int);
    let a = crate::text::skip_ws(cs, 0);
    let b = crate::text::rskip_ws(cs, a, cs.len() as int);
    assert(tr == cs.subrange(a, b));
    assert(forall|k: int| 0 <= k < tr.len() ==> tr[k] != '<');
    assert(!crate::text::is_space_char(tr[0]));
    assert(!crate::text::is_space_char(tr[tr.len() - 1]));
    assert(skip_ws(tr, 0) == 0);
    crate::scan::lemma_scan_to_misses(tr, 0, '<');
    let j = scan_to(tr, 0, '<');
    assert(j == tr.len());
    assert(tr.subrange(0, j) =~= tr);
    assert(skip_ws(tr, 0int) == 0);
    assert(crate::text::rskip_ws(tr, 0int, tr.len() as int) == tr.len());
    assert(spec_trim(tr) =~= tr);
    assert(skip_ws(tr, j) == j);
    assert(spec_parse_blocks(tr, j) =~= Seq::<BlockModel>::empty());
    assert(spec_parse_blocks(tr, 0) =~= seq![
        BlockModel::Paragraph {
            children: seq![
                InlineModel {
                    text: spec_decode(tr),
                    bold: false,
                    italic: false,
                    underline: false,
                    code: false,
                },
            ],
        },
    ]);
}

/// Round trip of one paragraph element: `<p>` around tag-free content
/// parses to exactly one paragraph block holding the content's runs, so
/// its plain text is recovered by the inline text-preservation law.
pub proof fn lemma_paragraph_round_trip(t: Seq<char>)
    requires
        forall|k: int| 0 <= k < t.len() ==> t[k] != '<',
    ensures
        spec_parse_html(seq!['<', 'p', '>'] + t + seq!['<', '/', 'p', '>']) == seq![
            BlockModel::Paragraph { children: spec_parse_inline(t) },
        ],
{
    let pre = seq!['<', 'p', '>'];
    let post = seq!['<', '/', 'p', '>'];
    let cs = pre + t + post;
    let n = t.len() as int;
    assert(cs.len() == n + 7);
    assert(cs[0] == '<');
    assert(cs[1] == 'p');
    assert(cs[2] == '>');
    assert(forall|k: int| 0 <= k < n ==> cs[3 + k] == t[k]);
    assert(cs[n + 3] == '<');
    assert(cs[n + 4] == '/');
    assert(cs[n + 5] == 'p');
    assert(cs[n + 6] == '>');

    // The input carries no leading or trailing blanks.
    assert(skip_ws(cs, 0) == 0);
    assert(crate::text::rskip_ws(cs, 0int, cs.len() as int) == cs.len());
    assert(spec_trim(cs) =~= cs);

    // The opening tag scans as `p` ending at position 3.
    assert(skip_ws(cs, 1) == 1);
    assert(crate::scan::scan_name_end(cs, 2) == 2);
    assert(crate::scan::scan_name_end(cs, 1) == 2);
    let name = cs.subrange(1, 2);
    assert(name =~= seq!['p']);
    assert(crate::text::sp_lower(name) =~= seq!['p']);
    assert(skip_ws(cs, 2) == 2);
    assert(crate::scan::spec_read_attrs(cs, 2) == (Seq::<(Seq<char>, Seq<char>)>::empty(), 3int));
    assert(spec_read_opening_tag(cs, 0) == Some(
        crate::scan::TagModel { name: seq!['p'], end: 3, attrs: Seq::empty() },
    ));

    // The closing tag is found just past the content.
    assert(crate::scan::is_close_at(cs, n + 3, seq!['p'])) by {
        assert(crate::text::imatch_at(cs, n + 5, seq!['p'])) by {
            assert(cs.subrange(n + 5, n + 6) =~= seq!['p']);
        }
    }
    crate::scan::lemma_rutc_skips_text(cs, 3, seq!['p'], 3, n + 3, 1);
    assert(crate::scan::rutc_from(cs, 3, seq!['p'], n + 3, 1) == (
        cs.subrange(3, n + 3),
        n + 7,
    ));
    assert(cs.subrange(3, n + 3) =~= t);
    assert(spec_read_until_closing(cs, 3, seq!['p']) == (t, n + 7));

    // Dispatch: not a heading, a paragraph.
    assert(heading_level(seq!['p']) is None);
    assert(ieq_seq(seq!['p'], seq!['p']));
    assert(skip_ws(cs, n + 7) == n + 7);
    assert(spec_parse_blocks(cs, n + 7) =~= Seq::<BlockModel>::empty());
    assert(spec_parse_blocks(cs, 0) =~= seq![
        BlockModel::Paragraph { children: spec_parse_inline(t) },
    ]);
}

/// List-item text recovery: a list item whose inner markup holds no tag
/// parses, after the wrapper-paragraph strip, to runs whose plain text
/// is exactly the entity-decoded item text.
pub proof fn lemma_list_item_text(t: Seq<char>)
    requires
        forall|k: int| 0 <= k < t.len() ==> t[k] != '<',
    ensures
        crate::inline::inline_text(
            spec_parse_inline(spec_strip_tags(t, seq!['p'])),
        ) == spec_decode(t),
{
    crate::scan::lemma_strip_tags_plain(t, seq!['p']);
    crate::inline::lemma_plain_text_recovered(t);
}

/// The markup of a document of simple paragraphs: each text wrapped in
/// one paragraph element, the elements in order.
pub open spec fn sp_paras_markup(ts: Seq<Seq<char>>) -> Seq<char>
    decreases ts.len(),
{
    if ts.len() == 0 {
        Seq::empty()
    } else {
        seq!['<', 'p', '>'] + ts[0] + seq!['<', '/', 'p', '>'] + sp_paras_markup(ts.drop_first())
    }
}

proof fn lemma_paras_markup_last(ts: Seq<Seq<char>>)
    requires
        ts.len() > 0,
    ensures
        sp_paras_markup(ts).len() >= 7,
        sp_paras_markup(ts)[sp_paras_markup(ts).len() - 1] == '>',
    decreases ts.len(),
{
    if ts.drop_first().len() > 0 {
        lemma_paras_markup_last(ts.drop_first());
    } else {
        assert(sp_paras_markup(ts.drop_first()) =~= Seq::<char>::empty());
    }
}

proof fn lemma_paras_markup_parse(cs: Seq<char>, i: int, ts: Seq<Seq<char>>)
    requires
        0 <= i <= cs.len(),
        cs.skip(i) == sp_paras_markup(ts),
        forall|j: int, k: int|
            0 <= j < ts.len() && 0 <= k < ts[j].len() ==> #[trigger] ts[j][k] != '<',
    ensures
        spec_parse_blocks(cs, i) == Seq::new(
            ts.len(),
            |j: int| BlockModel::Paragraph { children: spec_parse_inline(ts[j]) },
        ),
    decreases ts.len(),
{
    let m = sp_paras_markup(ts);
    assert(cs.len() - i == m.len());
    assert forall|k: int| 0 <= k < m.len() implies cs[i + k] == m[k] by {
        assert(cs.skip(i)[k] == cs[i + k]);
    }
    if ts.len() == 0 {
        assert(i == cs.len());
        assert(skip_ws(cs, i) == i);
        assert(spec_parse_blocks(cs, i) =~= Seq::new(
            0,
            |j: int| BlockModel::Paragraph { children: spec_parse_inline(ts[j]) },
        ));
    } else {
        let t = ts[0];
        let n = t.len() as int;
        let rest = ts.drop_first();
        assert(m.len() == n + 7 + sp_paras_markup(rest).len());
        assert(m[0] == '<');
        assert(m[1] == 'p');
        assert(m[2] == '>');
        assert(forall|k: int| 0 <= k < n ==> m[3 + k] == t[k]);
        assert(m[n + 3] == '<');
        assert(m[n + 4] == '/');
        assert(m[n + 5] == 'p');
        assert(m[n + 6] == '>');
        assert(cs[i] == '<');
        assert(forall|k: int| 0 <= k < n ==> cs[i + 3 + k] == t[k]);

        // The opening tag scans as `p` ending just past its `>`.
        assert(skip_ws(cs, i) == i);
        assert(skip_ws(cs, i + 1) == i + 1);
        assert(crate::scan::scan_name_end(cs, i + 2) == i + 2);
        assert(crate::scan::scan_name_end(cs, i + 1) == i + 2);
        let name = cs.subrange(i + 1, i + 2);
        assert(name =~= seq!['p']);
        assert(crate::text::sp_lower(name) =~= seq!['p']);
        assert(skip_ws(cs, i + 2) == i + 2);
        assert(crate::scan::spec_read_attrs(cs, i + 2) == (
            Seq::<(Seq<char>, Seq<char>)>::empty(),
            i + 3,
        ));
        assert(spec_read_opening_tag(cs, i) == Some(
            crate::scan::TagModel { name: seq!['p'], end: i + 3, attrs: Seq::empty() },
        ));

        // The closing tag stands just past the tag-free content.
        assert(crate::scan::is_close_at(cs, i + n + 3, seq!['p'])) by {
            assert(crate::text::imatch_at(cs, i + n + 5, seq!['p'])) by {
                assert(cs.subrange(i + n + 5, i + n + 6) =~= seq!['p']);
            }
        }
        assert forall|k: int| i + 3 <= k < i + n + 3 implies cs[k] != '<' by {
            let k2 = k - (i + 3);
            assert(cs[i + 3 + k2] == t[k2]);
            assert(ts[0][k2] != '<');
        }
        crate::scan::lemma_rutc_skips_text(cs, i + 3, seq!['p'], i + 3, i + n + 3, 1);
        assert(crate::scan::rutc_from(cs, i + 3, seq!['p'], i + n + 3, 1) == (
            cs.subrange(i + 3, i + n + 3),
            i + n + 7,
        ));
        assert(cs.subrange(i + 3, i + n + 3) =~= t);
        assert(spec_read_until_closing(cs, i + 3, seq!['p']) == (t, i + n + 7));
        assert(heading_level(seq!['p']) is None);
        assert(ieq_seq(seq!['p'], seq!['p']));
        assert(spec_parse_blocks(cs, i) == seq![
            BlockModel::Paragraph { children: spec_parse_inline(t) },
        ] + spec_parse_blocks(cs, i + n + 7));

        // The remainder is the markup of the remaining paragraphs.
        assert(cs.skip(i + n + 7) =~= sp_paras_markup(rest)) by {
            assert(forall|k: int|
                0 <= k < sp_paras_markup(rest).len() ==> #[trigger] cs.skip(i + n + 7)[k] == cs[i
                    + n + 7 + k]);
            assert(forall|k: int|
                0 <= k < sp_paras_markup(rest).len() ==> m[n + 7 + k] == #[trigger] sp_paras_markup(
                    rest,
                )[k]);
        }
        assert(forall|j: int, k: int|
            0 <= j < rest.len() && 0 <= k < rest[j].len() ==> #[trigger] rest[j][k] != '<')
            by {
            assert(forall|j: int| 0 <= j < rest.len() ==> rest[j] == ts[j + 1]);
        }
        lemma_paras_markup_parse(cs, i + n + 7, rest);
        assert(spec_parse_blocks(cs, i) =~= Seq::new(
            ts.len(),
            |j: int| BlockModel::Paragraph { children: spec_parse_inline(ts[j]) },
        )) by {
            assert(forall|j: int| 0 <= j < rest.len() ==> rest[j] == ts[j + 1]);
        }
    }
}

/// Plain-text recovery for whole documents of simple paragraphs: markup
/// wrapping any number of tag-free texts in paragraph elements parses to
/// exactly one paragraph block per element, and each block's plain text
/// is the entity-decoded element text.
pub proof fn lemma_simple_document_recovery(ts: Seq<Seq<char>>)
    requires
        forall|j: int, k: int|
            0 <= j < ts.len() && 0 <= k < ts[j].len() ==> #[trigger] ts[j][k] != '<',
    ensures
        spec_parse_html(sp_paras_markup(ts)) == Seq::new(
            ts.len(),
            |j: int| BlockModel::Paragraph { children: spec_parse_inline(ts[j]) },
        ),
        forall|j: int|
            0 <= j < ts.len() ==> crate::inline::inline_text(
                #[trigger] spec_parse_inline(ts[j]),
            ) == crate::text::spec_decode(ts[j]),
{
    let m = sp_paras_markup(ts);
    if ts.len() == 0 {
        assert(m.len() == 0);
        assert(spec_trim(m) =~= m);
        assert(skip_ws(m, 0) == 0);
        assert(spec_parse_blocks(m, 0) =~= Seq::new(
            0,
            |j: int| BlockModel::Paragraph { children: spec_parse_inline(ts[j]) },
        ));
    } else {
        assert(m[0] == '<');
        lemma_paras_markup_last(ts);
        assert(skip_ws(m, 0) == 0);
        assert(crate::text::rskip_ws(m, 0int, m.len() as int) == m.len());
        assert(spec_trim(m) =~= m);
        assert(m.skip(0) =~= m);
        lemma_paras_markup_parse(m, 0, ts);
    }
    assert forall|j: int| 0 <= j < ts.len() implies crate::inline::inline_text(
        #[trigger] spec_parse_inline(ts[j]),
    ) == crate::text::spec_decode(ts[j]) by {
        crate::inline::lemma_plain_text_recovered(ts[j]);
    }
}

} // verus!
