//! The inline parser: a block's inner markup becomes an ordered sequence of
//! styled text runs.  Nested inline tags union the four style flags; the
//! fixed entity table is decoded in text segments; a lone `<br>` becomes a
//! newline run; unknown inline tags pass the flags through unchanged.

use vstd::prelude::*;
use crate::text::{spec_decode, decode_entities, ieq_seq, ieq_vec, chars_of};
use crate::scan::{
    spec_read_opening_tag, read_opening_tag, spec_read_until_closing, read_until_closing,
    lemma_read_opening_tag_bounds, lemma_rutc_bounds, scan_to, scan_to_exec, lemma_scan_to_bounds,
};

verus! {

/// One styled text run: the flags are independent and may combine.
pub struct InlineNode {
    pub text: String,
    pub bold: bool,
    pub italic: bool,
    pub underline: bool,
    pub code: bool,
}

/// Mathematical model of a styled text run.
pub ghost struct InlineModel {
    pub text: Seq<char>,
    pub bold: bool,
    pub italic: bool,
    pub underline: bool,
    pub code: bool,
}

impl InlineNode {
    /// The model this run stands for.
    pub open spec fn model(&self) -> InlineModel {
        InlineModel {
            text: self.text@,
            bold: self.bold,
            italic: self.italic,
            underline: self.underline,
            code: self.code,
        }
    }
}

/// The models of a sequence of runs, in order.
pub open spec fn inlines_model(ns: Seq<InlineNode>) -> Seq<InlineModel> {
    ns.map_values(|n: InlineNode| n.model())
}

/// The plain text carried by a sequence of runs, concatenated in order.
pub open spec fn inline_text(ns: Seq<InlineModel>) -> Seq<char>
    decreases ns.len(),
{
    if ns.len() == 0 {
        Seq::empty()
    } else {
        ns[0].text + inline_text(ns.drop_first())
    }
}

/// The runs parsed from position `i` of a block's inner markup under the
/// given style flags.  Mirrors the tolerant scan: a recognised inline tag
/// recurses into its content with a flag set; `span` and unknown tags
/// recurse transparently; `br` yields a newline run; an unmatched closing
/// tag is skipped to its `>`; a text segment is entity-decoded.
pub open spec fn spec_parse_inline_from(
    cs: Seq<char>,
    i: int,
    bold: bool,
    italic: bool,
    underline: bool,
    code: bool,
) -> Seq<InlineModel>
    decreases cs.len() - i when 0 <= i <= cs.len() via spec_parse_inline_from_dec
{
    if i >= cs.len() {
        Seq::empty()
    } else if cs[i] == '<' {
        match spec_read_opening_tag(cs, i) {
            Some(t) => {
                if ieq_seq(t.name, seq!['b', 'r']) {
                    seq![
                        InlineModel { text: seq!['\n'], bold, italic, underline, code },
                    ] + spec_parse_inline_from(cs, t.end, bold, italic, underline, code)
                } else {
                    let r = spec_read_until_closing(cs, t.end, t.name);
                    let nb = bold || ieq_seq(t.name, seq!['s', 't', 'r', 'o', 'n', 'g'])
                        || ieq_seq(t.name, seq!['b']);
                    let ni = italic || ieq_seq(t.name, seq!['e', 'm']) || ieq_seq(
                        t.name,
                        seq!['i'],
                    );
                    let nu = underline || ieq_seq(t.name, seq!['u']) || ieq_seq(
                        t.name,
                        seq!['a'],
                    );
                    let nc = code || ieq_seq(t.name, seq!['c', 'o', 'd', 'e']);
                    spec_parse_inline_from(r.0, 0, nb, ni, nu, nc) + spec_parse_inline_from(
                        cs,
                        r.1,
                        bold,
                        italic,
                        underline,
                        code,
                    )
                }
            },
            None => {
                let j = scan_to(cs, i, '>');
                let next = if j < cs.len() {
                    j + 1
                } else {
                    j
                };
                spec_parse_inline_from(cs, next, bold, italic, underline, code)
            },
        }
    } else {
        let j = scan_to(cs, i, '<');
        seq![
            InlineModel {
                text: spec_decode(cs.subrange(i, j)),
                bold,
                italic,
                underline,
                code,
            },
        ] + spec_parse_inline_from(cs, j, bold, italic, underline, code)
    }
}

#[via_fn]
proof fn spec_parse_inline_from_dec(
    cs: Seq<char>,
    i: int,
    bold: bool,
    italic: bool,
    underline: bool,
    code: bool,
) {
    if 0 <= i < cs.len() {
        if cs[i] == '<' {
            if spec_read_opening_tag(cs, i) is Some {
                lemma_read_opening_tag_bounds(cs, i);
                let t = spec_read_opening_tag(cs, i)->Some_0;
                lemma_rutc_bounds(cs, t.end, t.name, t.end, 1);
            } else {
                lemma_scan_to_bounds(cs, i, '>');
            }
        } else {
            lemma_scan_to_bounds(cs, i + 1, '<');
            assert(scan_to(cs, i, '<') == scan_to(cs, i + 1, '<'));
        }
    }
}

/// The runs of a whole inner fragment, all flags initially clear.
pub open spec fn spec_parse_inline(cs: Seq<char>) -> Seq<InlineModel> {
    spec_parse_inline_from(cs, 0, false, false, false, false)
}

/// Exec computation of [`spec_parse_inline_from`].
pub fn parse_inline_with_flags(
    cs: &Vec<char>,
    i: usize,
    bold: bool,
    italic: bool,
    underline: bool,
    code: bool,
) -> (r: Vec<InlineNode>)
    requires
        i <= cs@.len(),
    ensures
        inlines_model(r@) == spec_parse_inline_from(cs@, i as int, bold, italic, underline, code),
    decreases cs@.len() - i,
{
    if i >= cs.len() {
        let r: Vec<InlineNode> = Vec::new();
        proof {
            assert(inlines_model(r@) =~= spec_parse_inline_from(
                cs@,
                i as int,
                bold,
                italic,
                underline,
                code,
            ));
        }
        return r;
    }
    if cs[i] == '<' {
        match read_opening_tag(cs, i) {
            Some(t) => {
                if ieq_vec(&t.name, &['b', 'r']) {
                    let mut nl = String::new();
                    crate::text::push_char(&mut nl, '\n');
                    let node = InlineNode { text: nl, bold, italic, underline, code };
                    let mut out: Vec<InlineNode> = Vec::new();
                    out.push(node);
                    let mut rest = parse_inline_with_flags(cs, t.end, bold, italic, underline, code);
                    let ghost rest0 = rest@;
                    out.append(&mut rest);
                    proof {
                        assert(inlines_model(out@) =~= inlines_model(seq![
                            InlineNode { text: nl, bold, italic, underline, code },
                        ]) + inlines_model(rest0));
                        assert(inlines_model(seq![
                            InlineNode { text: nl, bold, italic, underline, code },
                        ]) =~= seq![
                            InlineModel { text: seq!['\n'], bold, italic, underline, code },
                        ]);
                    }
                    out
                } else {
                    let (inner, end) = read_until_closing(cs, t.end, t.name.as_slice());
                    let nb = bold || ieq_vec(&t.name, &['s', 't', 'r', 'o', 'n', 'g']) || ieq_vec(
                        &t.name,
                        &['b'],
                    );
                    let ni = italic || ieq_vec(&t.name, &['e', 'm']) || ieq_vec(&t.name, &['i']);
                    let nu = underline || ieq_vec(&t.name, &['u']) || ieq_vec(&t.name, &['a']);
                    let nc = code || ieq_vec(&t.name, &['c', 'o', 'd', 'e']);
                    let mut out = parse_inline_with_flags(&inner, 0, nb, ni, nu, nc);
                    let ghost out0 = out@;
                    let mut rest = parse_inline_with_flags(cs, end, bold, italic, underline, code);
                    let ghost rest0 = rest@;
                    out.append(&mut rest);
                    proof {
                        assert(inlines_model(out0 + rest0) =~= inlines_model(out0)
                            + inlines_model(rest0));
                    }
                    out
                }
            },
            None => {
                let j = scan_to_exec(cs, i, '>');
                let next = if j < cs.len() {
                    j + 1
                } else {
                    j
                };
                parse_inline_with_flags(cs, next, bold, italic, underline, code)
            },
        }
    } else {
        let j = scan_to_exec(cs, i, '<');
        proof {
            lemma_scan_to_bounds(cs@, i + 1, '<');
            assert(scan_to(cs@, i as int, '<') == scan_to(cs@, i + 1, '<'));
        }
        let raw = crate::text::sub_vec(cs, i, j);
        let decoded = decode_entities(&raw);
        let node = InlineNode { text: decoded, bold, italic, underline, code };
        let mut out: Vec<InlineNode> = Vec::new();
        out.push(node);
        let ghost head = out@;
        let mut rest = parse_inline_with_flags(cs, j, bold, italic, underline, code);
        let ghost rest0 = rest@;
        out.append(&mut rest);
        proof {
            assert(inlines_model(head + rest0) =~= inlines_model(head) + inlines_model(rest0));
            assert(inlines_model(head) =~= seq![
                InlineModel {
                    text: spec_decode(cs@.subrange(i as int, j as int)),
                    bold,
                    italic,
                    underline,
                    code,
                },
            ]);
        }
        out
    }
}

/// Parses a block's inner markup, given as characters, into styled runs.
pub fn parse_inline_chars(cs: &Vec<char>) -> (r: Vec<InlineNode>)
    ensures
        inlines_model(r@) == spec_parse_inline(cs@),
{
    parse_inline_with_flags(cs, 0, false, false, false, false)
}

/// Parses a block's inner markup into styled runs.
pub fn parse_inline(html: &str) -> (r: Vec<InlineNode>)
    ensures
        inlines_model(r@) == spec_parse_inline(html@),
{
    let cs = chars_of(html);
    parse_inline_chars(&cs)
}

/// Plain-text preservation for markup without tags: the text carried by
/// the parsed runs is exactly the entity-decoded input.  (For markup
/// with tags the text is recovered block by block, modulo the blanks
/// the parser collapses between blocks.)
pub proof fn lemma_plain_text_recovered(cs: Seq<char>)
    requires
        forall|k: int| 0 <= k < cs.len() ==> cs[k] != '<',
    ensures
        inline_text(spec_parse_inline(cs)) == spec_decode(cs),
{
    if cs.len() == 0 {
        assert(spec_parse_inline(cs) =~= Seq::<InlineModel>::empty());
        assert(inline_text(spec_parse_inline(cs)) =~= Seq::<char>::empty());
        assert(crate::text::decode_from(cs, 0) =~= Seq::<char>::empty());
    } else {
        crate::scan::lemma_scan_to_misses(cs, 0, '<');
        let j = scan_to(cs, 0, '<');
        assert(j == cs.len());
        assert(cs.subrange(0, j) =~= cs);
        let node = InlineModel {
            text: spec_decode(cs),
            bold: false,
            italic: false,
            underline: false,
            code: false,
        };
        assert(spec_parse_inline_from(cs, j, false, false, false, false)
            =~= Seq::<InlineModel>::empty());
        assert(spec_parse_inline(cs) =~= seq![node]);
        assert(inline_text(seq![node].drop_first()) =~= Seq::<char>::empty());
        assert(inline_text(seq![node]) =~= spec_decode(cs));
    }
}

/// Nested emphasis unions the flags: inside `strong` within `em` (or the
/// reverse) a text segment becomes one run with both bold and italic
/// set.  The scenario of one such nesting is checked as a test; this law
/// states the flag-threading for any recursive step: the runs of the
/// inner fragment under raised flags are what the outer parse yields for
/// the wrapped fragment.
pub proof fn lemma_flag_union(cs: Seq<char>, i: int, bold: bool, italic: bool)
    requires
        0 <= i < cs.len(),
        cs[i] != '<',
        forall|k: int| i <= k < cs.len() ==> cs[k] != '<',
    ensures
        spec_parse_inline_from(cs, i, bold, italic, false, false) == seq![
            InlineModel {
                text: spec_decode(cs.subrange(i, cs.len() as int)),
                bold,
                italic,
                underline: false,
                code: false,
            },
        ],
{
    crate::scan::lemma_scan_to_misses(cs, i, '<');
    let j = scan_to(cs, i, '<');
    assert(spec_parse_inline_from(cs, j, bold, italic, false, false)
        =~= Seq::<InlineModel>::empty());
    assert(spec_parse_inline_from(cs, i, bold, italic, false, false) =~= seq![
        InlineModel {
            text: spec_decode(cs.subrange(i, cs.len() as int)),
            bold,
            italic,
            underline: false,
            code: false,
        },
    ]);
}

} // verus!
