//! The page renderer: fixed A4 geometry, a vertical cursor, approximate
//! glyph metrics, greedy line wrapping and pagination.  Rendering yields a
//! page description — a list of drawing operations with integer
//! micrometre coordinates and a page count — which a thin back end turns
//! into the final page-description file.
//!
//! Distances are in micrometres (µm, thousandths of a millimetre); font
//! sizes are in whole points.  One point is taken as 353 µm, and the
//! average glyph width as 60 % of the size for the monospace face and
//! 52 % otherwise.

use vstd::prelude::*;
use crate::text::{is_space_char, is_space, push_char, string_from, sub_vec, chars_of};
use crate::inline::{InlineNode, InlineModel, inlines_model, inline_text};
use crate::blocks::{HtmlNode, BlockModel, blocks_model, spec_parse_html, parse_html_chars};

verus! {

/// Micrometres per point.
pub const UM_PER_PT: u64 = 353;

/// Page height: A4, 297 mm.
pub const PAGE_HEIGHT_UM: u64 = 297000;

/// Page width: A4, 210 mm.
pub const PAGE_WIDTH_UM: u64 = 210000;

/// Margin on every side: 25 mm.
pub const MARGIN_UM: u64 = 25000;

/// Usable line width between the side margins: 160 mm.
pub const USABLE_WIDTH_UM: u64 = 210000 - 2 * 25000;

/// The cursor position at the top of a fresh page.
pub const TOP_Y_UM: u64 = 297000 - 25000;

/// The page count saturates here rather than overflow.
pub const PAGE_CAP: u64 = 9_223_372_036_854_775_808;

/// The next page number: one more, up to the cap.
pub open spec fn sp_next_page(pages: int) -> int {
    if pages < PAGE_CAP {
        pages + 1
    } else {
        pages
    }
}

/// Width of one average glyph, in µm, for the given font size in points.
pub open spec fn spec_char_w(size: u64, mono: bool) -> int {
    if mono {
        (size * UM_PER_PT * 60) / 100
    } else {
        (size * UM_PER_PT * 52) / 100
    }
}

/// Exec computation of [`spec_char_w`].
pub fn char_w(size: u64, mono: bool) -> (r: u64)
    requires
        1 <= size <= 100,
    ensures
        r == spec_char_w(size, mono),
        r >= 183,
{
    if mono {
        (size * UM_PER_PT * 60) / 100
    } else {
        (size * UM_PER_PT * 52) / 100
    }
}

/// Height of one wrapped line, in µm: 1.4 times the font size.
pub open spec fn spec_line_h(size: u64) -> int {
    (size * UM_PER_PT * 14) / 10
}

/// Exec computation of [`spec_line_h`].
pub fn line_h(size: u64) -> (r: u64)
    requires
        1 <= size <= 100,
    ensures
        r == spec_line_h(size),
        1 <= r <= 50000,
{
    (size * UM_PER_PT * 14) / 10
}

/// The decimal digits of `n`, most significant first.
pub open spec fn spec_decimal(n: int) -> Seq<char>
    decreases n when n >= 0
{
    let d = spec_digit(n % 10);
    if n < 10 {
        seq![d]
    } else {
        spec_decimal(n / 10).push(d)
    }
}

/// The digit character for a value below ten.
pub open spec fn spec_digit(n: int) -> char {
    if n == 0 {
        '0'
    } else if n == 1 {
        '1'
    } else if n == 2 {
        '2'
    } else if n == 3 {
        '3'
    } else if n == 4 {
        '4'
    } else if n == 5 {
        '5'
    } else if n == 6 {
        '6'
    } else if n == 7 {
        '7'
    } else if n == 8 {
        '8'
    } else {
        '9'
    }
}

/// The digit character of a value below ten: exec computation of
/// [`spec_digit`].
pub fn digit_char(d: u8) -> (c: char)
    requires
        d < 10,
    ensures
        c == spec_digit(d as int),
{
    if d == 0 {
        '0'
    } else if d == 1 {
        '1'
    } else if d == 2 {
        '2'
    } else if d == 3 {
        '3'
    } else if d == 4 {
        '4'
    } else if d == 5 {
        '5'
    } else if d == 6 {
        '6'
    } else if d == 7 {
        '7'
    } else if d == 8 {
        '8'
    } else {
        '9'
    }
}

/// Formats a number in decimal: exec computation of [`spec_decimal`].
pub fn fmt_u64(n: u64) -> (s: String)
    ensures
        s@ == spec_decimal(n as int),
    decreases n,
{
    let d = n % 10;
    let c: char = if d == 0 {
        '0'
    } else if d == 1 {
        '1'
    } else if d == 2 {
        '2'
    } else if d == 3 {
        '3'
    } else if d == 4 {
        '4'
    } else if d == 5 {
        '5'
    } else if d == 6 {
        '6'
    } else if d == 7 {
        '7'
    } else if d == 8 {
        '8'
    } else {
        '9'
    };
    if n < 10 {
        let mut s = String::new();
        push_char(&mut s, c);
        proof {
            assert(s@ =~= seq![spec_digit(n as int % 10)]);
        }
        s
    } else {
        let mut s = fmt_u64(n / 10);
        push_char(&mut s, c);
        s
    }
}

/// The hard lines of a text: the pieces between newline characters.  A
/// text with no newline is one piece; every newline separates two pieces.
pub open spec fn spec_hard_lines(cs: Seq<char>) -> Seq<Seq<char>>
    decreases cs.len() via spec_hard_lines_dec
{
    let j = crate::scan::scan_to(cs, 0, '\n');
    if j >= cs.len() {
        seq![cs]
    } else {
        seq![cs.subrange(0, j)] + spec_hard_lines(cs.subrange(j + 1, cs.len() as int))
    }
}

#[via_fn]
proof fn spec_hard_lines_dec(cs: Seq<char>) {
    crate::scan::lemma_scan_to_bounds(cs, 0, '\n');
}

/// The blank-separated words of a hard line, from position `i`.
pub open spec fn spec_words(cs: Seq<char>, i: int) -> Seq<Seq<char>>
    decreases cs.len() - i when 0 <= i <= cs.len() via spec_words_dec
{
    let p = crate::text::skip_ws(cs, i);
    if p >= cs.len() {
        Seq::empty()
    } else {
        let j = scan_to_space(cs, p);
        seq![cs.subrange(p, j)] + spec_words(cs, j)
    }
}

#[via_fn]
proof fn spec_words_dec(cs: Seq<char>, i: int) {
    crate::text::lemma_skip_ws_bounds(cs, i);
    crate::text::lemma_skip_ws_stops(cs, i);
    let p = crate::text::skip_ws(cs, i);
    if p < cs.len() {
        lemma_scan_to_space_bounds(cs, p + 1);
        assert(scan_to_space(cs, p) == scan_to_space(cs, p + 1));
    }
}

/// First position at or after `i` holding a blank.
pub open spec fn scan_to_space(cs: Seq<char>, i: int) -> int
    decreases cs.len() - i when 0 <= i <= cs.len()
{
    if i < cs.len() && !is_space_char(cs[i]) {
        scan_to_space(cs, i + 1)
    } else {
        i
    }
}

pub proof fn lemma_scan_to_space_bounds(cs: Seq<char>, i: int)
    requires
        0 <= i <= cs.len(),
    ensures
        i <= scan_to_space(cs, i) <= cs.len(),
    decreases cs.len() - i,
{
    if i < cs.len() && !is_space_char(cs[i]) {
        lemma_scan_to_space_bounds(cs, i + 1);
    }
}

/// Exec computation of [`scan_to_space`].
pub fn scan_to_space_exec(cs: &Vec<char>, i: usize) -> (r: usize)
    requires
        i <= cs@.len(),
    ensures
        r == scan_to_space(cs@, i as int),
        i <= r <= cs@.len(),
{
    let mut p = i;
    while p < cs.len() && !is_space(cs[p])
        invariant
            i <= p <= cs@.len(),
            scan_to_space(cs@, i as int) == scan_to_space(cs@, p as int),
        decreases cs.len() - p,
    {
        p += 1;
    }
    proof {
        lemma_scan_to_space_bounds(cs@, p as int);
    }
    p
}

/// Exec computation of [`spec_words`] over a whole line.
pub fn split_words(cs: &Vec<char>) -> (r: Vec<Vec<char>>)
    ensures
        r@.map_values(|w: Vec<char>| w@) == spec_words(cs@, 0),
{
    let mut out: Vec<Vec<char>> = Vec::new();
    let mut i: usize = 0;
    loop
        invariant
            0 <= i <= cs@.len(),
            spec_words(cs@, 0) =~= out@.map_values(|w: Vec<char>| w@) + spec_words(cs@, i as int),
        ensures
            out@.map_values(|w: Vec<char>| w@) =~= spec_words(cs@, 0),
        decreases cs@.len() - i,
    {
        let p = crate::text::skip_ws_exec(cs, i);
        if p >= cs.len() {
            proof {
                assert(spec_words(cs@, i as int) =~= Seq::<Seq<char>>::empty());
                assert(out@.map_values(|w: Vec<char>| w@) + spec_words(cs@, i as int)
                    =~= out@.map_values(|w: Vec<char>| w@));
            }
            break;
        }
        let j = scan_to_space_exec(cs, p);
        proof {
            crate::text::lemma_skip_ws_stops(cs@, i as int);
            lemma_scan_to_space_bounds(cs@, p + 1);
            assert(scan_to_space(cs@, p as int) == scan_to_space(cs@, p + 1));
        }
        let w = sub_vec(cs, p, j);
        proof {
            assert(spec_words(cs@, i as int) == seq![cs@.subrange(p as int, j as int)]
                + spec_words(cs@, j as int));
            assert(out@.push(w).map_values(|x: Vec<char>| x@) =~= out@.map_values(
                |x: Vec<char>| x@,
            ).push(w@));
            assert(out@.map_values(|x: Vec<char>| x@).push(w@) + spec_words(cs@, j as int)
                =~= out@.map_values(|x: Vec<char>| x@) + (seq![w@] + spec_words(cs@, j as int)));
        }
        out.push(w);
        i = j;
    }
    out
}

/// The greedy fill of `words` onto lines of at most `maxw` µm, the line
/// under construction holding `cur`: a word joins the current line with a
/// single blank unless that would exceed the width and the line is
/// non-empty; a word wider than the line stands alone and overflows.
pub open spec fn spec_greedy(words: Seq<Seq<char>>, cur: Seq<char>, cw: int, maxw: int) -> Seq<
    Seq<char>,
>
    decreases words.len(),
{
    if words.len() == 0 {
        if cur.len() > 0 {
            seq![cur]
        } else {
            Seq::empty()
        }
    } else {
        let test = if cur.len() == 0 {
            words[0]
        } else {
            cur + seq![' '] + words[0]
        };
        if test.len() * cw > maxw && cur.len() > 0 {
            seq![cur] + spec_greedy(words.drop_first(), words[0], cw, maxw)
        } else {
            spec_greedy(words.drop_first(), test, cw, maxw)
        }
    }
}

/// The wrapped lines of a text: each hard line is filled greedily; a text
/// with no words still yields one empty line.
pub open spec fn spec_wrap_hard_line(hl: Seq<char>, cw: int, maxw: int) -> Seq<Seq<char>> {
    let ws = spec_words(hl, 0);
    if ws.len() == 0 {
        seq![Seq::<char>::empty()]
    } else {
        spec_greedy(ws, Seq::empty(), cw, maxw)
    }
}

/// The wrapped lines of a whole text: hard lines in order.
pub open spec fn spec_wrap_lines(hls: Seq<Seq<char>>, cw: int, maxw: int) -> Seq<Seq<char>>
    decreases hls.len(),
{
    if hls.len() == 0 {
        Seq::empty()
    } else {
        spec_wrap_hard_line(hls[0], cw, maxw) + spec_wrap_lines(hls.drop_first(), cw, maxw)
    }
}

/// The wrapped lines of a text at a font size: never empty.
pub open spec fn spec_wrap(text: Seq<char>, cw: int, maxw: int) -> Seq<Seq<char>> {
    let ls = spec_wrap_lines(spec_hard_lines(text), cw, maxw);
    if ls.len() == 0 {
        seq![Seq::<char>::empty()]
    } else {
        ls
    }
}

proof fn lemma_mul_div_compare(n: int, c: int, m: int)
    by (nonlinear_arith)
    requires
        c > 0,
        n >= 0,
        m >= 0,
    ensures
        (n * c > m) <==> (n > m / c),
{
}

/// Exec computation of [`spec_greedy`] over the words of one hard line.
fn greedy_fill(words: &Vec<Vec<char>>, cw: u64, maxw: u64) -> (r: Vec<Vec<char>>)
    requires
        cw >= 1,
    ensures
        r@.map_values(|l: Vec<char>| l@) == spec_greedy(
            words@.map_values(|w: Vec<char>| w@),
            Seq::empty(),
            cw as int,
            maxw as int,
        ),
{
    let ghost wsm = words@.map_values(|w: Vec<char>| w@);
    let mut out: Vec<Vec<char>> = Vec::new();
    let mut cur: Vec<char> = Vec::new();
    let mut wi: usize = 0;
    let max_chars: u64 = maxw / cw;
    proof {
        assert(wsm.skip(0) =~= wsm);
        assert(out@.map_values(|l: Vec<char>| l@) =~= Seq::<Seq<char>>::empty());
        assert(cur@ =~= Seq::<char>::empty());
        assert(Seq::<Seq<char>>::empty() + spec_greedy(wsm, cur@, cw as int, maxw as int)
            =~= spec_greedy(wsm, cur@, cw as int, maxw as int));
    }
    loop
        invariant_except_break
            spec_greedy(wsm, Seq::empty(), cw as int, maxw as int) =~= out@.map_values(
                |l: Vec<char>| l@,
            ) + spec_greedy(wsm.skip(wi as int), cur@, cw as int, maxw as int),
        invariant
            0 <= wi <= words@.len(),
            cw >= 1,
            max_chars == maxw as int / cw as int,
            wsm == words@.map_values(|w: Vec<char>| w@),
        ensures
            out@.map_values(|l: Vec<char>| l@) =~= spec_greedy(
                wsm,
                Seq::empty(),
                cw as int,
                maxw as int,
            ),
        decreases words@.len() - wi,
    {
        if wi >= words.len() {
            proof {
                assert(wsm.skip(wi as int).len() == 0);
            }
            if cur.len() > 0 {
                proof {
                    assert(spec_greedy(wsm.skip(wi as int), cur@, cw as int, maxw as int)
                        == seq![cur@]);
                    assert(out@.push(cur).map_values(|l: Vec<char>| l@) =~= out@.map_values(
                        |l: Vec<char>| l@,
                    ).push(cur@));
                    assert(out@.map_values(|l: Vec<char>| l@).push(cur@) =~= out@.map_values(
                        |l: Vec<char>| l@,
                    ) + seq![cur@]);
                }
                out.push(cur);
            } else {
                proof {
                    assert(spec_greedy(wsm.skip(wi as int), cur@, cw as int, maxw as int)
                        =~= Seq::<Seq<char>>::empty());
                    assert(out@.map_values(|l: Vec<char>| l@) + Seq::<Seq<char>>::empty()
                        =~= out@.map_values(|l: Vec<char>| l@));
                }
            }
            break;
        }
        let w = &words[wi];
        proof {
            assert(wsm.skip(wi as int)[0] == words@[wi as int]@);
            assert(wsm.skip(wi as int).drop_first() =~= wsm.skip(wi + 1));
        }
        let test: Vec<char> = if cur.len() == 0 {
            let t = sub_vec(w, 0, w.len());
            proof {
                assert(t@ =~= words@[wi as int]@);
            }
            t
        } else {
            let mut t = sub_vec(&cur, 0, cur.len());
            t.push(' ');
            let mut tail = sub_vec(w, 0, w.len());
            t.append(&mut tail);
            proof {
                assert(t@ =~= cur@ + seq![' '] + words@[wi as int]@);
            }
            t
        };
        proof {
            lemma_mul_div_compare(test@.len() as int, cw as int, maxw as int);
        }
        let over = test.len() as u64 > max_chars;
        if over && cur.len() > 0 {
            let wcopy = sub_vec(w, 0, w.len());
            proof {
                assert(wcopy@ =~= words@[wi as int]@);
                assert(spec_greedy(wsm.skip(wi as int), cur@, cw as int, maxw as int) == seq![cur@]
                    + spec_greedy(wsm.skip(wi + 1), words@[wi as int]@, cw as int, maxw as int));
                assert(out@.push(cur).map_values(|l: Vec<char>| l@) =~= out@.map_values(
                    |l: Vec<char>| l@,
                ).push(cur@));
                assert(out@.map_values(|l: Vec<char>| l@).push(cur@) + spec_greedy(
                    wsm.skip(wi + 1),
                    words@[wi as int]@,
                    cw as int,
                    maxw as int,
                ) =~= out@.map_values(|l: Vec<char>| l@) + (seq![cur@] + spec_greedy(
                    wsm.skip(wi + 1),
                    words@[wi as int]@,
                    cw as int,
                    maxw as int,
                )));
            }
            out.push(cur);
            cur = wcopy;
        } else {
            proof {
                assert(spec_greedy(wsm.skip(wi as int), cur@, cw as int, maxw as int)
                    == spec_greedy(wsm.skip(wi + 1), test@, cw as int, maxw as int));
            }
            cur = test;
        }
        wi += 1;
    }
    out
}

/// Wraps a text to the usable width: exec computation of [`spec_wrap`].
#[verifier::rlimit(100)]
pub fn wrap_text(text: &Vec<char>, size: u64, maxw: u64, mono: bool) -> (r: Vec<Vec<char>>)
    requires
        1 <= size <= 100,
    ensures
        r@.map_values(|l: Vec<char>| l@) == spec_wrap(
            text@,
            spec_char_w(size, mono),
            maxw as int,
        ),
        r@.len() >= 1,
{
    let cw = char_w(size, mono);
    let mut out: Vec<Vec<char>> = Vec::new();
    let mut rest = sub_vec(text, 0, text.len());
    proof {
        assert(rest@ =~= text@);
        assert(out@.map_values(|l: Vec<char>| l@) =~= Seq::<Seq<char>>::empty());
        assert(Seq::<Seq<char>>::empty() + spec_wrap_lines(
            spec_hard_lines(text@),
            cw as int,
            maxw as int,
        ) =~= spec_wrap_lines(spec_hard_lines(text@), cw as int, maxw as int));
    }
    loop
        invariant_except_break
            spec_wrap_lines(spec_hard_lines(text@), cw as int, maxw as int) =~= out@.map_values(
                |l: Vec<char>| l@,
            ) + spec_wrap_lines(spec_hard_lines(rest@), cw as int, maxw as int),
        invariant
            cw == spec_char_w(size, mono),
            cw >= 1,
        ensures
            out@.map_values(|l: Vec<char>| l@) =~= spec_wrap_lines(
                spec_hard_lines(text@),
                cw as int,
                maxw as int,
            ),
        decreases rest@.len(),
    {
        let j = crate::scan::scan_to_exec(&rest, 0, '\n');
        let hl = sub_vec(&rest, 0, j);
        let ws = split_words(&hl);
        let mut lines: Vec<Vec<char>> = if ws.len() == 0 {
            let mut v: Vec<Vec<char>> = Vec::new();
            let e: Vec<char> = Vec::new();
            v.push(e);
            proof {
                assert(v@.map_values(|l: Vec<char>| l@) =~= seq![Seq::<char>::empty()]);
            }
            v
        } else {
            let g = greedy_fill(&ws, cw, maxw);
            proof {
                assert(ws@.map_values(|w: Vec<char>| w@).len() != 0);
            }
            g
        };
        let ghost lines0 = lines@;
        proof {
            assert(lines@.map_values(|l: Vec<char>| l@) =~= spec_wrap_hard_line(
                hl@,
                cw as int,
                maxw as int,
            ));
            assert((out@ + lines0).map_values(|l: Vec<char>| l@) =~= out@.map_values(
                |l: Vec<char>| l@,
            ) + lines0.map_values(|l: Vec<char>| l@));
        }
        if j >= rest.len() {
            proof {
                assert(spec_hard_lines(rest@) =~= seq![rest@]);
                assert(spec_hard_lines(rest@).drop_first() =~= Seq::<Seq<char>>::empty());
                assert(spec_wrap_lines(Seq::<Seq<char>>::empty(), cw as int, maxw as int)
                    =~= Seq::<Seq<char>>::empty());
                assert(spec_wrap_lines(spec_hard_lines(rest@), cw as int, maxw as int)
                    =~= spec_wrap_hard_line(spec_hard_lines(rest@)[0], cw as int, maxw as int)
                    + Seq::<Seq<char>>::empty());
                assert(hl@ =~= rest@);
                assert(spec_wrap_lines(spec_hard_lines(rest@), cw as int, maxw as int)
                    =~= spec_wrap_hard_line(hl@, cw as int, maxw as int));
            }
            out.append(&mut lines);
            break;
        }
        let n = rest.len();
        let tail = sub_vec(&rest, j + 1, n);
        proof {
            assert(spec_hard_lines(rest@) =~= seq![rest@.subrange(0, j as int)] + spec_hard_lines(
                rest@.subrange(j + 1, rest@.len() as int),
            ));
            assert(spec_hard_lines(rest@)[0] == hl@);
            assert(spec_hard_lines(rest@).drop_first() =~= spec_hard_lines(tail@));
            assert(spec_wrap_lines(spec_hard_lines(rest@), cw as int, maxw as int)
                =~= spec_wrap_hard_line(hl@, cw as int, maxw as int) + spec_wrap_lines(
                spec_hard_lines(tail@),
                cw as int,
                maxw as int,
            ));
        }
        out.append(&mut lines);
        rest = tail;
    }
    if out.len() == 0 {
        let e: Vec<char> = Vec::new();
        out.push(e);
        proof {
            assert(out@.map_values(|l: Vec<char>| l@) =~= seq![Seq::<char>::empty()]);
        }
    }
    out
}

/// One drawing operation of the page description.
pub enum PageOp {
    /// A text run drawn at a position, in the face selected by the flags.
    Text {
        page: u64,
        x_um: u64,
        y_um: u64,
        size_pt: u64,
        bold: bool,
        italic: bool,
        mono: bool,
        text: String,
    },
    /// A straight grey line between two points.
    Rule {
        page: u64,
        x1_um: u64,
        y1_um: u64,
        x2_um: u64,
        y2_um: u64,
        thickness_tenth_pt: u64,
        gray_pct: u64,
    },
}

/// Mathematical model of one drawing operation.
pub ghost enum OpModel {
    Text {
        page: int,
        x_um: int,
        y_um: int,
        size_pt: int,
        bold: bool,
        italic: bool,
        mono: bool,
        text: Seq<char>,
    },
    Rule {
        page: int,
        x1_um: int,
        y1_um: int,
        x2_um: int,
        y2_um: int,
        thickness_tenth_pt: int,
        gray_pct: int,
    },
}

impl PageOp {
    /// The model this operation stands for.
    pub open spec fn model(&self) -> OpModel {
        match self {
            PageOp::Text { page, x_um, y_um, size_pt, bold, italic, mono, text } => OpModel::Text {
                page: *page as int,
                x_um: *x_um as int,
                y_um: *y_um as int,
                size_pt: *size_pt as int,
                bold: *bold,
                italic: *italic,
                mono: *mono,
                text: text@,
            },
            PageOp::Rule { page, x1_um, y1_um, x2_um, y2_um, thickness_tenth_pt, gray_pct } => OpModel::Rule {
                page: *page as int,
                x1_um: *x1_um as int,
                y1_um: *y1_um as int,
                x2_um: *x2_um as int,
                y2_um: *y2_um as int,
                thickness_tenth_pt: *thickness_tenth_pt as int,
                gray_pct: *gray_pct as int,
            },
        }
    }
}

/// The models of a sequence of operations, in order.
pub open spec fn ops_model(ops: Seq<PageOp>) -> Seq<OpModel> {
    ops.map_values(|o: PageOp| o.model())
}

/// Mathematical model of the renderer state: the operations so far, the
/// number of pages, and the vertical cursor (µm above the page bottom).
pub ghost struct PwModel {
    pub ops: Seq<OpModel>,
    pub pages: int,
    pub y: int,
}

/// A well-formed renderer state: at least one page, the cursor between
/// the bottom margin and the top of the page.
pub open spec fn pw_wf(st: PwModel) -> bool {
    st.pages >= 1 && MARGIN_UM <= st.y <= TOP_Y_UM
}

/// A fresh renderer: one empty page, the cursor at the top margin.
pub open spec fn sp_new() -> PwModel {
    PwModel { ops: Seq::empty(), pages: 1, y: TOP_Y_UM as int }
}

/// Pagination: where less than `needed` µm is left above the bottom
/// margin, a new page is begun and the cursor returns to the top margin.
pub open spec fn sp_ensure(st: PwModel, needed: int) -> PwModel {
    if st.y < MARGIN_UM + needed {
        PwModel { ops: st.ops, pages: sp_next_page(st.pages), y: TOP_Y_UM as int }
    } else {
        st
    }
}

/// One wrapped line written at the cursor: paginate, draw, advance.
pub open spec fn sp_put_line(
    st: PwModel,
    line: Seq<char>,
    size: int,
    bold: bool,
    italic: bool,
    mono: bool,
    indent: int,
    lh: int,
) -> PwModel {
    let st1 = sp_ensure(st, lh);
    PwModel {
        ops: st1.ops.push(
            OpModel::Text {
                page: st1.pages,
                x_um: MARGIN_UM + indent,
                y_um: st1.y,
                size_pt: size,
                bold,
                italic,
                mono,
                text: line,
            },
        ),
        pages: st1.pages,
        y: st1.y - lh,
    }
}

/// Wrapped lines written in order.
pub open spec fn sp_put_lines(
    st: PwModel,
    lines: Seq<Seq<char>>,
    size: int,
    bold: bool,
    italic: bool,
    mono: bool,
    indent: int,
    lh: int,
) -> PwModel
    decreases lines.len(),
{
    if lines.len() == 0 {
        st
    } else {
        sp_put_lines(
            sp_put_line(st, lines[0], size, bold, italic, mono, indent, lh),
            lines.drop_first(),
            size,
            bold,
            italic,
            mono,
            indent,
            lh,
        )
    }
}

/// A vertical gap: the cursor drops, and a new page begins where it
/// would pass the bottom margin.
pub open spec fn sp_spacer(st: PwModel, um: int) -> PwModel {
    let y2 = if st.y >= um {
        st.y - um
    } else {
        0
    };
    if y2 < MARGIN_UM {
        PwModel { ops: st.ops, pages: sp_next_page(st.pages), y: TOP_Y_UM as int }
    } else {
        PwModel { ops: st.ops, pages: st.pages, y: y2 }
    }
}

/// A grey line drawn between two points on the current page.
pub open spec fn sp_rule(
    st: PwModel,
    x1: int,
    y1: int,
    x2: int,
    y2: int,
    th: int,
    gray: int,
) -> PwModel {
    PwModel {
        ops: st.ops.push(
            OpModel::Rule {
                page: st.pages,
                x1_um: x1,
                y1_um: y1,
                x2_um: x2,
                y2_um: y2,
                thickness_tenth_pt: th,
                gray_pct: gray,
            },
        ),
        pages: st.pages,
        y: st.y,
    }
}

/// Any run of the block carries the code flag: the whole block is then
/// measured with the monospace glyph width.
pub open spec fn any_code(ns: Seq<InlineModel>) -> bool
    decreases ns.len(),
{
    ns.len() > 0 && (ns[0].code || any_code(ns.drop_first()))
}

/// The style flags of the first run with any text, applied to every
/// wrapped line of the block.
pub open spec fn first_style(ns: Seq<InlineModel>) -> (bool, bool, bool)
    decreases ns.len(),
{
    if ns.len() == 0 {
        (false, false, false)
    } else if ns[0].text.len() > 0 {
        (ns[0].bold, ns[0].italic, ns[0].code)
    } else {
        first_style(ns.drop_first())
    }
}

/// A block of runs written with word wrapping: the texts are concatenated
/// behind the prefix, wrapped to the indented width, and drawn in the
/// first non-empty run's style.
pub open spec fn sp_write_inline_block(
    st: PwModel,
    children: Seq<InlineModel>,
    size: int,
    indent: int,
    prefix: Seq<char>,
) -> PwModel {
    let full = prefix + inline_text(children);
    let mono_w = any_code(children);
    let style = first_style(children);
    let lines = spec_wrap(full, spec_char_w(size as u64, mono_w), USABLE_WIDTH_UM - indent);
    sp_put_lines(st, lines, size, style.0, style.1, style.2, indent, spec_line_h(size as u64))
}

/// The font size of a heading, by level: level 1 is largest.
pub open spec fn sp_heading_size(level: u8) -> int {
    if level == 1 {
        18
    } else if level == 2 {
        15
    } else if level == 3 {
        13
    } else {
        12
    }
}

/// Runs with the bold flag forced on, as headings are drawn.
pub open spec fn sp_force_bold(ns: Seq<InlineModel>) -> Seq<InlineModel> {
    ns.map_values(
        |c: InlineModel| InlineModel {
            text: c.text,
            bold: true,
            italic: c.italic,
            underline: c.underline,
            code: c.code,
        },
    )
}

/// Runs with the italic flag forced on, as blockquotes are drawn.
pub open spec fn sp_force_italic(ns: Seq<InlineModel>) -> Seq<InlineModel> {
    ns.map_values(
        |c: InlineModel| InlineModel {
            text: c.text,
            bold: c.bold,
            italic: true,
            underline: c.underline,
            code: c.code,
        },
    )
}

/// The bullet prefix of an unordered list item.
pub open spec fn sp_bullet() -> Seq<char> {
    seq!['\u{2022}', ' ', ' ']
}

/// The ordinal prefix of ordered list item number `k`.
pub open spec fn sp_ordinal(k: int) -> Seq<char> {
    spec_decimal(k) + seq!['.', ' ']
}

/// Unordered list items drawn in order: indented, bullet-prefixed, a
/// small gap after each.
pub open spec fn sp_ul_items(st: PwModel, items: Seq<Seq<InlineModel>>) -> PwModel
    decreases items.len(),
{
    if items.len() == 0 {
        st
    } else {
        sp_ul_items(
            sp_spacer(sp_write_inline_block(st, items[0], 11, 8000, sp_bullet()), 1500),
            items.drop_first(),
        )
    }
}

/// Ordered list items drawn in order, numbered from `k`.
pub open spec fn sp_ol_items(st: PwModel, items: Seq<Seq<InlineModel>>, k: int) -> PwModel
    decreases items.len(),
{
    if items.len() == 0 {
        st
    } else {
        sp_ol_items(
            sp_spacer(sp_write_inline_block(st, items[0], 11, 8000, sp_ordinal(k)), 1500),
            items.drop_first(),
            k + 1,
        )
    }
}

/// A piece with its one trailing carriage return removed, if it ends in
/// one.
pub open spec fn sp_strip_cr(p: Seq<char>) -> Seq<char> {
    if p.len() > 0 && p[p.len() - 1] == '\r' {
        p.drop_last()
    } else {
        p
    }
}

/// The pieces of a text as source lines: a trailing carriage return is
/// stripped only from newline-terminated pieces; a final piece with no
/// newline after it is kept as written; a final empty piece is dropped.
pub open spec fn sp_src_lines(cs: Seq<char>) -> Seq<Seq<char>> {
    let ps = spec_hard_lines(cs);
    if ps.len() > 0 && ps[ps.len() - 1].len() == 0 {
        ps.drop_last().map_values(|p: Seq<char>| sp_strip_cr(p))
    } else if ps.len() > 0 {
        ps.drop_last().map_values(|p: Seq<char>| sp_strip_cr(p)).push(ps[ps.len() - 1])
    } else {
        Seq::empty()
    }
}

/// Code block source lines drawn in order: monospace, indented.
pub open spec fn sp_code_lines(st: PwModel, lines: Seq<Seq<char>>) -> PwModel
    decreases lines.len(),
{
    if lines.len() == 0 {
        st
    } else {
        let node = InlineModel {
            text: lines[0],
            bold: false,
            italic: false,
            underline: false,
            code: true,
        };
        sp_code_lines(sp_write_inline_block(st, seq![node], 9, 6000, Seq::empty()), lines.drop_first())
    }
}

/// The plain text of one table row: the cells' texts joined by a pipe
/// separator.
pub open spec fn sp_row_text(cells: Seq<Seq<InlineModel>>, i: int) -> Seq<char>
    decreases cells.len() - i when 0 <= i <= cells.len()
{
    if i >= cells.len() {
        Seq::empty()
    } else if i == 0 {
        inline_text(cells[0]) + sp_row_text(cells, 1)
    } else {
        seq![' ', ' ', '|', ' ', ' '] + inline_text(cells[i]) + sp_row_text(cells, i + 1)
    }
}

/// Table rows drawn in order as plain pipe-joined lines.
pub open spec fn sp_table_rows(st: PwModel, rows: Seq<Seq<Seq<InlineModel>>>) -> PwModel
    decreases rows.len(),
{
    if rows.len() == 0 {
        st
    } else {
        let node = InlineModel {
            text: sp_row_text(rows[0], 0),
            bold: false,
            italic: false,
            underline: false,
            code: false,
        };
        sp_table_rows(
            sp_spacer(sp_write_inline_block(st, seq![node], 10, 0, Seq::empty()), 1000),
            rows.drop_first(),
        )
    }
}

/// The caption of an image: the alt text, or a bare placeholder.
pub open spec fn sp_caption(alt: Seq<char>) -> Seq<char> {
    if alt.len() == 0 {
        seq!['[', 'I', 'm', 'a', 'g', 'e', ']']
    } else {
        seq!['[', 'I', 'm', 'a', 'g', 'e', ':', ' '] + alt + seq![']']
    }
}

/// The grey bar drawn left of a blockquote, its height estimated from the
/// run count.
pub open spec fn sp_quote_bar(st: PwModel, est: int) -> PwModel {
    let bot_raw = st.y - est * spec_line_h(11) - 2000;
    let bot = if bot_raw > MARGIN_UM {
        bot_raw
    } else {
        MARGIN_UM as int
    };
    sp_rule(st, MARGIN_UM + 3000, st.y + 2000, MARGIN_UM + 3000, bot, 15, 60)
}

/// One block drawn onto the page description.
pub open spec fn sp_render_block(st: PwModel, b: BlockModel) -> PwModel {
    match b {
        BlockModel::Heading { level, children } => sp_spacer(
            sp_write_inline_block(
                sp_spacer(st, 3000),
                sp_force_bold(children),
                sp_heading_size(level),
                0,
                Seq::empty(),
            ),
            2000,
        ),
        BlockModel::Paragraph { children } => sp_spacer(
            sp_write_inline_block(st, children, 11, 0, Seq::empty()),
            3000,
        ),
        BlockModel::UnorderedList { items } => sp_spacer(sp_ul_items(st, items), 2000),
        BlockModel::OrderedList { items } => sp_spacer(sp_ol_items(st, items, 1), 2000),
        BlockModel::Blockquote { children } => {
            let est = if children.len() > 0 {
                children.len() as int
            } else {
                1
            };
            sp_spacer(
                sp_write_inline_block(
                    sp_quote_bar(st, est),
                    sp_force_italic(children),
                    11,
                    10000,
                    Seq::empty(),
                ),
                3000,
            )
        },
        BlockModel::CodeBlock { text } => sp_spacer(
            sp_code_lines(sp_spacer(st, 2000), sp_src_lines(text)),
            3000,
        ),
        BlockModel::HorizontalRule => {
            let st1 = sp_spacer(st, 3000);
            sp_spacer(
                sp_rule(
                    st1,
                    MARGIN_UM as int,
                    st1.y,
                    PAGE_WIDTH_UM - MARGIN_UM,
                    st1.y,
                    5,
                    75,
                ),
                3000,
            )
        },
        BlockModel::Table { rows } => sp_spacer(sp_table_rows(sp_spacer(st, 2000), rows), 2000),
        BlockModel::Image { src, alt } => {
            let node = InlineModel {
                text: sp_caption(alt),
                bold: false,
                italic: true,
                underline: false,
                code: false,
            };
            sp_spacer(sp_write_inline_block(st, seq![node], 10, 0, Seq::empty()), 3000)
        },
    }
}

/// Blocks drawn in order.
pub open spec fn sp_render_blocks(st: PwModel, bs: Seq<BlockModel>) -> PwModel
    decreases bs.len(),
{
    if bs.len() == 0 {
        st
    } else {
        sp_render_blocks(sp_render_block(st, bs[0]), bs.drop_first())
    }
}

/// The title line height: half again the title size.
pub open spec fn sp_title_lh() -> int {
    (20 * UM_PER_PT * 15) / 10
}

/// The whole page description of a document: the title in large bold
/// type, a grey rule, then every parsed block in order.
pub open spec fn spec_build_pdf(title: Seq<char>, html: Seq<char>) -> PwModel {
    let st0 = sp_new();
    let tl = spec_wrap(title, spec_char_w(20, false), USABLE_WIDTH_UM as int);
    let st1 = sp_put_lines(st0, tl, 20, true, false, false, 0, sp_title_lh());
    let st2 = sp_spacer(st1, 6000);
    let st3 = sp_rule(
        st2,
        MARGIN_UM as int,
        st2.y,
        PAGE_WIDTH_UM - MARGIN_UM,
        st2.y,
        5,
        70,
    );
    let st4 = sp_spacer(st3, 6000);
    sp_render_blocks(st4, spec_parse_html(html))
}

/// The page renderer state: accumulated drawing operations, the page
/// count, and the vertical cursor in µm above the page bottom.
pub struct PdfWriter {
    pub ops: Vec<PageOp>,
    pub page_count: u64,
    pub y_um: u64,
}

impl PdfWriter {
    /// The model this renderer state stands for.
    pub open spec fn model(&self) -> PwModel {
        PwModel { ops: ops_model(self.ops@), pages: self.page_count as int, y: self.y_um as int }
    }

    /// A fresh renderer on an empty first page.
    pub fn new() -> (r: PdfWriter)
        ensures
            r.model() == sp_new(),
            pw_wf(r.model()),
    {
        let r = PdfWriter { ops: Vec::new(), page_count: 1, y_um: TOP_Y_UM };
        proof {
            assert(ops_model(r.ops@) =~= Seq::<OpModel>::empty());
        }
        r
    }

    /// Begins a new page: the cursor returns to the top margin.
    pub fn new_page(&mut self)
        ensures
            final(self).model() == (PwModel {
                ops: old(self).model().ops,
                pages: sp_next_page(old(self).model().pages),
                y: TOP_Y_UM as int,
            }),
    {
        if self.page_count < PAGE_CAP {
            self.page_count = self.page_count + 1;
        }
        self.y_um = TOP_Y_UM;
    }

    /// Paginates where less than `needed` µm is left above the bottom
    /// margin.
    pub fn ensure_space(&mut self, needed: u64)
        requires
            pw_wf(old(self).model()),
            needed <= 60000,
        ensures
            final(self).model() == sp_ensure(old(self).model(), needed as int),
            pw_wf(final(self).model()),
            final(self).model().y >= MARGIN_UM + needed,
            final(self).model().ops == old(self).model().ops,
    {
        if self.y_um < MARGIN_UM + needed {
            self.new_page();
        }
    }

    /// Drops the cursor by `um`; a new page begins where it would pass
    /// the bottom margin.
    pub fn write_spacer(&mut self, um: u64)
        requires
            pw_wf(old(self).model()),
            um <= 6000,
        ensures
            final(self).model() == sp_spacer(old(self).model(), um as int),
            pw_wf(final(self).model()),
    {
        let y2: u64 = if self.y_um >= um {
            self.y_um - um
        } else {
            0
        };
        if y2 < MARGIN_UM {
            self.new_page();
        } else {
            self.y_um = y2;
        }
    }

    /// Draws a grey line between two points on the current page.
    pub fn push_rule(&mut self, x1: u64, y1: u64, x2: u64, y2: u64, th: u64, gray: u64)
        ensures
            final(self).model() == sp_rule(
                old(self).model(),
                x1 as int,
                y1 as int,
                x2 as int,
                y2 as int,
                th as int,
                gray as int,
            ),
            final(self).model().y == old(self).model().y,
            final(self).model().pages == old(self).model().pages,
    {
        let ghost ops0 = self.ops@;
        let op = PageOp::Rule {
            page: self.page_count,
            x1_um: x1,
            y1_um: y1,
            x2_um: x2,
            y2_um: y2,
            thickness_tenth_pt: th,
            gray_pct: gray,
        };
        proof {
            assert(ops_model(ops0.push(op)) =~= ops_model(ops0).push(op.model()));
        }
        self.ops.push(op);
    }

    /// Writes one wrapped line at the cursor: paginate, draw, advance.
    pub fn write_line(
        &mut self,
        line: &Vec<char>,
        size: u64,
        bold: bool,
        italic: bool,
        mono: bool,
        indent: u64,
        lh: u64,
    )
        requires
            pw_wf(old(self).model()),
            indent <= 10000,
            1 <= lh <= 60000,
        ensures
            final(self).model() == sp_put_line(
                old(self).model(),
                line@,
                size as int,
                bold,
                italic,
                mono,
                indent as int,
                lh as int,
            ),
            pw_wf(final(self).model()),
    {
        self.ensure_space(lh);
        let ghost ops0 = self.ops@;
        let op = PageOp::Text {
            page: self.page_count,
            x_um: MARGIN_UM + indent,
            y_um: self.y_um,
            size_pt: size,
            bold,
            italic,
            mono,
            text: string_from(line),
        };
        proof {
            assert(ops_model(ops0.push(op)) =~= ops_model(ops0).push(op.model()));
        }
        self.ops.push(op);
        self.y_um = self.y_um - lh;
    }

    /// Writes wrapped lines in order.
    pub fn write_lines(
        &mut self,
        lines: &Vec<Vec<char>>,
        size: u64,
        bold: bool,
        italic: bool,
        mono: bool,
        indent: u64,
        lh: u64,
    )
        requires
            pw_wf(old(self).model()),
            indent <= 10000,
            1 <= lh <= 60000,
        ensures
            final(self).model() == sp_put_lines(
                old(self).model(),
                lines@.map_values(|l: Vec<char>| l@),
                size as int,
                bold,
                italic,
                mono,
                indent as int,
                lh as int,
            ),
            pw_wf(final(self).model()),
    {
        let ghost m0 = self.model();
        let ghost lm = lines@.map_values(|l: Vec<char>| l@);
        let mut k: usize = 0;
        proof {
            assert(lm.skip(0) =~= lm);
        }
        while k < lines.len()
            invariant
                0 <= k <= lines@.len(),
                lm == lines@.map_values(|l: Vec<char>| l@),
                indent <= 10000,
                1 <= lh <= 60000,
                pw_wf(self.model()),
                sp_put_lines(
                    m0,
                    lm,
                    size as int,
                    bold,
                    italic,
                    mono,
                    indent as int,
                    lh as int,
                ) == sp_put_lines(
                    self.model(),
                    lm.skip(k as int),
                    size as int,
                    bold,
                    italic,
                    mono,
                    indent as int,
                    lh as int,
                ),
            decreases lines@.len() - k,
        {
            proof {
                assert(lm.skip(k as int)[0] == lines@[k as int]@);
                assert(lm.skip(k as int).drop_first() =~= lm.skip(k + 1));
            }
            self.write_line(&lines[k], size, bold, italic, mono, indent, lh);
            k += 1;
        }
        proof {
            assert(lm.skip(k as int).len() == 0);
        }
    }
}

/// Appends the plain text of the runs to the character buffer.
fn append_runs_text(out: &mut Vec<char>, runs: &Vec<InlineNode>)
    ensures
        final(out)@ == old(out)@ + inline_text(inlines_model(runs@)),
{
    let ghost m = inlines_model(runs@);
    let ghost out0 = old(out)@;
    let mut k: usize = 0;
    proof {
        assert(m.skip(0) =~= m);
    }
    while k < runs.len()
        invariant
            0 <= k <= runs@.len(),
            m == inlines_model(runs@),
            out0 + inline_text(m) =~= out@ + inline_text(m.skip(k as int)),
        decreases runs@.len() - k,
    {
        proof {
            assert(m.skip(k as int)[0] == runs@[k as int].model());
            assert(m.skip(k as int).drop_first() =~= m.skip(k + 1));
            assert(inline_text(m.skip(k as int)) == runs@[k as int].model().text + inline_text(
                m.skip(k + 1),
            ));
        }
        let mut cc = chars_of(runs[k].text.as_str());
        let ghost cc0 = cc@;
        out.append(&mut cc);
        proof {
            assert(out@ + inline_text(m.skip(k + 1)) =~= out0 + inline_text(m));
        }
        k += 1;
    }
    proof {
        assert(inline_text(m.skip(k as int)) =~= Seq::<char>::empty());
        assert(out@ + inline_text(m.skip(k as int)) =~= out@);
        assert(out@ =~= out0 + inline_text(m));
    }
}

/// Whether any run carries the code flag: exec computation of
/// [`any_code`].
fn any_code_exec(runs: &Vec<InlineNode>) -> (r: bool)
    ensures
        r == any_code(inlines_model(runs@)),
{
    let ghost m = inlines_model(runs@);
    let mut found = false;
    let mut k: usize = 0;
    proof {
        assert(m.skip(0) =~= m);
    }
    while k < runs.len()
        invariant
            0 <= k <= runs@.len(),
            m == inlines_model(runs@),
            any_code(m) == (found || any_code(m.skip(k as int))),
        decreases runs@.len() - k,
    {
        proof {
            assert(m.skip(k as int)[0] == runs@[k as int].model());
            assert(m.skip(k as int).drop_first() =~= m.skip(k + 1));
        }
        if runs[k].code {
            found = true;
        }
        k += 1;
    }
    proof {
        assert(!any_code(m.skip(k as int)));
    }
    found
}

/// The first non-empty run's style flags: exec computation of
/// [`first_style`].
fn first_style_exec(runs: &Vec<InlineNode>) -> (r: (bool, bool, bool))
    ensures
        r == first_style(inlines_model(runs@)),
{
    let ghost m = inlines_model(runs@);
    let mut k: usize = 0;
    proof {
        assert(m.skip(0) =~= m);
    }
    while k < runs.len()
        invariant
            0 <= k <= runs@.len(),
            m == inlines_model(runs@),
            first_style(m) == first_style(m.skip(k as int)),
        decreases runs@.len() - k,
    {
        proof {
            assert(m.skip(k as int)[0] == runs@[k as int].model());
            assert(m.skip(k as int).drop_first() =~= m.skip(k + 1));
        }
        if !runs[k].text.as_str().is_empty() {
            return (runs[k].bold, runs[k].italic, runs[k].code);
        }
        k += 1;
    }
    proof {
        assert(first_style(m.skip(k as int)) == (false, false, false));
    }
    (false, false, false)
}

impl PdfWriter {
    /// Writes a block of runs with word wrapping: the texts joined behind
    /// the prefix, wrapped to the indented width, drawn in the first
    /// non-empty run's style, paginating before each line.
    pub fn write_inline_block(
        &mut self,
        children: &Vec<InlineNode>,
        size: u64,
        indent: u64,
        prefix: &[char],
    )
        requires
            pw_wf(old(self).model()),
            1 <= size <= 100,
            indent <= 10000,
        ensures
            final(self).model() == sp_write_inline_block(
                old(self).model(),
                inlines_model(children@),
                size as int,
                indent as int,
                prefix@,
            ),
            pw_wf(final(self).model()),
    {
        let ghost m = inlines_model(children@);
        let mut full: Vec<char> = vstd::slice::slice_to_vec(prefix);
        append_runs_text(&mut full, children);
        let mono = any_code_exec(children);
        let style = first_style_exec(children);
        let lines = wrap_text(&full, size, USABLE_WIDTH_UM - indent, mono);
        let lh = line_h(size);
        self.write_lines(&lines, size, style.0, style.1, style.2, indent, lh);
        proof {
            assert(full@ == prefix@ + inline_text(m));
        }
    }
}

/// The runs with the bold flag forced on: exec computation of
/// [`sp_force_bold`].
fn force_bold_vec(children: &Vec<InlineNode>) -> (r: Vec<InlineNode>)
    ensures
        inlines_model(r@) == sp_force_bold(inlines_model(children@)),
{
    let mut out: Vec<InlineNode> = Vec::new();
    let mut k: usize = 0;
    while k < children.len()
        invariant
            0 <= k <= children@.len(),
            out@.len() == k,
            forall|j: int|
                0 <= j < k ==> out@[j].model() == (InlineModel {
                    text: children@[j].model().text,
                    bold: true,
                    italic: children@[j].model().italic,
                    underline: children@[j].model().underline,
                    code: children@[j].model().code,
                }),
        decreases children@.len() - k,
    {
        let c = &children[k];
        out.push(
            InlineNode {
                text: c.text.clone(),
                bold: true,
                italic: c.italic,
                underline: c.underline,
                code: c.code,
            },
        );
        k += 1;
    }
    proof {
        assert(inlines_model(out@) =~= sp_force_bold(inlines_model(children@)));
    }
    out
}

/// The runs with the italic flag forced on: exec computation of
/// [`sp_force_italic`].
fn force_italic_vec(children: &Vec<InlineNode>) -> (r: Vec<InlineNode>)
    ensures
        inlines_model(r@) == sp_force_italic(inlines_model(children@)),
{
    let mut out: Vec<InlineNode> = Vec::new();
    let mut k: usize = 0;
    while k < children.len()
        invariant
            0 <= k <= children@.len(),
            out@.len() == k,
            forall|j: int|
                0 <= j < k ==> out@[j].model() == (InlineModel {
                    text: children@[j].model().text,
                    bold: children@[j].model().bold,
                    italic: true,
                    underline: children@[j].model().underline,
                    code: children@[j].model().code,
                }),
        decreases children@.len() - k,
    {
        let c = &children[k];
        out.push(
            InlineNode {
                text: c.text.clone(),
                bold: c.bold,
                italic: true,
                underline: c.underline,
                code: c.code,
            },
        );
        k += 1;
    }
    proof {
        assert(inlines_model(out@) =~= sp_force_italic(inlines_model(children@)));
    }
    out
}

/// The pipe-joined plain text of one table row: exec computation of
/// [`sp_row_text`].
fn row_text_build(cells: &Vec<Vec<InlineNode>>) -> (r: Vec<char>)
    ensures
        r@ == sp_row_text(crate::blocks::items_model(cells@), 0),
{
    let ghost cm = crate::blocks::items_model(cells@);
    let mut out: Vec<char> = Vec::new();
    let mut ci: usize = 0;
    proof {
        assert(Seq::<char>::empty() + sp_row_text(cm, 0) =~= sp_row_text(cm, 0));
    }
    while ci < cells.len()
        invariant
            0 <= ci <= cells@.len(),
            cm == crate::blocks::items_model(cells@),
            sp_row_text(cm, 0) =~= out@ + sp_row_text(cm, ci as int),
        decreases cells@.len() - ci,
    {
        proof {
            assert(cm[ci as int] == inlines_model(cells@[ci as int]@));
        }
        if ci > 0 {
            out.push(' ');
            out.push(' ');
            out.push('|');
            out.push(' ');
            out.push(' ');
        }
        let ghost before = out@;
        append_runs_text(&mut out, &cells[ci]);
        proof {
            if ci == 0 {
                assert(sp_row_text(cm, 0int) == inline_text(cm[0]) + sp_row_text(cm, 1int));
                assert(out@ + sp_row_text(cm, ci + 1int) =~= sp_row_text(cm, 0));
            } else {
                assert(sp_row_text(cm, ci as int) == seq![' ', ' ', '|', ' ', ' '] + inline_text(
                    cm[ci as int],
                ) + sp_row_text(cm, ci + 1int));
                assert(out@ + sp_row_text(cm, ci + 1int) =~= sp_row_text(cm, 0));
            }
        }
        ci += 1;
    }
    proof {
        assert(sp_row_text(cm, ci as int) =~= Seq::<char>::empty());
        assert(out@ + sp_row_text(cm, ci as int) =~= out@);
    }
    out
}

/// The source lines of a code block's text: exec computation of
/// [`sp_src_lines`].
pub fn split_src_lines(cs: &Vec<char>) -> (r: Vec<Vec<char>>)
    ensures
        r@.map_values(|l: Vec<char>| l@) == sp_src_lines(cs@),
{
    let mut pieces: Vec<Vec<char>> = Vec::new();
    let mut rest = sub_vec(cs, 0, cs.len());
    proof {
        assert(rest@ =~= cs@);
        assert(pieces@.map_values(|l: Vec<char>| l@) + spec_hard_lines(rest@) =~= spec_hard_lines(
            cs@,
        ));
    }
    loop
        invariant_except_break
            spec_hard_lines(cs@) =~= pieces@.map_values(|l: Vec<char>| l@) + spec_hard_lines(
                rest@,
            ),
        ensures
            pieces@.map_values(|l: Vec<char>| l@) =~= spec_hard_lines(cs@),
        decreases rest@.len(),
    {
        let j = crate::scan::scan_to_exec(&rest, 0, '\n');
        let hl = sub_vec(&rest, 0, j);
        if j >= rest.len() {
            proof {
                assert(spec_hard_lines(rest@) =~= seq![rest@]);
                assert(hl@ =~= rest@);
                assert(pieces@.push(hl).map_values(|l: Vec<char>| l@) =~= pieces@.map_values(
                    |l: Vec<char>| l@,
                ) + seq![rest@]);
            }
            pieces.push(hl);
            break;
        }
        let n = rest.len();
        let tail = sub_vec(&rest, j + 1, n);
        proof {
            assert(spec_hard_lines(rest@) =~= seq![rest@.subrange(0, j as int)] + spec_hard_lines(
                rest@.subrange(j + 1, rest@.len() as int),
            ));
            assert(pieces@.push(hl).map_values(|l: Vec<char>| l@) =~= pieces@.map_values(
                |l: Vec<char>| l@,
            ).push(hl@));
            assert(pieces@.map_values(|l: Vec<char>| l@).push(hl@) + spec_hard_lines(tail@)
                =~= pieces@.map_values(|l: Vec<char>| l@) + (seq![hl@] + spec_hard_lines(tail@)));
        }
        pieces.push(hl);
        rest = tail;
    }
    let ghost ps = spec_hard_lines(cs@);
    let mut popped = false;
    if pieces.len() > 0 && pieces[pieces.len() - 1].len() == 0 {
        pieces.pop();
        popped = true;
        proof {
            assert(pieces@.map_values(|l: Vec<char>| l@) =~= ps.drop_last());
        }
    }
    let ghost target = sp_src_lines(cs@);
    let ghost km = pieces@.map_values(|l: Vec<char>| l@);
    proof {
        if popped {
            assert(target =~= km.map_values(|p: Seq<char>| sp_strip_cr(p)));
        } else {
            assert(km =~= ps);
            assert(target =~= ps.drop_last().map_values(|p: Seq<char>| sp_strip_cr(p)).push(
                ps[ps.len() - 1],
            ));
        }
        assert(target.len() == pieces@.len());
    }
    let mut out: Vec<Vec<char>> = Vec::new();
    let mut k: usize = 0;
    while k < pieces.len()
        invariant
            0 <= k <= pieces@.len(),
            km == pieces@.map_values(|l: Vec<char>| l@),
            target == sp_src_lines(cs@),
            target.len() == pieces@.len(),
            forall|j: int|
                0 <= j < pieces@.len() ==> target[j] == (if popped || j + 1 < pieces@.len() {
                    sp_strip_cr(km[j])
                } else {
                    km[j]
                }),
            out@.len() == k,
            forall|j: int| 0 <= j < k ==> out@[j]@ == target[j],
        decreases pieces@.len() - k,
    {
        let p = &pieces[k];
        let n = p.len();
        let stripped: Vec<char> = if popped || k + 1 < pieces.len() {
            if n > 0 && p[n - 1] == '\r' {
                sub_vec(p, 0, n - 1)
            } else {
                sub_vec(p, 0, n)
            }
        } else {
            sub_vec(p, 0, n)
        };
        proof {
            assert(stripped@ =~= target[k as int]);
        }
        out.push(stripped);
        k += 1;
    }
    proof {
        assert(out@.map_values(|l: Vec<char>| l@) =~= target);
    }
    out
}

/// The caption of an image block: exec computation of [`sp_caption`].
fn caption_of(alt: &str) -> (r: Vec<char>)
    ensures
        r@ == sp_caption(alt@),
{
    let mut out: Vec<char> = Vec::new();
    out.push('[');
    out.push('I');
    out.push('m');
    out.push('a');
    out.push('g');
    out.push('e');
    if alt.is_empty() {
        out.push(']');
        proof {
            assert(out@ =~= sp_caption(alt@));
        }
    } else {
        out.push(':');
        out.push(' ');
        let mut ac = chars_of(alt);
        out.append(&mut ac);
        out.push(']');
        proof {
            assert(out@ =~= sp_caption(alt@));
        }
    }
    out
}

/// Renders a whole document onto the page description: the title in
/// large bold type over a grey rule, then every block of the parsed
/// markup in order, wrapped and paginated.
#[verifier::rlimit(100)]
pub fn build_pdf(title: &str, html: &str) -> (w: PdfWriter)
    ensures
        w.model() == spec_build_pdf(title@, html@),
        pw_wf(w.model()),
{
    let mut w = PdfWriter::new();
    let tcs = chars_of(title);
    let tl = wrap_text(&tcs, 20, USABLE_WIDTH_UM, false);
    let tlh: u64 = (20 * UM_PER_PT * 15) / 10;
    w.write_lines(&tl, 20, true, false, false, 0, tlh);
    w.write_spacer(6000);
    let ry = w.y_um;
    w.push_rule(MARGIN_UM, ry, PAGE_WIDTH_UM - MARGIN_UM, ry, 5, 70);
    w.write_spacer(6000);
    let hcs = chars_of(html);
    let nodes = parse_html_chars(&hcs);
    let ghost st4 = w.model();
    let ghost bm = blocks_model(nodes@);
    proof {
        assert(bm == spec_parse_html(html@));
        assert(bm.skip(0) =~= bm);
    }
    let mut bi: usize = 0;
    while bi < nodes.len()
        invariant
            0 <= bi <= nodes@.len(),
            bm == blocks_model(nodes@),
            pw_wf(w.model()),
            sp_render_blocks(st4, bm) == sp_render_blocks(w.model(), bm.skip(bi as int)),
        decreases nodes@.len() - bi,
    {
        let ghost mprev = w.model();
        proof {
            assert(bm.skip(bi as int)[0] == bm[bi as int]);
            assert(bm.skip(bi as int).drop_first() =~= bm.skip(bi + 1));
            assert(bm[bi as int] == nodes@[bi as int].model());
        }
        let nd = &nodes[bi];
        match nd {
            HtmlNode::Heading { level, children } => {
                let lv = *level;
                let size: u64 = if lv == 1 {
                    18
                } else if lv == 2 {
                    15
                } else if lv == 3 {
                    13
                } else {
                    12
                };
                w.write_spacer(3000);
                let modified = force_bold_vec(children);
                let e: &[char] = &[];
                w.write_inline_block(&modified, size, 0, e);
                w.write_spacer(2000);
                proof {
                    assert(e@ =~= Seq::<char>::empty());
                    assert(w.model() == sp_render_block(mprev, bm[bi as int]));
                }
            },
            HtmlNode::Paragraph { children } => {
                let e: &[char] = &[];
                w.write_inline_block(children, 11, 0, e);
                w.write_spacer(3000);
                proof {
                    assert(e@ =~= Seq::<char>::empty());
                    assert(w.model() == sp_render_block(mprev, bm[bi as int]));
                }
            },
            HtmlNode::UnorderedList { items } => {
                let ghost im = crate::blocks::items_model(items@);
                let ghost me = w.model();
                proof {
                    assert(im.skip(0) =~= im);
                }
                let mut ii: usize = 0;
                while ii < items.len()
                    invariant
                        0 <= ii <= items@.len(),
                        im == crate::blocks::items_model(items@),
                        pw_wf(w.model()),
                        sp_ul_items(me, im) == sp_ul_items(w.model(), im.skip(ii as int)),
                    decreases items@.len() - ii,
                {
                    proof {
                        assert(im.skip(ii as int)[0] == im[ii as int]);
                        assert(im.skip(ii as int).drop_first() =~= im.skip(ii + 1));
                        assert(im[ii as int] == inlines_model(items@[ii as int]@));
                    }
                    let b: &[char] = &['\u{2022}', ' ', ' '];
                    w.write_inline_block(&items[ii], 11, 8000, b);
                    w.write_spacer(1500);
                    proof {
                        assert(b@ =~= sp_bullet());
                    }
                    ii += 1;
                }
                proof {
                    assert(im.skip(ii as int).len() == 0);
                }
                w.write_spacer(2000);
                proof {
                    assert(w.model() == sp_render_block(mprev, bm[bi as int]));
                }
            },
            HtmlNode::OrderedList { items } => {
                let ghost im = crate::blocks::items_model(items@);
                let ghost me = w.model();
                proof {
                    assert(im.skip(0) =~= im);
                }
                let mut ii: usize = 0;
                while ii < items.len()
                    invariant
                        0 <= ii <= items@.len(),
                        im == crate::blocks::items_model(items@),
                        pw_wf(w.model()),
                        sp_ol_items(me, im, 1) == sp_ol_items(
                            w.model(),
                            im.skip(ii as int),
                            ii + 1int,
                        ),
                    decreases items@.len() - ii,
                {
                    proof {
                        assert(im.skip(ii as int)[0] == im[ii as int]);
                        assert(im.skip(ii as int).drop_first() =~= im.skip(ii + 1));
                        assert(im[ii as int] == inlines_model(items@[ii as int]@));
                    }
                    let num = fmt_u64((ii + 1) as u64);
                    let mut pfx = chars_of(num.as_str());
                    pfx.push('.');
                    pfx.push(' ');
                    proof {
                        assert(pfx@ =~= sp_ordinal(ii + 1int));
                    }
                    w.write_inline_block(&items[ii], 11, 8000, pfx.as_slice());
                    w.write_spacer(1500);
                    ii += 1;
                }
                proof {
                    assert(im.skip(ii as int).len() == 0);
                }
                w.write_spacer(2000);
                proof {
                    assert(w.model() == sp_render_block(mprev, bm[bi as int]));
                }
            },
            HtmlNode::Blockquote { children } => {
                let est: u64 = if children.len() > 0 {
                    children.len() as u64
                } else {
                    1
                };
                let bot: u64 = if est <= 49 {
                    let t = est * 5436 + 2000;
                    if w.y_um > t && w.y_um - t > MARGIN_UM {
                        w.y_um - t
                    } else {
                        MARGIN_UM
                    }
                } else {
                    MARGIN_UM
                };
                proof {
                    assert(spec_line_h(11) == 5436);
                    assert(bot as int == ({
                        let raw = mprev.y - est * spec_line_h(11) - 2000;
                        if raw > MARGIN_UM {
                            raw
                        } else {
                            MARGIN_UM as int
                        }
                    }));
                }
                let ty = w.y_um + 2000;
                let bx = MARGIN_UM + 3000;
                w.push_rule(bx, ty, bx, bot, 15, 60);
                let modified = force_italic_vec(children);
                let e: &[char] = &[];
                w.write_inline_block(&modified, 11, 10000, e);
                w.write_spacer(3000);
                proof {
                    assert(e@ =~= Seq::<char>::empty());
                    assert(w.model() == sp_render_block(mprev, bm[bi as int]));
                }
            },
            HtmlNode::CodeBlock { text } => {
                w.write_spacer(2000);
                let tcs2 = chars_of(text.as_str());
                let lines = split_src_lines(&tcs2);
                let ghost lm = lines@.map_values(|l: Vec<char>| l@);
                let ghost me = w.model();
                proof {
                    assert(lm.skip(0) =~= lm);
                }
                let mut li: usize = 0;
                while li < lines.len()
                    invariant
                        0 <= li <= lines@.len(),
                        lm == lines@.map_values(|l: Vec<char>| l@),
                        pw_wf(w.model()),
                        sp_code_lines(me, lm) == sp_code_lines(w.model(), lm.skip(li as int)),
                    decreases lines@.len() - li,
                {
                    proof {
                        assert(lm.skip(li as int)[0] == lines@[li as int]@);
                        assert(lm.skip(li as int).drop_first() =~= lm.skip(li + 1));
                    }
                    let mut one: Vec<InlineNode> = Vec::new();
                    one.push(
                        InlineNode {
                            text: string_from(&lines[li]),
                            bold: false,
                            italic: false,
                            underline: false,
                            code: true,
                        },
                    );
                    let e: &[char] = &[];
                    proof {
                        assert(e@ =~= Seq::<char>::empty());
                        assert(inlines_model(one@) =~= seq![
                            InlineModel {
                                text: lines@[li as int]@,
                                bold: false,
                                italic: false,
                                underline: false,
                                code: true,
                            },
                        ]);
                    }
                    w.write_inline_block(&one, 9, 6000, e);
                    li += 1;
                }
                proof {
                    assert(lm.skip(li as int).len() == 0);
                }
                w.write_spacer(3000);
                proof {
                    assert(w.model() == sp_render_block(mprev, bm[bi as int]));
                }
            },
            HtmlNode::HorizontalRule => {
                w.write_spacer(3000);
                let y2 = w.y_um;
                w.push_rule(MARGIN_UM, y2, PAGE_WIDTH_UM - MARGIN_UM, y2, 5, 75);
                w.write_spacer(3000);
                proof {
                    assert(w.model() == sp_render_block(mprev, bm[bi as int]));
                }
            },
            HtmlNode::Table { rows } => {
                w.write_spacer(2000);
                let ghost rm = crate::blocks::rows_model(rows@);
                let ghost me = w.model();
                proof {
                    assert(rm.skip(0) =~= rm);
                }
                let mut ri: usize = 0;
                while ri < rows.len()
                    invariant
                        0 <= ri <= rows@.len(),
                        rm == crate::blocks::rows_model(rows@),
                        pw_wf(w.model()),
                        sp_table_rows(me, rm) == sp_table_rows(w.model(), rm.skip(ri as int)),
                    decreases rows@.len() - ri,
                {
                    proof {
                        assert(rm.skip(ri as int)[0] == rm[ri as int]);
                        assert(rm.skip(ri as int).drop_first() =~= rm.skip(ri + 1));
                        assert(rm[ri as int] == crate::blocks::items_model(rows@[ri as int]@));
                    }
                    let rt = row_text_build(&rows[ri]);
                    let mut one: Vec<InlineNode> = Vec::new();
                    one.push(
                        InlineNode {
                            text: string_from(&rt),
                            bold: false,
                            italic: false,
                            underline: false,
                            code: false,
                        },
                    );
                    let e: &[char] = &[];
                    proof {
                        assert(e@ =~= Seq::<char>::empty());
                        assert(inlines_model(one@) =~= seq![
                            InlineModel {
                                text: sp_row_text(rm[ri as int], 0),
                                bold: false,
                                italic: false,
                                underline: false,
                                code: false,
                            },
                        ]);
                    }
                    w.write_inline_block(&one, 10, 0, e);
                    w.write_spacer(1000);
                    ri += 1;
                }
                proof {
                    assert(rm.skip(ri as int).len() == 0);
                }
                w.write_spacer(2000);
                proof {
                    assert(w.model() == sp_render_block(mprev, bm[bi as int]));
                }
            },
            HtmlNode::Image { src, alt } => {
                let cap = caption_of(alt.as_str());
                let mut one: Vec<InlineNode> = Vec::new();
                one.push(
                    InlineNode {
                        text: string_from(&cap),
                        bold: false,
                        italic: true,
                        underline: false,
                        code: false,
                    },
                );
                let e: &[char] = &[];
                proof {
                    assert(e@ =~= Seq::<char>::empty());
                    assert(inlines_model(one@) =~= seq![
                        InlineModel {
                            text: sp_caption(alt@),
                            bold: false,
                            italic: true,
                            underline: false,
                            code: false,
                        },
                    ]);
                }
                w.write_inline_block(&one, 10, 0, e);
                w.write_spacer(3000);
                proof {
                    assert(w.model() == sp_render_block(mprev, bm[bi as int]));
                }
            },
        }
        proof {
            assert(sp_render_blocks(mprev, bm.skip(bi as int)) == sp_render_blocks(
                w.model(),
                bm.skip(bi + 1),
            ));
        }
        bi += 1;
    }
    proof {
        assert(bm.skip(bi as int).len() == 0);
        assert(sp_render_blocks(w.model(), bm.skip(bi as int)) == w.model());
    }
    w
}


/// The page count never goes backward while lines are written.
pub proof fn lemma_put_lines_monotone(
    st: PwModel,
    lines: Seq<Seq<char>>,
    size: int,
    bold: bool,
    italic: bool,
    mono: bool,
    indent: int,
    lh: int,
)
    ensures
        sp_put_lines(st, lines, size, bold, italic, mono, indent, lh).pages >= st.pages,
    decreases lines.len(),
{
    if lines.len() > 0 {
        let st1 = sp_put_line(st, lines[0], size, bold, italic, mono, indent, lh);
        assert(st1.pages >= st.pages);
        lemma_put_lines_monotone(st1, lines.drop_first(), size, bold, italic, mono, indent, lh);
    }
}

/// Pagination law at block level: a run of wrapped lines that needs more
/// height than is left above the bottom margin forces at least one page
/// break.  (The page count must sit below its saturation cap, a machine
/// limit.)
pub proof fn lemma_lines_overflow_breaks_page(
    st: PwModel,
    lines: Seq<Seq<char>>,
    size: int,
    bold: bool,
    italic: bool,
    mono: bool,
    indent: int,
    lh: int,
)
    requires
        pw_wf(st),
        0 < lh <= 60000,
        st.pages < PAGE_CAP,
        lines.len() * lh > st.y - MARGIN_UM,
    ensures
        sp_put_lines(st, lines, size, bold, italic, mono, indent, lh).pages > st.pages,
    decreases lines.len(),
{
    assert(lines.len() * lh > 0);
    assert(lines.len() > 0) by (nonlinear_arith)
        requires
            lines.len() * lh > 0,
            lh > 0,
    ;
    let st1 = sp_put_line(st, lines[0], size, bold, italic, mono, indent, lh);
    if st.y < MARGIN_UM + lh {
        assert(st1.pages == st.pages + 1);
        lemma_put_lines_monotone(st1, lines.drop_first(), size, bold, italic, mono, indent, lh);
    } else {
        assert(st1.pages == st.pages);
        assert(st1.y == st.y - lh);
        assert(pw_wf(st1));
        assert((lines.len() - 1) * lh == lines.len() * lh - lh) by (nonlinear_arith);
        assert(lines.drop_first().len() * lh > st1.y - MARGIN_UM);
        lemma_lines_overflow_breaks_page(
            st1,
            lines.drop_first(),
            size,
            bold,
            italic,
            mono,
            indent,
            lh,
        );
    }
}


/// Pagination law at the block level: a block of runs whose wrapped
/// lines need more height than is left above the bottom margin forces at
/// least one page break.
pub proof fn lemma_block_overflow_breaks_page(
    st: PwModel,
    children: Seq<InlineModel>,
    size: u64,
    indent: int,
    prefix: Seq<char>,
)
    requires
        pw_wf(st),
        1 <= size <= 100,
        st.pages < PAGE_CAP,
        spec_wrap(
            prefix + inline_text(children),
            spec_char_w(size, any_code(children)),
            USABLE_WIDTH_UM - indent,
        ).len() * spec_line_h(size) > st.y - MARGIN_UM,
    ensures
        sp_write_inline_block(st, children, size as int, indent, prefix).pages > st.pages,
{
    let lines = spec_wrap(
        prefix + inline_text(children),
        spec_char_w(size, any_code(children)),
        USABLE_WIDTH_UM - indent,
    );
    let style = first_style(children);
    assert(0 < spec_line_h(size) <= 60000);
    lemma_lines_overflow_breaks_page(
        st,
        lines,
        size as int,
        style.0,
        style.1,
        style.2,
        indent,
        spec_line_h(size),
    );
}

/// Pagination law: writing a line that does not fit above the bottom
/// margin begins a new page, and the line is drawn at the top margin of
/// that page with the cursor resuming below it; a line that fits leaves
/// the page count alone.
pub proof fn lemma_page_break(
    st: PwModel,
    line: Seq<char>,
    size: int,
    bold: bool,
    italic: bool,
    mono: bool,
    indent: int,
    lh: int,
)
    requires
        pw_wf(st),
        0 < lh <= 60000,
    ensures
        st.y < MARGIN_UM + lh ==> {
            let st2 = sp_put_line(st, line, size, bold, italic, mono, indent, lh);
            &&& st2.pages == sp_next_page(st.pages)
            &&& st2.ops.last() == (OpModel::Text {
                page: sp_next_page(st.pages),
                x_um: MARGIN_UM + indent,
                y_um: TOP_Y_UM as int,
                size_pt: size,
                bold,
                italic,
                mono,
                text: line,
            })
            &&& st2.y == TOP_Y_UM - lh
        },
        st.y >= MARGIN_UM + lh ==> {
            let st2 = sp_put_line(st, line, size, bold, italic, mono, indent, lh);
            &&& st2.pages == st.pages
            &&& st2.y == st.y - lh
        },
{
}

} // verus!
