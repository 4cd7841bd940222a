//! Character-level text utilities shared by the scanner, the parsers and the
//! renderers: whitespace classification, ASCII case-insensitive matching,
//! trimming, and decoding of the fixed character-entity table.

use vstd::prelude::*;

verus! {

/// The whitespace characters the engine recognises: the Unicode
/// White_Space set, as the standard library's whitespace test gives it.
pub open spec fn is_space_char(c: char) -> bool {
    ||| c == ' '
    ||| c == '\t'
    ||| c == '\n'
    ||| c == '\r'
    ||| c == '\u{0b}'
    ||| c == '\u{0c}'
    ||| c == '\u{85}'
    ||| c == '\u{a0}'
    ||| c == '\u{1680}'
    ||| ('\u{2000}' <= c && c <= '\u{200a}')
    ||| c == '\u{2028}'
    ||| c == '\u{2029}'
    ||| c == '\u{202f}'
    ||| c == '\u{205f}'
    ||| c == '\u{3000}'
}

/// Exec test for [`is_space_char`].
pub fn is_space(c: char) -> (r: bool)
    ensures
        r == is_space_char(c),
{
    c == ' ' || c == '\t' || c == '\n' || c == '\r' || c == '\u{0b}' || c == '\u{0c}' || c
        == '\u{85}' || c == '\u{a0}' || c == '\u{1680}' || ('\u{2000}' <= c && c
        <= '\u{200a}') || c == '\u{2028}' || c == '\u{2029}' || c == '\u{202f}' || c
        == '\u{205f}' || c == '\u{3000}'
}

/// Code point of `c` with an ASCII capital letter folded to its small form.
pub open spec fn lower_code(c: char) -> int {
    if 'A' <= c && c <= 'Z' {
        c as u32 + 32
    } else {
        c as u32 as int
    }
}

/// The character with an ASCII capital letter folded to its small form.
pub open spec fn lower_char(c: char) -> char {
    if 'A' <= c && c <= 'Z' {
        (c as u32 + 32) as char
    } else {
        c
    }
}

/// A text with ASCII capital letters folded to their small forms.
pub open spec fn sp_lower(s: Seq<char>) -> Seq<char> {
    s.map_values(|c: char| lower_char(c))
}

/// Exec computation of [`lower_char`].
pub fn lower_char_exec(c: char) -> (r: char)
    ensures
        r == lower_char(c),
{
    match c {
        'A' => 'a',
        'B' => 'b',
        'C' => 'c',
        'D' => 'd',
        'E' => 'e',
        'F' => 'f',
        'G' => 'g',
        'H' => 'h',
        'I' => 'i',
        'J' => 'j',
        'K' => 'k',
        'L' => 'l',
        'M' => 'm',
        'N' => 'n',
        'O' => 'o',
        'P' => 'p',
        'Q' => 'q',
        'R' => 'r',
        'S' => 's',
        'T' => 't',
        'U' => 'u',
        'V' => 'v',
        'W' => 'w',
        'X' => 'x',
        'Y' => 'y',
        'Z' => 'z',
        _ => c,
    }
}

/// Folds a character vector to small letters: exec computation of
/// [`sp_lower`].
pub fn lower_vec(v: &Vec<char>) -> (r: Vec<char>)
    ensures
        r@ == sp_lower(v@),
{
    let mut out: Vec<char> = Vec::new();
    let mut i: usize = 0;
    while i < v.len()
        invariant
            0 <= i <= v@.len(),
            out@.len() == i,
            forall|j: int| 0 <= j < i ==> out@[j] == lower_char(v@[j]),
        decreases v@.len() - i,
    {
        out.push(lower_char_exec(v[i]));
        i += 1;
    }
    proof {
        assert(out@ =~= sp_lower(v@));
    }
    out
}

/// Two characters match modulo ASCII case.
pub open spec fn ieq_char(a: char, b: char) -> bool {
    lower_code(a) == lower_code(b)
}

/// Exec test for [`ieq_char`].
pub fn ieq(a: char, b: char) -> (r: bool)
    ensures
        r == ieq_char(a, b),
{
    let ca: u32 = if 'A' <= a && a <= 'Z' {
        a as u32 + 32
    } else {
        a as u32
    };
    let cb: u32 = if 'A' <= b && b <= 'Z' {
        b as u32 + 32
    } else {
        b as u32
    };
    ca == cb
}

/// Two character sequences match modulo ASCII case.
pub open spec fn ieq_seq(a: Seq<char>, b: Seq<char>) -> bool {
    a.len() == b.len() && forall|i: int| 0 <= i < a.len() ==> ieq_char(a[i], b[i])
}

/// Exec test for [`ieq_seq`] on a vector against a literal slice.
pub fn ieq_vec(a: &Vec<char>, b: &[char]) -> (r: bool)
    ensures
        r == ieq_seq(a@, b@),
{
    if a.len() != b.len() {
        return false;
    }
    let mut i: usize = 0;
    while i < a.len()
        invariant
            i <= a.len(),
            a.len() == b.len(),
            forall|j: int| 0 <= j < i ==> ieq_char(a@[j], b@[j]),
        decreases a.len() - i,
    {
        if !ieq(a[i], b[i]) {
            return false;
        }
        i += 1;
    }
    true
}

/// The characters `pat` stand in `cs` at position `i`, exactly.
pub open spec fn match_at(cs: Seq<char>, i: int, pat: Seq<char>) -> bool {
    0 <= i && i + pat.len() <= cs.len() && cs.subrange(i, i + pat.len()) =~= pat
}

/// The characters `pat` stand in `cs` at position `i`, modulo ASCII case.
pub open spec fn imatch_at(cs: Seq<char>, i: int, pat: Seq<char>) -> bool {
    0 <= i && i + pat.len() <= cs.len() && ieq_seq(cs.subrange(i, i + pat.len()), pat)
}

/// Exec test for [`match_at`].
pub fn match_at_exec(cs: &Vec<char>, i: usize, pat: &[char]) -> (r: bool)
    ensures
        r == match_at(cs@, i as int, pat@),
{
    if pat.len() > cs.len() || i > cs.len() - pat.len() {
        assert(!match_at(cs@, i as int, pat@));
        return false;
    }
    let mut k: usize = 0;
    while k < pat.len()
        invariant
            k <= pat.len(),
            i + pat.len() <= cs.len(),
            forall|j: int| 0 <= j < k ==> cs@[i + j] == pat@[j],
        decreases pat.len() - k,
    {
        if cs[i + k] != pat[k] {
            assert(cs@.subrange(i as int, i + pat@.len())[k as int] != pat@[k as int]);
            return false;
        }
        k += 1;
    }
    assert(cs@.subrange(i as int, i + pat@.len()) =~= pat@);
    true
}

/// Exec test for [`imatch_at`].
pub fn imatch_at_exec(cs: &Vec<char>, i: usize, pat: &[char]) -> (r: bool)
    ensures
        r == imatch_at(cs@, i as int, pat@),
{
    if pat.len() > cs.len() || i > cs.len() - pat.len() {
        assert(!imatch_at(cs@, i as int, pat@));
        return false;
    }
    let mut k: usize = 0;
    while k < pat.len()
        invariant
            k <= pat.len(),
            i + pat.len() <= cs.len(),
            forall|j: int| 0 <= j < k ==> ieq_char(cs@[i + j], pat@[j]),
        decreases pat.len() - k,
    {
        if !ieq(cs[i + k], pat[k]) {
            assert(!ieq_char(
                cs@.subrange(i as int, i + pat@.len())[k as int],
                pat@[k as int],
            ));
            return false;
        }
        k += 1;
    }
    assert(forall|j: int|
        0 <= j < pat@.len() ==> ieq_char(cs@.subrange(i as int, i + pat@.len())[j], pat@[j]));
    true
}

/// Relies on `String::push`: appends one character to the string.
#[verifier::external_body]
pub fn push_char(s: &mut String, c: char)
    ensures
        final(s)@ == old(s)@.push(c),
{
    s.push(c);
}

/// Copies the characters of a string into a vector.
pub fn chars_of(s: &str) -> (v: Vec<char>)
    ensures
        v@ == s@,
{
    let n = s.unicode_len();
    let mut v: Vec<char> = Vec::new();
    let mut i: usize = 0;
    while i < n
        invariant
            i <= n,
            n == s@.len(),
            v@ =~= s@.subrange(0, i as int),
        decreases n - i,
    {
        v.push(s.get_char(i));
        i += 1;
    }
    assert(v@ =~= s@);
    v
}

/// Builds a string out of a character vector.
pub fn string_from(cs: &Vec<char>) -> (s: String)
    ensures
        s@ == cs@,
{
    let mut s = String::new();
    let mut i: usize = 0;
    while i < cs.len()
        invariant
            i <= cs.len(),
            s@ =~= cs@.subrange(0, i as int),
        decreases cs.len() - i,
    {
        push_char(&mut s, cs[i]);
        i += 1;
    }
    assert(s@ =~= cs@);
    s
}

/// Copies the characters `a..b` of a vector.
pub fn sub_vec(cs: &Vec<char>, a: usize, b: usize) -> (v: Vec<char>)
    requires
        a <= b <= cs@.len(),
    ensures
        v@ == cs@.subrange(a as int, b as int),
{
    let mut v: Vec<char> = Vec::new();
    let mut i: usize = a;
    while i < b
        invariant
            a <= i <= b <= cs@.len(),
            v@ =~= cs@.subrange(a as int, i as int),
        decreases b - i,
    {
        v.push(cs[i]);
        i += 1;
    }
    assert(v@ =~= cs@.subrange(a as int, b as int));
    v
}

/// First position at or after `i` holding a character other than a blank.
pub open spec fn skip_ws(cs: Seq<char>, i: int) -> int
    decreases cs.len() - i when 0 <= i <= cs.len()
{
    if i < cs.len() && is_space_char(cs[i]) {
        skip_ws(cs, i + 1)
    } else {
        i
    }
}

pub proof fn lemma_skip_ws_bounds(cs: Seq<char>, i: int)
    requires
        0 <= i <= cs.len(),
    ensures
        i <= skip_ws(cs, i) <= cs.len(),
    decreases cs.len() - i,
{
    if i < cs.len() && is_space_char(cs[i]) {
        lemma_skip_ws_bounds(cs, i + 1);
    }
}

pub proof fn lemma_skip_ws_stops(cs: Seq<char>, i: int)
    requires
        0 <= i <= cs.len(),
    ensures
        skip_ws(cs, i) < cs.len() ==> !is_space_char(cs[skip_ws(cs, i)]),
    decreases cs.len() - i,
{
    if i < cs.len() && is_space_char(cs[i]) {
        lemma_skip_ws_stops(cs, i + 1);
    }
}

/// Exec computation of [`skip_ws`].
pub fn skip_ws_exec(cs: &Vec<char>, i: usize) -> (r: usize)
    requires
        i <= cs@.len(),
    ensures
        r == skip_ws(cs@, i as int),
        i <= r <= cs@.len(),
{
    let mut p = i;
    while p < cs.len() && is_space(cs[p])
        invariant
            i <= p <= cs@.len(),
            skip_ws(cs@, i as int) == skip_ws(cs@, p as int),
        decreases cs.len() - p,
    {
        p += 1;
    }
    proof {
        lemma_skip_ws_bounds(cs@, p as int);
    }
    p
}

/// The character entity standing at position `i` of `cs`, if any: the
/// length of the entity and the character it decodes to.  The table is
/// fixed and matched literally.
pub open spec fn spec_try_entity(cs: Seq<char>, i: int) -> Option<(int, char)> {
    if match_at(cs, i, seq!['&', 'a', 'm', 'p', ';']) {
        Some((5int, '&'))
    } else if match_at(cs, i, seq!['&', 'l', 't', ';']) {
        Some((4int, '<'))
    } else if match_at(cs, i, seq!['&', 'g', 't', ';']) {
        Some((4int, '>'))
    } else if match_at(cs, i, seq!['&', 'q', 'u', 'o', 't', ';']) {
        Some((6int, '"'))
    } else if match_at(cs, i, seq!['&', '#', '3', '9', ';']) {
        Some((5int, '\''))
    } else if match_at(cs, i, seq!['&', 'a', 'p', 'o', 's', ';']) {
        Some((6int, '\''))
    } else if match_at(cs, i, seq!['&', 'n', 'b', 's', 'p', ';']) {
        Some((6int, ' '))
    } else if match_at(cs, i, seq!['&', '#', 'x', '2', '7', ';']) {
        Some((6int, '\''))
    } else if match_at(cs, i, seq!['&', '#', 'x', '2', 'F', ';']) {
        Some((6int, '/'))
    } else if match_at(cs, i, seq!['&', 'm', 'd', 'a', 's', 'h', ';']) {
        Some((7int, '\u{2014}'))
    } else if match_at(cs, i, seq!['&', 'n', 'd', 'a', 's', 'h', ';']) {
        Some((7int, '\u{2013}'))
    } else if match_at(cs, i, seq!['&', 'h', 'e', 'l', 'l', 'i', 'p', ';']) {
        Some((8int, '\u{2026}'))
    } else if match_at(cs, i, seq!['&', 'l', 's', 'q', 'u', 'o', ';']) {
        Some((7int, '\u{2018}'))
    } else if match_at(cs, i, seq!['&', 'r', 's', 'q', 'u', 'o', ';']) {
        Some((7int, '\u{2019}'))
    } else if match_at(cs, i, seq!['&', 'l', 'd', 'q', 'u', 'o', ';']) {
        Some((7int, '\u{201c}'))
    } else if match_at(cs, i, seq!['&', 'r', 'd', 'q', 'u', 'o', ';']) {
        Some((7int, '\u{201d}'))
    } else {
        None
    }
}

/// Exec computation of [`spec_try_entity`].
pub fn try_entity(cs: &Vec<char>, i: usize) -> (r: Option<(usize, char)>)
    ensures
        match r {
            Some((k, c)) => spec_try_entity(cs@, i as int) == Some((k as int, c)) && 1 <= k && i
                + k <= cs@.len(),
            None => spec_try_entity(cs@, i as int) is None,
        },
{
    if match_at_exec(cs, i, &['&', 'a', 'm', 'p', ';']) {
        Some((5, '&'))
    } else if match_at_exec(cs, i, &['&', 'l', 't', ';']) {
        Some((4, '<'))
    } else if match_at_exec(cs, i, &['&', 'g', 't', ';']) {
        Some((4, '>'))
    } else if match_at_exec(cs, i, &['&', 'q', 'u', 'o', 't', ';']) {
        Some((6, '"'))
    } else if match_at_exec(cs, i, &['&', '#', '3', '9', ';']) {
        Some((5, '\''))
    } else if match_at_exec(cs, i, &['&', 'a', 'p', 'o', 's', ';']) {
        Some((6, '\''))
    } else if match_at_exec(cs, i, &['&', 'n', 'b', 's', 'p', ';']) {
        Some((6, ' '))
    } else if match_at_exec(cs, i, &['&', '#', 'x', '2', '7', ';']) {
        Some((6, '\''))
    } else if match_at_exec(cs, i, &['&', '#', 'x', '2', 'F', ';']) {
        Some((6, '/'))
    } else if match_at_exec(cs, i, &['&', 'm', 'd', 'a', 's', 'h', ';']) {
        Some((7, '\u{2014}'))
    } else if match_at_exec(cs, i, &['&', 'n', 'd', 'a', 's', 'h', ';']) {
        Some((7, '\u{2013}'))
    } else if match_at_exec(cs, i, &['&', 'h', 'e', 'l', 'l', 'i', 'p', ';']) {
        Some((8, '\u{2026}'))
    } else if match_at_exec(cs, i, &['&', 'l', 's', 'q', 'u', 'o', ';']) {
        Some((7, '\u{2018}'))
    } else if match_at_exec(cs, i, &['&', 'r', 's', 'q', 'u', 'o', ';']) {
        Some((7, '\u{2019}'))
    } else if match_at_exec(cs, i, &['&', 'l', 'd', 'q', 'u', 'o', ';']) {
        Some((7, '\u{201c}'))
    } else if match_at_exec(cs, i, &['&', 'r', 'd', 'q', 'u', 'o', ';']) {
        Some((7, '\u{201d}'))
    } else {
        None
    }
}

/// The suffix of `cs` from position `i` with every character entity of the
/// fixed table decoded.
pub open spec fn decode_from(cs: Seq<char>, i: int) -> Seq<char>
    decreases cs.len() - i when 0 <= i <= cs.len()
{
    if i >= cs.len() {
        Seq::empty()
    } else {
        match spec_try_entity(cs, i) {
            Some((k, c)) => seq![c] + decode_from(cs, i + k),
            None => seq![cs[i]] + decode_from(cs, i + 1),
        }
    }
}

/// `cs` with every character entity of the fixed table decoded.
pub open spec fn spec_decode(cs: Seq<char>) -> Seq<char> {
    decode_from(cs, 0)
}

/// Decodes the fixed character-entity table: exec computation of
/// [`spec_decode`].
pub fn decode_entities(cs: &Vec<char>) -> (s: String)
    ensures
        s@ == spec_decode(cs@),
{
    let mut s = String::new();
    let mut i: usize = 0;
    while i < cs.len()
        invariant
            i <= cs@.len(),
            spec_decode(cs@) == s@ + decode_from(cs@, i as int),
        decreases cs.len() - i,
    {
        match try_entity(cs, i) {
            Some((k, c)) => {
                proof {
                    assert(decode_from(cs@, i as int) == seq![c] + decode_from(
                        cs@,
                        i + k as int,
                    ));
                    assert(s@ + decode_from(cs@, i as int) =~= s@.push(c) + decode_from(
                        cs@,
                        i + k as int,
                    ));
                }
                push_char(&mut s, c);
                i += k;
            },
            None => {
                let c = cs[i];
                proof {
                    assert(decode_from(cs@, i as int) == seq![c] + decode_from(
                        cs@,
                        i + 1int,
                    ));
                    assert(s@ + decode_from(cs@, i as int) =~= s@.push(c) + decode_from(
                        cs@,
                        i + 1int,
                    ));
                }
                push_char(&mut s, c);
                i += 1;
            },
        }
    }
    proof {
        assert(s@ + decode_from(cs@, i as int) =~= s@);
    }
    s
}

/// Position of the end of the trailing run of blanks that ends at `j`,
/// never receding past `lo`.
pub open spec fn rskip_ws(cs: Seq<char>, lo: int, j: int) -> int
    decreases j when 0 <= lo <= j <= cs.len()
{
    if j > lo && is_space_char(cs[j - 1]) {
        rskip_ws(cs, lo, j - 1)
    } else {
        j
    }
}

pub proof fn lemma_rskip_ws_bounds(cs: Seq<char>, lo: int, j: int)
    requires
        0 <= lo <= j <= cs.len(),
    ensures
        lo <= rskip_ws(cs, lo, j) <= j,
    decreases j,
{
    if j > lo && is_space_char(cs[j - 1]) {
        lemma_rskip_ws_bounds(cs, lo, j - 1);
    }
}

pub proof fn lemma_rskip_ws_stops(cs: Seq<char>, lo: int, j: int)
    requires
        0 <= lo <= j <= cs.len(),
    ensures
        rskip_ws(cs, lo, j) == lo || !is_space_char(cs[rskip_ws(cs, lo, j) - 1]),
    decreases j,
{
    if j > lo && is_space_char(cs[j - 1]) {
        lemma_rskip_ws_stops(cs, lo, j - 1);
    }
}

/// The input with leading and trailing blanks removed.
pub open spec fn spec_trim(cs: Seq<char>) -> Seq<char> {
    let a = skip_ws(cs, 0);
    let b = rskip_ws(cs, a, cs.len() as int);
    cs.subrange(a, b)
}

pub proof fn lemma_trim_len(cs: Seq<char>)
    ensures
        spec_trim(cs).len() <= cs.len(),
{
    lemma_skip_ws_bounds(cs, 0);
    let a = skip_ws(cs, 0);
    lemma_rskip_ws_bounds(cs, a, cs.len() as int);
}

/// Exec computation of [`spec_trim`].
pub fn trim_chars(cs: &Vec<char>) -> (v: Vec<char>)
    ensures
        v@ == spec_trim(cs@),
{
    let a = skip_ws_exec(cs, 0);
    let mut b: usize = cs.len();
    proof {
        lemma_skip_ws_bounds(cs@, 0);
    }
    while b > a && is_space(cs[b - 1])
        invariant
            a <= b <= cs@.len(),
            a == skip_ws(cs@, 0),
            rskip_ws(cs@, a as int, cs@.len() as int) == rskip_ws(cs@, a as int, b as int),
        decreases b,
    {
        b -= 1;
    }
    proof {
        lemma_rskip_ws_bounds(cs@, a as int, b as int);
    }
    sub_vec(cs, a, b)
}

/// The tag-stripped text of the markup from position `i`: a `<` becomes a
/// blank, text inside a tag is dropped, text outside is kept.
pub open spec fn strip_for_count(cs: Seq<char>, i: int, in_tag: bool) -> Seq<char>
    decreases cs.len() - i when 0 <= i <= cs.len()
{
    if i >= cs.len() {
        Seq::empty()
    } else if cs[i] == '<' {
        seq![' '] + strip_for_count(cs, i + 1, true)
    } else if cs[i] == '>' {
        strip_for_count(cs, i + 1, false)
    } else if in_tag {
        strip_for_count(cs, i + 1, true)
    } else {
        seq![cs[i]] + strip_for_count(cs, i + 1, false)
    }
}

/// The number of blank-separated words in the text from position `i`;
/// `in_word` says whether position `i` continues a word already counted.
pub open spec fn words_from(cs: Seq<char>, i: int, in_word: bool) -> int
    decreases cs.len() - i when 0 <= i <= cs.len()
{
    if i >= cs.len() {
        0
    } else if is_space_char(cs[i]) {
        words_from(cs, i + 1, false)
    } else if in_word {
        words_from(cs, i + 1, true)
    } else {
        1 + words_from(cs, i + 1, true)
    }
}

pub proof fn lemma_words_from_bounds(cs: Seq<char>, i: int, in_word: bool)
    requires
        0 <= i <= cs.len(),
    ensures
        0 <= words_from(cs, i, in_word) <= cs.len() - i,
    decreases cs.len() - i,
{
    if i < cs.len() {
        if is_space_char(cs[i]) {
            lemma_words_from_bounds(cs, i + 1, false);
        } else {
            lemma_words_from_bounds(cs, i + 1, true);
        }
    }
}

/// The word count of the markup: all tags stripped, then blank-separated
/// words counted.
pub open spec fn spec_count_words(cs: Seq<char>) -> int {
    words_from(strip_for_count(cs, 0, false), 0, false)
}

/// Strips tags for counting: exec computation of [`strip_for_count`].
fn strip_for_count_exec(cs: &Vec<char>) -> (r: Vec<char>)
    ensures
        r@ == strip_for_count(cs@, 0, false),
{
    let mut out: Vec<char> = Vec::new();
    let mut i: usize = 0;
    let mut in_tag = false;
    while i < cs.len()
        invariant
            0 <= i <= cs@.len(),
            strip_for_count(cs@, 0, false) =~= out@ + strip_for_count(cs@, i as int, in_tag),
        decreases cs@.len() - i,
    {
        let c = cs[i];
        if c == '<' {
            proof {
                assert(out@.push(' ') + strip_for_count(cs@, i + 1int, true) =~= out@ + (seq![' ']
                    + strip_for_count(cs@, i + 1int, true)));
            }
            out.push(' ');
            in_tag = true;
        } else if c == '>' {
            in_tag = false;
        } else if !in_tag {
            proof {
                assert(out@.push(c) + strip_for_count(cs@, i + 1int, false) =~= out@ + (seq![c]
                    + strip_for_count(cs@, i + 1int, false)));
            }
            out.push(c);
        }
        i += 1;
    }
    proof {
        assert(out@ + strip_for_count(cs@, i as int, in_tag) =~= out@);
    }
    out
}

/// Counts the blank-separated words of a text: exec computation of
/// [`words_from`].
fn count_words_in(cs: &Vec<char>) -> (r: usize)
    ensures
        r == words_from(cs@, 0, false),
{
    proof {
        lemma_words_from_bounds(cs@, 0, false);
    }
    let mut n: usize = 0;
    let mut i: usize = 0;
    let mut in_word = false;
    while i < cs.len()
        invariant
            0 <= i <= cs@.len(),
            0 <= n <= i,
            words_from(cs@, 0, false) == n + words_from(cs@, i as int, in_word),
        decreases cs@.len() - i,
    {
        proof {
            lemma_words_from_bounds(cs@, i + 1int, true);
            lemma_words_from_bounds(cs@, i + 1int, false);
        }
        if is_space(cs[i]) {
            in_word = false;
        } else if !in_word {
            n += 1;
            in_word = true;
        }
        i += 1;
    }
    n
}

/// Counts the words of a markup string, tags stripped: the count used for
/// document metadata.
pub fn count_words(html: &str) -> (r: u64)
    ensures
        r == spec_count_words(html@),
{
    let cs = chars_of(html);
    let stripped = strip_for_count_exec(&cs);
    let n = count_words_in(&stripped);
    n as u64
}

/// The word count as a signed value, as the document store records it.
pub fn count_words_simple(html: &str) -> (r: i64)
    requires
        html@.len() <= 0x7fff_ffff_ffff_ffff,
    ensures
        r == spec_count_words(html@),
{
    let cs = chars_of(html);
    let stripped = strip_for_count_exec(&cs);
    proof {
        let ghost st = strip_for_count(cs@, 0, false);
        lemma_strip_for_count_len(cs@, 0, false);
        lemma_words_from_bounds(st, 0, false);
    }
    let n = count_words_in(&stripped);
    n as i64
}

pub proof fn lemma_strip_for_count_len(cs: Seq<char>, i: int, in_tag: bool)
    requires
        0 <= i <= cs.len(),
    ensures
        strip_for_count(cs, i, in_tag).len() <= cs.len() - i,
    decreases cs.len() - i,
{
    if i < cs.len() {
        if cs[i] == '<' {
            lemma_strip_for_count_len(cs, i + 1, true);
        } else if cs[i] == '>' {
            lemma_strip_for_count_len(cs, i + 1, false);
        } else if in_tag {
            lemma_strip_for_count_len(cs, i + 1, true);
        } else {
            lemma_strip_for_count_len(cs, i + 1, false);
        }
    }
}

} // verus!
