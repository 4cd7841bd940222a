//! Request signing for the publishing platforms: percent encoding over
//! UTF-8 bytes, hex decoding of secrets, and the OAuth 1.0a signature
//! base string, signing key and authorization header.  The HMAC-SHA1
//! digest and the base64 coding come from outside crates behind named
//! results; everything around them is verified exactly.

use vstd::prelude::*;
use vstd::utf8::encode_utf8;
use crate::text::{push_char, string_from, chars_of};
use crate::pdf::{spec_decimal, fmt_u64};

verus! {

/// A connected account's four credential strings.
pub struct TwitterConfig {
    pub api_key: String,
    pub api_secret: String,
    pub access_token: String,
    pub access_secret: String,
}

/// Builds a string out of a literal character slice.
pub fn lit_str(cs: &[char]) -> (s: String)
    ensures
        s@ == cs@,
{
    let v = vstd::slice::slice_to_vec(cs);
    string_from(&v)
}

/// The value of a hex digit character, if it is one.
pub open spec fn spec_hex_val(c: char) -> Option<int> {
    if '0' <= c && c <= '9' {
        Some(c as u32 - '0' as u32)
    } else if 'a' <= c && c <= 'f' {
        Some(c as u32 - 'a' as u32 + 10)
    } else if 'A' <= c && c <= 'F' {
        Some(c as u32 - 'A' as u32 + 10)
    } else {
        None
    }
}

/// The bytes a hex text decodes to: defined exactly where the length is
/// even and every character is a hex digit.
pub open spec fn spec_hex_decode(cs: Seq<char>) -> Option<Seq<u8>>
    decreases cs.len(),
{
    if cs.len() % 2 != 0 {
        None
    } else if cs.len() == 0 {
        Some(Seq::empty())
    } else {
        match (spec_hex_val(cs[0]), spec_hex_val(cs[1])) {
            (Some(h), Some(l)) => match spec_hex_decode(cs.skip(2)) {
                Some(rest) => Some(seq![(h * 16 + l) as u8] + rest),
                None => None,
            },
            _ => None,
        }
    }
}

/// The value of a hex digit character: exec computation of
/// [`spec_hex_val`].
fn hex_val(c: char) -> (r: Option<u8>)
    ensures
        match r {
            Some(v) => spec_hex_val(c) == Some(v as int) && v < 16,
            None => spec_hex_val(c) is None,
        },
{
    if '0' <= c && c <= '9' {
        Some(((c as u32) - ('0' as u32)) as u8)
    } else if 'a' <= c && c <= 'f' {
        Some(((c as u32) - ('a' as u32) + 10) as u8)
    } else if 'A' <= c && c <= 'F' {
        Some(((c as u32) - ('A' as u32) + 10) as u8)
    } else {
        None
    }
}

/// Decodes a hex text to bytes: succeeds exactly where the length is
/// even and every character is a hex digit.
pub fn hex_decode(hex: &str) -> (r: Result<Vec<u8>, String>)
    ensures
        match r {
            Ok(v) => spec_hex_decode(hex@) == Some(v@),
            Err(_) => spec_hex_decode(hex@) is None,
        },
{
    let cs = chars_of(hex);
    if cs.len() % 2 != 0 {
        return Err(
            lit_str(
                &[
                    'H', 'e', 'x', ' ', 's', 't', 'r', 'i', 'n', 'g', ' ', 'm', 'u', 's', 't',
                    ' ', 'h', 'a', 'v', 'e', ' ', 'e', 'v', 'e', 'n', ' ', 'l', 'e', 'n', 'g',
                    't', 'h',
                ],
            ),
        );
    }
    let mut out: Vec<u8> = Vec::new();
    let mut i: usize = 0;
    proof {
        assert(cs@.skip(0) =~= cs@);
        if spec_hex_decode(cs@) is Some {
            assert(Seq::<u8>::empty() + spec_hex_decode(cs@)->Some_0 =~= spec_hex_decode(
                cs@,
            )->Some_0);
        }
    }
    while i < cs.len()
        invariant
            0 <= i <= cs@.len(),
            i % 2 == 0,
            cs@.len() % 2 == 0,
            cs@ == hex@,
            spec_hex_decode(hex@) == (if spec_hex_decode(cs@.skip(i as int)) is Some {
                Some(out@ + spec_hex_decode(cs@.skip(i as int))->Some_0)
            } else {
                Option::<Seq<u8>>::None
            }),
        decreases cs@.len() - i,
    {
        let h = hex_val(cs[i]);
        let l = hex_val(cs[i + 1]);
        proof {
            assert(cs@.skip(i as int).len() % 2 == 0);
            assert(cs@.skip(i as int)[0] == cs@[i as int]);
            assert(cs@.skip(i as int)[1] == cs@[i + 1]);
            assert(cs@.skip(i as int).skip(2) =~= cs@.skip(i + 2));
        }
        match (h, l) {
            (Some(hv), Some(lv)) => {
                proof {
                    if spec_hex_decode(cs@.skip(i + 2)) is Some {
                        assert(spec_hex_decode(cs@.skip(i as int)) == Some(seq![
                            (hv * 16 + lv) as u8,
                        ] + spec_hex_decode(cs@.skip(i + 2))->Some_0));
                        assert(out@.push((hv * 16 + lv) as u8) + spec_hex_decode(cs@.skip(i + 2))->Some_0
                            =~= out@ + (seq![(hv * 16 + lv) as u8] + spec_hex_decode(
                            cs@.skip(i + 2),
                        )->Some_0));
                    } else {
                        assert(spec_hex_decode(cs@.skip(i as int)) is None);
                    }
                }
                out.push(hv * 16 + lv);
                i += 2;
            },
            _ => {
                proof {
                    assert(spec_hex_decode(cs@.skip(i as int)) is None);
                    assert(spec_hex_decode(hex@) is None);
                }
                return Err(
                    lit_str(
                        &[
                            'i', 'n', 'v', 'a', 'l', 'i', 'd', ' ', 'd', 'i', 'g', 'i', 't',
                            ' ', 'f', 'o', 'u', 'n', 'd', ' ', 'i', 'n', ' ', 's', 't', 'r',
                            'i', 'n', 'g',
                        ],
                    ),
                );
            },
        }
    }
    proof {
        assert(cs@.skip(i as int).len() == 0);
        assert(cs@.skip(i as int).len() % 2 == 0);
        assert(spec_hex_decode(cs@.skip(i as int)) == Some(Seq::<u8>::empty()));
        assert(out@ + Seq::<u8>::empty() =~= out@);
    }
    Ok(out)
}

/// A byte that percent encoding passes through unchanged.
pub open spec fn is_unreserved(b: u8) -> bool {
    ||| (0x41 <= b && b <= 0x5a)
    ||| (0x61 <= b && b <= 0x7a)
    ||| (0x30 <= b && b <= 0x39)
    ||| b == 0x2d
    ||| b == 0x2e
    ||| b == 0x5f
    ||| b == 0x7e
}

/// The upper-case hex digit character for a value below sixteen.
pub open spec fn spec_hex_digit_upper(n: int) -> char {
    if n == 0 {
        '0'
    } else if n == 1 {
        '1'
    } else if n == 2 {
        '2'
    } else if n == 3 {
        '3'
    } else if n == 4 {
        '4'
    } else if n == 5 {
        '5'
    } else if n == 6 {
        '6'
    } else if n == 7 {
        '7'
    } else if n == 8 {
        '8'
    } else if n == 9 {
        '9'
    } else if n == 10 {
        'A'
    } else if n == 11 {
        'B'
    } else if n == 12 {
        'C'
    } else if n == 13 {
        'D'
    } else if n == 14 {
        'E'
    } else {
        'F'
    }
}

/// The percent encoding of a byte sequence: unreserved bytes pass, every
/// other byte becomes `%` and two upper-case hex digits.
pub open spec fn spec_pct_bytes(bs: Seq<u8>, i: int) -> Seq<char>
    decreases bs.len() - i when 0 <= i <= bs.len()
{
    if i >= bs.len() {
        Seq::empty()
    } else if is_unreserved(bs[i]) {
        seq![bs[i] as char] + spec_pct_bytes(bs, i + 1)
    } else {
        seq![
            '%',
            spec_hex_digit_upper(bs[i] as int / 16),
            spec_hex_digit_upper(bs[i] as int % 16),
        ] + spec_pct_bytes(bs, i + 1)
    }
}

/// The percent encoding of a text, over its UTF-8 bytes.
pub open spec fn spec_pct(s: Seq<char>) -> Seq<char> {
    spec_pct_bytes(encode_utf8(s), 0)
}

/// The upper-case hex digit: exec computation of
/// [`spec_hex_digit_upper`].
fn hex_digit_upper(n: u8) -> (c: char)
    requires
        n < 16,
    ensures
        c == spec_hex_digit_upper(n as int),
{
    if n == 0 {
        '0'
    } else if n == 1 {
        '1'
    } else if n == 2 {
        '2'
    } else if n == 3 {
        '3'
    } else if n == 4 {
        '4'
    } else if n == 5 {
        '5'
    } else if n == 6 {
        '6'
    } else if n == 7 {
        '7'
    } else if n == 8 {
        '8'
    } else if n == 9 {
        '9'
    } else if n == 10 {
        'A'
    } else if n == 11 {
        'B'
    } else if n == 12 {
        'C'
    } else if n == 13 {
        'D'
    } else if n == 14 {
        'E'
    } else {
        'F'
    }
}

/// Percent-encodes a text over its UTF-8 bytes: exec computation of
/// [`spec_pct`].
pub fn percent_encode(s: &str) -> (r: String)
    ensures
        r@ == spec_pct(s@),
{
    let bs = s.as_bytes_vec();
    let mut out = String::new();
    let mut i: usize = 0;
    while i < bs.len()
        invariant
            0 <= i <= bs@.len(),
            bs@ == encode_utf8(s@),
            spec_pct(s@) == out@ + spec_pct_bytes(bs@, i as int),
        decreases bs@.len() - i,
    {
        let b = bs[i];
        if (0x41 <= b && b <= 0x5a) || (0x61 <= b && b <= 0x7a) || (0x30 <= b && b <= 0x39) || b
            == 0x2d || b == 0x2e || b == 0x5f || b == 0x7e {
            proof {
                assert(out@ + spec_pct_bytes(bs@, i as int) =~= out@.push(b as char)
                    + spec_pct_bytes(bs@, i + 1));
            }
            push_char(&mut out, b as char);
        } else {
            proof {
                assert(out@ + spec_pct_bytes(bs@, i as int) =~= out@.push('%').push(
                    spec_hex_digit_upper(b as int / 16),
                ).push(spec_hex_digit_upper(b as int % 16)) + spec_pct_bytes(bs@, i + 1));
            }
            push_char(&mut out, '%');
            push_char(&mut out, hex_digit_upper(b / 16));
            push_char(&mut out, hex_digit_upper(b % 16));
        }
        i += 1;
    }
    proof {
        assert(out@ + spec_pct_bytes(bs@, i as int) =~= out@);
    }
    out
}

/// The pairs of a parameter list as sequences of characters.
pub open spec fn pairs_model(s: Seq<(String, String)>) -> Seq<(Seq<char>, Seq<char>)> {
    s.map_values(|a: (String, String)| (a.0@, a.1@))
}

/// Strict lexicographic order on byte sequences.
pub open spec fn bytes_lt(a: Seq<u8>, b: Seq<u8>) -> bool
    decreases a.len(),
{
    if b.len() == 0 {
        false
    } else if a.len() == 0 {
        true
    } else if a[0] < b[0] {
        true
    } else if a[0] > b[0] {
        false
    } else {
        bytes_lt(a.drop_first(), b.drop_first())
    }
}

/// The parameter order of the signature base string: by key, then by
/// value, over UTF-8 bytes.
pub open spec fn pair_le(a: (Seq<char>, Seq<char>), b: (Seq<char>, Seq<char>)) -> bool {
    ||| bytes_lt(encode_utf8(a.0), encode_utf8(b.0))
    ||| (encode_utf8(a.0) == encode_utf8(b.0) && (bytes_lt(encode_utf8(a.1), encode_utf8(b.1))
        || encode_utf8(a.1) == encode_utf8(b.1)))
}

/// Exec computation of [`bytes_lt`].
fn bytes_lt_exec(a: &Vec<u8>, b: &Vec<u8>) -> (r: bool)
    ensures
        r == bytes_lt(a@, b@),
{
    let mut k: usize = 0;
    proof {
        assert(a@.skip(0) =~= a@);
        assert(b@.skip(0) =~= b@);
    }
    loop
        invariant
            0 <= k <= a@.len(),
            k <= b@.len(),
            forall|j: int| 0 <= j < k ==> a@[j] == b@[j],
            bytes_lt(a@, b@) == bytes_lt(a@.skip(k as int), b@.skip(k as int)),
        decreases a@.len() - k,
    {
        proof {
            if k < a@.len() && k < b@.len() {
                assert(a@.skip(k as int)[0] == a@[k as int]);
                assert(b@.skip(k as int)[0] == b@[k as int]);
                assert(a@.skip(k as int).drop_first() =~= a@.skip(k + 1));
                assert(b@.skip(k as int).drop_first() =~= b@.skip(k + 1));
            }
        }
        if k >= b.len() {
            proof {
                assert(b@.skip(k as int).len() == 0);
            }
            return false;
        }
        if k >= a.len() {
            proof {
                assert(a@.skip(k as int).len() == 0);
            }
            return true;
        }
        if a[k] < b[k] {
            return true;
        }
        if a[k] > b[k] {
            return false;
        }
        proof {
            assert(bytes_lt(a@.skip(k as int), b@.skip(k as int)) == bytes_lt(
                a@.skip(k + 1),
                b@.skip(k + 1),
            ));
        }
        k += 1;
    }
}

/// Exec computation of [`pair_le`]; byte equality is decided with two
/// order tests.
fn le_pair(a: &(String, String), b: &(String, String)) -> (r: bool)
    ensures
        r == pair_le((a.0@, a.1@), (b.0@, b.1@)),
{
    let a0 = a.0.as_str().as_bytes_vec();
    let b0 = b.0.as_str().as_bytes_vec();
    if bytes_lt_exec(&a0, &b0) {
        return true;
    }
    if bytes_lt_exec(&b0, &a0) {
        proof {
            lemma_bytes_lt_total(a0@, b0@);
        }
        return false;
    }
    proof {
        lemma_bytes_lt_total(a0@, b0@);
    }
    let a1 = a.1.as_str().as_bytes_vec();
    let b1 = b.1.as_str().as_bytes_vec();
    if bytes_lt_exec(&a1, &b1) {
        return true;
    }
    if bytes_lt_exec(&b1, &a1) {
        proof {
            lemma_bytes_lt_total(a1@, b1@);
        }
        return false;
    }
    proof {
        lemma_bytes_lt_total(a1@, b1@);
    }
    true
}

/// Two byte sequences are ordered one way, the other, or equal.
pub proof fn lemma_bytes_lt_total(a: Seq<u8>, b: Seq<u8>)
    ensures
        !bytes_lt(a, b) && !bytes_lt(b, a) ==> a == b,
    decreases a.len(),
{
    if a.len() > 0 && b.len() > 0 && a[0] == b[0] {
        lemma_bytes_lt_total(a.drop_first(), b.drop_first());
        if !bytes_lt(a, b) && !bytes_lt(b, a) {
            assert(a.drop_first() == b.drop_first());
            assert(forall|i: int| 1 <= i < a.len() ==> a[i] == a.drop_first()[i - 1]);
            assert(forall|i: int| 1 <= i < b.len() ==> b[i] == b.drop_first()[i - 1]);
            assert(a =~= b);
        }
    } else {
        if !bytes_lt(a, b) && !bytes_lt(b, a) {
            assert(a.len() == 0 && b.len() == 0);
            assert(a =~= b);
        }
    }
}

/// A pair inserted into a sorted prefix, after any pair it does not
/// precede: the placement the stable sort gives it.
pub open spec fn sp_insert_pair(
    t: Seq<(Seq<char>, Seq<char>)>,
    x: (Seq<char>, Seq<char>),
) -> Seq<(Seq<char>, Seq<char>)>
    decreases t.len(),
{
    if t.len() == 0 {
        seq![x]
    } else if pair_le(t.last(), x) {
        t.push(x)
    } else {
        sp_insert_pair(t.drop_last(), x).push(t.last())
    }
}

/// The parameter list sorted by key then value, stably.
pub open spec fn sp_sort_pairs(s: Seq<(Seq<char>, Seq<char>)>) -> Seq<(Seq<char>, Seq<char>)>
    decreases s.len(),
{
    if s.len() == 0 {
        Seq::empty()
    } else {
        sp_insert_pair(sp_sort_pairs(s.drop_last()), s.last())
    }
}

/// Exec computation of [`sp_insert_pair`].
fn insert_pair(t: Vec<(String, String)>, x: (String, String)) -> (r: Vec<(String, String)>)
    ensures
        pairs_model(r@) == sp_insert_pair(pairs_model(t@), (x.0@, x.1@)),
    decreases t@.len(),
{
    let ghost t0 = t@;
    let ghost pm0 = pairs_model(t0);
    let ghost xv = (x.0@, x.1@);
    let mut t = t;
    if t.len() == 0 {
        proof {
            assert(pm0.len() == 0);
            assert(pairs_model(t0.push(x)) =~= seq![xv]);
        }
        t.push(x);
        t
    } else {
        let n = t.len();
        proof {
            assert(pm0.last() == (t0[n - 1].0@, t0[n - 1].1@));
        }
        if le_pair(&t[n - 1], &x) {
            proof {
                assert(pairs_model(t0.push(x)) =~= pm0.push(xv));
                assert(sp_insert_pair(pm0, xv) == pm0.push(xv));
            }
            t.push(x);
            t
        } else {
            let last = t.pop().unwrap();
            proof {
                assert(t@ =~= t0.drop_last());
                assert(pairs_model(t@) =~= pm0.drop_last());
                assert((last.0@, last.1@) == pm0.last());
                assert(sp_insert_pair(pm0, xv) == sp_insert_pair(pm0.drop_last(), xv).push(
                    pm0.last(),
                ));
            }
            let mut r = insert_pair(t, x);
            proof {
                assert(pairs_model(r@.push(last)) =~= pairs_model(r@).push((last.0@, last.1@)));
            }
            r.push(last);
            r
        }
    }
}

/// Sorts the parameter list by key then value: exec computation of
/// [`sp_sort_pairs`].
pub fn sort_pairs(params: &Vec<(String, String)>) -> (r: Vec<(String, String)>)
    ensures
        pairs_model(r@) == sp_sort_pairs(pairs_model(params@)),
{
    let ghost pm = pairs_model(params@);
    let mut out: Vec<(String, String)> = Vec::new();
    let mut i: usize = 0;
    proof {
        assert(pm.take(0) =~= Seq::<(Seq<char>, Seq<char>)>::empty());
        assert(pairs_model(out@) =~= sp_sort_pairs(pm.take(0)));
    }
    while i < params.len()
        invariant
            0 <= i <= params@.len(),
            pm == pairs_model(params@),
            pairs_model(out@) == sp_sort_pairs(pm.take(i as int)),
        decreases params@.len() - i,
    {
        let x = (params[i].0.clone(), params[i].1.clone());
        proof {
            assert(pm.take(i + 1).drop_last() =~= pm.take(i as int));
            assert(pm.take(i + 1).last() == (params@[i as int].0@, params@[i as int].1@));
        }
        out = insert_pair(out, x);
        i += 1;
    }
    proof {
        assert(pm.take(i as int) =~= pm);
    }
    out
}

/// The percent-encoded `key=value` parameter string, `&`-joined, of the
/// pairs at or after `i`.
pub open spec fn sp_param_string(ps: Seq<(Seq<char>, Seq<char>)>, i: int) -> Seq<char>
    decreases ps.len() - i when 0 <= i <= ps.len()
{
    if i >= ps.len() {
        Seq::empty()
    } else {
        let piece = spec_pct(ps[i].0) + seq!['='] + spec_pct(ps[i].1);
        if i == 0 {
            piece + sp_param_string(ps, 1)
        } else {
            seq!['&'] + piece + sp_param_string(ps, i + 1)
        }
    }
}

/// Exec computation of [`sp_param_string`].
fn param_string(ps: &Vec<(String, String)>) -> (r: String)
    ensures
        r@ == sp_param_string(pairs_model(ps@), 0),
{
    let ghost pm = pairs_model(ps@);
    let mut out = String::new();
    let mut i: usize = 0;
    proof {
        assert(Seq::<char>::empty() + sp_param_string(pm, 0) =~= sp_param_string(pm, 0));
    }
    while i < ps.len()
        invariant
            0 <= i <= ps@.len(),
            pm == pairs_model(ps@),
            sp_param_string(pm, 0) =~= out@ + sp_param_string(pm, i as int),
        decreases ps@.len() - i,
    {
        proof {
            assert(pm[i as int] == (ps@[i as int].0@, ps@[i as int].1@));
        }
        if i > 0 {
            push_char(&mut out, '&');
        }
        let ek = percent_encode(ps[i].0.as_str());
        out.append(ek.as_str());
        push_char(&mut out, '=');
        let ev = percent_encode(ps[i].1.as_str());
        out.append(ev.as_str());
        proof {
            assert(sp_param_string(pm, 0) =~= out@ + sp_param_string(pm, i + 1));
        }
        i += 1;
    }
    proof {
        assert(sp_param_string(pm, i as int) =~= Seq::<char>::empty());
        assert(out@ + sp_param_string(pm, i as int) =~= out@);
    }
    out
}

/// An ASCII small letter folded to its capital; any other character is
/// kept.
pub open spec fn upper_char(c: char) -> char {
    if 'a' <= c && c <= 'z' {
        (c as u32 - 32) as char
    } else {
        c
    }
}

/// A text with ASCII small letters folded to capitals.
pub open spec fn sp_upper(s: Seq<char>) -> Seq<char> {
    s.map_values(|c: char| upper_char(c))
}

/// Exec computation of [`upper_char`].
fn upper_char_exec(c: char) -> (r: char)
    ensures
        r == upper_char(c),
{
    match c {
        'a' => 'A',
        'b' => 'B',
        'c' => 'C',
        'd' => 'D',
        'e' => 'E',
        'f' => 'F',
        'g' => 'G',
        'h' => 'H',
        'i' => 'I',
        'j' => 'J',
        'k' => 'K',
        'l' => 'L',
        'm' => 'M',
        'n' => 'N',
        'o' => 'O',
        'p' => 'P',
        'q' => 'Q',
        'r' => 'R',
        's' => 'S',
        't' => 'T',
        'u' => 'U',
        'v' => 'V',
        'w' => 'W',
        'x' => 'X',
        'y' => 'Y',
        'z' => 'Z',
        _ => c,
    }
}

/// Exec computation of [`sp_upper`].
fn to_upper(s: &str) -> (r: String)
    ensures
        r@ == sp_upper(s@),
{
    let cs = chars_of(s);
    let mut out = String::new();
    let mut i: usize = 0;
    while i < cs.len()
        invariant
            0 <= i <= cs@.len(),
            cs@ == s@,
            out@ =~= sp_upper(s@).take(i as int),
        decreases cs@.len() - i,
    {
        push_char(&mut out, upper_char_exec(cs[i]));
        proof {
            assert(sp_upper(s@).take(i + 1) =~= sp_upper(s@).take(i as int).push(
                upper_char(cs@[i as int]),
            ));
        }
        i += 1;
    }
    proof {
        assert(sp_upper(s@).take(i as int) =~= sp_upper(s@));
    }
    out
}

/// The HMAC-SHA1 digest: a function of key and message alone.
pub uninterp spec fn hmac_sha1_of(key: Seq<u8>, msg: Seq<u8>) -> Seq<u8>;

/// Relies on `hmac::Hmac<sha1::Sha1>`: the digest of the message under
/// the key, twenty bytes, a function of the two alone.  Any key length
/// is accepted.
#[verifier::external_body]
fn hmac_sha1(key: &Vec<u8>, msg: &Vec<u8>) -> (r: Vec<u8>)
    ensures
        r@ == hmac_sha1_of(key@, msg@),
        r@.len() == 20,
{
    let mut mac = <hmac::Hmac<sha1::Sha1> as hmac::Mac>::new_from_slice(key.as_slice()).unwrap();
    hmac::Mac::update(&mut mac, msg.as_slice());
    hmac::Mac::finalize(mac).into_bytes().to_vec()
}

/// The standard-alphabet base64 text of a byte sequence: a function of
/// the bytes alone.
pub uninterp spec fn b64_of(bs: Seq<u8>) -> Seq<char>;

/// Relies on `base64`'s standard-alphabet encoder.
#[verifier::external_body]
fn b64_encode(b: &Vec<u8>) -> (r: String)
    ensures
        r@ == b64_of(b@),
{
    <base64::engine::GeneralPurpose as base64::Engine>::encode(
        &base64::engine::general_purpose::STANDARD,
        b.as_slice(),
    )
}

/// The OAuth 1.0a signature of a request: the parameters sorted and
/// percent-encoded into the base string, signed under the two secrets.
pub open spec fn spec_sign_request(
    method: Seq<char>,
    url: Seq<char>,
    params: Seq<(Seq<char>, Seq<char>)>,
    api_secret: Seq<char>,
    access_secret: Seq<char>,
) -> Seq<char> {
    let ps = sp_param_string(sp_sort_pairs(params), 0);
    let base = sp_upper(method) + seq!['&'] + spec_pct(url) + seq!['&'] + spec_pct(ps);
    let key = spec_pct(api_secret) + seq!['&'] + spec_pct(access_secret);
    b64_of(hmac_sha1_of(encode_utf8(key), encode_utf8(base)))
}

/// Signs a request: exec computation of [`spec_sign_request`].
pub fn sign_request(
    method: &str,
    url: &str,
    params: &Vec<(String, String)>,
    config: &TwitterConfig,
) -> (r: String)
    ensures
        r@ == spec_sign_request(
            method@,
            url@,
            pairs_model(params@),
            config.api_secret@,
            config.access_secret@,
        ),
{
    let sorted = sort_pairs(params);
    let ps = param_string(&sorted);
    let mut base = to_upper(method);
    push_char(&mut base, '&');
    let eu = percent_encode(url);
    base.append(eu.as_str());
    push_char(&mut base, '&');
    let ep = percent_encode(ps.as_str());
    base.append(ep.as_str());
    let mut key = percent_encode(config.api_secret.as_str());
    push_char(&mut key, '&');
    let es = percent_encode(config.access_secret.as_str());
    key.append(es.as_str());
    proof {
        assert(base@ =~= sp_upper(method@) + seq!['&'] + spec_pct(url@) + seq!['&'] + spec_pct(
            sp_param_string(sp_sort_pairs(pairs_model(params@)), 0),
        ));
        assert(key@ =~= spec_pct(config.api_secret@) + seq!['&'] + spec_pct(
            config.access_secret@,
        ));
    }
    let kb = key.as_str().as_bytes_vec();
    let mb = base.as_str().as_bytes_vec();
    let digest = hmac_sha1(&kb, &mb);
    b64_encode(&digest)
}

/// The lower-case hex digit character for a value below sixteen.
pub open spec fn spec_hex_digit_lower(n: int) -> char {
    if n < 10 {
        crate::pdf::spec_digit(n)
    } else if n == 10 {
        'a'
    } else if n == 11 {
        'b'
    } else if n == 12 {
        'c'
    } else if n == 13 {
        'd'
    } else if n == 14 {
        'e'
    } else {
        'f'
    }
}

/// The lower-case hex digits of `n`, most significant first.
pub open spec fn spec_lhex(n: int) -> Seq<char>
    decreases n when n >= 0
{
    let d = spec_hex_digit_lower(n % 16);
    if n < 16 {
        seq![d]
    } else {
        spec_lhex(n / 16).push(d)
    }
}

/// Formats a number in lower-case hex: exec computation of
/// [`spec_lhex`].
pub fn fmt_u128_hex(n: u128) -> (s: String)
    ensures
        s@ == spec_lhex(n as int),
    decreases n,
{
    let d = (n % 16) as u8;
    let c: char = if d < 10 {
        crate::pdf::digit_char(d)
    } else if d == 10 {
        'a'
    } else if d == 11 {
        'b'
    } else if d == 12 {
        'c'
    } else if d == 13 {
        'd'
    } else if d == 14 {
        'e'
    } else {
        'f'
    };
    if n < 16 {
        let mut s = String::new();
        push_char(&mut s, c);
        proof {
            assert(s@ =~= seq![spec_hex_digit_lower(n as int % 16)]);
        }
        s
    } else {
        let mut s = fmt_u128_hex(n / 16);
        push_char(&mut s, c);
        s
    }
}

/// Relies on `std::time`: the time since the Unix epoch, as whole
/// seconds and as nanoseconds.  Nothing is promised of the value beyond
/// the two parts agreeing; a clock before the epoch reads as zero.
#[verifier::external_body]
fn unix_now() -> (r: (u64, u128))
    ensures
        r.0 * 1000000000 <= r.1 < (r.0 + 1) * 1000000000,
{
    let d = std::time::SystemTime::now()
        .duration_since(std::time::UNIX_EPOCH)
        .unwrap_or(std::time::Duration::from_secs(0));
    (d.as_secs(), d.as_nanos())
}

/// A fresh request nonce: the current time in nanoseconds, in lower-case
/// hex.
pub fn generate_nonce() -> (r: String)
    ensures
        exists|v: int| #[trigger] spec_lhex(v) == r@ && v >= 0,
{
    let (_, ns) = unix_now();
    let s = fmt_u128_hex(ns);
    proof {
        assert(spec_lhex(ns as int) == s@);
    }
    s
}

/// The current request timestamp: whole seconds since the epoch, in
/// decimal.
pub fn generate_timestamp() -> (r: String)
    ensures
        exists|v: int| #[trigger] spec_decimal(v) == r@ && v >= 0,
{
    let (secs, _) = unix_now();
    let s = fmt_u64(secs);
    proof {
        assert(spec_decimal(secs as int) == s@);
    }
    s
}

/// The fixed OAuth parameter names and values.
pub open spec fn k_consumer() -> Seq<char> {
    seq![
        'o', 'a', 'u', 't', 'h', '_', 'c', 'o', 'n', 's', 'u', 'm', 'e', 'r', '_', 'k', 'e',
        'y',
    ]
}

pub open spec fn k_nonce() -> Seq<char> {
    seq!['o', 'a', 'u', 't', 'h', '_', 'n', 'o', 'n', 'c', 'e']
}

pub open spec fn k_sig_method() -> Seq<char> {
    seq![
        'o', 'a', 'u', 't', 'h', '_', 's', 'i', 'g', 'n', 'a', 't', 'u', 'r', 'e', '_', 'm',
        'e', 't', 'h', 'o', 'd',
    ]
}

pub open spec fn v_hmac_sha1() -> Seq<char> {
    seq!['H', 'M', 'A', 'C', '-', 'S', 'H', 'A', '1']
}

pub open spec fn k_timestamp() -> Seq<char> {
    seq!['o', 'a', 'u', 't', 'h', '_', 't', 'i', 'm', 'e', 's', 't', 'a', 'm', 'p']
}

pub open spec fn k_token() -> Seq<char> {
    seq!['o', 'a', 'u', 't', 'h', '_', 't', 'o', 'k', 'e', 'n']
}

pub open spec fn k_version() -> Seq<char> {
    seq!['o', 'a', 'u', 't', 'h', '_', 'v', 'e', 'r', 's', 'i', 'o', 'n']
}

pub open spec fn v_version() -> Seq<char> {
    seq!['1', '.', '0']
}

pub open spec fn k_signature() -> Seq<char> {
    seq!['o', 'a', 'u', 't', 'h', '_', 's', 'i', 'g', 'n', 'a', 't', 'u', 'r', 'e']
}

/// The six OAuth parameters every request carries, before signing.
pub open spec fn sp_oauth_params(
    api_key: Seq<char>,
    token: Seq<char>,
    nonce: Seq<char>,
    ts: Seq<char>,
) -> Seq<(Seq<char>, Seq<char>)> {
    seq![
        (k_consumer(), api_key),
        (k_nonce(), nonce),
        (k_sig_method(), v_hmac_sha1()),
        (k_timestamp(), ts),
        (k_token(), token),
        (k_version(), v_version()),
    ]
}

/// The `key="value"` parts of the authorization header, comma-joined.
pub open spec fn sp_header_parts(ps: Seq<(Seq<char>, Seq<char>)>, i: int) -> Seq<char>
    decreases ps.len() - i when 0 <= i <= ps.len()
{
    if i >= ps.len() {
        Seq::empty()
    } else {
        let piece = spec_pct(ps[i].0) + seq!['=', '"'] + spec_pct(ps[i].1) + seq!['"'];
        if i == 0 {
            piece + sp_header_parts(ps, 1)
        } else {
            seq![',', ' '] + piece + sp_header_parts(ps, i + 1)
        }
    }
}

/// The OAuth 1.0a authorization header for a request, at a given nonce
/// and timestamp: the six standard parameters and the body parameters
/// are signed together, and the standard parameters with the signature
/// form the header.
pub open spec fn spec_auth_header(
    method: Seq<char>,
    url: Seq<char>,
    body: Seq<(Seq<char>, Seq<char>)>,
    api_key: Seq<char>,
    api_secret: Seq<char>,
    token: Seq<char>,
    token_secret: Seq<char>,
    nonce: Seq<char>,
    ts: Seq<char>,
) -> Seq<char> {
    let oauth = sp_oauth_params(api_key, token, nonce, ts);
    let sig = spec_sign_request(method, url, oauth + body, api_secret, token_secret);
    let withsig = oauth.push((k_signature(), sig));
    seq!['O', 'A', 'u', 't', 'h', ' '] + sp_header_parts(withsig, 0)
}

/// Builds the authorization header at a given nonce and timestamp: exec
/// computation of [`spec_auth_header`].
#[verifier::rlimit(60)]
pub fn build_auth_header_at(
    method: &str,
    url: &str,
    body_params: &Vec<(String, String)>,
    config: &TwitterConfig,
    nonce: &str,
    timestamp: &str,
) -> (r: String)
    ensures
        r@ == spec_auth_header(
            method@,
            url@,
            pairs_model(body_params@),
            config.api_key@,
            config.api_secret@,
            config.access_token@,
            config.access_secret@,
            nonce@,
            timestamp@,
        ),
{
    let ghost bodym = pairs_model(body_params@);
    let ghost oauthm = sp_oauth_params(config.api_key@, config.access_token@, nonce@, timestamp@);
    let mut oauth: Vec<(String, String)> = Vec::new();
    oauth.push(
        (
            lit_str(
                &[
                    'o', 'a', 'u', 't', 'h', '_', 'c', 'o', 'n', 's', 'u', 'm', 'e', 'r', '_',
                    'k', 'e', 'y',
                ],
            ),
            config.api_key.clone(),
        ),
    );
    oauth.push(
        (
            lit_str(&['o', 'a', 'u', 't', 'h', '_', 'n', 'o', 'n', 'c', 'e']),
            nonce.to_owned(),
        ),
    );
    oauth.push(
        (
            lit_str(
                &[
                    'o', 'a', 'u', 't', 'h', '_', 's', 'i', 'g', 'n', 'a', 't', 'u', 'r', 'e',
                    '_', 'm', 'e', 't', 'h', 'o', 'd',
                ],
            ),
            lit_str(&['H', 'M', 'A', 'C', '-', 'S', 'H', 'A', '1']),
        ),
    );
    oauth.push(
        (
            lit_str(
                &['o', 'a', 'u', 't', 'h', '_', 't', 'i', 'm', 'e', 's', 't', 'a', 'm', 'p'],
            ),
            timestamp.to_owned(),
        ),
    );
    oauth.push(
        (
            lit_str(&['o', 'a', 'u', 't', 'h', '_', 't', 'o', 'k', 'e', 'n']),
            config.access_token.clone(),
        ),
    );
    oauth.push(
        (
            lit_str(&['o', 'a', 'u', 't', 'h', '_', 'v', 'e', 'r', 's', 'i', 'o', 'n']),
            lit_str(&['1', '.', '0']),
        ),
    );
    proof {
        assert(pairs_model(oauth@) =~= oauthm);
    }
    let mut all: Vec<(String, String)> = Vec::new();
    let mut k: usize = 0;
    while k < oauth.len()
        invariant
            0 <= k <= oauth@.len(),
            pairs_model(oauth@) == oauthm,
            pairs_model(all@) =~= oauthm.take(k as int),
        decreases oauth@.len() - k,
    {
        let e = (oauth[k].0.clone(), oauth[k].1.clone());
        proof {
            assert(oauthm.take(k + 1) =~= oauthm.take(k as int).push((
                oauth@[k as int].0@,
                oauth@[k as int].1@,
            )));
            assert(pairs_model(all@.push(e)) =~= pairs_model(all@).push((e.0@, e.1@)));
        }
        all.push(e);
        k += 1;
    }
    proof {
        assert(oauthm.take(oauth@.len() as int) =~= oauthm);
    }
    let mut k2: usize = 0;
    while k2 < body_params.len()
        invariant
            0 <= k2 <= body_params@.len(),
            bodym == pairs_model(body_params@),
            pairs_model(all@) =~= oauthm + bodym.take(k2 as int),
        decreases body_params@.len() - k2,
    {
        let e = (body_params[k2].0.clone(), body_params[k2].1.clone());
        proof {
            assert(bodym.take(k2 + 1) =~= bodym.take(k2 as int).push((
                body_params@[k2 as int].0@,
                body_params@[k2 as int].1@,
            )));
            assert(pairs_model(all@.push(e)) =~= pairs_model(all@).push((e.0@, e.1@)));
            assert(pairs_model(all@).push((e.0@, e.1@)) =~= oauthm + bodym.take(k2 + 1));
        }
        all.push(e);
        k2 += 1;
    }
    proof {
        assert(bodym.take(body_params@.len() as int) =~= bodym);
        assert(pairs_model(all@) =~= oauthm + bodym);
    }
    let signature = sign_request(method, url, &all, config);
    oauth.push(
        (
            lit_str(
                &['o', 'a', 'u', 't', 'h', '_', 's', 'i', 'g', 'n', 'a', 't', 'u', 'r', 'e'],
            ),
            signature,
        ),
    );
    let ghost withsig = oauthm.push(
        (
            k_signature(),
            spec_sign_request(
                method@,
                url@,
                oauthm + bodym,
                config.api_secret@,
                config.access_secret@,
            ),
        ),
    );
    proof {
        assert(pairs_model(oauth@) =~= withsig);
    }
    let mut out = String::new();
    push_char(&mut out, 'O');
    push_char(&mut out, 'A');
    push_char(&mut out, 'u');
    push_char(&mut out, 't');
    push_char(&mut out, 'h');
    push_char(&mut out, ' ');
    let ghost head = out@;
    let mut i: usize = 0;
    proof {
        assert(head =~= seq!['O', 'A', 'u', 't', 'h', ' ']);
        assert(head + sp_header_parts(withsig, 0) =~= out@ + sp_header_parts(withsig, 0));
    }
    while i < oauth.len()
        invariant
            0 <= i <= oauth@.len(),
            pairs_model(oauth@) == withsig,
            withsig.len() == oauth@.len(),
            head + sp_header_parts(withsig, 0) =~= out@ + sp_header_parts(withsig, i as int),
            head == seq!['O', 'A', 'u', 't', 'h', ' '],
        decreases oauth@.len() - i,
    {
        proof {
            assert(withsig[i as int] == (oauth@[i as int].0@, oauth@[i as int].1@));
        }
        if i > 0 {
            push_char(&mut out, ',');
            push_char(&mut out, ' ');
        }
        let ek = percent_encode(oauth[i].0.as_str());
        out.append(ek.as_str());
        push_char(&mut out, '=');
        push_char(&mut out, '"');
        let ev = percent_encode(oauth[i].1.as_str());
        out.append(ev.as_str());
        push_char(&mut out, '"');
        proof {
            assert(head + sp_header_parts(withsig, 0) =~= out@ + sp_header_parts(withsig, i + 1));
        }
        i += 1;
    }
    proof {
        assert(sp_header_parts(withsig, i as int) =~= Seq::<char>::empty());
        assert(out@ + sp_header_parts(withsig, i as int) =~= out@);
    }
    out
}

/// Builds the authorization header for a request: a fresh nonce and the
/// current timestamp are drawn, and the header is the one
/// [`spec_auth_header`] gives for them.
pub fn build_auth_header(
    method: &str,
    url: &str,
    body_params: &Vec<(String, String)>,
    config: &TwitterConfig,
) -> (r: String)
    ensures
        exists|nonce: Seq<char>, ts: Seq<char>|
            r@ == #[trigger] spec_auth_header(
                method@,
                url@,
                pairs_model(body_params@),
                config.api_key@,
                config.api_secret@,
                config.access_token@,
                config.access_secret@,
                nonce,
                ts,
            ),
{
    let nonce = generate_nonce();
    let timestamp = generate_timestamp();
    let r = build_auth_header_at(method, url, body_params, config, nonce.as_str(), timestamp.as_str());
    proof {
        assert(r@ == spec_auth_header(
            method@,
            url@,
            pairs_model(body_params@),
            config.api_key@,
            config.api_secret@,
            config.access_token@,
            config.access_secret@,
            nonce@,
            timestamp@,
        ));
    }
    r
}

/// The two parts of an admin API key `id:secret`, the secret decoded
/// from hex: defined exactly where a colon is present and the secret is
/// well-formed hex.
pub open spec fn spec_admin_key(cs: Seq<char>) -> Option<(Seq<char>, Seq<u8>)> {
    let j = crate::scan::scan_to(cs, 0, ':');
    if j >= cs.len() {
        None
    } else {
        match spec_hex_decode(cs.subrange(j + 1, cs.len() as int)) {
            Some(bytes) => Some((cs.subrange(0, j), bytes)),
            None => None,
        }
    }
}

/// Splits an admin API key `id:secret` and decodes the secret from hex,
/// as token signing needs it.  Fails where no colon is present or the
/// secret is not well-formed hex.
pub fn parse_admin_key(key: &str) -> (r: Result<(String, Vec<u8>), String>)
    ensures
        match r {
            Ok(p) => spec_admin_key(key@) == Some((p.0@, p.1@)),
            Err(_) => spec_admin_key(key@) is None,
        },
{
    let cs = chars_of(key);
    let j = crate::scan::scan_to_exec(&cs, 0, ':');
    if j >= cs.len() {
        return Err(
            lit_str(
                &[
                    'I', 'n', 'v', 'a', 'l', 'i', 'd', ' ', 'k', 'e', 'y', ' ', 'f', 'o', 'r',
                    'm', 'a', 't', '.', ' ', 'E', 'x', 'p', 'e', 'c', 't', 'e', 'd', ' ', '\'',
                    'i', 'd', ':', 's', 'e', 'c', 'r', 'e', 't', '\'', '.',
                ],
            ),
        );
    }
    let id_cs = crate::text::sub_vec(&cs, 0, j);
    let secret_cs = crate::text::sub_vec(&cs, j + 1, cs.len());
    let secret_str = string_from(&secret_cs);
    match hex_decode(secret_str.as_str()) {
        Ok(bytes) => Ok((string_from(&id_cs), bytes)),
        Err(e) => Err(e),
    }
}

} // verus!
