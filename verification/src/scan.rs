//! The tag scanner: recognising an opening tag with its attribute list,
//! locating the matching closing tag of an element while tolerating nested
//! same-named tags, and stripping a given tag from a fragment.

use vstd::prelude::*;
use crate::text::{is_space_char, is_space, skip_ws, skip_ws_exec, lemma_skip_ws_bounds, sub_vec,
    imatch_at, imatch_at_exec, sp_lower, lower_vec};

verus! {

/// A character that ends a tag name: a blank, `>` or `/`.
pub open spec fn is_name_stop(c: char) -> bool {
    is_space_char(c) || c == '>' || c == '/'
}

/// A character that ends an attribute name: a blank, `=`, `>` or `/`.
pub open spec fn is_attr_stop(c: char) -> bool {
    is_name_stop(c) || c == '='
}

/// First position at or after `i` holding a name-stop character.
pub open spec fn scan_name_end(cs: Seq<char>, i: int) -> int
    decreases cs.len() - i when 0 <= i <= cs.len()
{
    if i < cs.len() && !is_name_stop(cs[i]) {
        scan_name_end(cs, i + 1)
    } else {
        i
    }
}

pub proof fn lemma_scan_name_end_bounds(cs: Seq<char>, i: int)
    requires
        0 <= i <= cs.len(),
    ensures
        i <= scan_name_end(cs, i) <= cs.len(),
    decreases cs.len() - i,
{
    if i < cs.len() && !is_name_stop(cs[i]) {
        lemma_scan_name_end_bounds(cs, i + 1);
    }
}

/// Exec computation of [`scan_name_end`].
pub fn scan_name_end_exec(cs: &Vec<char>, i: usize) -> (r: usize)
    requires
        i <= cs@.len(),
    ensures
        r == scan_name_end(cs@, i as int),
        i <= r <= cs@.len(),
{
    let mut p = i;
    while p < cs.len() && !(is_space(cs[p]) || cs[p] == '>' || cs[p] == '/')
        invariant
            i <= p <= cs@.len(),
            scan_name_end(cs@, i as int) == scan_name_end(cs@, p as int),
        decreases cs.len() - p,
    {
        p += 1;
    }
    proof {
        lemma_scan_name_end_bounds(cs@, p as int);
    }
    p
}

/// First position at or after `i` holding an attribute-stop character.
pub open spec fn scan_attr_end(cs: Seq<char>, i: int) -> int
    decreases cs.len() - i when 0 <= i <= cs.len()
{
    if i < cs.len() && !is_attr_stop(cs[i]) {
        scan_attr_end(cs, i + 1)
    } else {
        i
    }
}

pub proof fn lemma_scan_attr_end_bounds(cs: Seq<char>, i: int)
    requires
        0 <= i <= cs.len(),
    ensures
        i <= scan_attr_end(cs, i) <= cs.len(),
    decreases cs.len() - i,
{
    if i < cs.len() && !is_attr_stop(cs[i]) {
        lemma_scan_attr_end_bounds(cs, i + 1);
    }
}

/// Exec computation of [`scan_attr_end`].
pub fn scan_attr_end_exec(cs: &Vec<char>, i: usize) -> (r: usize)
    requires
        i <= cs@.len(),
    ensures
        r == scan_attr_end(cs@, i as int),
        i <= r <= cs@.len(),
{
    let mut p = i;
    while p < cs.len() && !(is_space(cs[p]) || cs[p] == '>' || cs[p] == '/' || cs[p] == '=')
        invariant
            i <= p <= cs@.len(),
            scan_attr_end(cs@, i as int) == scan_attr_end(cs@, p as int),
        decreases cs.len() - p,
    {
        p += 1;
    }
    proof {
        lemma_scan_attr_end_bounds(cs@, p as int);
    }
    p
}

/// First position at or after `i` holding the character `q`.
pub open spec fn scan_to(cs: Seq<char>, i: int, q: char) -> int
    decreases cs.len() - i when 0 <= i <= cs.len()
{
    if i < cs.len() && cs[i] != q {
        scan_to(cs, i + 1, q)
    } else {
        i
    }
}

pub proof fn lemma_scan_to_bounds(cs: Seq<char>, i: int, q: char)
    requires
        0 <= i <= cs.len(),
    ensures
        i <= scan_to(cs, i, q) <= cs.len(),
    decreases cs.len() - i,
{
    if i < cs.len() && cs[i] != q {
        lemma_scan_to_bounds(cs, i + 1, q);
    }
}

pub proof fn lemma_scan_to_misses(cs: Seq<char>, i: int, q: char)
    requires
        0 <= i <= cs.len(),
        forall|k: int| i <= k < cs.len() ==> cs[k] != q,
    ensures
        scan_to(cs, i, q) == cs.len(),
    decreases cs.len() - i,
{
    if i < cs.len() && cs[i] != q {
        lemma_scan_to_misses(cs, i + 1, q);
    }
}

pub proof fn lemma_scan_to_finds(cs: Seq<char>, i: int, q: char, k: int)
    requires
        0 <= i <= k < cs.len(),
        cs[k] == q,
    ensures
        scan_to(cs, i, q) <= k,
    decreases cs.len() - i,
{
    if i < cs.len() && cs[i] != q {
        lemma_scan_to_finds(cs, i + 1, q, k);
    }
}

/// Exec computation of [`scan_to`].
pub fn scan_to_exec(cs: &Vec<char>, i: usize, q: char) -> (r: usize)
    requires
        i <= cs@.len(),
    ensures
        r == scan_to(cs@, i as int, q),
        i <= r <= cs@.len(),
{
    let mut p = i;
    while p < cs.len() && cs[p] != q
        invariant
            i <= p <= cs@.len(),
            scan_to(cs@, i as int, q) == scan_to(cs@, p as int, q),
        decreases cs.len() - p,
    {
        p += 1;
    }
    proof {
        lemma_scan_to_bounds(cs@, p as int, q);
    }
    p
}

/// Mathematical model of a scanned opening tag: its name folded to small
/// letters, the position just past the tag, and the attribute pairs in
/// order, their names folded likewise.
pub ghost struct TagModel {
    pub name: Seq<char>,
    pub end: int,
    pub attrs: Seq<(Seq<char>, Seq<char>)>,
}

/// A scanned opening tag.
pub struct TagInfo {
    pub name: Vec<char>,
    pub end: usize,
    pub attrs: Vec<(Vec<char>, Vec<char>)>,
}

/// The attribute pairs of a scanned tag as sequences of characters.
pub open spec fn attrs_model(attrs: Seq<(Vec<char>, Vec<char>)>) -> Seq<(Seq<char>, Seq<char>)> {
    attrs.map_values(|a: (Vec<char>, Vec<char>)| (a.0@, a.1@))
}

impl TagInfo {
    /// The model this scanned tag stands for.
    pub open spec fn model(&self) -> TagModel {
        TagModel { name: self.name@, end: self.end as int, attrs: attrs_model(self.attrs@) }
    }
}

/// The attribute list beginning at `i`, together with the position just
/// past the closing `>` (or `/>`, or the end of input).  Mirrors the
/// tolerant scan: quoted or unquoted values, a bare name standing for an
/// empty value, attribute names folded to small letters.
pub open spec fn spec_read_attrs(cs: Seq<char>, i: int) -> (Seq<(Seq<char>, Seq<char>)>, int)
    decreases cs.len() - i when 0 <= i <= cs.len() via spec_read_attrs_dec
{
    let p = skip_ws(cs, i);
    if p >= cs.len() {
        (Seq::empty(), p)
    } else if cs[p] == '>' {
        (Seq::empty(), p + 1)
    } else if cs[p] == '/' {
        if p + 1 < cs.len() && cs[p + 1] == '>' {
            (Seq::empty(), p + 2)
        } else {
            (Seq::empty(), p + 1)
        }
    } else {
        let k = scan_attr_end(cs, p);
        let name = cs.subrange(p, k);
        let q = skip_ws(cs, k);
        if q < cs.len() && cs[q] == '=' {
            let v = skip_ws(cs, q + 1);
            if v < cs.len() && (cs[v] == '"' || cs[v] == '\'') {
                let e = scan_to(cs, v + 1, cs[v]);
                let next = if e < cs.len() {
                    e + 1
                } else {
                    e
                };
                let rest = spec_read_attrs(cs, next);
                (seq![(sp_lower(name), cs.subrange(v + 1, e))] + rest.0, rest.1)
            } else {
                let e = scan_name_end(cs, v);
                let rest = spec_read_attrs(cs, e);
                (seq![(sp_lower(name), cs.subrange(v, e))] + rest.0, rest.1)
            }
        } else if name.len() > 0 {
            let rest = spec_read_attrs(cs, q);
            (seq![(sp_lower(name), Seq::empty())] + rest.0, rest.1)
        } else {
            (Seq::empty(), q)
        }
    }
}

#[via_fn]
proof fn spec_read_attrs_dec(cs: Seq<char>, i: int) {
    lemma_skip_ws_bounds(cs, i);
    let p = skip_ws(cs, i);
    if p < cs.len() && cs[p] != '>' && cs[p] != '/' {
        lemma_scan_attr_end_bounds(cs, p);
        let k = scan_attr_end(cs, p);
        lemma_skip_ws_bounds(cs, k);
        let q = skip_ws(cs, k);
        if q < cs.len() && cs[q] == '=' {
            lemma_skip_ws_bounds(cs, q + 1);
            let v = skip_ws(cs, q + 1);
            if v < cs.len() && (cs[v] == '"' || cs[v] == '\'') {
                lemma_scan_to_bounds(cs, v + 1, cs[v]);
            } else {
                lemma_scan_name_end_bounds(cs, v);
            }
        } else {
            assert(cs.subrange(p, k).len() == k - p);
        }
    }
}

pub proof fn lemma_read_attrs_bounds(cs: Seq<char>, i: int)
    requires
        0 <= i <= cs.len(),
    ensures
        i <= spec_read_attrs(cs, i).1 <= cs.len(),
    decreases cs.len() - i,
{
    lemma_skip_ws_bounds(cs, i);
    let p = skip_ws(cs, i);
    if p < cs.len() && cs[p] != '>' && cs[p] != '/' {
        lemma_scan_attr_end_bounds(cs, p);
        let k = scan_attr_end(cs, p);
        lemma_skip_ws_bounds(cs, k);
        let q = skip_ws(cs, k);
        if q < cs.len() && cs[q] == '=' {
            lemma_skip_ws_bounds(cs, q + 1);
            let v = skip_ws(cs, q + 1);
            if v < cs.len() && (cs[v] == '"' || cs[v] == '\'') {
                lemma_scan_to_bounds(cs, v + 1, cs[v]);
                let e = scan_to(cs, v + 1, cs[v]);
                let next = if e < cs.len() {
                    e + 1
                } else {
                    e
                };
                lemma_read_attrs_bounds(cs, next);
            } else {
                lemma_scan_name_end_bounds(cs, v);
                lemma_read_attrs_bounds(cs, scan_name_end(cs, v));
            }
        } else if cs.subrange(p, k).len() > 0 {
            lemma_read_attrs_bounds(cs, q);
        }
    }
}

/// The opening tag standing at position `i`, if one does: `None` on a
/// closing tag or where no tag name can be read.  The name is kept
/// folded to small letters.
pub open spec fn spec_read_opening_tag(cs: Seq<char>, i: int) -> Option<TagModel> {
    if i < 0 || i >= cs.len() || cs[i] != '<' {
        None
    } else {
        let p = skip_ws(cs, i + 1);
        if p < cs.len() && cs[p] == '/' {
            None
        } else {
            let k = scan_name_end(cs, p);
            let name = cs.subrange(p, k);
            if name.len() == 0 {
                None
            } else {
                let r = spec_read_attrs(cs, k);
                Some(TagModel { name: sp_lower(name), end: r.1, attrs: r.0 })
            }
        }
    }
}

pub proof fn lemma_read_opening_tag_bounds(cs: Seq<char>, i: int)
    requires
        0 <= i <= cs.len(),
        spec_read_opening_tag(cs, i) is Some,
    ensures
        i + 2 <= spec_read_opening_tag(cs, i)->Some_0.end <= cs.len(),
{
    lemma_skip_ws_bounds(cs, i + 1);
    let p = skip_ws(cs, i + 1);
    lemma_scan_name_end_bounds(cs, p);
    let k = scan_name_end(cs, p);
    lemma_read_attrs_bounds(cs, k);
}

/// Exec computation of [`spec_read_opening_tag`].
pub fn read_opening_tag(cs: &Vec<char>, i: usize) -> (r: Option<TagInfo>)
    requires
        i <= cs@.len(),
    ensures
        match r {
            Some(t) => spec_read_opening_tag(cs@, i as int) == Some(t.model()) && i + 2 <= t.end
                <= cs@.len(),
            None => spec_read_opening_tag(cs@, i as int) is None,
        },
{
    if i >= cs.len() || cs[i] != '<' {
        return None;
    }
    let p = skip_ws_exec(cs, i + 1);
    if p < cs.len() && cs[p] == '/' {
        return None;
    }
    let k = scan_name_end_exec(cs, p);
    if k == p {
        assert(cs@.subrange(p as int, k as int).len() == 0);
        return None;
    }
    let name_raw = sub_vec(cs, p, k);
    let name = lower_vec(&name_raw);
    let ghost k0: int = k as int;
    proof {
        assert(spec_read_opening_tag(cs@, i as int) == Some(
            TagModel {
                name: name@,
                end: spec_read_attrs(cs@, k0).1,
                attrs: spec_read_attrs(cs@, k0).0,
            },
        ));
    }
    let mut attrs: Vec<(Vec<char>, Vec<char>)> = Vec::new();
    let mut cur = k;
    loop
        invariant
            0 <= cur <= cs@.len(),
            0 <= k0 <= cs@.len(),
            i + 2 <= k0,
            spec_read_opening_tag(cs@, i as int) == Some(
                TagModel {
                    name: name@,
                    end: spec_read_attrs(cs@, k0).1,
                    attrs: spec_read_attrs(cs@, k0).0,
                },
            ),
            spec_read_attrs(cs@, k0).0 =~= attrs_model(attrs@) + spec_read_attrs(
                cs@,
                cur as int,
            ).0,
            spec_read_attrs(cs@, k0).1 == spec_read_attrs(cs@, cur as int).1,
        decreases cs@.len() - cur,
    {
        let p2 = skip_ws_exec(cs, cur);
        if p2 >= cs.len() {
            proof {
                lemma_read_attrs_bounds(cs@, k0);
                assert(spec_read_attrs(cs@, cur as int).1 == p2 as int);
                assert(spec_read_attrs(cs@, cur as int).0 =~= Seq::<(Seq<char>, Seq<char>)>::empty());
                assert(attrs_model(attrs@) + spec_read_attrs(cs@, cur as int).0 =~= attrs_model(attrs@));
            }
            return Some(TagInfo { name, end: p2, attrs });
        }
        if cs[p2] == '>' {
            proof {
                lemma_read_attrs_bounds(cs@, k0);
                assert(spec_read_attrs(cs@, cur as int).1 == p2 + 1);
                assert(attrs_model(attrs@) + spec_read_attrs(cs@, cur as int).0 =~= attrs_model(attrs@));
            }
            return Some(TagInfo { name, end: p2 + 1, attrs });
        }
        if cs[p2] == '/' {
            let e2 = if p2 + 1 < cs.len() && cs[p2 + 1] == '>' {
                p2 + 2
            } else {
                p2 + 1
            };
            proof {
                lemma_read_attrs_bounds(cs@, k0);
                assert(spec_read_attrs(cs@, cur as int).1 == e2 as int);
                assert(attrs_model(attrs@) + spec_read_attrs(cs@, cur as int).0 =~= attrs_model(attrs@));
            }
            return Some(TagInfo { name, end: e2, attrs });
        }
        let k2 = scan_attr_end_exec(cs, p2);
        let aname = sub_vec(cs, p2, k2);
        let q2 = skip_ws_exec(cs, k2);
        if q2 < cs.len() && cs[q2] == '=' {
            let v2 = skip_ws_exec(cs, q2 + 1);
            if v2 < cs.len() && (cs[v2] == '"' || cs[v2] == '\'') {
                let e2 = scan_to_exec(cs, v2 + 1, cs[v2]);
                let val = sub_vec(cs, v2 + 1, e2);
                let aname_l = lower_vec(&aname);
                let next = if e2 < cs.len() {
                    e2 + 1
                } else {
                    e2
                };
                proof {
                    assert(spec_read_attrs(cs@, cur as int).0 =~= seq![
                        (aname_l@, val@),
                    ] + spec_read_attrs(cs@, next as int).0);
                    assert(attrs_model(attrs@) + spec_read_attrs(cs@, cur as int).0
                        =~= attrs_model(attrs@).push((aname_l@, val@)) + spec_read_attrs(
                        cs@,
                        next as int,
                    ).0);
                }
                attrs.push((aname_l, val));
                cur = next;
            } else {
                let e2 = scan_name_end_exec(cs, v2);
                let val = sub_vec(cs, v2, e2);
                let aname_l = lower_vec(&aname);
                proof {
                    assert(spec_read_attrs(cs@, cur as int).0 =~= seq![
                        (aname_l@, val@),
                    ] + spec_read_attrs(cs@, e2 as int).0);
                    assert(attrs_model(attrs@) + spec_read_attrs(cs@, cur as int).0
                        =~= attrs_model(attrs@).push((aname_l@, val@)) + spec_read_attrs(
                        cs@,
                        e2 as int,
                    ).0);
                }
                attrs.push((aname_l, val));
                cur = e2;
            }
        } else if aname.len() > 0 {
            let aname_l = lower_vec(&aname);
            proof {
                let ghost empty_val: Seq<char> = Seq::empty();
                assert(spec_read_attrs(cs@, cur as int).0 =~= seq![
                    (aname_l@, empty_val),
                ] + spec_read_attrs(cs@, q2 as int).0);
                assert(attrs_model(attrs@) + spec_read_attrs(cs@, cur as int).0
                    =~= attrs_model(attrs@).push((aname_l@, empty_val)) + spec_read_attrs(
                    cs@,
                    q2 as int,
                ).0);
            }
            let empty_vec: Vec<char> = Vec::new();
            attrs.push((aname_l, empty_vec));
            cur = q2;
        } else {
            proof {
                lemma_read_attrs_bounds(cs@, k0);
                assert(spec_read_attrs(cs@, cur as int).1 == q2 as int);
                assert(attrs_model(attrs@) + spec_read_attrs(cs@, cur as int).0 =~= attrs_model(attrs@));
            }
            return Some(TagInfo { name, end: q2, attrs });
        }
    }
}

/// A closing tag `</tag>` stands at position `i`, the name matched modulo
/// ASCII case.
pub open spec fn is_close_at(cs: Seq<char>, i: int, tag: Seq<char>) -> bool {
    &&& 0 <= i
    &&& i + tag.len() + 3 <= cs.len()
    &&& cs[i] == '<'
    &&& cs[i + 1] == '/'
    &&& imatch_at(cs, i + 2, tag)
    &&& cs[i + 2 + tag.len()] == '>'
}

/// Exec test for [`is_close_at`].
pub fn close_at_exec(cs: &Vec<char>, i: usize, tag: &[char]) -> (r: bool)
    ensures
        r == is_close_at(cs@, i as int, tag@),
{
    if i >= cs.len() {
        return false;
    }
    let avail = cs.len() - i;
    if avail < 3 || avail - 3 < tag.len() {
        return false;
    }
    cs[i] == '<' && cs[i + 1] == '/' && imatch_at_exec(cs, i + 2, tag) && cs[i + 2 + tag.len()]
        == '>'
}

/// Another opening of the same element begins at position `i`: `<tag`
/// followed by a blank, `>` or `/`.
pub open spec fn is_open_same_at(cs: Seq<char>, i: int, tag: Seq<char>) -> bool {
    &&& 0 <= i
    &&& i + 1 + tag.len() < cs.len()
    &&& cs[i] == '<'
    &&& imatch_at(cs, i + 1, tag)
    &&& (is_space_char(cs[i + 1 + tag.len()]) || cs[i + 1 + tag.len()] == '>' || cs[i + 1
        + tag.len()] == '/')
}

/// Exec test for [`is_open_same_at`].
pub fn open_same_at_exec(cs: &Vec<char>, i: usize, tag: &[char]) -> (r: bool)
    ensures
        r == is_open_same_at(cs@, i as int, tag@),
{
    if i >= cs.len() {
        return false;
    }
    let avail = cs.len() - i;
    if avail < 2 || avail - 2 < tag.len() {
        return false;
    }
    let c = cs[i + 1 + tag.len()];
    cs[i] == '<' && imatch_at_exec(cs, i + 1, tag) && (is_space(c) || c == '>' || c == '/')
}

/// The scan for the closing tag of the element whose content begins at
/// `start`: from position `pos` with `depth` same-named elements open.
/// Yields the element's inner content and the position just past the
/// closing tag; where no closing tag exists the remainder of the input is
/// the content.
pub open spec fn rutc_from(cs: Seq<char>, start: int, tag: Seq<char>, pos: int, depth: int) -> (
    Seq<char>,
    int,
)
    decreases cs.len() - pos when 0 <= start <= pos <= cs.len()
{
    if pos >= cs.len() {
        (cs.subrange(start, cs.len() as int), cs.len() as int)
    } else if is_close_at(cs, pos, tag) && depth == 1 {
        (cs.subrange(start, pos), pos + tag.len() + 3)
    } else if is_close_at(cs, pos, tag) {
        rutc_from(cs, start, tag, pos + 1, depth - 1)
    } else if is_open_same_at(cs, pos, tag) {
        rutc_from(cs, start, tag, pos + 1, depth + 1)
    } else {
        rutc_from(cs, start, tag, pos + 1, depth)
    }
}

/// The inner content of the element whose content begins at `start`, and
/// the position just past its closing tag.
pub open spec fn spec_read_until_closing(cs: Seq<char>, start: int, tag: Seq<char>) -> (
    Seq<char>,
    int,
) {
    rutc_from(cs, start, tag, start, 1)
}

pub proof fn lemma_rutc_bounds(cs: Seq<char>, start: int, tag: Seq<char>, pos: int, depth: int)
    requires
        0 <= start <= pos <= cs.len(),
    ensures
        start <= rutc_from(cs, start, tag, pos, depth).1 <= cs.len(),
        rutc_from(cs, start, tag, pos, depth).0.len() <= cs.len() - start,
        rutc_from(cs, start, tag, pos, depth).0.len() <= rutc_from(cs, start, tag, pos, depth).1
            - start,
    decreases cs.len() - pos,
{
    if pos >= cs.len() {
    } else if is_close_at(cs, pos, tag) && depth == 1 {
    } else if is_close_at(cs, pos, tag) {
        lemma_rutc_bounds(cs, start, tag, pos + 1, depth - 1);
    } else if is_open_same_at(cs, pos, tag) {
        lemma_rutc_bounds(cs, start, tag, pos + 1, depth + 1);
    } else {
        lemma_rutc_bounds(cs, start, tag, pos + 1, depth);
    }
}

/// Exec computation of [`spec_read_until_closing`].
pub fn read_until_closing(cs: &Vec<char>, start: usize, tag: &[char]) -> (r: (Vec<char>, usize))
    requires
        start <= cs@.len(),
        1 <= tag@.len(),
    ensures
        (r.0@, r.1 as int) == spec_read_until_closing(cs@, start as int, tag@),
        start <= r.1 <= cs@.len(),
        r.0@.len() <= cs@.len() - start,
        r.0@.len() <= r.1 - start,
{
    proof {
        lemma_rutc_bounds(cs@, start as int, tag@, start as int, 1);
    }
    let mut pos = start;
    let mut depth: usize = 1;
    loop
        invariant
            start <= pos <= cs@.len(),
            1 <= tag@.len(),
            1 <= depth <= pos - start + 1,
            rutc_from(cs@, start as int, tag@, pos as int, depth as int)
                == spec_read_until_closing(cs@, start as int, tag@),
            spec_read_until_closing(cs@, start as int, tag@).1 <= cs@.len(),
            start <= spec_read_until_closing(cs@, start as int, tag@).1,
            spec_read_until_closing(cs@, start as int, tag@).0.len() <= cs@.len() - start,
            spec_read_until_closing(cs@, start as int, tag@).0.len()
                <= spec_read_until_closing(cs@, start as int, tag@).1 - start,
        decreases cs@.len() - pos,
    {
        if pos >= cs.len() {
            let inner = sub_vec(cs, start, cs.len());
            return (inner, cs.len());
        }
        if close_at_exec(cs, pos, tag) {
            if depth == 1 {
                let inner = sub_vec(cs, start, pos);
                return (inner, pos + tag.len() + 3);
            }
            depth -= 1;
        } else if open_same_at_exec(cs, pos, tag) {
            depth += 1;
        }
        pos += 1;
    }
}

/// The closing-tag scan passes over a stretch holding no `<` unchanged.
pub proof fn lemma_rutc_skips_text(
    cs: Seq<char>,
    start: int,
    tag: Seq<char>,
    pos: int,
    q: int,
    depth: int,
)
    requires
        0 <= start <= pos <= q <= cs.len(),
        forall|k: int| pos <= k < q ==> cs[k] != '<',
    ensures
        rutc_from(cs, start, tag, pos, depth) == rutc_from(cs, start, tag, q, depth),
    decreases q - pos,
{
    if pos < q {
        assert(cs[pos] != '<');
        assert(!is_close_at(cs, pos, tag));
        assert(!is_open_same_at(cs, pos, tag));
        lemma_rutc_skips_text(cs, start, tag, pos + 1, q, depth);
    }
}

/// First position at or after `i` where a closing tag `</tag>` stands.
pub open spec fn find_close(cs: Seq<char>, tag: Seq<char>, i: int) -> Option<int>
    decreases cs.len() - i when 0 <= i <= cs.len()
{
    if i >= cs.len() {
        None
    } else if is_close_at(cs, i, tag) {
        Some(i)
    } else {
        find_close(cs, tag, i + 1)
    }
}

pub proof fn lemma_find_close_bounds(cs: Seq<char>, tag: Seq<char>, i: int)
    requires
        0 <= i <= cs.len(),
        find_close(cs, tag, i) is Some,
    ensures
        i <= find_close(cs, tag, i)->Some_0,
        find_close(cs, tag, i)->Some_0 + tag.len() + 3 <= cs.len(),
    decreases cs.len() - i,
{
    if i < cs.len() && !is_close_at(cs, i, tag) {
        lemma_find_close_bounds(cs, tag, i + 1);
    }
}

/// Exec computation of [`find_close`] from the start of the input.
pub fn find_close_exec(cs: &Vec<char>, tag: &[char]) -> (r: Option<usize>)
    ensures
        match r {
            Some(idx) => find_close(cs@, tag@, 0) == Some(idx as int) && idx + tag@.len() + 3
                <= cs@.len(),
            None => find_close(cs@, tag@, 0) is None,
        },
{
    let mut i: usize = 0;
    while i < cs.len()
        invariant
            0 <= i <= cs@.len(),
            find_close(cs@, tag@, 0) == find_close(cs@, tag@, i as int),
        decreases cs@.len() - i,
    {
        if close_at_exec(cs, i, tag) {
            return Some(i);
        }
        i += 1;
    }
    None
}

/// An opening tag `<tag` begins at position `i` (any or no attribute text
/// may follow the name).
pub open spec fn is_open_prefix_at(cs: Seq<char>, i: int, tag: Seq<char>) -> bool {
    &&& 0 <= i
    &&& i + 1 + tag.len() <= cs.len()
    &&& cs[i] == '<'
    &&& imatch_at(cs, i + 1, tag)
}

/// Exec test for [`is_open_prefix_at`].
pub fn open_prefix_at_exec(cs: &Vec<char>, i: usize, tag: &[char]) -> (r: bool)
    ensures
        r == is_open_prefix_at(cs@, i as int, tag@),
{
    if i >= cs.len() {
        return false;
    }
    let avail = cs.len() - i;
    if avail < 1 || avail - 1 < tag.len() {
        return false;
    }
    cs[i] == '<' && imatch_at_exec(cs, i + 1, tag)
}

/// First position at or after `i` where an opening `<tag` begins.
pub open spec fn find_open(cs: Seq<char>, tag: Seq<char>, i: int) -> Option<int>
    decreases cs.len() - i when 0 <= i <= cs.len()
{
    if i >= cs.len() {
        None
    } else if is_open_prefix_at(cs, i, tag) {
        Some(i)
    } else {
        find_open(cs, tag, i + 1)
    }
}

pub proof fn lemma_find_open_bounds(cs: Seq<char>, tag: Seq<char>, i: int)
    requires
        0 <= i <= cs.len(),
        find_open(cs, tag, i) is Some,
    ensures
        i <= find_open(cs, tag, i)->Some_0,
        find_open(cs, tag, i)->Some_0 + 1 + tag.len() <= cs.len(),
    decreases cs.len() - i,
{
    if i < cs.len() && !is_open_prefix_at(cs, i, tag) {
        lemma_find_open_bounds(cs, tag, i + 1);
    }
}

/// Exec computation of [`find_open`] from the start of the input.
pub fn find_open_exec(cs: &Vec<char>, tag: &[char]) -> (r: Option<usize>)
    ensures
        match r {
            Some(idx) => find_open(cs@, tag@, 0) == Some(idx as int) && idx + 1 + tag@.len()
                <= cs@.len(),
            None => find_open(cs@, tag@, 0) is None,
        },
{
    let mut i: usize = 0;
    while i < cs.len()
        invariant
            0 <= i <= cs@.len(),
            find_open(cs@, tag@, 0) == find_open(cs@, tag@, i as int),
        decreases cs@.len() - i,
    {
        if open_prefix_at_exec(cs, i, tag) {
            return Some(i);
        }
        i += 1;
    }
    None
}

/// The input with every closing tag `</tag>` removed, one occurrence at a
/// time from the front.
pub open spec fn strip_close_tags(cs: Seq<char>, tag: Seq<char>) -> Seq<char>
    decreases cs.len() via strip_close_tags_dec
{
    match find_close(cs, tag, 0) {
        None => cs,
        Some(idx) => strip_close_tags(
            cs.subrange(0, idx) + cs.subrange(idx + tag.len() + 3, cs.len() as int),
            tag,
        ),
    }
}

#[via_fn]
proof fn strip_close_tags_dec(cs: Seq<char>, tag: Seq<char>) {
    if find_close(cs, tag, 0) is Some {
        lemma_find_close_bounds(cs, tag, 0);
    }
}

/// The input with every opening tag `<tag ...>` removed, one occurrence at
/// a time from the front; one with no closing `>` is kept.
pub open spec fn strip_open_tags(cs: Seq<char>, tag: Seq<char>) -> Seq<char>
    decreases cs.len() via strip_open_tags_dec
{
    match find_open(cs, tag, 0) {
        None => cs,
        Some(idx) => {
            let e = scan_to(cs, idx, '>');
            if e < cs.len() {
                strip_open_tags(cs.subrange(0, idx) + cs.subrange(e + 1, cs.len() as int), tag)
            } else {
                cs
            }
        },
    }
}

#[via_fn]
proof fn strip_open_tags_dec(cs: Seq<char>, tag: Seq<char>) {
    if find_open(cs, tag, 0) is Some {
        lemma_find_open_bounds(cs, tag, 0);
        let idx = find_open(cs, tag, 0)->Some_0;
        lemma_scan_to_bounds(cs, idx, '>');
    }
}

pub proof fn lemma_find_close_misses(cs: Seq<char>, tag: Seq<char>, i: int)
    requires
        0 <= i <= cs.len(),
        forall|k: int| 0 <= k < cs.len() ==> cs[k] != '<',
    ensures
        find_close(cs, tag, i) is None,
    decreases cs.len() - i,
{
    if i < cs.len() {
        assert(!is_close_at(cs, i, tag));
        lemma_find_close_misses(cs, tag, i + 1);
    }
}

pub proof fn lemma_find_open_misses(cs: Seq<char>, tag: Seq<char>, i: int)
    requires
        0 <= i <= cs.len(),
        forall|k: int| 0 <= k < cs.len() ==> cs[k] != '<',
    ensures
        find_open(cs, tag, i) is None,
    decreases cs.len() - i,
{
    if i < cs.len() {
        assert(!is_open_prefix_at(cs, i, tag));
        lemma_find_open_misses(cs, tag, i + 1);
    }
}

/// Stripping a tag from a fragment holding no `<` leaves it unchanged.
pub proof fn lemma_strip_tags_plain(cs: Seq<char>, tag: Seq<char>)
    requires
        forall|k: int| 0 <= k < cs.len() ==> cs[k] != '<',
    ensures
        spec_strip_tags(cs, tag) == cs,
{
    lemma_find_close_misses(cs, tag, 0);
    assert(strip_close_tags(cs, tag) == cs);
    lemma_find_open_misses(cs, tag, 0);
    assert(strip_open_tags(cs, tag) == cs);
}

/// The input with the given element's closing tags removed, then its
/// opening tags.
pub open spec fn spec_strip_tags(cs: Seq<char>, tag: Seq<char>) -> Seq<char> {
    strip_open_tags(strip_close_tags(cs, tag), tag)
}

pub proof fn lemma_strip_close_len(cs: Seq<char>, tag: Seq<char>)
    ensures
        strip_close_tags(cs, tag).len() <= cs.len(),
    decreases cs.len(),
{
    if find_close(cs, tag, 0) is Some {
        lemma_find_close_bounds(cs, tag, 0);
        let idx = find_close(cs, tag, 0)->Some_0;
        lemma_strip_close_len(
            cs.subrange(0, idx) + cs.subrange(idx + tag.len() + 3, cs.len() as int),
            tag,
        );
    }
}

pub proof fn lemma_strip_open_len(cs: Seq<char>, tag: Seq<char>)
    ensures
        strip_open_tags(cs, tag).len() <= cs.len(),
    decreases cs.len(),
{
    if find_open(cs, tag, 0) is Some {
        lemma_find_open_bounds(cs, tag, 0);
        let idx = find_open(cs, tag, 0)->Some_0;
        lemma_scan_to_bounds(cs, idx, '>');
        let e = scan_to(cs, idx, '>');
        if e < cs.len() {
            lemma_strip_open_len(cs.subrange(0, idx) + cs.subrange(e + 1, cs.len() as int), tag);
        }
    }
}

pub proof fn lemma_strip_tags_len(cs: Seq<char>, tag: Seq<char>)
    ensures
        spec_strip_tags(cs, tag).len() <= cs.len(),
{
    lemma_strip_close_len(cs, tag);
    lemma_strip_open_len(strip_close_tags(cs, tag), tag);
}

/// Removes every `</tag>` and `<tag ...>` from a fragment: exec
/// computation of [`spec_strip_tags`].
pub fn strip_tags_simple(cs: Vec<char>, tag: &[char]) -> (r: Vec<char>)
    ensures
        r@ == spec_strip_tags(cs@, tag@),
        r@.len() <= cs@.len(),
{
    proof {
        lemma_strip_tags_len(cs@, tag@);
    }
    let mut cur = cs;
    loop
        invariant
            strip_close_tags(cur@, tag@) == strip_close_tags(cs@, tag@),
            cur@.len() <= cs@.len(),
        ensures
            cur@ == strip_close_tags(cs@, tag@),
            cur@.len() <= cs@.len(),
        decreases cur@.len(),
    {
        match find_close_exec(&cur, tag) {
            Some(idx) => {
                let n = cur.len();
                proof {
                    lemma_find_close_bounds(cur@, tag@, 0);
                    assert(idx + tag@.len() + 3 <= cur@.len());
                }
                let cut = idx + tag.len() + 3;
                let mut nv = sub_vec(&cur, 0, idx);
                let mut tail = sub_vec(&cur, cut, n);
                nv.append(&mut tail);
                cur = nv;
            },
            None => {
                break;
            },
        }
    }
    proof {
        lemma_strip_open_len(cur@, tag@);
    }
    loop
        invariant
            strip_open_tags(cur@, tag@) == strip_open_tags(strip_close_tags(cs@, tag@), tag@),
            cur@.len() <= cs@.len(),
        ensures
            cur@ == strip_open_tags(strip_close_tags(cs@, tag@), tag@),
            cur@.len() <= cs@.len(),
        decreases cur@.len(),
    {
        match find_open_exec(&cur, tag) {
            Some(idx) => {
                let e = scan_to_exec(&cur, idx, '>');
                if e >= cur.len() {
                    break;
                }
                let mut nv = sub_vec(&cur, 0, idx);
                let mut tail = sub_vec(&cur, e + 1, cur.len());
                nv.append(&mut tail);
                cur = nv;
            },
            None => {
                break;
            },
        }
    }
    cur
}

} // verus!
