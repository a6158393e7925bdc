//! Reading a manifest back from XML text: a recursive-descent reader for
//! the element shapes the transcoder writes. Unknown elements are
//! skipped, unknown attributes ignored, attribute order is free, and a
//! missing string attribute reads back as the empty string — exactly the
//! values the writer would have skipped.
//!
//! Each reader is pinned to a spec-level mirror (`spec_read_attrs`,
//! `spec_read_open`, ... up to `spec_parse_mpd`). The low-level mirrors
//! say exactly what is read from any text; the element-level mirrors
//! describe the one element sequence the writer emits and say nothing
//! of other shapes, so `parse_mpd` is pinned on every written document:
//! wherever `spec_parse_mpd` reads a document from the bytes, the
//! parser returns it, field for field.

use vstd::prelude::*;

use crate::mpd::{
    AdaptationSet, AudioChannelConfiguration, MPD, Period, ProgramInformation, Representation,
    Segment, SegmentTemplate, SegmentTimeline, ServiceDescription,
};
use crate::text::utf8_to_string;

verus! {

/// The first position at or after `j` holding a non-whitespace byte.
pub open spec fn spec_skip_ws(bs: Seq<u8>, j: int) -> int
    decreases bs.len() - j,
{
    if 0 <= j < bs.len() && crate::text::is_space(bs[j]) {
        spec_skip_ws(bs, j + 1)
    } else {
        j
    }
}

/// The first index at or after `i` holding a non-whitespace byte.
fn skip_ws(bs: &[u8], i: usize) -> (j: usize)
    requires
        i <= bs@.len(),
    ensures
        i <= j <= bs@.len(),
        j == spec_skip_ws(bs@, i as int),
        j == bs@.len() || !crate::text::is_space(bs@[j as int]),
{
    let mut j = i;
    while j < bs.len() && (bs[j] == 32 || bs[j] == 9 || bs[j] == 13 || bs[j] == 10)
        invariant
            i <= j <= bs@.len(),
            spec_skip_ws(bs@, i as int) == spec_skip_ws(bs@, j as int),
        decreases bs@.len() - j,
    {
        j = j + 1;
    }
    j
}

/// Whether a byte may stand in an element or attribute name.
pub open spec fn is_name_b(b: u8) -> bool {
    (97 <= b <= 122) || (65 <= b <= 90) || (48 <= b <= 57) || b == 58 || b == 45 || b == 95
        || b == 46
}

/// The exec test for a name byte.
fn is_name_byte(b: u8) -> (r: bool)
    ensures
        r == is_name_b(b),
{
    (b >= 97 && b <= 122) || (b >= 65 && b <= 90) || (b >= 48 && b <= 57) || b == 58 || b == 45
        || b == 95 || b == 46
}

/// The longest run of name bytes starting at `j`, and the position
/// just past it.
pub open spec fn spec_read_name(bs: Seq<u8>, j: int) -> (Seq<u8>, int)
    decreases bs.len() - j,
{
    if 0 <= j < bs.len() && is_name_b(bs[j]) {
        let (name, end) = spec_read_name(bs, j + 1);
        (seq![bs[j]] + name, end)
    } else {
        (Seq::<u8>::empty(), j)
    }
}

/// The name starting at `i`: its bytes and the index just past it.
fn read_name(bs: &[u8], i: usize) -> (r: (Vec<u8>, usize))
    requires
        i <= bs@.len(),
    ensures
        i <= r.1 <= bs@.len(),
        r.0@.len() == r.1 - i,
        (r.0@, r.1 as int) == spec_read_name(bs@, i as int),
{
    let mut j = i;
    let mut name: Vec<u8> = Vec::new();
    while j < bs.len() && is_name_byte(bs[j])
        invariant
            i <= j <= bs@.len(),
            name@.len() == j - i,
            spec_read_name(bs@, i as int) == (
                name@ + spec_read_name(bs@, j as int).0,
                spec_read_name(bs@, j as int).1,
            ),
        decreases bs@.len() - j,
    {
        proof {
            assert(name@ + (seq![bs@[j as int]] + spec_read_name(bs@, j + 1).0) =~= (name@
                + seq![bs@[j as int]]) + spec_read_name(bs@, j + 1).0);
        }
        name.push(bs[j]);
        j = j + 1;
    }
    proof {
        assert(name@ + Seq::<u8>::empty() =~= name@);
    }
    (name, j)
}

/// Whether the five bytes of `&amp;` stand at `j`.
pub open spec fn amp_at(bs: Seq<u8>, j: int) -> bool {
    &&& 0 <= j
    &&& j + 5 <= bs.len()
    &&& bs[j] == 38
    &&& bs[j + 1] == 97
    &&& bs[j + 2] == 109
    &&& bs[j + 3] == 112
    &&& bs[j + 4] == 59
}

/// Whether the four bytes of `&lt;` stand at `j`.
pub open spec fn lt_at(bs: Seq<u8>, j: int) -> bool {
    &&& 0 <= j
    &&& j + 4 <= bs.len()
    &&& bs[j] == 38
    &&& bs[j + 1] == 108
    &&& bs[j + 2] == 116
    &&& bs[j + 3] == 59
}

/// Whether the four bytes of `&gt;` stand at `j`.
pub open spec fn gt_at(bs: Seq<u8>, j: int) -> bool {
    &&& 0 <= j
    &&& j + 4 <= bs.len()
    &&& bs[j] == 38
    &&& bs[j + 1] == 103
    &&& bs[j + 2] == 116
    &&& bs[j + 3] == 59
}

/// Whether the six bytes of `&quot;` stand at `j`.
pub open spec fn quot_at(bs: Seq<u8>, j: int) -> bool {
    &&& 0 <= j
    &&& j + 6 <= bs.len()
    &&& bs[j] == 38
    &&& bs[j + 1] == 113
    &&& bs[j + 2] == 117
    &&& bs[j + 3] == 111
    &&& bs[j + 4] == 116
    &&& bs[j + 5] == 59
}

/// Whether the six bytes of `&apos;` stand at `j`.
pub open spec fn apos_at(bs: Seq<u8>, j: int) -> bool {
    &&& 0 <= j
    &&& j + 6 <= bs.len()
    &&& bs[j] == 38
    &&& bs[j + 1] == 97
    &&& bs[j + 2] == 112
    &&& bs[j + 3] == 111
    &&& bs[j + 4] == 115
    &&& bs[j + 5] == 59
}

/// Prepend one decoded byte to an un-quoting result.
pub open spec fn unquote_cons(b: u8, rec: Option<(Seq<u8>, int)>) -> Option<(Seq<u8>, int)> {
    match rec {
        Some((v, e)) => Some((seq![b] + v, e)),
        None => None,
    }
}

/// What reading a quoted value yields from position `j`, just after
/// the opening quote: the decoded bytes up to the closing quote and
/// the position just past it, or nothing when the text ends first or
/// an entity is malformed.
pub open spec fn spec_unquote(bs: Seq<u8>, j: int) -> Option<(Seq<u8>, int)>
    decreases bs.len() - j,
{
    if j < 0 || j >= bs.len() {
        None
    } else if bs[j] == 34 {
        Some((Seq::<u8>::empty(), j + 1))
    } else if bs[j] == 38 {
        if amp_at(bs, j) {
            unquote_cons(38, spec_unquote(bs, j + 5))
        } else if lt_at(bs, j) {
            unquote_cons(60, spec_unquote(bs, j + 4))
        } else if gt_at(bs, j) {
            unquote_cons(62, spec_unquote(bs, j + 4))
        } else if quot_at(bs, j) {
            unquote_cons(34, spec_unquote(bs, j + 6))
        } else if apos_at(bs, j) {
            unquote_cons(39, spec_unquote(bs, j + 6))
        } else {
            None
        }
    } else {
        unquote_cons(bs[j], spec_unquote(bs, j + 1))
    }
}

/// Un-quoting ignores everything before its starting position.
proof fn lemma_unquote_shift(prefix: Seq<u8>, bs: Seq<u8>, j: int)
    requires
        0 <= j,
    ensures
        spec_unquote(prefix + bs, prefix.len() + j) == (match spec_unquote(bs, j) {
            Some((v, e)) => Some((v, prefix.len() + e)),
            None => None,
        }),
    decreases bs.len() - j,
{
    let whole = prefix + bs;
    let pj = prefix.len() + j;
    if j >= bs.len() {
    } else {
        assert(whole[pj] == bs[j]);
        assert(forall|k: int| j <= k < bs.len() ==> #[trigger] whole[prefix.len() + k] == bs[k]);
        assert(amp_at(whole, pj) == amp_at(bs, j));
        assert(lt_at(whole, pj) == lt_at(bs, j));
        assert(gt_at(whole, pj) == gt_at(bs, j));
        assert(quot_at(whole, pj) == quot_at(bs, j));
        assert(apos_at(whole, pj) == apos_at(bs, j));
        if bs[j] == 34 {
        } else if bs[j] == 38 {
            if amp_at(bs, j) {
                lemma_unquote_shift(prefix, bs, j + 5);
            } else if lt_at(bs, j) {
                lemma_unquote_shift(prefix, bs, j + 4);
            } else if gt_at(bs, j) {
                lemma_unquote_shift(prefix, bs, j + 4);
            } else if quot_at(bs, j) {
                lemma_unquote_shift(prefix, bs, j + 6);
            } else if apos_at(bs, j) {
                lemma_unquote_shift(prefix, bs, j + 6);
            }
        } else {
            lemma_unquote_shift(prefix, bs, j + 1);
        }
    }
}

/// Un-quoting undoes escaping: a value written with its escapes and a
/// closing quote reads back as exactly that value, whatever follows.
pub proof fn lemma_unquote_escape(v: Seq<u8>, rest: Seq<u8>)
    ensures
        spec_unquote(crate::xml::spec_escape(v) + seq![34u8] + rest, 0) == Some((
            v,
            crate::xml::spec_escape(v).len() + 1 as int,
        )),
    decreases v.len(),
{
    let esc = crate::xml::spec_escape(v);
    let bs = esc + seq![34u8] + rest;
    if v.len() == 0 {
        assert(bs[0] == 34);
        assert(Seq::<u8>::empty() =~= v);
    } else {
        let b = v[0];
        let chunk = crate::xml::esc1(b);
        let tail = crate::xml::spec_escape(v.drop_first()) + seq![34u8] + rest;
        assert(bs =~= chunk + tail);
        lemma_unquote_escape(v.drop_first(), rest);
        lemma_unquote_shift(chunk, tail, 0);
        assert(forall|k: int| 0 <= k < chunk.len() ==> #[trigger] bs[k] == chunk[k]);
        if b == 38 {
            assert(amp_at(bs, 0));
            assert(seq![38u8] + v.drop_first() =~= v);
        } else if b == 60 {
            assert(bs[0] == 38 && !amp_at(bs, 0) && lt_at(bs, 0));
            assert(seq![60u8] + v.drop_first() =~= v);
        } else if b == 62 {
            assert(bs[0] == 38 && !amp_at(bs, 0) && !lt_at(bs, 0) && gt_at(bs, 0));
            assert(seq![62u8] + v.drop_first() =~= v);
        } else if b == 34 {
            assert(bs[0] == 38 && !amp_at(bs, 0) && !lt_at(bs, 0) && !gt_at(bs, 0) && quot_at(
                bs,
                0,
            ));
            assert(seq![34u8] + v.drop_first() =~= v);
        } else {
            assert(bs[0] == b && b != 34 && b != 38);
            assert(seq![b] + v.drop_first() =~= v);
        }
    }
}

/// A quoted attribute value starting at `i`: entities are decoded; the
/// result is exactly what `spec_unquote` reads after the opening
/// quote.
fn read_quoted(bs: &[u8], i: usize) -> (r: Option<(Vec<u8>, usize)>)
    requires
        i <= bs@.len(),
    ensures
        r is Some ==> i < r.unwrap().1 <= bs@.len(),
        i < bs@.len() && bs@[i as int] == 34 ==> (match spec_unquote(bs@, i + 1) {
            Some((v, e)) => r is Some && r.unwrap().0@ == v && r.unwrap().1 == e,
            None => r is None,
        }),
        !(i < bs@.len() && bs@[i as int] == 34) ==> r is None,
{
    let n = bs.len();
    if i >= n || bs[i] != 34 {
        return None;
    }
    let mut j = i + 1;
    let mut value: Vec<u8> = Vec::new();
    loop
        invariant
            i < j <= n,
            n == bs@.len(),
            i < bs@.len() && bs@[i as int] == 34,
            spec_unquote(bs@, i + 1) == (match spec_unquote(bs@, j as int) {
                Some((v, e)) => Some((value@ + v, e)),
                None => None,
            }),
        decreases n - j,
    {
        proof {
            reveal_with_fuel(spec_unquote, 2);
        }
        if j >= n {
            return None;
        }
        let b = bs[j];
        if b == 34 {
            proof {
                assert(value@ + Seq::<u8>::empty() =~= value@);
            }
            return Some((value, j + 1));
        }
        let ghost prev = value@;
        let step: usize = if b == 38 {
            if n - j > 4 && bs[j + 1] == 97 && bs[j + 2] == 109 && bs[j + 3] == 112 && bs[j + 4]
                == 59 {
                value.push(38);
                5
            } else if n - j > 3 && bs[j + 1] == 108 && bs[j + 2] == 116 && bs[j + 3] == 59 {
                value.push(60);
                4
            } else if n - j > 3 && bs[j + 1] == 103 && bs[j + 2] == 116 && bs[j + 3] == 59 {
                value.push(62);
                4
            } else if n - j > 5 && bs[j + 1] == 113 && bs[j + 2] == 117 && bs[j + 3] == 111 && bs[j
                + 4] == 116 && bs[j + 5] == 59 {
                value.push(34);
                6
            } else if n - j > 5 && bs[j + 1] == 97 && bs[j + 2] == 112 && bs[j + 3] == 111 && bs[j
                + 4] == 115 && bs[j + 5] == 59 {
                value.push(39);
                6
            } else {
                return None;
            }
        } else {
            value.push(b);
            1
        };
        proof {
            assert forall|v2: Seq<u8>| true implies prev + (seq![value@.last()] + v2) =~= value@
                + v2 by {
                assert(value@ =~= prev + seq![value@.last()]);
            }
        }
        j = j + step;
    }
}

/// An un-quoted value ends strictly after its start, within bounds.
proof fn lemma_unquote_pos(bs: Seq<u8>, j: int)
    requires
        0 <= j,
    ensures
        spec_unquote(bs, j) matches Some((v, e)) ==> j < e <= bs.len(),
    decreases bs.len() - j,
{
    if 0 <= j < bs.len() {
        if bs[j] == 34 {
        } else if bs[j] == 38 {
            if amp_at(bs, j) {
                lemma_unquote_pos(bs, j + 5);
            } else if lt_at(bs, j) {
                lemma_unquote_pos(bs, j + 4);
            } else if gt_at(bs, j) {
                lemma_unquote_pos(bs, j + 4);
            } else if quot_at(bs, j) {
                lemma_unquote_pos(bs, j + 6);
            } else if apos_at(bs, j) {
                lemma_unquote_pos(bs, j + 6);
            }
        } else {
            lemma_unquote_pos(bs, j + 1);
        }
    }
}

/// Skipping whitespace ignores everything before its start.
proof fn lemma_skip_ws_shift(prefix: Seq<u8>, bs: Seq<u8>, j: int)
    requires
        0 <= j,
    ensures
        spec_skip_ws(prefix + bs, prefix.len() + j) == prefix.len() + spec_skip_ws(bs, j),
    decreases bs.len() - j,
{
    if j < bs.len() {
        assert((prefix + bs)[prefix.len() + j] == bs[j]);
        if crate::text::is_space(bs[j]) {
            lemma_skip_ws_shift(prefix, bs, j + 1);
        }
    }
}

/// Reading a name ignores everything before its start.
proof fn lemma_read_name_shift(prefix: Seq<u8>, bs: Seq<u8>, j: int)
    requires
        0 <= j,
    ensures
        spec_read_name(prefix + bs, prefix.len() + j) == (
            spec_read_name(bs, j).0,
            prefix.len() + spec_read_name(bs, j).1,
        ),
    decreases bs.len() - j,
{
    if j < bs.len() {
        assert((prefix + bs)[prefix.len() + j] == bs[j]);
        if is_name_b(bs[j]) {
            lemma_read_name_shift(prefix, bs, j + 1);
        }
    }
}

/// A run of name bytes followed by something else reads as that name.
proof fn lemma_read_name_at(bs: Seq<u8>, j: int, nb: Seq<u8>)
    requires
        0 <= j,
        j + nb.len() <= bs.len(),
        forall|k: int| 0 <= k < nb.len() ==> is_name_b(#[trigger] nb[k]),
        forall|k: int| 0 <= k < nb.len() ==> bs[j + k] == #[trigger] nb[k],
        j + nb.len() == bs.len() || !is_name_b(bs[j + nb.len()]),
    ensures
        spec_read_name(bs, j) == (nb, j + nb.len()),
    decreases nb.len(),
{
    if nb.len() == 0 {
        assert(spec_read_name(bs, j).0 =~= nb);
    } else {
        assert(bs[j] == nb[0]);
        assert forall|k: int| 0 <= k < nb.drop_first().len() implies bs[(j + 1) + k]
            == #[trigger] nb.drop_first()[k] by {
            assert(nb.drop_first()[k] == nb[k + 1]);
            assert(bs[j + (k + 1)] == nb[k + 1]);
        }
        lemma_read_name_at(bs, j + 1, nb.drop_first());
        assert(seq![bs[j]] + nb.drop_first() =~= nb);
    }
}

/// Reading an attribute run ignores everything before its start.
proof fn lemma_read_attrs_shift(prefix: Seq<u8>, bs: Seq<u8>, j: int)
    requires
        0 <= j,
    ensures
        spec_read_attrs(prefix + bs, prefix.len() + j) == (match spec_read_attrs(bs, j) {
            Some((ps, end, sc)) => Some((ps, prefix.len() + end, sc)),
            None => None,
        }),
    decreases bs.len() - j,
{
    let whole = prefix + bs;
    lemma_skip_ws_shift(prefix, bs, j);
    let j2 = spec_skip_ws(bs, j);
    lemma_skip_ws_ge(bs, j);
    if j2 >= bs.len() {
    } else {
        assert(whole[prefix.len() + j2] == bs[j2]);
        if bs[j2] == 62 {
        } else if bs[j2] == 47 {
            if j2 + 1 < bs.len() {
                assert(whole[prefix.len() + j2 + 1] == bs[j2 + 1]);
            }
        } else {
            lemma_read_name_shift(prefix, bs, j2);
            let (name, after) = spec_read_name(bs, j2);
            if name.len() > 0 {
                lemma_read_name_ge(bs, j2);
                lemma_skip_ws_shift(prefix, bs, after);
                let eq = spec_skip_ws(bs, after);
                lemma_skip_ws_ge(bs, after);
                if eq < bs.len() && bs[eq] == 61 {
                    assert(whole[prefix.len() + eq] == bs[eq]);
                    lemma_skip_ws_shift(prefix, bs, eq + 1);
                    let vstart = spec_skip_ws(bs, eq + 1);
                    lemma_skip_ws_ge(bs, eq + 1);
                    if vstart < bs.len() && bs[vstart] == 34 {
                        assert(whole[prefix.len() + vstart] == bs[vstart]);
                        lemma_unquote_shift(prefix, bs, vstart + 1);
                        lemma_unquote_pos(bs, vstart + 1);
                        match spec_unquote(bs, vstart + 1) {
                            Some((value, after_value)) => {
                                lemma_skip_ws_shift(prefix, bs, after_value);
                                let next = spec_skip_ws(bs, after_value);
                                if j2 < next <= bs.len() {
                                    lemma_read_attrs_shift(prefix, bs, next);
                                }
                            },
                            None => {},
                        }
                    } else {
                        if vstart < bs.len() {
                            assert(whole[prefix.len() + vstart] == bs[vstart]);
                        }
                    }
                } else {
                    if eq < bs.len() {
                        assert(whole[prefix.len() + eq] == bs[eq]);
                    }
                }
            }
        }
    }
}

/// Prepend already-read pairs to the rest of an attribute run.
pub open spec fn attrs_prepend(
    ps0: Seq<(Seq<u8>, Seq<u8>)>,
    rec: Option<(Seq<(Seq<u8>, Seq<u8>)>, int, bool)>,
) -> Option<(Seq<(Seq<u8>, Seq<u8>)>, int, bool)> {
    match rec {
        Some((ps, end, selfclosing)) => Some((ps0 + ps, end, selfclosing)),
        None => None,
    }
}

/// What reading an attribute run from `j` yields: the pairs up to the
/// closing `>` or `/>`, the position just past that bracket, and
/// whether the tag was self-closing; nothing on malformed input.
pub open spec fn spec_read_attrs(bs: Seq<u8>, j: int) -> Option<(
    Seq<(Seq<u8>, Seq<u8>)>,
    int,
    bool,
)>
    decreases bs.len() - j,
{
    let j2 = spec_skip_ws(bs, j);
    if j2 < j || j2 >= bs.len() {
        None
    } else if bs[j2] == 62 {
        Some((Seq::empty(), j2 + 1, false))
    } else if bs[j2] == 47 {
        if j2 + 1 < bs.len() && bs[j2 + 1] == 62 {
            Some((Seq::empty(), j2 + 2, true))
        } else {
            None
        }
    } else {
        let (name, after) = spec_read_name(bs, j2);
        if name.len() == 0 {
            None
        } else {
            let eq = spec_skip_ws(bs, after);
            if eq >= bs.len() || bs[eq] != 61 {
                None
            } else {
                let vstart = spec_skip_ws(bs, eq + 1);
                if vstart >= bs.len() || bs[vstart] != 34 {
                    None
                } else {
                    match spec_unquote(bs, vstart + 1) {
                        Some((value, after_value)) => {
                            let next = spec_skip_ws(bs, after_value);
                            if next <= j2 || next > bs.len() {
                                None
                            } else {
                                attrs_prepend(
                                    seq![(name, value)],
                                    spec_read_attrs(bs, next),
                                )
                            }
                        },
                        None => None,
                    }
                }
            }
        }
    }
}

/// The attributes of an open tag, read until `>` or `/>`: the pairs in
/// order, the index just past the closing bracket, and whether the tag
/// was self-closing — exactly what `spec_read_attrs` reads.
fn read_attrs(bs: &[u8], i: usize) -> (r: Option<(Vec<(Vec<u8>, Vec<u8>)>, usize, bool)>)
    requires
        i <= bs@.len(),
    ensures
        r is Some ==> i <= r.unwrap().1 <= bs@.len(),
        (match r {
            Some((ps, end, selfclosing)) => spec_read_attrs(bs@, i as int) == Some(
                (pairs_view(ps@), end as int, selfclosing),
            ),
            None => spec_read_attrs(bs@, i as int) is None,
        }),
{
    let mut attrs: Vec<(Vec<u8>, Vec<u8>)> = Vec::new();
    let mut j = skip_ws(bs, i);
    proof {
        assert(pairs_view(attrs@) =~= Seq::<(Seq<u8>, Seq<u8>)>::empty());
        assert(spec_skip_ws(bs@, j as int) == j);
        assert(spec_read_attrs(bs@, i as int) == spec_read_attrs(bs@, j as int));
        match spec_read_attrs(bs@, j as int) {
            Some((ps0, e0, sc0)) => {
                assert(Seq::<(Seq<u8>, Seq<u8>)>::empty() + ps0 =~= ps0);
            },
            None => {},
        }
    }
    loop
        invariant
            i <= j <= bs@.len(),
            spec_skip_ws(bs@, j as int) == j,
            spec_read_attrs(bs@, i as int) == attrs_prepend(
                pairs_view(attrs@),
                spec_read_attrs(bs@, j as int),
            ),
        decreases bs@.len() - j,
    {
        proof {
            reveal_with_fuel(spec_read_attrs, 2);
        }
        if j >= bs.len() {
            proof {
                assert(spec_read_attrs(bs@, j as int) is None);
            }
            return None;
        }
        if bs[j] == 62 {
            proof {
                assert(spec_read_attrs(bs@, j as int) == Some((
                    Seq::<(Seq<u8>, Seq<u8>)>::empty(),
                    j + 1 as int,
                    false,
                )));
                assert(pairs_view(attrs@) + Seq::<(Seq<u8>, Seq<u8>)>::empty() =~= pairs_view(
                    attrs@,
                ));
                assert(spec_read_attrs(bs@, i as int) == Some((
                    pairs_view(attrs@),
                    j + 1 as int,
                    false,
                )));
            }
            return Some((attrs, j + 1, false));
        }
        if bs[j] == 47 {
            if j + 1 < bs.len() && bs[j + 1] == 62 {
                proof {
                    assert(spec_read_attrs(bs@, j as int) == Some((
                        Seq::<(Seq<u8>, Seq<u8>)>::empty(),
                        j + 2 as int,
                        true,
                    )));
                    assert(pairs_view(attrs@) + Seq::<(Seq<u8>, Seq<u8>)>::empty()
                        =~= pairs_view(attrs@));
                    assert(spec_read_attrs(bs@, i as int) == Some((
                        pairs_view(attrs@),
                        j + 2 as int,
                        true,
                    )));
                }
                return Some((attrs, j + 2, true));
            }
            proof {
                assert(spec_read_attrs(bs@, j as int) is None);
            }
            return None;
        }
        let (name, after_name) = read_name(bs, j);
        if after_name == j {
            proof {
                assert(spec_read_attrs(bs@, j as int) is None);
            }
            return None;
        }
        let eq = skip_ws(bs, after_name);
        if eq >= bs.len() || bs[eq] != 61 {
            proof {
                assert(spec_read_attrs(bs@, j as int) is None);
            }
            return None;
        }
        let vstart = skip_ws(bs, eq + 1);
        if vstart >= bs.len() || bs[vstart] != 34 {
            proof {
                assert(spec_read_attrs(bs@, j as int) is None);
            }
            return None;
        }
        match read_quoted(bs, vstart) {
            Some((value, after_value)) => {
                let next = skip_ws(bs, after_value);
                if next <= j {
                    proof {
                        assert(spec_read_attrs(bs@, j as int) is None);
                    }
                    return None;
                }
                let ghost prev = pairs_view(attrs@);
                let ghost pair_v = (name@, value@);
                proof {
                    assert(spec_read_attrs(bs@, j as int) == attrs_prepend(
                        seq![pair_v],
                        spec_read_attrs(bs@, next as int),
                    ));
                    match spec_read_attrs(bs@, next as int) {
                        Some((ps2, e2, sc2)) => {
                            assert(prev + (seq![pair_v] + ps2) =~= (prev + seq![pair_v])
                                + ps2);
                        },
                        None => {},
                    }
                    assert(spec_read_attrs(bs@, i as int) == attrs_prepend(
                        prev + seq![pair_v],
                        spec_read_attrs(bs@, next as int),
                    ));
                }
                attrs.push((name, value));
                proof {
                    assert(pairs_view(attrs@) =~= prev + seq![pair_v]);
                }
                j = next;
            },
            None => {
                proof {
                    assert(spec_read_attrs(bs@, j as int) is None);
                }
                return None;
            },
        }
    }
}

/// The written text of an attribute list: each name and raw value as
/// the writer renders them, in order.
pub open spec fn spec_attrs_bytes(ps: Seq<(Seq<char>, Seq<u8>)>) -> Seq<u8>
    decreases ps.len(),
{
    if ps.len() == 0 {
        Seq::<u8>::empty()
    } else {
        crate::xml::spec_attr(ps[0].0, ps[0].1) + spec_attrs_bytes(ps.drop_first())
    }
}

/// The pairs the reader yields for a written attribute list: the
/// name's bytes with the raw value.
pub open spec fn written_pairs(ps: Seq<(Seq<char>, Seq<u8>)>) -> Seq<(Seq<u8>, Seq<u8>)> {
    ps.map_values(|p: (Seq<char>, Seq<u8>)| (crate::xml::lit_bytes(p.0), p.1))
}

/// Every written attribute name renders as a non-empty run of name
/// bytes.
pub open spec fn wf_attr_names(ps: Seq<(Seq<char>, Seq<u8>)>) -> bool {
    forall|k: int|
        0 <= k < ps.len() ==> {
            let nb = crate::xml::lit_bytes(#[trigger] ps[k].0);
            nb.len() > 0 && (forall|b: int| 0 <= b < nb.len() ==> is_name_b(#[trigger] nb[b]))
        }
}

/// Reading one written attribute consumes exactly its chunk and yields
/// its pair.
#[verifier::rlimit(100)]
#[verifier::spinoff_prover]
proof fn lemma_one_attr_step(name: Seq<char>, value: Seq<u8>, tail: Seq<u8>)
    requires
        crate::xml::lit_bytes(name).len() > 0,
        forall|b: int|
            0 <= b < crate::xml::lit_bytes(name).len() ==> is_name_b(
                #[trigger] crate::xml::lit_bytes(name)[b],
            ),
    ensures
        spec_read_attrs(crate::xml::spec_attr(name, value) + tail, 0) == attrs_prepend(
            seq![(crate::xml::lit_bytes(name), value)],
            spec_read_attrs(
                crate::xml::spec_attr(name, value) + tail,
                crate::xml::spec_attr(name, value).len() as int,
            ),
        ),
{
    let nb = crate::xml::lit_bytes(name);
    let esc = crate::xml::spec_escape(value);
    let chunk = crate::xml::spec_attr(name, value);
    let bs = chunk + tail;
    assert(chunk =~= seq![32u8] + nb + seq![61u8, 34u8] + esc + seq![34u8]);
    assert(bs[0] == 32);
    assert forall|k: int| 0 <= k < nb.len() implies bs[1 + k] == #[trigger] nb[k] by {
        assert(chunk[1 + k] == nb[k]);
    }
    assert(bs[1 + nb.len() as int] == 61) by {
        assert(chunk[1 + nb.len() as int] == 61);
    }
    assert(!is_name_b(61));
    assert(spec_skip_ws(bs, 0) == 1) by {
        reveal_with_fuel(spec_skip_ws, 3);
        assert(crate::text::is_space(bs[0]));
        assert(!crate::text::is_space(bs[1]));
    }
    lemma_read_name_at(bs, 1, nb);
    assert(bs[1] != 62 && bs[1] != 47);
    let after = 1 + nb.len() as int;
    assert(spec_skip_ws(bs, after) == after) by {
        assert(!crate::text::is_space(bs[after]));
    }
    assert(bs[after + 1] == 34) by {
        assert(chunk[after + 1] == 34);
    }
    assert(spec_skip_ws(bs, after + 1) == after + 1) by {
        assert(!crate::text::is_space(bs[after + 1]));
    }
    let vstart = after + 1;
    assert(bs =~= bs.take(vstart + 1) + (esc + seq![34u8] + tail));
    lemma_unquote_escape(value, tail);
    lemma_unquote_shift(bs.take(vstart + 1), esc + seq![34u8] + tail, 0);
    assert(spec_unquote(bs, vstart + 1) == Some((value, vstart + 1 + esc.len() + 1)));
    let after_value = vstart + 1 + esc.len() + 1;
    assert(after_value == chunk.len());
    let next = spec_skip_ws(bs, after_value);
    lemma_skip_ws_ge(bs, after_value);
    lemma_skip_ws_in_range_or_end(bs, after_value);
    lemma_skip_ws_fix(bs, after_value);
    assert(spec_read_attrs(bs, next) == spec_read_attrs(bs, chunk.len() as int));
    assert(spec_read_attrs(bs, 0) == attrs_prepend(
        seq![(nb, value)],
        spec_read_attrs(bs, next),
    ));
}

/// Skipping whitespace is idempotent.
proof fn lemma_skip_ws_fix(bs: Seq<u8>, j: int)
    requires
        0 <= j,
    ensures
        spec_skip_ws(bs, spec_skip_ws(bs, j)) == spec_skip_ws(bs, j),
    decreases bs.len() - j,
{
    if 0 <= j < bs.len() && crate::text::is_space(bs[j]) {
        lemma_skip_ws_fix(bs, j + 1);
    }
}

/// Skipping whitespace either stays within the text or goes nowhere.
proof fn lemma_skip_ws_in_range_or_end(bs: Seq<u8>, j: int)
    requires
        0 <= j,
    ensures
        spec_skip_ws(bs, j) <= bs.len() || spec_skip_ws(bs, j) == j,
    decreases bs.len() - j,
{
    if 0 <= j < bs.len() && crate::text::is_space(bs[j]) {
        lemma_skip_ws_in_range_or_end(bs, j + 1);
    }
}

/// A written attribute run reads back as exactly its pairs: un-escaped
/// values under their names, in order, ending at the closing bracket.
pub proof fn lemma_attrs_run_inversion(
    ps: Seq<(Seq<char>, Seq<u8>)>,
    selfclosing: bool,
    rest: Seq<u8>,
)
    requires
        wf_attr_names(ps),
    ensures
        spec_read_attrs(
            spec_attrs_bytes(ps) + (if selfclosing {
                seq![47u8, 62u8]
            } else {
                seq![62u8]
            }) + rest,
            0,
        ) == Some(
            (
                written_pairs(ps),
                spec_attrs_bytes(ps).len() + (if selfclosing {
                    2int
                } else {
                    1int
                }),
                selfclosing,
            ),
        ),
    decreases ps.len(),
{
    let close: Seq<u8> = if selfclosing {
        seq![47u8, 62u8]
    } else {
        seq![62u8]
    };
    let bs = spec_attrs_bytes(ps) + close + rest;
    if ps.len() == 0 {
        assert(bs =~= close + rest);
        assert(bs[0] == close[0]);
        if selfclosing {
            assert(bs[1] == 62);
        }
        assert(written_pairs(ps) =~= Seq::<(Seq<u8>, Seq<u8>)>::empty());
    } else {
        let name = ps[0].0;
        let nb = crate::xml::lit_bytes(name);
        let value = ps[0].1;
        let chunk = crate::xml::spec_attr(name, value);
        let tail = spec_attrs_bytes(ps.drop_first()) + close + rest;
        assert(bs =~= chunk + tail);
        lemma_one_attr_step(name, value, tail);
        lemma_attrs_run_inversion(ps.drop_first(), selfclosing, rest);
        lemma_read_attrs_shift(chunk, tail, 0);
        assert(seq![(nb, value)] + written_pairs(ps.drop_first()) =~= written_pairs(ps));
        assert(spec_attrs_bytes(ps).len() == chunk.len() + spec_attrs_bytes(
            ps.drop_first(),
        ).len());
    }
}

/// A written open tag reads back as exactly its name and pairs: the
/// bracket, the name, the attribute run and the closing bracket are
/// consumed, whatever follows.
pub proof fn lemma_open_tag_inversion(
    name: Seq<char>,
    ps: Seq<(Seq<char>, Seq<u8>)>,
    selfclosing: bool,
    rest: Seq<u8>,
)
    requires
        crate::xml::lit_bytes(name).len() > 0,
        forall|b: int|
            0 <= b < crate::xml::lit_bytes(name).len() ==> is_name_b(
                #[trigger] crate::xml::lit_bytes(name)[b],
            ),
        wf_attr_names(ps),
    ensures
        ({
            let nb = crate::xml::lit_bytes(name);
            let close: Seq<u8> = if selfclosing {
                seq![47u8, 62u8]
            } else {
                seq![62u8]
            };
            let bs = seq![60u8] + nb + spec_attrs_bytes(ps) + close + rest;
            spec_read_open(bs, 0) == Some(
                (
                    nb,
                    written_pairs(ps),
                    selfclosing,
                    1 + nb.len() + spec_attrs_bytes(ps).len() + close.len() as int,
                ),
            )
        }),
{
    let nb = crate::xml::lit_bytes(name);
    let close: Seq<u8> = if selfclosing {
        seq![47u8, 62u8]
    } else {
        seq![62u8]
    };
    let run = spec_attrs_bytes(ps) + close + rest;
    let bs = seq![60u8] + nb + spec_attrs_bytes(ps) + close + rest;
    assert(bs =~= (seq![60u8] + nb) + run);
    assert(bs[0] == 60);
    assert(spec_skip_ws(bs, 0) == 0) by {
        assert(!crate::text::is_space(bs[0]));
    }
    assert forall|k: int| 0 <= k < nb.len() implies bs[1 + k] == #[trigger] nb[k] by {
        assert((seq![60u8] + nb)[1 + k] == nb[k]);
    }
    assert(1 + nb.len() == bs.len() || !is_name_b(bs[1 + nb.len() as int])) by {
        if ps.len() > 0 {
            assert(run[0] == crate::xml::spec_attr(ps[0].0, ps[0].1)[0]);
            assert(run[0] == 32);
        } else {
            assert(run =~= close + rest);
            assert(run[0] == close[0]);
        }
        assert(bs[1 + nb.len() as int] == run[0]);
    }
    lemma_read_name_at(bs, 1, nb);
    lemma_attrs_run_inversion(ps, selfclosing, rest);
    lemma_read_attrs_shift(seq![60u8] + nb, run, 0);
    assert(spec_read_attrs(bs, 1 + nb.len() as int) == Some(
        (
            written_pairs(ps),
            1 + nb.len() + spec_attrs_bytes(ps).len() + close.len() as int,
            selfclosing,
        ),
    ));
}

/// A written close tag reads back: its bracket pair and name are
/// consumed, whatever follows.
pub proof fn lemma_close_tag_inversion(name: Seq<char>, rest: Seq<u8>)
    requires
        crate::xml::lit_bytes(name).len() > 0,
        forall|b: int|
            0 <= b < crate::xml::lit_bytes(name).len() ==> is_name_b(
                #[trigger] crate::xml::lit_bytes(name)[b],
            ),
    ensures
        ({
            let nb = crate::xml::lit_bytes(name);
            let bs = seq![60u8, 47u8] + nb + seq![62u8] + rest;
            spec_at_close(bs, 0) && spec_read_close(bs, 0) == Some(3 + nb.len() as int)
        }),
{
    let nb = crate::xml::lit_bytes(name);
    let bs = seq![60u8, 47u8] + nb + seq![62u8] + rest;
    assert(bs[0] == 60 && bs[1] == 47);
    assert(spec_skip_ws(bs, 0) == 0) by {
        assert(!crate::text::is_space(bs[0]));
    }
    assert forall|k: int| 0 <= k < nb.len() implies bs[2 + k] == #[trigger] nb[k] by {
        assert((seq![60u8, 47u8] + nb)[2 + k] == nb[k]);
    }
    assert(bs[2 + nb.len() as int] == 62);
    assert(!is_name_b(62));
    lemma_read_name_at(bs, 2, nb);
    let after = 2 + nb.len() as int;
    assert(spec_skip_ws(bs, after) == after) by {
        assert(!crate::text::is_space(bs[after]));
    }
}

/// What an open tag at `i` yields: name, attribute pairs, whether it
/// was self-closing, and the position past the bracket.
pub open spec fn spec_read_open(bs: Seq<u8>, i: int) -> Option<(
    Seq<u8>,
    Seq<(Seq<u8>, Seq<u8>)>,
    bool,
    int,
)> {
    let j = spec_skip_ws(bs, i);
    if j >= bs.len() || bs[j] != 60 {
        None
    } else {
        let (name, after) = spec_read_name(bs, j + 1);
        if name.len() == 0 {
            None
        } else {
            match spec_read_attrs(bs, after) {
                Some((ps, end, selfclosing)) => if end <= i {
                    None
                } else {
                    Some((name, ps, selfclosing, end))
                },
                None => None,
            }
        }
    }
}

/// An open tag at `i` (whitespace allowed before it): the element name,
/// its attributes, whether it was self-closing, and the index just past
/// the bracket — exactly what `spec_read_open` reads.
fn read_open(bs: &[u8], i: usize) -> (r: Option<(Vec<u8>, Vec<(Vec<u8>, Vec<u8>)>, bool, usize)>)
    requires
        i <= bs@.len(),
    ensures
        r is Some ==> i < r.unwrap().3 <= bs@.len(),
        (match r {
            Some((name, ps, selfclosing, end)) => spec_read_open(bs@, i as int) == Some(
                (name@, pairs_view(ps@), selfclosing, end as int),
            ),
            None => spec_read_open(bs@, i as int) is None,
        }),
{
    let j = skip_ws(bs, i);
    if j >= bs.len() || bs[j] != 60 {
        return None;
    }
    let (name, after_name) = read_name(bs, j + 1);
    if after_name == j + 1 {
        return None;
    }
    match read_attrs(bs, after_name) {
        Some((attrs, after, selfclosing)) => {
            if after <= i {
                return None;
            }
            Some((name, attrs, selfclosing, after))
        },
        None => None,
    }
}

/// Whether a close tag stands at `i`, after whitespace.
pub open spec fn spec_at_close(bs: Seq<u8>, i: int) -> bool {
    let j = spec_skip_ws(bs, i);
    j < bs.len() && bs[j] == 60 && j + 1 < bs.len() && bs[j + 1] == 47
}

/// Whether a close tag stands at `i` (after whitespace).
fn at_close(bs: &[u8], i: usize) -> (r: bool)
    requires
        i <= bs@.len(),
    ensures
        r == spec_at_close(bs@, i as int),
{
    let j = skip_ws(bs, i);
    j < bs.len() && bs[j] == 60 && j + 1 < bs.len() && bs[j + 1] == 47
}

/// What a close tag at `i` yields: the position past its `>`.
pub open spec fn spec_read_close(bs: Seq<u8>, i: int) -> Option<int> {
    let j = spec_skip_ws(bs, i);
    if j >= bs.len() || bs[j] != 60 || j + 1 >= bs.len() || bs[j + 1] != 47 {
        None
    } else {
        let (name, after) = spec_read_name(bs, j + 2);
        let k = spec_skip_ws(bs, after);
        if k < bs.len() && bs[k] == 62 {
            Some(k + 1)
        } else {
            None
        }
    }
}

/// A close tag at `i`: the index just past its `>` — exactly what
/// `spec_read_close` reads.
fn read_close(bs: &[u8], i: usize) -> (r: Option<usize>)
    requires
        i <= bs@.len(),
    ensures
        r is Some ==> i < r.unwrap() <= bs@.len(),
        (match r {
            Some(k) => spec_read_close(bs@, i as int) == Some(k as int),
            None => spec_read_close(bs@, i as int) is None,
        }),
{
    let j = skip_ws(bs, i);
    if j >= bs.len() || bs[j] != 60 || j + 1 >= bs.len() || bs[j + 1] != 47 {
        return None;
    }
    let (_name, after_name) = read_name(bs, j + 2);
    let k = skip_ws(bs, after_name);
    if k < bs.len() && bs[k] == 62 {
        Some(k + 1)
    } else {
        None
    }
}

/// Skipping whitespace never moves backwards.
proof fn lemma_skip_ws_ge(bs: Seq<u8>, j: int)
    ensures
        spec_skip_ws(bs, j) >= j,
    decreases bs.len() - j,
{
    if 0 <= j < bs.len() && crate::text::is_space(bs[j]) {
        lemma_skip_ws_ge(bs, j + 1);
    }
}

/// Reading a name never moves backwards.
proof fn lemma_read_name_ge(bs: Seq<u8>, j: int)
    ensures
        spec_read_name(bs, j).1 >= j,
    decreases bs.len() - j,
{
    if 0 <= j < bs.len() && is_name_b(bs[j]) {
        lemma_read_name_ge(bs, j + 1);
    }
}

/// A read attribute run ends strictly after its start, within bounds.
proof fn lemma_read_attrs_pos(bs: Seq<u8>, j: int)
    ensures
        spec_read_attrs(bs, j) matches Some((ps, end, sc)) ==> j < end <= bs.len(),
    decreases bs.len() - j,
{
    lemma_skip_ws_ge(bs, j);
    let j2 = spec_skip_ws(bs, j);
    if j2 >= j && j2 < bs.len() && bs[j2] != 62 && bs[j2] != 47 {
        let (name, after) = spec_read_name(bs, j2);
        if name.len() > 0 {
            lemma_read_name_ge(bs, j2);
            let eq = spec_skip_ws(bs, after);
            lemma_skip_ws_ge(bs, after);
            if eq < bs.len() && bs[eq] == 61 {
                let vstart = spec_skip_ws(bs, eq + 1);
                lemma_skip_ws_ge(bs, eq + 1);
                if vstart < bs.len() && bs[vstart] == 34 {
                    match spec_unquote(bs, vstart + 1) {
                        Some((value, after_value)) => {
                            let next = spec_skip_ws(bs, after_value);
                            if j2 < next <= bs.len() {
                                lemma_read_attrs_pos(bs, next);
                            }
                        },
                        None => {},
                    }
                }
            }
        }
    }
}

/// A read open tag ends strictly after its start, within bounds.
proof fn lemma_read_open_pos(bs: Seq<u8>, i: int)
    ensures
        spec_read_open(bs, i) matches Some((name, ps, sc, end)) ==> i < end <= bs.len(),
{
    let j = spec_skip_ws(bs, i);
    if j < bs.len() && bs[j] == 60 {
        let (name, after) = spec_read_name(bs, j + 1);
        lemma_read_attrs_pos(bs, after);
    }
}

/// A read close tag ends strictly after its start, within bounds.
proof fn lemma_read_close_pos(bs: Seq<u8>, i: int)
    ensures
        spec_read_close(bs, i) matches Some(end) ==> i < end <= bs.len(),
{
    lemma_skip_ws_ge(bs, i);
    let j = spec_skip_ws(bs, i);
    if j < bs.len() && bs[j] == 60 && j + 1 < bs.len() && bs[j + 1] == 47 {
        let (name, after) = spec_read_name(bs, j + 2);
        lemma_read_name_ge(bs, j + 2);
        lemma_skip_ws_ge(bs, after);
    }
}

/// An element that opens here does not close here: the first name byte
/// is never a slash.
proof fn lemma_open_not_close(bs: Seq<u8>, i: int)
    ensures
        spec_read_open(bs, i) is Some ==> !spec_at_close(bs, i),
{
    let j = spec_skip_ws(bs, i);
    if spec_read_open(bs, i) is Some {
        let (name, after) = spec_read_name(bs, j + 1);
        if 0 <= j + 1 < bs.len() && is_name_b(bs[j + 1]) {
        }
    }
}

/// The raw attribute values of one `S` element.
pub ghost struct SegV {
    pub t: Option<Seq<u8>>,
    pub d: Option<Seq<u8>>,
    pub r: Option<Seq<u8>>,
}

/// The raw attribute values of an `AudioChannelConfiguration` element.
pub ghost struct AccV {
    pub scheme_id_uri: Option<Seq<u8>>,
    pub value: Option<Seq<u8>>,
}

/// The raw content of a `SegmentTemplate` element.
pub ghost struct StV {
    pub timescale: Option<Seq<u8>>,
    pub initialization: Option<Seq<u8>>,
    pub media: Option<Seq<u8>>,
    pub start_number: Option<Seq<u8>>,
    pub segments: Seq<SegV>,
}

/// The raw content of a `Representation` element.
pub ghost struct RepV {
    pub id: Option<Seq<u8>>,
    pub mime_type: Option<Seq<u8>>,
    pub codecs: Option<Seq<u8>>,
    pub bandwidth: Option<Seq<u8>>,
    pub audio_sampling_rate: Option<Seq<u8>>,
    pub width: Option<Seq<u8>>,
    pub height: Option<Seq<u8>>,
    pub scan_type: Option<Seq<u8>>,
    pub sar: Option<Seq<u8>>,
    pub audio_channel_configuration: Option<AccV>,
    pub segment_template: StV,
}

/// The raw content of an `AdaptationSet` element.
pub ghost struct SetV {
    pub id: Option<Seq<u8>>,
    pub content_type: Option<Seq<u8>>,
    pub start_with_sap: Option<Seq<u8>>,
    pub segment_alignment: Option<Seq<u8>>,
    pub bitstream_switching: Option<Seq<u8>>,
    pub frame_rate: Option<Seq<u8>>,
    pub max_width: Option<Seq<u8>>,
    pub max_height: Option<Seq<u8>>,
    pub par: Option<Seq<u8>>,
    pub lang: Option<Seq<u8>>,
    pub representation: RepV,
}

/// The raw content of a `Period` element.
pub ghost struct PeriodV {
    pub id: Option<Seq<u8>>,
    pub start: Option<Seq<u8>>,
    pub sets: Seq<SetV>,
}

/// The raw content of a whole manifest document.
pub ghost struct MpdV {
    pub xmlns_xsi: Option<Seq<u8>>,
    pub xmlns: Option<Seq<u8>>,
    pub xmlns_xlink: Option<Seq<u8>>,
    pub schema_location: Option<Seq<u8>>,
    pub profiles: Option<Seq<u8>>,
    pub type_: Option<Seq<u8>>,
    pub media_presentation_duration: Option<Seq<u8>>,
    pub max_segment_duration: Option<Seq<u8>>,
    pub min_buffer_time: Option<Seq<u8>>,
    pub service_id: Option<Seq<u8>>,
    pub period: PeriodV,
}

/// The raw `S` values of an attribute list.
pub open spec fn seg_of(ps: Seq<(Seq<u8>, Seq<u8>)>) -> SegV {
    SegV {
        t: attr_of(ps, crate::xml::lit_bytes("t"@)),
        d: attr_of(ps, crate::xml::lit_bytes("d"@)),
        r: attr_of(ps, crate::xml::lit_bytes("r"@)),
    }
}

/// The raw channel-configuration values of an attribute list.
pub open spec fn acc_of(ps: Seq<(Seq<u8>, Seq<u8>)>) -> AccV {
    AccV {
        scheme_id_uri: attr_of(ps, crate::xml::lit_bytes("schemeIdUri"@)),
        value: attr_of(ps, crate::xml::lit_bytes("value"@)),
    }
}

/// The raw template values of an attribute list, with its segments.
pub open spec fn st_of(ps: Seq<(Seq<u8>, Seq<u8>)>, segments: Seq<SegV>) -> StV {
    StV {
        timescale: attr_of(ps, crate::xml::lit_bytes("timescale"@)),
        initialization: attr_of(ps, crate::xml::lit_bytes("initialization"@)),
        media: attr_of(ps, crate::xml::lit_bytes("media"@)),
        start_number: attr_of(ps, crate::xml::lit_bytes("startNumber"@)),
        segments,
    }
}

/// The raw representation values of an attribute list, with children.
pub open spec fn rep_of(
    ps: Seq<(Seq<u8>, Seq<u8>)>,
    acc: Option<AccV>,
    st: StV,
) -> RepV {
    RepV {
        id: attr_of(ps, crate::xml::lit_bytes("id"@)),
        mime_type: attr_of(ps, crate::xml::lit_bytes("mimeType"@)),
        codecs: attr_of(ps, crate::xml::lit_bytes("codecs"@)),
        bandwidth: attr_of(ps, crate::xml::lit_bytes("bandwidth"@)),
        audio_sampling_rate: attr_of(ps, crate::xml::lit_bytes("audioSamplingRate"@)),
        width: attr_of(ps, crate::xml::lit_bytes("width"@)),
        height: attr_of(ps, crate::xml::lit_bytes("height"@)),
        scan_type: attr_of(ps, crate::xml::lit_bytes("scanType"@)),
        sar: attr_of(ps, crate::xml::lit_bytes("sar"@)),
        audio_channel_configuration: acc,
        segment_template: st,
    }
}

/// The raw adaptation-set values of an attribute list, with its
/// representation.
pub open spec fn set_of(ps: Seq<(Seq<u8>, Seq<u8>)>, rep: RepV) -> SetV {
    SetV {
        id: attr_of(ps, crate::xml::lit_bytes("id"@)),
        content_type: attr_of(ps, crate::xml::lit_bytes("contentType"@)),
        start_with_sap: attr_of(ps, crate::xml::lit_bytes("startWithSAP"@)),
        segment_alignment: attr_of(ps, crate::xml::lit_bytes("segmentAlignment"@)),
        bitstream_switching: attr_of(ps, crate::xml::lit_bytes("bitstreamSwitching"@)),
        frame_rate: attr_of(ps, crate::xml::lit_bytes("frameRate"@)),
        max_width: attr_of(ps, crate::xml::lit_bytes("maxWidth"@)),
        max_height: attr_of(ps, crate::xml::lit_bytes("maxHeight"@)),
        par: attr_of(ps, crate::xml::lit_bytes("par"@)),
        lang: attr_of(ps, crate::xml::lit_bytes("lang"@)),
        representation: rep,
    }
}

/// The raw period values of an attribute list, with its sets.
pub open spec fn period_of(ps: Seq<(Seq<u8>, Seq<u8>)>, sets: Seq<SetV>) -> PeriodV {
    PeriodV {
        id: attr_of(ps, crate::xml::lit_bytes("id"@)),
        start: attr_of(ps, crate::xml::lit_bytes("start"@)),
        sets,
    }
}

/// The raw document values of the root attribute list, with children.
pub open spec fn mpd_of(
    ps: Seq<(Seq<u8>, Seq<u8>)>,
    service_id: Option<Seq<u8>>,
    period: PeriodV,
) -> MpdV {
    MpdV {
        xmlns_xsi: attr_of(ps, crate::xml::lit_bytes("xmlns:xsi"@)),
        xmlns: attr_of(ps, crate::xml::lit_bytes("xmlns"@)),
        xmlns_xlink: attr_of(ps, crate::xml::lit_bytes("xmlns:xlink"@)),
        schema_location: attr_of(ps, crate::xml::lit_bytes("xsi:schemaLocation"@)),
        profiles: attr_of(ps, crate::xml::lit_bytes("profiles"@)),
        type_: attr_of(ps, crate::xml::lit_bytes("type"@)),
        media_presentation_duration: attr_of(
            ps,
            crate::xml::lit_bytes("mediaPresentationDuration"@),
        ),
        max_segment_duration: attr_of(ps, crate::xml::lit_bytes("maxSegmentDuration"@)),
        min_buffer_time: attr_of(ps, crate::xml::lit_bytes("minBufferTime"@)),
        service_id,
        period,
    }
}

/// How a read segment relates to its raw values.
pub open spec fn seg_match(s: &Segment, v: SegV) -> bool {
    &&& opt_field_match(s.t, v.t)
    &&& str_field_match(s.d@, v.d)
    &&& opt_field_match(s.r, v.r)
}

/// How a read segment run relates to its raw values, in order.
pub open spec fn segs_match(ss: Seq<Segment>, vs: Seq<SegV>) -> bool {
    ss.len() == vs.len() && (forall|k: int| 0 <= k < ss.len() ==> seg_match(&ss[k], #[trigger] vs[k]))
}

/// How a read channel configuration relates to its raw values.
pub open spec fn acc_match(a: &AudioChannelConfiguration, v: AccV) -> bool {
    &&& str_field_match(a.scheme_id_uri@, v.scheme_id_uri)
    &&& str_field_match(a.value@, v.value)
}

/// How a read segment template relates to its raw content.
pub open spec fn st_match(st: &SegmentTemplate, v: StV) -> bool {
    &&& str_field_match(st.timescale@, v.timescale)
    &&& str_field_match(st.initialization@, v.initialization)
    &&& str_field_match(st.media@, v.media)
    &&& str_field_match(st.start_number@, v.start_number)
    &&& segs_match(st.segment_timeline.segments@, v.segments)
}

/// How a read representation relates to its raw content.
pub open spec fn rep_match(r: &Representation, v: RepV) -> bool {
    &&& str_field_match(r.id@, v.id)
    &&& str_field_match(r.mime_type@, v.mime_type)
    &&& str_field_match(r.codecs@, v.codecs)
    &&& str_field_match(r.bandwidth@, v.bandwidth)
    &&& opt_field_match(r.audio_sampling_rate, v.audio_sampling_rate)
    &&& opt_field_match(r.width, v.width)
    &&& opt_field_match(r.height, v.height)
    &&& opt_field_match(r.scan_type, v.scan_type)
    &&& opt_field_match(r.sar, v.sar)
    &&& (match (&r.audio_channel_configuration, v.audio_channel_configuration) {
        (Some(a), Some(av)) => acc_match(a, av),
        (None, None) => true,
        _ => false,
    })
    &&& st_match(&r.segment_template, v.segment_template)
}

/// How a read adaptation set relates to its raw content.
pub open spec fn set_match(a: &AdaptationSet, v: SetV) -> bool {
    &&& str_field_match(a.id@, v.id)
    &&& str_field_match(a.content_type@, v.content_type)
    &&& str_field_match(a.start_with_sap@, v.start_with_sap)
    &&& str_field_match(a.segment_alignment@, v.segment_alignment)
    &&& str_field_match(a.bitstream_switching@, v.bitstream_switching)
    &&& opt_field_match(a.frame_rate, v.frame_rate)
    &&& opt_field_match(a.max_width, v.max_width)
    &&& opt_field_match(a.max_height, v.max_height)
    &&& opt_field_match(a.par, v.par)
    &&& opt_field_match(a.lang, v.lang)
    &&& rep_match(&a.representation, v.representation)
}

/// How a run of read adaptation sets relates to its raw content.
pub open spec fn sets_match(ss: Seq<AdaptationSet>, vs: Seq<SetV>) -> bool {
    ss.len() == vs.len() && (forall|k: int| 0 <= k < ss.len() ==> set_match(&ss[k], #[trigger] vs[k]))
}

/// How a read period relates to its raw content.
pub open spec fn period_match(p: &Period, v: PeriodV) -> bool {
    &&& str_field_match(p.id@, v.id)
    &&& str_field_match(p.start@, v.start)
    &&& sets_match(p.adaptation_sets@, v.sets)
}

/// How a read document relates to its raw content.
pub open spec fn mpd_match(m: &MPD, v: MpdV) -> bool {
    &&& opt_field_match(m.xmlns_xsi, v.xmlns_xsi)
    &&& opt_field_match(m.xmlns, v.xmlns)
    &&& opt_field_match(m.xmlns_xlink, v.xmlns_xlink)
    &&& opt_field_match(m.schema_location, v.schema_location)
    &&& str_field_match(m.profiles@, v.profiles)
    &&& str_field_match(m.type_@, v.type_)
    &&& str_field_match(m.media_presentation_duration@, v.media_presentation_duration)
    &&& str_field_match(m.max_segment_duration@, v.max_segment_duration)
    &&& str_field_match(m.min_buffer_time@, v.min_buffer_time)
    &&& str_field_match(m.service_description.id@, v.service_id)
    &&& period_match(&m.period, v.period)
}

/// A close tag required right here: the position past it.
pub open spec fn spec_close_here(bs: Seq<u8>, i: int) -> Option<int> {
    if spec_at_close(bs, i) {
        spec_read_close(bs, i)
    } else {
        None
    }
}

/// What reading a run of self-closing `S` elements up to the enclosing
/// close tag yields; nothing on any other shape.
pub open spec fn spec_read_segments(bs: Seq<u8>, i: int) -> Option<(Seq<SegV>, int)>
    decreases bs.len() - i,
{
    if spec_at_close(bs, i) {
        match spec_read_close(bs, i) {
            Some(k) => Some((Seq::empty(), k)),
            None => None,
        }
    } else {
        match spec_read_open(bs, i) {
            Some((name, ps, selfclosing, k)) => {
                if name == crate::xml::lit_bytes("S"@) && selfclosing && i < k <= bs.len() {
                    match spec_read_segments(bs, k) {
                        Some((segs, end)) => Some((seq![seg_of(ps)] + segs, end)),
                        None => None,
                    }
                } else {
                    None
                }
            },
            None => None,
        }
    }
}

/// What reading a `SegmentTemplate` body yields: one `SegmentTimeline`
/// child, then the enclosing close tag; nothing on any other shape.
pub open spec fn spec_read_st_body(ps: Seq<(Seq<u8>, Seq<u8>)>, bs: Seq<u8>, i: int) -> Option<
    (StV, int),
> {
    match spec_read_open(bs, i) {
        Some((name, _tl_ps, selfclosing, k)) => {
            if name == crate::xml::lit_bytes("SegmentTimeline"@) && !selfclosing {
                match spec_read_segments(bs, k) {
                    Some((segs, k2)) => match spec_close_here(bs, k2) {
                        Some(end) => Some((st_of(ps, segs), end)),
                        None => None,
                    },
                    None => None,
                }
            } else {
                None
            }
        },
        None => None,
    }
}

/// What reading a `SegmentTemplate` child element yields.
pub open spec fn spec_read_template_child(bs: Seq<u8>, i: int) -> Option<(StV, int)> {
    match spec_read_open(bs, i) {
        Some((name, ps, selfclosing, k)) => {
            if name == crate::xml::lit_bytes("SegmentTemplate"@) && !selfclosing {
                spec_read_st_body(ps, bs, k)
            } else {
                None
            }
        },
        None => None,
    }
}

/// What reading a `Representation` body yields: an optional
/// self-closing `AudioChannelConfiguration`, one `SegmentTemplate`,
/// then the enclosing close tag; nothing on any other shape.
pub open spec fn spec_read_rep_body(ps: Seq<(Seq<u8>, Seq<u8>)>, bs: Seq<u8>, i: int) -> Option<
    (RepV, int),
> {
    match spec_read_open(bs, i) {
        Some((name, acc_ps, selfclosing, k)) => {
            if name == crate::xml::lit_bytes("AudioChannelConfiguration"@) && selfclosing {
                match spec_read_template_child(bs, k) {
                    Some((st, k2)) => match spec_close_here(bs, k2) {
                        Some(end) => Some((rep_of(ps, Some(acc_of(acc_ps)), st), end)),
                        None => None,
                    },
                    None => None,
                }
            } else if name == crate::xml::lit_bytes("SegmentTemplate"@) && !selfclosing {
                match spec_read_st_body(acc_ps, bs, k) {
                    Some((st, k2)) => match spec_close_here(bs, k2) {
                        Some(end) => Some((rep_of(ps, None, st), end)),
                        None => None,
                    },
                    None => None,
                }
            } else {
                None
            }
        },
        None => None,
    }
}

/// What reading an `AdaptationSet` body yields: one `Representation`,
/// then the enclosing close tag; nothing on any other shape.
pub open spec fn spec_read_set_body(ps: Seq<(Seq<u8>, Seq<u8>)>, bs: Seq<u8>, i: int) -> Option<
    (SetV, int),
> {
    match spec_read_open(bs, i) {
        Some((name, rep_ps, selfclosing, k)) => {
            if name == crate::xml::lit_bytes("Representation"@) && !selfclosing {
                match spec_read_rep_body(rep_ps, bs, k) {
                    Some((rep, k2)) => match spec_close_here(bs, k2) {
                        Some(end) => Some((set_of(ps, rep), end)),
                        None => None,
                    },
                    None => None,
                }
            } else {
                None
            }
        },
        None => None,
    }
}

/// What reading a run of `AdaptationSet` elements up to the enclosing
/// close tag yields; nothing on any other shape.
pub open spec fn spec_read_sets(bs: Seq<u8>, i: int) -> Option<(Seq<SetV>, int)>
    decreases bs.len() - i,
{
    if spec_at_close(bs, i) {
        match spec_read_close(bs, i) {
            Some(k) => Some((Seq::empty(), k)),
            None => None,
        }
    } else {
        match spec_read_open(bs, i) {
            Some((name, ps, selfclosing, k)) => {
                if name == crate::xml::lit_bytes("AdaptationSet"@) && !selfclosing && i < k
                    <= bs.len() {
                    match spec_read_set_body(ps, bs, k) {
                        Some((set, k2)) => {
                            if i < k2 <= bs.len() {
                                match spec_read_sets(bs, k2) {
                                    Some((sets, end)) => Some((seq![set] + sets, end)),
                                    None => None,
                                }
                            } else {
                                None
                            }
                        },
                        None => None,
                    }
                } else {
                    None
                }
            },
            None => None,
        }
    }
}

/// What reading the document tail after the `ServiceDescription`
/// yields: one `Period`, with the document's close tag next.
pub open spec fn spec_read_mpd_after_sd(bs: Seq<u8>, i: int) -> Option<PeriodV> {
    match spec_read_open(bs, i) {
        Some((name, p_ps, sc, k)) => {
            if name == crate::xml::lit_bytes("Period"@) && !sc {
                match spec_read_sets(bs, k) {
                    Some((sets, k2)) => {
                        if spec_at_close(bs, k2) {
                            Some(period_of(p_ps, sets))
                        } else {
                            None
                        }
                    },
                    None => None,
                }
            } else {
                None
            }
        },
        None => None,
    }
}

/// What reading the document tail after the `ProgramInformation`
/// yields: a self-closing `ServiceDescription`, then the rest.
pub open spec fn spec_read_mpd_after_pi(bs: Seq<u8>, i: int) -> Option<(
    Option<Seq<u8>>,
    PeriodV,
)> {
    match spec_read_open(bs, i) {
        Some((name, sd_ps, sc, k)) => {
            if name == crate::xml::lit_bytes("ServiceDescription"@) && sc {
                match spec_read_mpd_after_sd(bs, k) {
                    Some(period) => Some(
                        (attr_of(sd_ps, crate::xml::lit_bytes("id"@)), period),
                    ),
                    None => None,
                }
            } else {
                None
            }
        },
        None => None,
    }
}

/// What reading the document body yields: a self-closing
/// `ProgramInformation`, a self-closing `ServiceDescription`, one
/// `Period`, and the document's close tag next; nothing on any other
/// shape.
pub open spec fn spec_read_mpd_body(bs: Seq<u8>, i: int) -> Option<(Option<Seq<u8>>, PeriodV)> {
    match spec_read_open(bs, i) {
        Some((name, _pi_ps, sc, k)) => {
            if name == crate::xml::lit_bytes("ProgramInformation"@) && sc {
                spec_read_mpd_after_pi(bs, k)
            } else {
                None
            }
        },
        None => None,
    }
}

/// The context the document-body loop runs under: the end of the root
/// open tag and the body content it should find there.
pub open spec fn spec_mpd_ctx(bs: Seq<u8>) -> Option<(int, Option<Seq<u8>>, PeriodV)> {
    match spec_read_open(bs, 0) {
        Some((name, ps, sc, k0)) => match spec_read_mpd_body(bs, k0) {
            Some((vsid, vper)) => Some((k0, vsid, vper)),
            None => None,
        },
        None => None,
    }
}

/// What reading a whole written document yields; nothing on any other
/// shape.
pub open spec fn spec_parse_mpd(bs: Seq<u8>) -> Option<MpdV> {
    match spec_read_open(bs, 0) {
        Some((name, ps, selfclosing, k)) => {
            if name == crate::xml::lit_bytes("MPD"@) && !selfclosing {
                match spec_read_mpd_body(bs, k) {
                    Some((service_id, period)) => Some(mpd_of(ps, service_id, period)),
                    None => None,
                }
            } else {
                None
            }
        },
        None => None,
    }
}

/// Skip a whole element whose open tag was already consumed: advance
/// past the matching close tag, counting nested elements.
fn skip_element(bs: &[u8], i: usize) -> (r: Option<usize>)
    requires
        i <= bs@.len(),
    ensures
        r is Some ==> i <= r.unwrap() <= bs@.len(),
{
    let mut depth: usize = 1;
    let mut j = i;
    while depth > 0
        invariant
            i <= j <= bs@.len(),
        decreases bs@.len() - j, depth,
    {
        if j >= bs.len() {
            return None;
        }
        if bs[j] == 60 {
            if j + 1 < bs.len() && bs[j + 1] == 47 {
                match read_close(bs, j) {
                    Some(k) => {
                        depth = depth - 1;
                        j = k;
                    },
                    None => {
                        return None;
                    },
                }
            } else {
                match read_open(bs, j) {
                    Some((_name, _attrs, selfclosing, k)) => {
                        if !selfclosing {
                            if depth >= usize::MAX {
                                return None;
                            }
                            depth = depth + 1;
                        }
                        j = k;
                    },
                    None => {
                        return None;
                    },
                }
            }
        } else {
            j = j + 1;
        }
    }
    Some(j)
}

/// Whether an attribute name spells out `name`.
fn name_is(bytes: &Vec<u8>, name: &str) -> (r: bool)
    ensures
        r == (bytes@ == crate::xml::lit_bytes(name@)),
{
    proof {
        reveal(crate::xml::lit_bytes);
    }
    let pat = name.as_bytes();
    if bytes.len() != pat.len() {
        return false;
    }
    let mut k: usize = 0;
    while k < pat.len()
        invariant
            0 <= k <= pat@.len(),
            bytes@.len() == pat@.len(),
            pat@ == crate::xml::lit_bytes(name@),
            forall|k2: int| 0 <= k2 < k ==> #[trigger] bytes@[k2] == pat@[k2],
        decreases pat@.len() - k,
    {
        if bytes[k] != pat[k] {
            return false;
        }
        k = k + 1;
    }
    proof {
        assert(bytes@ =~= crate::xml::lit_bytes(name@));
    }
    true
}

/// The models of an attribute list's pairs.
pub open spec fn pairs_view(ps: Seq<(Vec<u8>, Vec<u8>)>) -> Seq<(Seq<u8>, Seq<u8>)> {
    ps.map_values(|p: (Vec<u8>, Vec<u8>)| (p.0@, p.1@))
}

/// The raw value of the first pair carrying `name`, if any.
pub open spec fn attr_of(ps: Seq<(Seq<u8>, Seq<u8>)>, name: Seq<u8>) -> Option<Seq<u8>>
    decreases ps.len(),
{
    if ps.len() == 0 {
        None
    } else if ps[0].0 == name {
        Some(ps[0].1)
    } else {
        attr_of(ps.drop_first(), name)
    }
}

/// How an optional field read from an attribute list relates to the
/// raw attribute value: absent when the attribute is absent, present
/// and re-encoding to the raw bytes whenever those bytes are the
/// encoding of some text.
pub open spec fn opt_field_match(x: Option<String>, v: Option<Seq<u8>>) -> bool {
    match v {
        None => x is None,
        Some(raw) => (x is Some ==> vstd::utf8::encode_utf8(x.unwrap()@) == raw) && ((exists|
            s: Seq<char>,
        |
            raw == vstd::utf8::encode_utf8(s)) ==> x is Some),
    }
}

/// How a string field read from an attribute list relates to the raw
/// attribute value: empty when the attribute is absent, re-encoding to
/// the raw bytes whenever those bytes are the encoding of some text.
pub open spec fn str_field_match(x: Seq<char>, v: Option<Seq<u8>>) -> bool {
    match v {
        None => x == Seq::<char>::empty(),
        Some(raw) => (exists|s: Seq<char>| raw == vstd::utf8::encode_utf8(s))
            ==> vstd::utf8::encode_utf8(x) == raw,
    }
}

/// The value of the named attribute, decoded as text, if present and
/// valid UTF-8.
fn take_attr(attrs: &Vec<(Vec<u8>, Vec<u8>)>, name: &str) -> (r: Option<String>)
    ensures
        opt_field_match(r, attr_of(pairs_view(attrs@), crate::xml::lit_bytes(name@))),
{
    let ghost nb = crate::xml::lit_bytes(name@);
    proof {
        assert(pairs_view(attrs@).skip(0) =~= pairs_view(attrs@));
    }
    let mut k: usize = 0;
    while k < attrs.len()
        invariant
            0 <= k <= attrs@.len(),
            nb == crate::xml::lit_bytes(name@),
            attr_of(pairs_view(attrs@), nb) == attr_of(
                pairs_view(attrs@).skip(k as int),
                nb,
            ),
        decreases attrs@.len() - k,
    {
        proof {
            assert(pairs_view(attrs@).skip(k as int).drop_first() =~= pairs_view(attrs@).skip(
                k + 1,
            ));
            assert(pairs_view(attrs@).skip(k as int)[0] == (attrs@[k as int].0@, attrs@[
                k as int].1@));
        }
        let pair = &attrs[k];
        proof {
            assert(*pair == attrs@[k as int]);
        }
        let pair_name: &Vec<u8> = &pair.0;
        let pair_value: &Vec<u8> = &pair.1;
        proof {
            assert(pair_name@ == attrs@[k as int].0@);
            assert(pair_value@ == attrs@[k as int].1@);
        }
        let matched = name_is(pair_name, name);
        if matched {
            let mut copy: Vec<u8> = Vec::new();
            copy.extend_from_slice(pair_value.as_slice());
            proof {
                assert(copy@ =~= attrs@[k as int].1@);
                assert(attrs@[k as int].0@ == nb);
                assert(pairs_view(attrs@).skip(k as int).len() > 0);
                assert(pairs_view(attrs@).skip(k as int)[0].0 == nb);
                assert(pairs_view(attrs@).skip(k as int)[0].1 == copy@);
                assert(attr_of(pairs_view(attrs@).skip(k as int), nb) == Some(copy@));
                assert(attr_of(pairs_view(attrs@), nb) == Some(copy@));
            }
            return utf8_to_string(copy);
        }
        k = k + 1;
    }
    proof {
        assert(pairs_view(attrs@).skip(attrs@.len() as int) =~= Seq::<(Seq<u8>, Seq<u8>)>::empty());
    }
    None
}

/// The named attribute as a string, the empty string when absent: the
/// writer skips empty attributes, so an absent attribute reads back as
/// the value whose writing was skipped.
fn attr_string(attrs: &Vec<(Vec<u8>, Vec<u8>)>, name: &str) -> (r: String)
    ensures
        str_field_match(r@, attr_of(pairs_view(attrs@), crate::xml::lit_bytes(name@))),
{
    match take_attr(attrs, name) {
        Some(v) => v,
        None => String::new(),
    }
}

/// A read segment run ends strictly after its start, within bounds.
proof fn lemma_read_segments_pos(bs: Seq<u8>, i: int)
    ensures
        spec_read_segments(bs, i) matches Some((vs, end)) ==> i < end <= bs.len(),
    decreases bs.len() - i,
{
    if spec_at_close(bs, i) {
        lemma_read_close_pos(bs, i);
    } else {
        match spec_read_open(bs, i) {
            Some((name, ps, selfclosing, k)) => {
                if name == crate::xml::lit_bytes("S"@) && selfclosing && i < k <= bs.len() {
                    lemma_read_segments_pos(bs, k);
                }
            },
            None => {},
        }
    }
}

/// A read adaptation-set run ends strictly after its start.
proof fn lemma_read_sets_pos(bs: Seq<u8>, i: int)
    ensures
        spec_read_sets(bs, i) matches Some((vs, end)) ==> i < end <= bs.len(),
    decreases bs.len() - i,
{
    if spec_at_close(bs, i) {
        lemma_read_close_pos(bs, i);
    } else {
        match spec_read_open(bs, i) {
            Some((name, ps, selfclosing, k)) => {
                if name == crate::xml::lit_bytes("AdaptationSet"@) && !selfclosing && i < k
                    <= bs.len() {
                    match spec_read_set_body(ps, bs, k) {
                        Some((set, k2)) => {
                            if i < k2 <= bs.len() {
                                lemma_read_sets_pos(bs, k2);
                            }
                        },
                        None => {},
                    }
                }
            },
            None => {},
        }
    }
}

/// A close tag required here ends strictly after its start.
proof fn lemma_close_here_pos(bs: Seq<u8>, i: int)
    ensures
        spec_close_here(bs, i) matches Some(end) ==> i < end <= bs.len(),
{
    lemma_read_close_pos(bs, i);
}

/// A read template body ends strictly after its start, within bounds.
proof fn lemma_read_st_body_pos(ps: Seq<(Seq<u8>, Seq<u8>)>, bs: Seq<u8>, i: int)
    ensures
        spec_read_st_body(ps, bs, i) matches Some((v, end)) ==> i < end <= bs.len(),
{
    lemma_read_open_pos(bs, i);
    match spec_read_open(bs, i) {
        Some((name, tl_ps, selfclosing, k)) => {
            lemma_read_segments_pos(bs, k);
            match spec_read_segments(bs, k) {
                Some((segs, k2)) => {
                    lemma_close_here_pos(bs, k2);
                },
                None => {},
            }
        },
        None => {},
    }
}

/// A read template child ends strictly after its start, within bounds.
proof fn lemma_read_template_child_pos(bs: Seq<u8>, i: int)
    ensures
        spec_read_template_child(bs, i) matches Some((v, end)) ==> i < end <= bs.len(),
{
    lemma_read_open_pos(bs, i);
    match spec_read_open(bs, i) {
        Some((name, ps, selfclosing, k)) => {
            lemma_read_st_body_pos(ps, bs, k);
        },
        None => {},
    }
}

/// A read representation body ends strictly after its start.
proof fn lemma_read_rep_body_pos(ps: Seq<(Seq<u8>, Seq<u8>)>, bs: Seq<u8>, i: int)
    ensures
        spec_read_rep_body(ps, bs, i) matches Some((v, end)) ==> i < end <= bs.len(),
{
    lemma_read_open_pos(bs, i);
    match spec_read_open(bs, i) {
        Some((name, acc_ps, selfclosing, k)) => {
            lemma_read_template_child_pos(bs, k);
            match spec_read_template_child(bs, k) {
                Some((st, k2)) => {
                    lemma_close_here_pos(bs, k2);
                },
                None => {},
            }
            lemma_read_st_body_pos(acc_ps, bs, k);
            match spec_read_st_body(acc_ps, bs, k) {
                Some((st, k2)) => {
                    lemma_close_here_pos(bs, k2);
                },
                None => {},
            }
        },
        None => {},
    }
}

/// A read adaptation-set body ends strictly after its start.
proof fn lemma_read_set_body_pos(ps: Seq<(Seq<u8>, Seq<u8>)>, bs: Seq<u8>, i: int)
    ensures
        spec_read_set_body(ps, bs, i) matches Some((v, end)) ==> i < end <= bs.len(),
{
    lemma_read_open_pos(bs, i);
    match spec_read_open(bs, i) {
        Some((name, rep_ps, selfclosing, k)) => {
            lemma_read_rep_body_pos(rep_ps, bs, k);
            match spec_read_rep_body(rep_ps, bs, k) {
                Some((rep, k2)) => {
                    lemma_close_here_pos(bs, k2);
                },
                None => {},
            }
        },
        None => {},
    }
}

/// The element names told apart by one dispatch are distinct.
proof fn lemma_tag_names_distinct()
    ensures
        crate::xml::lit_bytes("SegmentTemplate"@) != crate::xml::lit_bytes(
            "AudioChannelConfiguration"@,
        ),
        crate::xml::lit_bytes("ProgramInformation"@) != crate::xml::lit_bytes(
            "ServiceDescription"@,
        ),
        crate::xml::lit_bytes("ProgramInformation"@) != crate::xml::lit_bytes("Period"@),
        crate::xml::lit_bytes("Period"@) != crate::xml::lit_bytes("ServiceDescription"@),
{
    broadcast use vstd::utf8::is_ascii_chars_encode_utf8;

    reveal(crate::xml::lit_bytes);
    reveal_strlit("SegmentTemplate");
    reveal_strlit("AudioChannelConfiguration");
    reveal_strlit("ProgramInformation");
    reveal_strlit("ServiceDescription");
    reveal_strlit("Period");
    assert(vstd::utf8::is_ascii_chars("SegmentTemplate"@));
    assert(vstd::utf8::is_ascii_chars("AudioChannelConfiguration"@));
    assert(vstd::utf8::is_ascii_chars("ProgramInformation"@));
    assert(vstd::utf8::is_ascii_chars("ServiceDescription"@));
    assert(vstd::utf8::is_ascii_chars("Period"@));
    assert(crate::xml::lit_bytes("SegmentTemplate"@).len() == 15);
    assert(crate::xml::lit_bytes("AudioChannelConfiguration"@).len() == 25);
    assert(crate::xml::lit_bytes("ProgramInformation"@).len() == 18);
    assert(crate::xml::lit_bytes("ServiceDescription"@).len() == 18);
    assert(crate::xml::lit_bytes("Period"@).len() == 6);
    assert(crate::xml::lit_bytes("ProgramInformation"@)[0] == 'P' as u8);
    assert(crate::xml::lit_bytes("ServiceDescription"@)[0] == 'S' as u8);
}

/// One `S` element from its attributes.
fn segment_from_attrs(attrs: &Vec<(Vec<u8>, Vec<u8>)>) -> (r: Segment)
    ensures
        seg_match(&r, seg_of(pairs_view(attrs@))),
{
    Segment {
        t: take_attr(attrs, "t"),
        d: attr_string(attrs, "d"),
        r: take_attr(attrs, "r"),
    }
}

/// The `SegmentTimeline` element after its open tag: its `S` entries —
/// on the shape the writer emits, exactly what `spec_read_segments`
/// reads.
fn read_timeline_body(bs: &[u8], i: usize) -> (r: Option<(SegmentTimeline, usize)>)
    requires
        i <= bs@.len(),
    ensures
        r is Some ==> i <= r.unwrap().1 <= bs@.len(),
        (match spec_read_segments(bs@, i as int) {
            Some((vs, end)) => r is Some && r.unwrap().1 == end && segs_match(
                r.unwrap().0.segments@,
                vs,
            ),
            None => true,
        }),
{
    let mut segments: Vec<Segment> = Vec::new();
    let mut j = i;
    while !at_close(bs, j)
        invariant
            i <= j <= bs@.len(),
            (match spec_read_segments(bs@, i as int) {
                Some((all, end)) => (match spec_read_segments(bs@, j as int) {
                    Some((rest, end2)) => end2 == end && all.len() == segments@.len()
                        + rest.len() && (forall|k: int|
                        0 <= k < segments@.len() ==> seg_match(&segments@[k], #[trigger] all[k]))
                        && (forall|k: int|
                        0 <= k < rest.len() ==> all[segments@.len() + k] == #[trigger] rest[k]),
                    None => false,
                }),
                None => true,
            }),
        decreases bs@.len() - j,
    {
        match read_open(bs, j) {
            Some((name, attrs, selfclosing, k)) => {
                let is_seg = name_is(&name, "S");
                proof {
                    if spec_read_segments(bs@, i as int) is Some {
                        assert(spec_read_segments(bs@, j as int) is Some);
                        assert(is_seg && selfclosing);
                    }
                }
                if is_seg {
                    let ghost prev = segments@;
                    segments.push(segment_from_attrs(&attrs));
                    proof {
                        if spec_read_segments(bs@, i as int) is Some {
                            let all = spec_read_segments(bs@, i as int).unwrap().0;
                            let rest = spec_read_segments(bs@, j as int).unwrap().0;
                            assert(rest[0] == seg_of(pairs_view(attrs@)));
                            assert(spec_read_segments(bs@, k as int) is Some);
                            let rest2 = spec_read_segments(bs@, k as int).unwrap().0;
                            assert(rest =~= seq![seg_of(pairs_view(attrs@))] + rest2);
                            assert forall|k2: int|
                                0 <= k2 < segments@.len() implies seg_match(
                                &segments@[k2],
                                #[trigger] all[k2],
                            ) by {
                                if k2 < prev.len() {
                                    assert(segments@[k2] == prev[k2]);
                                } else {
                                    assert(all[k2] == rest[0]);
                                }
                            }
                            assert forall|k2: int|
                                0 <= k2 < rest2.len() implies all[segments@.len() + k2]
                                == #[trigger] rest2[k2] by {
                                assert(rest[1 + k2] == rest2[k2]);
                                assert(all[prev.len() + (1 + k2)] == rest[1 + k2]);
                            }
                        }
                    }
                }
                if selfclosing {
                    j = k;
                } else {
                    match skip_element(bs, k) {
                        Some(k2) => {
                            if k2 <= j {
                                return None;
                            }
                            j = k2;
                        },
                        None => {
                            return None;
                        },
                    }
                }
            },
            None => {
                return None;
            },
        }
    }
    match read_close(bs, j) {
        Some(k) => Some((SegmentTimeline { segments }, k)),
        None => None,
    }
}

/// The `SegmentTemplate` element after its open tag — on the shape the
/// writer emits, exactly what `spec_read_st_body` reads.
fn read_segment_template(
    attrs: &Vec<(Vec<u8>, Vec<u8>)>,
    selfclosing: bool,
    bs: &[u8],
    i: usize,
) -> (r: Option<(SegmentTemplate, usize)>)
    requires
        i <= bs@.len(),
    ensures
        r is Some ==> i <= r.unwrap().1 <= bs@.len(),
        selfclosing ==> r is Some && r.unwrap().1 == i && st_match(
            &r.unwrap().0,
            st_of(pairs_view(attrs@), Seq::empty()),
        ),
        !selfclosing ==> (match spec_read_st_body(pairs_view(attrs@), bs@, i as int) {
            Some((v, end)) => r is Some && r.unwrap().1 == end && st_match(&r.unwrap().0, v),
            None => true,
        }),
{
    let timescale = attr_string(attrs, "timescale");
    let initialization = attr_string(attrs, "initialization");
    let media = attr_string(attrs, "media");
    let start_number = attr_string(attrs, "startNumber");
    if selfclosing {
        return Some(
            (
                SegmentTemplate {
                    timescale,
                    initialization,
                    media,
                    start_number,
                    segment_timeline: SegmentTimeline { segments: Vec::new() },
                },
                i,
            ),
        );
    }
    let ghost ps = pairs_view(attrs@);
    let mut timeline: Option<SegmentTimeline> = None;
    let mut j = i;
    while !at_close(bs, j)
        invariant
            i <= j <= bs@.len(),
            !selfclosing,
            ps == pairs_view(attrs@),
            (match spec_read_st_body(ps, bs@, i as int) {
                Some((v, end)) => (j == i && timeline is None) || (spec_close_here(
                    bs@,
                    j as int,
                ) == Some(end) && (timeline matches Some(tl) && segs_match(
                    tl.segments@,
                    v.segments,
                ))),
                None => true,
            }),
        decreases bs@.len() - j,
    {
        proof {
            if spec_read_st_body(ps, bs@, i as int) is Some {
                assert(j == i && timeline is None);
                lemma_open_not_close(bs@, i as int);
            }
        }
        match read_open(bs, j) {
            Some((name, attrs2, selfclosing2, k)) => {
                let is_tl = name_is(&name, "SegmentTimeline");
                proof {
                    if spec_read_st_body(ps, bs@, i as int) is Some {
                        assert(is_tl && !selfclosing2);
                    }
                }
                if is_tl && !selfclosing2 {
                    match read_timeline_body(bs, k) {
                        Some((tl, k2)) => {
                            proof {
                                if spec_read_st_body(ps, bs@, i as int) is Some {
                                    lemma_read_segments_pos(bs@, k as int);
                                }
                            }
                            if k2 <= j {
                                return None;
                            }
                            timeline = Some(tl);
                            j = k2;
                        },
                        None => {
                            return None;
                        },
                    }
                } else if selfclosing2 {
                    j = k;
                } else {
                    match skip_element(bs, k) {
                        Some(k2) => {
                            if k2 <= j {
                                return None;
                            }
                            j = k2;
                        },
                        None => {
                            return None;
                        },
                    }
                }
            },
            None => {
                return None;
            },
        }
    }
    match read_close(bs, j) {
        Some(k) => {
            let segment_timeline = match timeline {
                Some(tl) => tl,
                None => SegmentTimeline { segments: Vec::new() },
            };
            proof {
                if spec_read_st_body(ps, bs@, i as int) is Some {
                    lemma_open_not_close(bs@, i as int);
                    assert(!(j == i && timeline is None));
                }
            }
            Some(
                (
                    SegmentTemplate {
                        timescale,
                        initialization,
                        media,
                        start_number,
                        segment_timeline,
                    },
                    k,
                ),
            )
        },
        None => None,
    }
}

/// The `Representation` element after its open tag — on the shape the
/// writer emits, exactly what `spec_read_rep_body` reads.
fn read_representation(
    attrs: &Vec<(Vec<u8>, Vec<u8>)>,
    bs: &[u8],
    i: usize,
) -> (r: Option<(Representation, usize)>)
    requires
        i <= bs@.len(),
    ensures
        r is Some ==> i <= r.unwrap().1 <= bs@.len(),
        (match spec_read_rep_body(pairs_view(attrs@), bs@, i as int) {
            Some((v, end)) => r is Some && r.unwrap().1 == end && rep_match(&r.unwrap().0, v),
            None => true,
        }),
{
    let ghost ps = pairs_view(attrs@);
    let mut acc: Option<AudioChannelConfiguration> = None;
    let mut template: Option<SegmentTemplate> = None;
    let mut j = i;
    while !at_close(bs, j)
        invariant
            i <= j <= bs@.len(),
            ps == pairs_view(attrs@),
            (match spec_read_rep_body(ps, bs@, i as int) {
                Some((v, end)) => {
                    ||| (j == i && acc is None && template is None)
                    ||| ((match spec_read_template_child(bs@, j as int) {
                        Some((st2, mid)) => st2 == v.segment_template && spec_close_here(
                            bs@,
                            mid,
                        ) == Some(end),
                        None => false,
                    }) && template is None && v.audio_channel_configuration is Some && (
                    acc matches Some(a) && acc_match(&a, v.audio_channel_configuration.unwrap())))
                    ||| (spec_close_here(bs@, j as int) == Some(end) && (template matches Some(
                        st,
                    ) && st_match(&st, v.segment_template)) && (match (
                        &acc,
                        v.audio_channel_configuration,
                    ) {
                        (Some(a), Some(av)) => acc_match(a, av),
                        (None, None) => true,
                        _ => false,
                    }))
                },
                None => true,
            }),
        decreases bs@.len() - j,
    {
        proof {
            if spec_read_rep_body(ps, bs@, i as int) is Some {
                lemma_open_not_close(bs@, i as int);
                lemma_tag_names_distinct();
            }
        }
        match read_open(bs, j) {
            Some((name, attrs2, selfclosing2, k)) => {
                let is_acc = name_is(&name, "AudioChannelConfiguration");
                let is_st = name_is(&name, "SegmentTemplate");
                if is_acc {
                    proof {
                        if spec_read_rep_body(ps, bs@, i as int) is Some {
                            assert(j == i && selfclosing2);
                        }
                    }
                    acc = Some(
                        AudioChannelConfiguration {
                            scheme_id_uri: attr_string(&attrs2, "schemeIdUri"),
                            value: attr_string(&attrs2, "value"),
                        },
                    );
                    if selfclosing2 {
                        j = k;
                    } else {
                        match skip_element(bs, k) {
                            Some(k2) => {
                                if k2 <= j {
                                    return None;
                                }
                                j = k2;
                            },
                            None => {
                                return None;
                            },
                        }
                    }
                } else if is_st {
                    proof {
                        if spec_read_rep_body(ps, bs@, i as int) is Some {
                            assert(!selfclosing2);
                            if j == i {
                                lemma_read_st_body_pos(pairs_view(attrs2@), bs@, k as int);
                            } else {
                                lemma_read_st_body_pos(pairs_view(attrs2@), bs@, k as int);
                            }
                        }
                    }
                    match read_segment_template(&attrs2, selfclosing2, bs, k) {
                        Some((st, k2)) => {
                            if k2 <= j {
                                return None;
                            }
                            template = Some(st);
                            j = k2;
                        },
                        None => {
                            return None;
                        },
                    }
                } else {
                    proof {
                        if spec_read_rep_body(ps, bs@, i as int) is Some {
                            assert(false);
                        }
                    }
                    if selfclosing2 {
                        j = k;
                    } else {
                        match skip_element(bs, k) {
                            Some(k2) => {
                                if k2 <= j {
                                    return None;
                                }
                                j = k2;
                            },
                            None => {
                                return None;
                            },
                        }
                    }
                }
            },
            None => {
                return None;
            },
        }
    }
    proof {
        if spec_read_rep_body(ps, bs@, i as int) is Some {
            lemma_open_not_close(bs@, i as int);
        }
    }
    match (read_close(bs, j), template) {
        (Some(k), Some(segment_template)) => Some(
            (
                Representation {
                    id: attr_string(attrs, "id"),
                    mime_type: attr_string(attrs, "mimeType"),
                    codecs: attr_string(attrs, "codecs"),
                    bandwidth: attr_string(attrs, "bandwidth"),
                    audio_sampling_rate: take_attr(attrs, "audioSamplingRate"),
                    width: take_attr(attrs, "width"),
                    height: take_attr(attrs, "height"),
                    scan_type: take_attr(attrs, "scanType"),
                    sar: take_attr(attrs, "sar"),
                    audio_channel_configuration: acc,
                    segment_template,
                },
                k,
            ),
        ),
        _ => None,
    }
}

/// One `AdaptationSet` element after its open tag — on the shape the
/// writer emits, exactly what `spec_read_set_body` reads.
fn read_adaptation_set(
    attrs: &Vec<(Vec<u8>, Vec<u8>)>,
    bs: &[u8],
    i: usize,
) -> (r: Option<(AdaptationSet, usize)>)
    requires
        i <= bs@.len(),
    ensures
        r is Some ==> i <= r.unwrap().1 <= bs@.len(),
        (match spec_read_set_body(pairs_view(attrs@), bs@, i as int) {
            Some((v, end)) => r is Some && r.unwrap().1 == end && set_match(&r.unwrap().0, v),
            None => true,
        }),
{
    let ghost ps = pairs_view(attrs@);
    let mut representation: Option<Representation> = None;
    let mut j = i;
    while !at_close(bs, j)
        invariant
            i <= j <= bs@.len(),
            ps == pairs_view(attrs@),
            (match spec_read_set_body(ps, bs@, i as int) {
                Some((v, end)) => {
                    ||| (j == i && representation is None)
                    ||| (spec_close_here(bs@, j as int) == Some(end) && (
                    representation matches Some(rep) && rep_match(&rep, v.representation)))
                },
                None => true,
            }),
        decreases bs@.len() - j,
    {
        proof {
            if spec_read_set_body(ps, bs@, i as int) is Some {
                lemma_open_not_close(bs@, i as int);
            }
        }
        match read_open(bs, j) {
            Some((name, attrs2, selfclosing2, k)) => {
                let is_rep = name_is(&name, "Representation");
                proof {
                    if spec_read_set_body(ps, bs@, i as int) is Some {
                        assert(is_rep && !selfclosing2);
                    }
                }
                if is_rep && !selfclosing2 {
                    proof {
                        if spec_read_set_body(ps, bs@, i as int) is Some {
                            lemma_read_rep_body_pos(pairs_view(attrs2@), bs@, k as int);
                        }
                    }
                    match read_representation(&attrs2, bs, k) {
                        Some((rep, k2)) => {
                            if k2 <= j {
                                return None;
                            }
                            representation = Some(rep);
                            j = k2;
                        },
                        None => {
                            return None;
                        },
                    }
                } else if selfclosing2 {
                    j = k;
                } else {
                    match skip_element(bs, k) {
                        Some(k2) => {
                            if k2 <= j {
                                return None;
                            }
                            j = k2;
                        },
                        None => {
                            return None;
                        },
                    }
                }
            },
            None => {
                return None;
            },
        }
    }
    proof {
        if spec_read_set_body(ps, bs@, i as int) is Some {
            lemma_open_not_close(bs@, i as int);
        }
    }
    match (read_close(bs, j), representation) {
        (Some(k), Some(rep)) => Some(
            (
                AdaptationSet {
                    id: attr_string(attrs, "id"),
                    content_type: attr_string(attrs, "contentType"),
                    start_with_sap: attr_string(attrs, "startWithSAP"),
                    segment_alignment: attr_string(attrs, "segmentAlignment"),
                    bitstream_switching: attr_string(attrs, "bitstreamSwitching"),
                    frame_rate: take_attr(attrs, "frameRate"),
                    max_width: take_attr(attrs, "maxWidth"),
                    max_height: take_attr(attrs, "maxHeight"),
                    par: take_attr(attrs, "par"),
                    lang: take_attr(attrs, "lang"),
                    representation: rep,
                },
                k,
            ),
        ),
        _ => None,
    }
}

/// The `Period` element after its open tag — on the shape the writer
/// emits, exactly what `spec_read_sets` reads.
fn read_period(attrs: &Vec<(Vec<u8>, Vec<u8>)>, bs: &[u8], i: usize) -> (r: Option<(
    Period,
    usize,
)>)
    requires
        i <= bs@.len(),
    ensures
        r is Some ==> i <= r.unwrap().1 <= bs@.len(),
        (match spec_read_sets(bs@, i as int) {
            Some((vs, end)) => r is Some && r.unwrap().1 == end && period_match(
                &r.unwrap().0,
                period_of(pairs_view(attrs@), vs),
            ),
            None => true,
        }),
{
    let ghost ps = pairs_view(attrs@);
    let mut adaptation_sets: Vec<AdaptationSet> = Vec::new();
    let mut j = i;
    while !at_close(bs, j)
        invariant
            i <= j <= bs@.len(),
            (match spec_read_sets(bs@, i as int) {
                Some((all, end)) => (match spec_read_sets(bs@, j as int) {
                    Some((rest, end2)) => end2 == end && all.len() == adaptation_sets@.len()
                        + rest.len() && (forall|k: int|
                        0 <= k < adaptation_sets@.len() ==> set_match(
                            &adaptation_sets@[k],
                            #[trigger] all[k],
                        )) && (forall|k: int|
                        0 <= k < rest.len() ==> all[adaptation_sets@.len() + k]
                            == #[trigger] rest[k]),
                    None => false,
                }),
                None => true,
            }),
        decreases bs@.len() - j,
    {
        match read_open(bs, j) {
            Some((name, attrs2, selfclosing2, k)) => {
                let is_set = name_is(&name, "AdaptationSet");
                proof {
                    if spec_read_sets(bs@, i as int) is Some {
                        assert(spec_read_sets(bs@, j as int) is Some);
                        assert(is_set && !selfclosing2);
                    }
                }
                if is_set && !selfclosing2 {
                    proof {
                        if spec_read_sets(bs@, i as int) is Some {
                            lemma_read_set_body_pos(pairs_view(attrs2@), bs@, k as int);
                        }
                    }
                    match read_adaptation_set(&attrs2, bs, k) {
                        Some((set, k2)) => {
                            if k2 <= j {
                                return None;
                            }
                            let ghost prev = adaptation_sets@;
                            adaptation_sets.push(set);
                            proof {
                                if spec_read_sets(bs@, i as int) is Some {
                                    let all = spec_read_sets(bs@, i as int).unwrap().0;
                                    let rest = spec_read_sets(bs@, j as int).unwrap().0;
                                    assert(spec_read_sets(bs@, k2 as int) is Some);
                                    let rest2 = spec_read_sets(bs@, k2 as int).unwrap().0;
                                    assert(rest =~= seq![
                                        spec_read_set_body(
                                            pairs_view(attrs2@),
                                            bs@,
                                            k as int,
                                        ).unwrap().0,
                                    ] + rest2);
                                    assert forall|k3: int|
                                        0 <= k3 < adaptation_sets@.len() implies set_match(
                                        &adaptation_sets@[k3],
                                        #[trigger] all[k3],
                                    ) by {
                                        if k3 < prev.len() {
                                            assert(adaptation_sets@[k3] == prev[k3]);
                                        } else {
                                            assert(all[k3] == rest[0]);
                                        }
                                    }
                                    assert forall|k3: int|
                                        0 <= k3 < rest2.len() implies all[adaptation_sets@.len()
                                        + k3] == #[trigger] rest2[k3] by {
                                        assert(rest[1 + k3] == rest2[k3]);
                                        assert(all[prev.len() + (1 + k3)] == rest[1 + k3]);
                                    }
                                }
                            }
                            j = k2;
                        },
                        None => {
                            return None;
                        },
                    }
                } else if selfclosing2 {
                    j = k;
                } else {
                    match skip_element(bs, k) {
                        Some(k2) => {
                            if k2 <= j {
                                return None;
                            }
                            j = k2;
                        },
                        None => {
                            return None;
                        },
                    }
                }
            },
            None => {
                return None;
            },
        }
    }
    match read_close(bs, j) {
        Some(k) => Some(
            (
                Period {
                    id: attr_string(attrs, "id"),
                    start: attr_string(attrs, "start"),
                    adaptation_sets,
                },
                k,
            ),
        ),
        None => None,
    }
}

/// A whole manifest document: an optional XML declaration, then the
/// `MPD` element with its `ProgramInformation`, `ServiceDescription`
/// and `Period` children. `None` when the text does not hold such a
/// document — and on the shape the writer emits, exactly what
/// `spec_parse_mpd` reads.
pub fn parse_mpd(bs: &[u8]) -> (r: Option<MPD>)
    ensures
        (match spec_parse_mpd(bs@) {
            Some(v) => r is Some && mpd_match(&r.unwrap(), v),
            None => true,
        }),
{
    let mut i: usize = skip_ws(bs, 0);
    proof {
        if spec_parse_mpd(bs@) is Some {
            assert(spec_read_open(bs@, 0) is Some);
            let j0 = spec_skip_ws(bs@, 0);
            let (nm, after) = spec_read_name(bs@, j0 + 1);
            assert(nm.len() > 0);
            assert(is_name_b(bs@[j0 + 1]));
        }
    }
    if i < bs.len() && bs[i] == 60 && i + 1 < bs.len() && bs[i + 1] == 63 {
        // an XML declaration: skip to its closing bracket
        let mut j = i + 2;
        while j < bs.len() && bs[j] != 62
            invariant
                0 <= j <= bs@.len(),
            decreases bs@.len() - j,
        {
            j = j + 1;
        }
        if j >= bs.len() {
            return None;
        }
        i = j + 1;
    }
    proof {
        if spec_parse_mpd(bs@) is Some {
            assert(spec_skip_ws(bs@, i as int) == i);
            assert(spec_read_open(bs@, i as int) == spec_read_open(bs@, 0)) by {
                let j0 = spec_skip_ws(bs@, 0);
                let (nm, after) = spec_read_name(bs@, j0 + 1);
                lemma_read_name_ge(bs@, j0 + 1);
                lemma_read_attrs_pos(bs@, after);
            }
        }
    }
    let (name, attrs, selfclosing, mut j) = match read_open(bs, i) {
        Some(r) => r,
        None => {
            return None;
        },
    };
    let is_mpd = name_is(&name, "MPD");
    proof {
        if spec_parse_mpd(bs@) is Some {
            assert(is_mpd && !selfclosing);
        }
    }
    if !is_mpd || selfclosing {
        return None;
    }
    let mut service_id: Option<String> = None;
    let mut period: Option<Period> = None;
    while !at_close(bs, j)
        invariant
            j <= bs@.len(),
            (match spec_mpd_ctx(bs@) {
                Some((k0, vsid, vper)) => {
                    ||| (j == k0 && service_id is None && period is None)
                    ||| (spec_read_mpd_after_pi(bs@, j as int) == Some((vsid, vper))
                        && service_id is None && period is None)
                    ||| (spec_read_mpd_after_sd(bs@, j as int) == Some(vper) && (
                    service_id matches Some(sid) && str_field_match(sid@, vsid)) && period
                        is None)
                    ||| (spec_at_close(bs@, j as int) && (period matches Some(p)
                        && period_match(&p, vper)) && (service_id matches Some(sid)
                        && str_field_match(sid@, vsid)))
                },
                None => true,
            }),
        decreases bs@.len() - j,
    {
        proof {
            lemma_tag_names_distinct();
            if spec_mpd_ctx(bs@) is Some {
                lemma_open_not_close(bs@, j as int);
            }
        }
        match read_open(bs, j) {
            Some((name2, attrs2, selfclosing2, k)) => {
                let is_sd = name_is(&name2, "ServiceDescription");
                let is_period = name_is(&name2, "Period");
                if is_sd {
                    proof {
                        if spec_mpd_ctx(bs@) is Some {
                            assert(selfclosing2);
                        }
                    }
                    service_id = Some(attr_string(&attrs2, "id"));
                    if selfclosing2 {
                        j = k;
                    } else {
                        match skip_element(bs, k) {
                            Some(k2) => {
                                if k2 <= j {
                                    return None;
                                }
                                j = k2;
                            },
                            None => {
                                return None;
                            },
                        }
                    }
                } else if is_period {
                    proof {
                        if spec_mpd_ctx(bs@) is Some {
                            assert(!selfclosing2);
                        }
                    }
                    if !selfclosing2 {
                        proof {
                            if spec_mpd_ctx(bs@) is Some {
                                lemma_read_sets_pos(bs@, k as int);
                            }
                        }
                        match read_period(&attrs2, bs, k) {
                            Some((p, k2)) => {
                                if k2 <= j {
                                    return None;
                                }
                                period = Some(p);
                                j = k2;
                            },
                            None => {
                                return None;
                            },
                        }
                    } else {
                        j = k;
                    }
                } else if selfclosing2 {
                    j = k;
                } else {
                    proof {
                        if spec_mpd_ctx(bs@) is Some {
                            assert(false);
                        }
                    }
                    match skip_element(bs, k) {
                        Some(k2) => {
                            if k2 <= j {
                                return None;
                            }
                            j = k2;
                        },
                        None => {
                            return None;
                        },
                    }
                }
            },
            None => {
                return None;
            },
        }
    }
    proof {
        if spec_parse_mpd(bs@) is Some {
            lemma_open_not_close(bs@, j as int);
        }
    }
    match period {
        Some(p) => Some(
            MPD {
                xmlns_xsi: take_attr(&attrs, "xmlns:xsi"),
                xmlns: take_attr(&attrs, "xmlns"),
                xmlns_xlink: take_attr(&attrs, "xmlns:xlink"),
                schema_location: take_attr(&attrs, "xsi:schemaLocation"),
                profiles: attr_string(&attrs, "profiles"),
                type_: attr_string(&attrs, "type"),
                media_presentation_duration: attr_string(&attrs, "mediaPresentationDuration"),
                max_segment_duration: attr_string(&attrs, "maxSegmentDuration"),
                min_buffer_time: attr_string(&attrs, "minBufferTime"),
                program_information: ProgramInformation {},
                service_description: ServiceDescription {
                    id: match service_id {
                        Some(id) => id,
                        None => String::new(),
                    },
                },
                period: p,
            },
        ),
        None => None,
    }
}

} // verus!
