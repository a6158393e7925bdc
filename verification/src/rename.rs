//! Normalising segment file names after the transcoder has written the
//! per-rendition directories: inside `pitch{k}/` every occurrence of the
//! substring `stream0` in a file name becomes `stream{k}`, so the
//! renditions do not collide when served from one manifest. Files under
//! `video/` are left alone. The step is idempotent: running it again on
//! an already-renamed tree changes nothing.

use vstd::prelude::*;

use crate::text::{all_ascii, ascii_to_string, char_bytes, lemma_ascii_roundtrip};

verus! {

/// Whether the bytes at position `i` spell `stream0`.
pub open spec fn match_at(bs: Seq<u8>, i: int) -> bool {
    &&& 0 <= i
    &&& i + 7 <= bs.len()
    &&& bs[i] == 115  // s
    &&& bs[i + 1] == 116  // t
    &&& bs[i + 2] == 114  // r
    &&& bs[i + 3] == 101  // e
    &&& bs[i + 4] == 97  // a
    &&& bs[i + 5] == 109  // m
    &&& bs[i + 6] == 48  // 0
}

/// The name with every occurrence of `stream0` turned into `stream`
/// followed by the digit `digit`: the trailing `0` of each occurrence is
/// overwritten, everything else is kept. Occurrences of `stream0`
/// cannot overlap, so this replaces each of them.
pub open spec fn spec_renamed(bs: Seq<u8>, digit: u8) -> Seq<u8> {
    Seq::new(bs.len(), |j: int| if j >= 6 && match_at(bs, j - 6) {
        digit
    } else {
        bs[j]
    })
}

/// Renaming reaches a fixed point at once: a renamed name contains no
/// occurrence of `stream0` any more, so renaming it again changes
/// nothing.
pub proof fn lemma_rename_idempotent(bs: Seq<u8>, digit: u8)
    requires
        49 <= digit <= 55,
    ensures
        spec_renamed(spec_renamed(bs, digit), digit) == spec_renamed(bs, digit),
{
    let r = spec_renamed(bs, digit);
    assert forall|p: int| !match_at(r, p) by {
        if match_at(r, p) {
            // the seven matched bytes of `r` are letters and a final
            // zero, none of which is the replacement digit, so the
            // same bytes stand in `bs`; but then `bs` matches at `p`
            // and `r` carries the digit where the zero would be
            assert(r[p] == bs[p]);
            assert(r[p + 1] == bs[p + 1]);
            assert(r[p + 2] == bs[p + 2]);
            assert(r[p + 3] == bs[p + 3]);
            assert(r[p + 4] == bs[p + 4]);
            assert(r[p + 5] == bs[p + 5]);
            assert(r[p + 6] == bs[p + 6]);
            assert(match_at(bs, p));
            assert(r[p + 6] == digit);
        }
    }
    assert(spec_renamed(r, digit) =~= r);
}

/// A name without any occurrence of `stream0` is left untouched.
pub proof fn lemma_rename_untouched(bs: Seq<u8>, digit: u8)
    requires
        forall|p: int| !match_at(bs, p),
    ensures
        spec_renamed(bs, digit) == bs,
{
    assert(spec_renamed(bs, digit) =~= bs);
}

/// `stream0` turned into `stream{index}` in a segment file name, for
/// the audio rendition directory `pitch{index}`.
pub fn rename_segment_name(name: &str, index: u8) -> (r: String)
    requires
        name.is_ascii(),
        1 <= index <= 7,
    ensures
        char_bytes(r@) == spec_renamed(char_bytes(name@), (48 + index) as u8),
        r.is_ascii(),
{
    broadcast use vstd::string::is_ascii_spec_bytes;

    let bytes = name.as_bytes_vec();
    proof {
        assert(bytes@ =~= char_bytes(name@));
    }
    let digit: u8 = 48 + index;
    let n = bytes.len();
    let mut out: Vec<u8> = Vec::new();
    let mut j: usize = 0;
    while j < n
        invariant
            n == bytes@.len(),
            0 <= j <= n,
            out@ == spec_renamed(bytes@, digit).take(j as int),
            digit == 48 + index,
            1 <= index <= 7,
        decreases n - j,
    {
        let b: u8 = if j >= 6 && bytes[j - 6] == 115 && bytes[j - 5] == 116 && bytes[j - 4] == 114
            && bytes[j - 3] == 101 && bytes[j - 2] == 97 && bytes[j - 1] == 109 && bytes[j] == 48 {
            digit
        } else {
            bytes[j]
        };
        out.push(b);
        proof {
            assert(out@ =~= spec_renamed(bytes@, digit).take(j + 1));
        }
        j = j + 1;
    }
    proof {
        assert(out@ =~= spec_renamed(bytes@, digit));
        assert(all_ascii(out@)) by {
            assert(forall|i: int|
                0 <= i < bytes@.len() ==> #[trigger] bytes@[i] < 0x80);
        }
    }
    let r = ascii_to_string(out);
    proof {
        lemma_ascii_roundtrip(spec_renamed(char_bytes(name@), (48 + index) as u8));
        assert(vstd::string::string_is_ascii(&r));
    }
    r
}

/// The new names of a rendition directory's files, pairing each old
/// name with its renamed form; names are left in their listed order.
pub fn rename_listing(names: &Vec<String>, index: u8) -> (r: Vec<(String, String)>)
    requires
        forall|i: int| 0 <= i < names@.len() ==> (#[trigger] names@[i]).is_ascii(),
        1 <= index <= 7,
    ensures
        r@.len() == names@.len(),
        forall|i: int|
            0 <= i < r@.len() ==> (#[trigger] r@[i]).0@ == names@[i]@ && char_bytes(r@[i].1@)
                == spec_renamed(char_bytes(names@[i]@), (48 + index) as u8),
{
    let mut out: Vec<(String, String)> = Vec::new();
    let mut i: usize = 0;
    while i < names.len()
        invariant
            0 <= i <= names@.len(),
            out@.len() == i,
            forall|k: int| 0 <= k < names@.len() ==> (#[trigger] names@[k]).is_ascii(),
            1 <= index <= 7,
            forall|k: int|
                0 <= k < i ==> (#[trigger] out@[k]).0@ == names@[k]@ && char_bytes(out@[k].1@)
                    == spec_renamed(char_bytes(names@[k]@), (48 + index) as u8),
        decreases names@.len() - i,
    {
        let name = &names[i];
        let renamed = rename_segment_name(name.as_str(), index);
        out.push((name.clone(), renamed));
        i = i + 1;
    }
    out
}

} // verus!
