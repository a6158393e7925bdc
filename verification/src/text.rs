//! Plain-text helpers shared by the naming, renaming and manifest
//! modules: ASCII byte/character conversions, decimal formatting and
//! decimal parsing, each pinned to a spec-level definition.

use vstd::prelude::*;

verus! {

/// The bytes of a sequence of characters, one byte per character.
/// Meaningful for ASCII text, where codepoints and bytes coincide.
pub open spec fn char_bytes(s: Seq<char>) -> Seq<u8> {
    s.map_values(|c: char| c as u8)
}

/// The characters of a sequence of bytes, one character per byte.
pub open spec fn ascii_chars(bs: Seq<u8>) -> Seq<char> {
    bs.map_values(|b: u8| b as char)
}

/// Every byte is below 0x80.
pub open spec fn all_ascii(bs: Seq<u8>) -> bool {
    forall|i: int| 0 <= i < bs.len() ==> #[trigger] bs[i] < 0x80
}

/// Byte-to-character decoding undoes character-to-byte encoding on
/// ASCII bytes.
pub proof fn lemma_ascii_roundtrip(bs: Seq<u8>)
    requires
        all_ascii(bs),
    ensures
        char_bytes(ascii_chars(bs)) == bs,
{
    assert(char_bytes(ascii_chars(bs)) =~= bs);
}

/// Relies on String::from_utf8: bytes below 0x80 are valid UTF-8 and
/// decode to the characters with the same codepoints.
#[verifier::external_body]
pub(crate) fn ascii_to_string(bytes: Vec<u8>) -> (r: String)
    requires
        all_ascii(bytes@),
    ensures
        r@ == ascii_chars(bytes@),
{
    String::from_utf8(bytes).unwrap_or_default()
}

/// Relies on String::from_utf8: `Some` on valid UTF-8 input, and the
/// returned string re-encodes to exactly the input bytes; the UTF-8
/// encoding of any text is valid input, and bytes below 0x80 decode to
/// their own codepoints.
#[verifier::external_body]
pub(crate) fn utf8_to_string(bytes: Vec<u8>) -> (r: Option<String>)
    ensures
        r is Some ==> vstd::utf8::encode_utf8(r.unwrap()@) == bytes@,
        (exists|s: Seq<char>| bytes@ == vstd::utf8::encode_utf8(s)) ==> r is Some,
        all_ascii(bytes@) ==> r is Some && r.unwrap()@ == ascii_chars(bytes@),
{
    match String::from_utf8(bytes) {
        Ok(s) => Some(s),
        Err(_) => None,
    }
}

/// The decimal digits of `n`, most significant first, as ASCII bytes.
pub open spec fn spec_dec(n: nat) -> Seq<u8>
    decreases n,
{
    if n < 10 {
        seq![(48 + n) as u8]
    } else {
        spec_dec(n / 10).push((48 + n % 10) as u8)
    }
}

/// Decimal digits are ASCII.
pub proof fn lemma_dec_ascii(n: nat)
    ensures
        all_ascii(spec_dec(n)),
        spec_dec(n).len() >= 1,
    decreases n,
{
    if n >= 10 {
        lemma_dec_ascii(n / 10);
    }
}

/// The decimal form of `n`, most significant digit first.
pub fn format_u64(n: u64) -> (r: String)
    ensures
        char_bytes(r@) == spec_dec(n as nat),
        r@ == ascii_chars(spec_dec(n as nat)),
    decreases n,
{
    proof {
        lemma_dec_ascii(n as nat);
    }
    if n < 10 {
        let digit: u8 = 48 + (n as u8);
        let bytes: Vec<u8> = vec![digit];
        proof {
            assert(bytes@ =~= spec_dec(n as nat));
        }
        let r = ascii_to_string(bytes);
        proof {
            lemma_ascii_roundtrip(spec_dec(n as nat));
        }
        r
    } else {
        let prefix = format_u64(n / 10);
        let digit: u8 = 48 + ((n % 10) as u8);
        let bytes: Vec<u8> = vec![digit];
        proof {
            assert(all_ascii(bytes@));
        }
        let last = ascii_to_string(bytes);
        let r = prefix.concat(last.as_str());
        proof {
            assert(r@ =~= ascii_chars(spec_dec(n as nat)));
            lemma_ascii_roundtrip(spec_dec(n as nat));
        }
        r
    }
}

/// Whether `b` is the ASCII code of a decimal digit.
pub open spec fn is_digit(b: u8) -> bool {
    48 <= b <= 57
}

/// Every byte is a decimal digit.
pub open spec fn all_digits(bs: Seq<u8>) -> bool {
    forall|i: int| 0 <= i < bs.len() ==> is_digit(#[trigger] bs[i])
}

/// The value of a sequence of decimal digits, most significant first.
pub open spec fn spec_dec_val(bs: Seq<u8>) -> nat
    decreases bs.len(),
{
    if bs.len() == 0 {
        0
    } else {
        spec_dec_val(bs.drop_last()) * 10 + (bs.last() - 48) as nat
    }
}

/// Formatting a number yields digits that evaluate back to it.
pub proof fn lemma_dec_roundtrip(n: nat)
    ensures
        all_digits(spec_dec(n)),
        spec_dec_val(spec_dec(n)) == n,
    decreases n,
{
    if n < 10 {
        assert(spec_dec(n).drop_last() =~= Seq::<u8>::empty());
        assert(spec_dec(n).last() == (48 + n) as u8);
        assert(spec_dec_val(Seq::<u8>::empty()) == 0);
        assert(((48 + n) as u8 - 48) as nat == n);
        assert(spec_dec_val(spec_dec(n)) == ((48 + n) as u8 - 48) as nat);
    } else {
        lemma_dec_roundtrip(n / 10);
        assert(spec_dec(n).drop_last() =~= spec_dec(n / 10));
        assert(spec_dec(n).last() == (48 + n % 10) as u8);
        assert(((48 + n % 10) as u8 - 48) as nat == n % 10);
        assert(spec_dec_val(spec_dec(n)) == (n / 10) * 10 + n % 10);
        vstd::arithmetic::div_mod::lemma_fundamental_div_mod(n as int, 10);
        assert((n / 10) * 10 + n % 10 == n);
    }
}

/// A prefix of a digit string never exceeds the whole string's value.
proof fn lemma_dec_val_prefix(bs: Seq<u8>, i: int)
    requires
        0 <= i <= bs.len(),
    ensures
        spec_dec_val(bs.take(i)) <= spec_dec_val(bs),
    decreases bs.len() - i,
{
    if i < bs.len() {
        lemma_dec_val_prefix(bs, i + 1);
        assert(bs.take(i + 1).drop_last() =~= bs.take(i));
        assert(spec_dec_val(bs.take(i + 1)) == spec_dec_val(bs.take(i)) * 10 + (bs.take(
            i + 1,
        ).last() - 48) as nat);
    } else {
        assert(bs.take(i) =~= bs);
    }
}

/// Parse an unsigned decimal number. `Some` exactly on a non-empty
/// all-digit input whose value fits in a u32, and then the value is the
/// number the digits denote.
pub fn parse_u32(bs: &[u8]) -> (r: Option<u32>)
    ensures
        r is Some <==> bs@.len() > 0 && all_digits(bs@) && spec_dec_val(bs@) <= u32::MAX,
        r is Some ==> r.unwrap() as nat == spec_dec_val(bs@),
{
    if bs.len() == 0 {
        return None;
    }
    let mut acc: u64 = 0;
    let mut i: usize = 0;
    while i < bs.len()
        invariant
            0 <= i <= bs@.len(),
            acc == spec_dec_val(bs@.take(i as int)),
            acc <= u32::MAX,
            forall|k: int| 0 <= k < i ==> is_digit(#[trigger] bs@[k]),
        decreases bs@.len() - i,
    {
        let b = bs[i];
        if b < 48 || b > 57 {
            return None;
        }
        acc = acc * 10 + ((b - 48) as u64);
        proof {
            assert(bs@.take(i + 1).drop_last() =~= bs@.take(i as int));
            assert(bs@.take(i + 1).last() == bs@[i as int]);
        }
        i = i + 1;
        if acc > 0xFFFF_FFFF {
            proof {
                lemma_dec_val_prefix(bs@, i as int);
            }
            return None;
        }
    }
    proof {
        assert(bs@.take(bs@.len() as int) =~= bs@);
    }
    Some(acc as u32)
}

/// Whether `b` is an ASCII whitespace byte: space, tab, carriage return
/// or line feed.
pub open spec fn is_space(b: u8) -> bool {
    b == 32 || b == 9 || b == 13 || b == 10
}

/// `bs` without leading and trailing ASCII whitespace: the subrange
/// between the first and last non-whitespace bytes.
pub open spec fn spec_trim(bs: Seq<u8>) -> Seq<u8> {
    let lo = choose|lo: int|
        0 <= lo <= bs.len() && (forall|k: int| 0 <= k < lo ==> is_space(#[trigger] bs[k])) && (lo
            == bs.len() || !is_space(bs[lo]));
    if forall|k: int| 0 <= k < bs.len() ==> is_space(#[trigger] bs[k]) {
        Seq::<u8>::empty()
    } else {
        let hi = choose|hi: int|
            lo < hi <= bs.len() && !is_space(#[trigger] bs[hi - 1]) && (forall|k: int|
                hi <= k < bs.len() ==> is_space(#[trigger] bs[k]));
        bs.subrange(lo, hi)
    }
}

/// Trim ASCII whitespace from both ends.
pub fn trim_bytes(bs: &[u8]) -> (r: Vec<u8>)
    ensures
        r@ == spec_trim(bs@),
{
    let n = bs.len();
    let mut lo: usize = 0;
    while lo < n && (bs[lo] == 32 || bs[lo] == 9 || bs[lo] == 13 || bs[lo] == 10)
        invariant
            0 <= lo <= bs@.len(),
            n == bs@.len(),
            forall|k: int| 0 <= k < lo ==> is_space(#[trigger] bs@[k]),
        decreases bs@.len() - lo,
    {
        lo = lo + 1;
    }
    if lo == n {
        proof {
            assert(spec_trim(bs@) =~= Seq::<u8>::empty());
        }
        return Vec::new();
    }
    let mut hi: usize = n;
    while hi > lo + 1 && (bs[hi - 1] == 32 || bs[hi - 1] == 9 || bs[hi - 1] == 13 || bs[hi - 1]
        == 10)
        invariant
            lo < hi <= bs@.len(),
            n == bs@.len(),
            !is_space(bs@[lo as int]),
            forall|k: int| hi <= k < bs@.len() ==> is_space(#[trigger] bs@[k]),
        decreases hi,
    {
        hi = hi - 1;
    }
    let mut out: Vec<u8> = Vec::new();
    let mut i: usize = lo;
    while i < hi
        invariant
            lo <= i <= hi <= bs@.len(),
            out@ == bs@.subrange(lo as int, i as int),
        decreases hi - i,
    {
        out.push(bs[i]);
        proof {
            assert(out@ =~= bs@.subrange(lo as int, i + 1));
        }
        i = i + 1;
    }
    proof {
        let glo = choose|l: int|
            0 <= l <= bs@.len() && (forall|k: int| 0 <= k < l ==> is_space(#[trigger] bs@[k])) && (
            l == bs@.len() || !is_space(bs@[l]));
        assert(0 <= lo <= bs@.len() && (forall|k: int|
            0 <= k < lo ==> is_space(#[trigger] bs@[k])) && (lo as int == bs@.len()
            || !is_space(bs@[lo as int])));
        assert(glo == lo as int) by {
            if glo < lo {
                assert(is_space(bs@[glo]));
            }
            if glo > lo {
                assert(is_space(bs@[lo as int]));
            }
        }
        assert(!(forall|k: int| 0 <= k < bs@.len() ==> is_space(#[trigger] bs@[k]))) by {
            assert(!is_space(bs@[lo as int]));
        }
        let ghi = choose|h: int|
            glo < h <= bs@.len() && !is_space(#[trigger] bs@[h - 1]) && (forall|k: int|
                h <= k < bs@.len() ==> is_space(#[trigger] bs@[k]));
        assert(lo < hi <= bs@.len() && !is_space(bs@[hi - 1]) && (forall|k: int|
            hi <= k < bs@.len() ==> is_space(#[trigger] bs@[k]))) by {
            if hi == lo + 1 {
            }
        }
        assert(ghi == hi as int) by {
            if ghi < hi {
                assert(is_space(bs@[hi - 1]));
            }
            if ghi > hi {
                assert(is_space(bs@[ghi - 1]));
            }
        }
    }
    out
}


/// The decimal form of a signed number, with its sign, as ASCII bytes.
pub open spec fn spec_signed_dec(k: int) -> Seq<u8> {
    if k < 0 {
        seq![45u8] + spec_dec((-k) as nat)
    } else {
        spec_dec(k as nat)
    }
}

/// The decimal form of a signed number, with its sign.
pub fn format_i64(n: i64) -> (r: String)
    ensures
        char_bytes(r@) == spec_signed_dec(n as int),
        r@ == ascii_chars(spec_signed_dec(n as int)),
{
    if n < 0 {
        let magnitude: u64 = (-(n as i128)) as u64;
        let digits = format_u64(magnitude);
        let r = String::from_str("-").concat(digits.as_str());
        proof {
            reveal_strlit("-");
            assert(char_bytes(r@) =~= spec_signed_dec(n as int));
            assert(r@ =~= ascii_chars(spec_signed_dec(n as int)));
        }
        r
    } else {
        format_u64(n as u64)
    }
}

/// The lines joined by a line feed between each two.
pub open spec fn spec_joined(lines: Seq<Seq<char>>) -> Seq<char>
    decreases lines.len(),
{
    if lines.len() == 0 {
        Seq::<char>::empty()
    } else if lines.len() == 1 {
        lines[0]
    } else {
        lines[0] + "\n"@ + spec_joined(lines.drop_first())
    }
}

/// One more line extends the joined text by a line feed and itself.
proof fn lemma_joined_take(lines: Seq<Seq<char>>, i: int)
    requires
        1 <= i < lines.len(),
    ensures
        spec_joined(lines.take(i + 1)) == spec_joined(lines.take(i)) + "\n"@ + lines[i],
    decreases i,
{
    reveal_with_fuel(spec_joined, 4);
    if i == 1 {
        assert(lines.take(2) =~= seq![lines[0], lines[1]]);
        assert(lines.take(2).drop_first() =~= seq![lines[1]]);
        assert(lines.take(1) =~= seq![lines[0]]);
        assert(spec_joined(lines.take(i + 1)) =~= spec_joined(lines.take(i)) + "\n"@
            + lines[i]);
    } else {
        lemma_joined_take(lines.drop_first(), i - 1);
        assert(lines.take(i + 1).drop_first() =~= lines.drop_first().take(i));
        assert(lines.take(i).drop_first() =~= lines.drop_first().take(i - 1));
        assert(lines.take(i + 1)[0] == lines[0]);
        assert(lines.take(i)[0] == lines[0]);
        assert(lines.drop_first()[i - 1] == lines[i]);
        assert(lines.drop_first().take(i - 1).len() >= 1);
        assert(spec_joined(lines.take(i + 1)) =~= spec_joined(lines.take(i)) + "\n"@
            + lines[i]);
    }
}

/// The lines joined by a line feed between each two.
pub fn join_lines(lines: &Vec<String>) -> (r: String)
    ensures
        r@ == spec_joined(lines@.map_values(|l: String| l@)),
{
    let ghost views = lines@.map_values(|l: String| l@);
    let mut out = String::new();
    if lines.len() == 0 {
        proof {
            assert(views.len() == 0);
        }
        return out;
    }
    out = lines[0].clone();
    let mut i: usize = 1;
    proof {
        assert(views.take(1) =~= seq![views[0]]);
        assert(out@ == spec_joined(views.take(1)));
    }
    while i < lines.len()
        invariant
            1 <= i <= lines@.len(),
            views == lines@.map_values(|l: String| l@),
            out@ == spec_joined(views.take(i as int)),
        decreases lines@.len() - i,
    {
        proof {
            lemma_joined_take(views, i as int);
        }
        out = out.concat("\n").concat(lines[i].as_str());
        proof {
            reveal_strlit("\n");
            assert(out@ =~= spec_joined(views.take(i + 1)));
        }
        i = i + 1;
    }
    proof {
        assert(views.take(views.len() as int) =~= views);
    }
    out
}

} // verus!
