//! Names and numbers of the rendered artifact: the fixed segment-file
//! naming pattern, the completeness sentinel written beside a rendered
//! song, and the check that lets an already-complete artifact skip the
//! whole pipeline.

use vstd::prelude::*;

use crate::text::{
    all_digits, ascii_chars, char_bytes, lemma_dec_ascii, parse_u32, spec_dec, spec_dec_val,
    spec_trim, trim_bytes,
};

verus! {

/// Number of zeroes in front of the decimal form of `n` in a
/// five-position zero-padded field.
pub open spec fn pad5_zeroes(n: nat) -> nat {
    if n < 10 {
        4
    } else if n < 100 {
        3
    } else if n < 1000 {
        2
    } else if n < 10000 {
        1
    } else {
        0
    }
}

/// The decimal form of `n`, zero-padded on the left to five positions,
/// as ASCII bytes.
pub open spec fn spec_pad5(n: nat) -> Seq<u8> {
    Seq::new(pad5_zeroes(n), |i: int| 48u8) + spec_dec(n)
}

/// The fixed name of a media segment: stream index and five-position
/// zero-padded sequence number, `chunk-stream{k}-{seq:05}.m4s`.
pub open spec fn spec_chunk_name(stream: nat, seq_number: nat) -> Seq<u8> {
    char_bytes("chunk-stream"@) + spec_dec(stream) + char_bytes("-"@) + spec_pad5(seq_number)
        + char_bytes(".m4s"@)
}

/// The decimal form of `n` zero-padded to five positions.
pub fn format_pad5(n: u64) -> (r: String)
    ensures
        char_bytes(r@) == spec_pad5(n as nat),
        r@ == ascii_chars(spec_pad5(n as nat)),
{
    let digits = crate::text::format_u64(n);
    let zeroes: &str = if n < 10 {
        "0000"
    } else if n < 100 {
        "000"
    } else if n < 1000 {
        "00"
    } else if n < 10000 {
        "0"
    } else {
        ""
    };
    let r = String::from_str(zeroes).concat(digits.as_str());
    proof {
        reveal_strlit("0000");
        reveal_strlit("000");
        reveal_strlit("00");
        reveal_strlit("0");
        reveal_strlit("");
        lemma_dec_ascii(n as nat);
        assert(r@ =~= ascii_chars(spec_pad5(n as nat)));
        assert(char_bytes(r@) =~= spec_pad5(n as nat));
    }
    r
}

/// The name of the media segment `seq_number` of stream `stream`.
pub fn chunk_name(stream: u8, seq_number: u64) -> (r: String)
    ensures
        char_bytes(r@) == spec_chunk_name(stream as nat, seq_number as nat),
        r@ == ascii_chars(spec_chunk_name(stream as nat, seq_number as nat)),
{
    let head = String::from_str("chunk-stream");
    let stream_digits = crate::text::format_u64(stream as u64);
    let dash = String::from_str("-");
    let padded = format_pad5(seq_number);
    let tail = String::from_str(".m4s");
    let r = head.concat(stream_digits.as_str()).concat(dash.as_str()).concat(
        padded.as_str(),
    ).concat(tail.as_str());
    proof {
        reveal_strlit("chunk-stream");
        reveal_strlit("-");
        reveal_strlit(".m4s");
        lemma_dec_ascii(stream as nat);
        assert(r@ =~= ascii_chars(spec_chunk_name(stream as nat, seq_number as nat)));
        assert(char_bytes(r@) =~= spec_chunk_name(stream as nat, seq_number as nat));
    }
    r
}

/// Number of segments a rendered artifact is expected to contain: the
/// media duration divided by the segment duration, rounded up.
pub fn expected_segments(duration_seconds: u64, segment_duration: u64) -> (r: u64)
    requires
        segment_duration > 0,
    ensures
        r as int == duration_seconds as int / segment_duration as int + (
        if duration_seconds as int % segment_duration as int == 0 {
            0int
        } else {
            1int
        }),
{
    let quotient = duration_seconds / segment_duration;
    if duration_seconds % segment_duration == 0 {
        quotient
    } else {
        proof {
            vstd::arithmetic::div_mod::lemma_fundamental_div_mod(
                duration_seconds as int,
                segment_duration as int,
            );
            assert(quotient as int <= segment_duration as int * quotient as int)
                by (nonlinear_arith)
                requires
                    segment_duration >= 1,
                    quotient >= 0,
            ;
        }
        quotient + 1
    }
}

/// The content of the completeness sentinel: the decimal form of the
/// expected segment count, and nothing else.
pub fn sentinel_content(expected: u64) -> (r: String)
    ensures
        char_bytes(r@) == spec_dec(expected as nat),
        r@ == ascii_chars(spec_dec(expected as nat)),
{
    crate::text::format_u64(expected)
}

/// The highest-numbered audio chunk a sentinel line announces: parse the
/// trimmed line as a segment count `n` and name chunk `n` of stream 1.
/// `None` exactly when the line does not hold a number.
pub fn final_chunk_name(sentinel_line: &[u8]) -> (r: Option<String>)
    ensures
        r is Some <==> spec_trim(sentinel_line@).len() > 0 && all_digits(
            spec_trim(sentinel_line@),
        ) && spec_dec_val(spec_trim(sentinel_line@)) <= u32::MAX,
        r is Some ==> char_bytes(r.unwrap()@) == spec_chunk_name(
            1,
            spec_dec_val(spec_trim(sentinel_line@)),
        ),
{
    let trimmed = trim_bytes(sentinel_line);
    match parse_u32(trimmed.as_slice()) {
        Some(n) => Some(chunk_name(1, n as u64)),
        None => None,
    }
}

/// Whether an already-rendered artifact may skip the downloader and the
/// transcoder: its directory exists and the chunk the sentinel announces
/// exists. The caller reads both facts from the file system and replies
/// success without touching the external tools when this holds.
pub fn artifact_is_complete(dir_exists: bool, final_chunk_exists: bool) -> (r: bool)
    ensures
        r == (dir_exists && final_chunk_exists),
{
    dir_exists && final_chunk_exists
}

/// Writing a sentinel and reading it back announces the chunk of the
/// same segment count: the completeness check accepts exactly the
/// artifact the sentinel described.
pub proof fn lemma_sentinel_roundtrip(expected: u64)
    ensures
        spec_trim(spec_dec(expected as nat)) == spec_dec(expected as nat),
        spec_dec_val(spec_trim(spec_dec(expected as nat))) == expected as nat,
{
    crate::text::lemma_dec_roundtrip(expected as nat);
    let ds = spec_dec(expected as nat);
    assert forall|k: int| 0 <= k < ds.len() implies !crate::text::is_space(#[trigger] ds[k]) by {
        assert(crate::text::is_digit(ds[k]));
    }
    lemma_trim_no_space(ds);
}

/// Trimming text without any whitespace leaves it unchanged.
proof fn lemma_trim_no_space(bs: Seq<u8>)
    requires
        forall|k: int| 0 <= k < bs.len() ==> !crate::text::is_space(#[trigger] bs[k]),
    ensures
        spec_trim(bs) == bs,
{
    if bs.len() == 0 {
        assert(spec_trim(bs) =~= bs);
    } else {
        let lo = choose|lo: int|
            0 <= lo <= bs.len() && (forall|k: int|
                0 <= k < lo ==> crate::text::is_space(#[trigger] bs[k])) && (lo == bs.len()
                || !crate::text::is_space(bs[lo]));
        assert(0 <= 0 <= bs.len() && (forall|k: int|
            0 <= k < 0 ==> crate::text::is_space(#[trigger] bs[k])) && (0 == bs.len()
            || !crate::text::is_space(bs[0])));
        assert(lo == 0) by {
            if lo > 0 {
                assert(crate::text::is_space(bs[0]));
            }
        }
        assert(!crate::text::is_space(bs[bs.len() - 1]));
        let hi = choose|hi: int|
            lo < hi <= bs.len() && !crate::text::is_space(#[trigger] bs[hi - 1]) && (forall|k: int|
                hi <= k < bs.len() ==> crate::text::is_space(#[trigger] bs[k]));
        assert(lo < bs.len() <= bs.len() && !crate::text::is_space(bs[bs.len() - 1]) && (forall|
            k: int,
        |
            bs.len() <= k < bs.len() ==> crate::text::is_space(#[trigger] bs[k])));
        assert(hi == bs.len()) by {
            if hi < bs.len() {
                assert(crate::text::is_space(bs[bs.len() - 1]));
            }
        }
        assert(spec_trim(bs) =~= bs);
    }
}

} // verus!
