//! The wire encodings served to clients: song identifiers as their
//! canonical text form, and the JSON bodies of songs and broadcast
//! events, exactly as the event stream sends them.

use vstd::prelude::*;

use vstd::string::StringSliceAdditionalSpecFns;

use crate::events::SseEvent;
use crate::song::{QueuedSongStatus, Song};
use crate::xml::lit_bytes;

verus! {

/// Sixteen to the power `e`.
pub open spec fn pow16(e: nat) -> int
    decreases e,
{
    if e == 0 {
        1
    } else {
        16 * pow16((e - 1) as nat)
    }
}

/// The `k`-th hexadecimal digit of a 128-bit value, most significant
/// first.
pub open spec fn uuid_nibble(v: u128, k: int) -> int {
    (v as int / pow16((31 - k) as nat)) % 16
}

/// The lowercase hexadecimal digit character of a value below sixteen.
pub open spec fn hex_char(d: int) -> char {
    if d < 10 {
        ((48 + d) as u8) as char
    } else {
        ((87 + d) as u8) as char
    }
}

/// How many hyphens stand before text position `i` of an identifier.
pub open spec fn uuid_dashes_before(i: int) -> int {
    if i < 8 {
        0
    } else if i < 13 {
        1
    } else if i < 18 {
        2
    } else if i < 23 {
        3
    } else {
        4
    }
}

/// The canonical hyphenated text of a 128-bit song identifier: its 32
/// hexadecimal digits in lowercase, most significant first, with
/// hyphens at positions 8, 13, 18 and 23.
pub open spec fn uuid_hyphenated(v: u128) -> Seq<char> {
    Seq::new(
        36,
        |i: int|
            if i == 8 || i == 13 || i == 18 || i == 23 {
                '-'
            } else {
                hex_char(uuid_nibble(v, i - uuid_dashes_before(i)))
            },
    )
}

/// What parsing an identifier text yields, if anything.
pub uninterp spec fn uuid_parsed(s: Seq<char>) -> Option<u128>;

/// Relies on uuid::Uuid::to_string through Uuid::from_u128: the
/// hyphenated canonical form of the identifier — its hexadecimal
/// digits in lowercase with hyphens at the four fixed positions.
#[verifier::external_body]
pub fn uuid_to_string(v: u128) -> (r: String)
    ensures
        r@ == uuid_hyphenated(v),
{
    uuid::Uuid::from_u128(v).to_string()
}

/// Relies on uuid::Uuid::parse_str, read through Uuid::as_u128: the
/// accepted identifier texts and their values are a function of the
/// text alone.
#[verifier::external_body]
pub fn parse_uuid(s: &str) -> (r: Option<u128>)
    ensures
        r == uuid_parsed(s@),
{
    match uuid::Uuid::parse_str(s) {
        Ok(u) => Some(u.as_u128()),
        Err(_) => None,
    }
}

/// The escaped form of one byte inside a JSON string: quote and
/// backslash are escaped, control bytes become `\u00XX`, everything
/// else stands as itself.
pub open spec fn json_esc1(b: u8) -> Seq<u8> {
    if b == 34 {
        seq![92u8, 34u8]
    } else if b == 92 {
        seq![92u8, 92u8]
    } else if b < 32 {
        seq![92u8, 117u8, 48u8, 48u8, hex_digit_byte(b / 16), hex_digit_byte(b % 16)]
    } else {
        seq![b]
    }
}

/// The lowercase hex digit of a value below 16.
pub open spec fn hex_digit_byte(d: u8) -> u8 {
    if d < 10 {
        (48 + d) as u8
    } else {
        (87 + d) as u8
    }
}

/// The escaped form of a JSON string's content.
pub open spec fn spec_json_escape(v: Seq<u8>) -> Seq<u8>
    decreases v.len(),
{
    if v.len() == 0 {
        Seq::<u8>::empty()
    } else {
        json_esc1(v[0]) + spec_json_escape(v.drop_first())
    }
}

/// Escaping a concatenation escapes the parts in order.
proof fn lemma_json_escape_append(a: Seq<u8>, b: Seq<u8>)
    ensures
        spec_json_escape(a + b) == spec_json_escape(a) + spec_json_escape(b),
    decreases a.len(),
{
    if a.len() == 0 {
        assert(a + b =~= b);
        assert(spec_json_escape(a) + spec_json_escape(b) =~= spec_json_escape(b));
    } else {
        assert((a + b).drop_first() =~= a.drop_first() + b);
        lemma_json_escape_append(a.drop_first(), b);
        assert(json_esc1((a + b)[0]) + (spec_json_escape(a.drop_first()) + spec_json_escape(b))
            =~= (json_esc1(a[0]) + spec_json_escape(a.drop_first())) + spec_json_escape(b));
    }
}

/// A JSON string: a quote, the escaped content, a quote.
pub open spec fn spec_json_string(content: Seq<u8>) -> Seq<u8> {
    seq![34u8] + spec_json_escape(content) + seq![34u8]
}

/// The JSON name of a status.
pub open spec fn spec_status_text(status: QueuedSongStatus) -> Seq<char> {
    match status {
        QueuedSongStatus::InProgress => "InProgress"@,
        QueuedSongStatus::Failed => "Failed"@,
        QueuedSongStatus::Success => "Success"@,
    }
}

/// The JSON body of one song.
pub open spec fn spec_song_json(s: &Song) -> Seq<u8> {
    lit_bytes("{\"name\":"@) + spec_json_string(vstd::utf8::encode_utf8(s.name@)) + lit_bytes(
        ",\"uuid\":"@,
    ) + spec_json_string(vstd::utf8::encode_utf8(uuid_hyphenated(s.uuid))) + lit_bytes(
        ",\"yt_link\":"@,
    ) + spec_json_string(vstd::utf8::encode_utf8(s.yt_link@)) + lit_bytes(",\"status\":"@)
        + spec_json_string(vstd::utf8::encode_utf8(spec_status_text(s.status))) + lit_bytes(
        "}"@,
    )
}

/// The JSON bodies of a queue of songs, as one array.
pub open spec fn spec_queue_json(q: Seq<Song>) -> Seq<u8>
    decreases q.len(),
{
    if q.len() == 0 {
        Seq::<u8>::empty()
    } else if q.len() == 1 {
        spec_song_json(&q[0])
    } else {
        spec_song_json(&q[0]) + lit_bytes(","@) + spec_queue_json(q.drop_first())
    }
}

/// The JSON body of one broadcast event, under its `type` tag.
pub open spec fn spec_event_json(e: &SseEvent) -> Seq<u8> {
    match e {
        SseEvent::QueueUpdated { queue } => lit_bytes("{\"type\":\"QueueUpdated\",\"queue\":["@)
            + spec_queue_json(queue@) + lit_bytes("]}"@),
        SseEvent::KeyChange { current_key } => lit_bytes(
            "{\"type\":\"KeyChange\",\"current_key\":"@,
        ) + spec_key_text(*current_key as int) + lit_bytes("}"@),
        SseEvent::TogglePlayback => lit_bytes("{\"type\":\"TogglePlayback\"}"@),
    }
}

/// The decimal text of a key, with its sign.
pub open spec fn spec_key_text(k: int) -> Seq<u8> {
    crate::text::spec_signed_dec(k)
}

/// Append the escaped content of a JSON string.
fn push_json_escaped(out: &mut Vec<u8>, s: &str)
    ensures
        final(out)@ == old(out)@ + spec_json_escape(vstd::utf8::encode_utf8(s@)),
{
    let bs = s.as_bytes();
    let mut i: usize = 0;
    while i < bs.len()
        invariant
            0 <= i <= bs@.len(),
            bs@ == vstd::utf8::encode_utf8(s@),
            out@ == old(out)@ + spec_json_escape(bs@.take(i as int)),
        decreases bs@.len() - i,
    {
        let b = bs[i];
        proof {
            reveal_with_fuel(spec_json_escape, 3);
            assert(bs@.take(i + 1) =~= bs@.take(i as int) + seq![bs@[i as int]]);
            lemma_json_escape_append(bs@.take(i as int), seq![bs@[i as int]]);
            assert(seq![bs@[i as int]].drop_first() =~= Seq::<u8>::empty());
            assert(spec_json_escape(seq![bs@[i as int]]) =~= json_esc1(bs@[i as int]));
        }
        if b == 34 {
            out.push(92);
            out.push(34);
        } else if b == 92 {
            out.push(92);
            out.push(92);
        } else if b < 32 {
            out.push(92);
            out.push(117);
            out.push(48);
            out.push(48);
            let hi = b / 16;
            let lo = b % 16;
            out.push(if hi < 10 {
                48 + hi
            } else {
                87 + hi
            });
            out.push(if lo < 10 {
                48 + lo
            } else {
                87 + lo
            });
        } else {
            out.push(b);
        }
        proof {
            assert(out@ =~= old(out)@ + spec_json_escape(bs@.take(i + 1)));
        }
        i = i + 1;
    }
    proof {
        assert(bs@.take(bs@.len() as int) =~= bs@);
    }
}

/// Append a JSON string with the given content.
fn push_json_string(out: &mut Vec<u8>, s: &str)
    ensures
        final(out)@ == old(out)@ + spec_json_string(vstd::utf8::encode_utf8(s@)),
{
    out.push(34);
    push_json_escaped(out, s);
    out.push(34);
    proof {
        assert(final(out)@ =~= old(out)@ + spec_json_string(vstd::utf8::encode_utf8(s@)));
    }
}

/// Append a piece of fixed JSON punctuation.
fn push_json_lit(out: &mut Vec<u8>, s: &str)
    ensures
        final(out)@ == old(out)@ + lit_bytes(s@),
{
    proof {
        reveal(crate::xml::lit_bytes);
    }
    out.extend_from_slice(s.as_bytes());
    proof {
        assert(final(out)@ =~= old(out)@ + lit_bytes(s@));
    }
}

/// The JSON name of a status, as text.
pub fn status_text(status: &QueuedSongStatus) -> (r: String)
    ensures
        r@ == spec_status_text(*status),
{
    match status {
        QueuedSongStatus::InProgress => String::from_str("InProgress"),
        QueuedSongStatus::Failed => String::from_str("Failed"),
        QueuedSongStatus::Success => String::from_str("Success"),
    }
}

/// The JSON body of one song, exactly its spec-level rendering.
pub fn song_json(s: &Song) -> (r: Vec<u8>)
    ensures
        r@ == spec_song_json(s),
{
    let ghost c1 = lit_bytes("{\"name\":"@) + spec_json_string(
        vstd::utf8::encode_utf8(s.name@),
    );
    let ghost c2 = c1 + lit_bytes(",\"uuid\":"@);
    let ghost c3 = c2 + spec_json_string(vstd::utf8::encode_utf8(uuid_hyphenated(s.uuid)));
    let ghost c4 = c3 + lit_bytes(",\"yt_link\":"@);
    let ghost c5 = c4 + spec_json_string(vstd::utf8::encode_utf8(s.yt_link@));
    let ghost c6 = c5 + lit_bytes(",\"status\":"@);
    let ghost c7 = c6 + spec_json_string(vstd::utf8::encode_utf8(spec_status_text(s.status)));
    let mut out: Vec<u8> = Vec::new();
    push_json_lit(&mut out, "{\"name\":");
    push_json_string(&mut out, s.name.as_str());
    proof {
        assert(out@ =~= c1);
    }
    push_json_lit(&mut out, ",\"uuid\":");
    proof {
        assert(out@ =~= c2);
    }
    let uuid_text = uuid_to_string(s.uuid);
    push_json_string(&mut out, uuid_text.as_str());
    proof {
        assert(out@ =~= c3);
    }
    push_json_lit(&mut out, ",\"yt_link\":");
    proof {
        assert(out@ =~= c4);
    }
    push_json_string(&mut out, s.yt_link.as_str());
    proof {
        assert(out@ =~= c5);
    }
    push_json_lit(&mut out, ",\"status\":");
    proof {
        assert(out@ =~= c6);
    }
    let st = status_text(&s.status);
    push_json_string(&mut out, st.as_str());
    proof {
        assert(out@ =~= c7);
    }
    push_json_lit(&mut out, "}");
    proof {
        assert(out@ =~= spec_song_json(s));
    }
    out
}

/// The decimal text of a key, with its sign.
fn key_text(k: i8) -> (r: String)
    ensures
        crate::text::char_bytes(r@) == spec_key_text(k as int),
        r@ == crate::text::ascii_chars(spec_key_text(k as int)),
{
    crate::text::format_i64(k as i64)
}

/// The JSON body of one broadcast event, exactly its spec-level
/// rendering: the payload each subscriber receives.
pub fn event_json(e: &SseEvent) -> (r: Vec<u8>)
    ensures
        r@ == spec_event_json(e),
{
    let mut out: Vec<u8> = Vec::new();
    match e {
        SseEvent::QueueUpdated { queue } => {
            push_json_lit(&mut out, "{\"type\":\"QueueUpdated\",\"queue\":[");
            let ghost head = out@;
            let mut i: usize = 0;
            while i < queue.len()
                invariant
                    0 <= i <= queue@.len(),
                    out@ == head + spec_queue_json(queue@.take(i as int)),
                decreases queue@.len() - i,
            {
                if i > 0 {
                    push_json_lit(&mut out, ",");
                }
                let sj = song_json(&queue[i]);
                out.extend_from_slice(sj.as_slice());
                proof {
                    lemma_queue_json_take(queue@, i as int);
                    assert(out@ =~= head + spec_queue_json(queue@.take(i + 1)));
                }
                i = i + 1;
            }
            proof {
                assert(queue@.take(queue@.len() as int) =~= queue@);
            }
            push_json_lit(&mut out, "]}");
            proof {
                assert(out@ =~= spec_event_json(e));
            }
        },
        SseEvent::KeyChange { current_key } => {
            push_json_lit(&mut out, "{\"type\":\"KeyChange\",\"current_key\":");
            let kt = key_text(*current_key);
            let kts = kt.as_str();
            let ghost mid = out@;
            out.extend_from_slice(kts.as_bytes());
            proof {
                broadcast use vstd::string::is_ascii_spec_bytes;

                lemma_key_text_ascii(*current_key as int);
                assert(vstd::utf8::is_ascii_chars(kts@));
                assert(vstd::string::is_ascii(kts));
                assert(kts.spec_bytes() =~= crate::text::char_bytes(kt@));
                assert(out@ =~= mid + spec_key_text(*current_key as int));
            }
            push_json_lit(&mut out, "}");
            proof {
                assert(out@ =~= spec_event_json(e));
            }
        },
        SseEvent::TogglePlayback => {
            push_json_lit(&mut out, "{\"type\":\"TogglePlayback\"}");
            proof {
                assert(out@ =~= spec_event_json(e));
            }
        },
    }
    out
}

/// One more song extends the array text by a comma and its body.
#[verifier::rlimit(100)]
proof fn lemma_queue_json_take(q: Seq<Song>, i: int)
    requires
        0 <= i < q.len(),
    ensures
        spec_queue_json(q.take(i + 1)) == spec_queue_json(q.take(i)) + (
        if i == 0 {
            Seq::<u8>::empty()
        } else {
            lit_bytes(","@)
        }) + spec_song_json(&q[i]),
    decreases i,
{
    reveal_with_fuel(spec_queue_json, 4);
    if i == 0 {
        assert(q.take(1) =~= seq![q[0]]);
        assert(q.take(0) =~= Seq::<Song>::empty());
        assert(spec_queue_json(q.take(1)) =~= spec_song_json(&q[0]));
        assert(spec_queue_json(q.take(i + 1)) =~= spec_queue_json(q.take(i)) + Seq::<
            u8,
        >::empty() + spec_song_json(&q[i]));
    } else {
        lemma_queue_json_take(q.drop_first(), i - 1);
        assert(q.take(i + 1).drop_first() =~= q.drop_first().take(i));
        assert(q.take(i).drop_first() =~= q.drop_first().take(i - 1));
        assert(q.take(i + 1)[0] == q[0]);
        assert(q.take(i)[0] == q[0]);
        assert(q.drop_first()[i - 1] == q[i]);
        if i == 1 {
            assert(spec_queue_json(q.take(2)) == spec_song_json(&q[0]) + lit_bytes(","@)
                + spec_queue_json(q.drop_first().take(1)));
            assert(spec_queue_json(q.take(i + 1)) =~= spec_queue_json(q.take(i)) + lit_bytes(
                ","@,
            ) + spec_song_json(&q[i]));
        } else {
            assert(spec_queue_json(q.take(i + 1)) =~= spec_queue_json(q.take(i)) + lit_bytes(
                ","@,
            ) + spec_song_json(&q[i]));
        }
    }
}

/// The key text is plain ASCII.
proof fn lemma_key_text_ascii(k: int)
    ensures
        crate::text::all_ascii(spec_key_text(k)),
{
    crate::text::lemma_dec_ascii(if k < 0 {
        (-k) as nat
    } else {
        k as nat
    });
}

} // verus!
