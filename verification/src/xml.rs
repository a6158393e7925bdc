//! Writing a manifest as XML text. The writer is pinned to a spec-level
//! rendering, byte for byte: attributes are emitted only when present
//! and never with an empty value, values are escaped, elements without
//! children are self-closing.

use vstd::prelude::*;

use crate::mpd::{
    AdaptationSet, AudioChannelConfiguration, MPD, Period, Representation, Segment,
    SegmentTemplate, SegmentTimeline,
};

verus! {

/// The UTF-8 bytes of a string value.
#[verifier::opaque]
pub open spec fn str_bytes(s: &String) -> Seq<u8> {
    vstd::utf8::encode_utf8(s@)
}

/// The UTF-8 bytes of a piece of fixed markup.
#[verifier::opaque]
pub open spec fn lit_bytes(s: Seq<char>) -> Seq<u8> {
    vstd::utf8::encode_utf8(s)
}

/// The escaped form of one byte of an attribute value: the five bytes
/// of `&amp;` for an ampersand, and so on.
pub open spec fn esc1(b: u8) -> Seq<u8> {
    if b == 38 {
        seq![38u8, 97u8, 109u8, 112u8, 59u8]
    } else if b == 60 {
        seq![38u8, 108u8, 116u8, 59u8]
    } else if b == 62 {
        seq![38u8, 103u8, 116u8, 59u8]
    } else if b == 34 {
        seq![38u8, 113u8, 117u8, 111u8, 116u8, 59u8]
    } else {
        seq![b]
    }
}

/// The escaped form of an attribute value.
pub open spec fn spec_escape(v: Seq<u8>) -> Seq<u8>
    decreases v.len(),
{
    if v.len() == 0 {
        Seq::<u8>::empty()
    } else {
        esc1(v[0]) + spec_escape(v.drop_first())
    }
}

/// Rebracketing one appended chunk.
proof fn lemma_chain(base: Seq<u8>, pre: Seq<u8>, chunk: Seq<u8>)
    ensures
        (base + pre) + chunk == base + (pre + chunk),
{
    assert((base + pre) + chunk =~= base + (pre + chunk));
}

/// Escaping a concatenation escapes the parts in order.
pub proof fn lemma_escape_append(a: Seq<u8>, b: Seq<u8>)
    ensures
        spec_escape(a + b) == spec_escape(a) + spec_escape(b),
    decreases a.len(),
{
    if a.len() == 0 {
        assert(a + b =~= b);
        assert(spec_escape(a) + spec_escape(b) =~= spec_escape(b));
    } else {
        assert((a + b).drop_first() =~= a.drop_first() + b);
        lemma_escape_append(a.drop_first(), b);
        assert(esc1((a + b)[0]) + (spec_escape(a.drop_first()) + spec_escape(b)) =~= (esc1(a[0])
            + spec_escape(a.drop_first())) + spec_escape(b));
    }
}

/// One attribute: a space, the name, `="`, the escaped value, `"`.
pub open spec fn spec_attr(name: Seq<char>, value: Seq<u8>) -> Seq<u8> {
    seq![32u8] + lit_bytes(name) + seq![61u8, 34u8] + spec_escape(value) + seq![34u8]
}

/// A string attribute: written only when non-empty.
pub open spec fn spec_attr_str(name: Seq<char>, s: &String) -> Seq<u8> {
    if s@.len() == 0 {
        Seq::<u8>::empty()
    } else {
        spec_attr(name, str_bytes(s))
    }
}

/// An optional attribute: written only when present and non-empty.
pub open spec fn spec_attr_opt(name: Seq<char>, s: &Option<String>) -> Seq<u8> {
    match s {
        None => Seq::<u8>::empty(),
        Some(v) => spec_attr_str(name, v),
    }
}

/// One `S` element of a segment timeline.
pub open spec fn spec_segment_xml(s: &Segment) -> Seq<u8> {
    lit_bytes("<S"@) + spec_attr_opt("t"@, &s.t) + spec_attr_str("d"@, &s.d) + spec_attr_opt(
        "r"@,
        &s.r,
    ) + lit_bytes("/>"@)
}

/// A run of `S` elements, in order.
pub open spec fn spec_segments_xml(ss: Seq<Segment>) -> Seq<u8>
    decreases ss.len(),
{
    if ss.len() == 0 {
        Seq::<u8>::empty()
    } else {
        spec_segment_xml(&ss[0]) + spec_segments_xml(ss.drop_first())
    }
}

/// A run of segments renders its parts in order.
pub proof fn lemma_segments_xml_append(a: Seq<Segment>, b: Seq<Segment>)
    ensures
        spec_segments_xml(a + b) == spec_segments_xml(a) + spec_segments_xml(b),
    decreases a.len(),
{
    if a.len() == 0 {
        assert(a + b =~= b);
        assert(spec_segments_xml(a) + spec_segments_xml(b) =~= spec_segments_xml(b));
    } else {
        assert((a + b).drop_first() =~= a.drop_first() + b);
        lemma_segments_xml_append(a.drop_first(), b);
        assert(spec_segment_xml(&(a + b)[0]) + (spec_segments_xml(a.drop_first())
            + spec_segments_xml(b)) =~= (spec_segment_xml(&a[0]) + spec_segments_xml(
            a.drop_first(),
        )) + spec_segments_xml(b));
    }
}

/// The `SegmentTimeline` element.
pub open spec fn spec_timeline_xml(tl: &SegmentTimeline) -> Seq<u8> {
    lit_bytes("<SegmentTimeline>"@) + spec_segments_xml(tl.segments@) + lit_bytes(
        "</SegmentTimeline>"@,
    )
}

/// The `SegmentTemplate` element.
pub open spec fn spec_segment_template_xml(st: &SegmentTemplate) -> Seq<u8> {
    lit_bytes("<SegmentTemplate"@) + spec_attr_str("timescale"@, &st.timescale) + spec_attr_str(
        "initialization"@,
        &st.initialization,
    ) + spec_attr_str("media"@, &st.media) + spec_attr_str("startNumber"@, &st.start_number)
        + lit_bytes(">"@) + spec_timeline_xml(&st.segment_timeline) + lit_bytes(
        "</SegmentTemplate>"@,
    )
}

/// The `AudioChannelConfiguration` element.
pub open spec fn spec_acc_xml(acc: &AudioChannelConfiguration) -> Seq<u8> {
    lit_bytes("<AudioChannelConfiguration"@) + spec_attr_str("schemeIdUri"@, &acc.scheme_id_uri)
        + spec_attr_str("value"@, &acc.value) + lit_bytes("/>"@)
}

/// The `Representation` element.
pub open spec fn spec_representation_xml(r: &Representation) -> Seq<u8> {
    lit_bytes("<Representation"@) + spec_attr_str("id"@, &r.id) + spec_attr_str(
        "mimeType"@,
        &r.mime_type,
    ) + spec_attr_str("codecs"@, &r.codecs) + spec_attr_str("bandwidth"@, &r.bandwidth)
        + spec_attr_opt("audioSamplingRate"@, &r.audio_sampling_rate) + spec_attr_opt(
        "width"@,
        &r.width,
    ) + spec_attr_opt("height"@, &r.height) + spec_attr_opt("scanType"@, &r.scan_type)
        + spec_attr_opt("sar"@, &r.sar) + lit_bytes(">"@) + (
    match &r.audio_channel_configuration {
        Some(acc) => spec_acc_xml(acc),
        None => Seq::<u8>::empty(),
    }) + spec_segment_template_xml(&r.segment_template) + lit_bytes("</Representation>"@)
}

/// The `AdaptationSet` element.
pub open spec fn spec_adaptation_set_xml(a: &AdaptationSet) -> Seq<u8> {
    lit_bytes("<AdaptationSet"@) + spec_attr_str("id"@, &a.id) + spec_attr_str(
        "contentType"@,
        &a.content_type,
    ) + spec_attr_str("startWithSAP"@, &a.start_with_sap) + spec_attr_str(
        "segmentAlignment"@,
        &a.segment_alignment,
    ) + spec_attr_str("bitstreamSwitching"@, &a.bitstream_switching) + spec_attr_opt(
        "frameRate"@,
        &a.frame_rate,
    ) + spec_attr_opt("maxWidth"@, &a.max_width) + spec_attr_opt("maxHeight"@, &a.max_height)
        + spec_attr_opt("par"@, &a.par) + spec_attr_opt("lang"@, &a.lang) + lit_bytes(">"@)
        + spec_representation_xml(&a.representation) + lit_bytes("</AdaptationSet>"@)
}

/// A run of `AdaptationSet` elements, in order.
pub open spec fn spec_sets_xml(sets: Seq<AdaptationSet>) -> Seq<u8>
    decreases sets.len(),
{
    if sets.len() == 0 {
        Seq::<u8>::empty()
    } else {
        spec_adaptation_set_xml(&sets[0]) + spec_sets_xml(sets.drop_first())
    }
}

/// A run of adaptation sets renders its parts in order.
pub proof fn lemma_sets_xml_append(a: Seq<AdaptationSet>, b: Seq<AdaptationSet>)
    ensures
        spec_sets_xml(a + b) == spec_sets_xml(a) + spec_sets_xml(b),
    decreases a.len(),
{
    if a.len() == 0 {
        assert(a + b =~= b);
        assert(spec_sets_xml(a) + spec_sets_xml(b) =~= spec_sets_xml(b));
    } else {
        assert((a + b).drop_first() =~= a.drop_first() + b);
        lemma_sets_xml_append(a.drop_first(), b);
        assert(spec_adaptation_set_xml(&(a + b)[0]) + (spec_sets_xml(a.drop_first())
            + spec_sets_xml(b)) =~= (spec_adaptation_set_xml(&a[0]) + spec_sets_xml(
            a.drop_first(),
        )) + spec_sets_xml(b));
    }
}

/// The `Period` element.
pub open spec fn spec_period_xml(p: &Period) -> Seq<u8> {
    lit_bytes("<Period"@) + spec_attr_str("id"@, &p.id) + spec_attr_str("start"@, &p.start)
        + lit_bytes(">"@) + spec_sets_xml(p.adaptation_sets@) + lit_bytes("</Period>"@)
}

/// The whole document: the `MPD` element with its header attributes,
/// the empty `ProgramInformation`, the `ServiceDescription` and the
/// single `Period`.
pub open spec fn spec_mpd_xml(m: &MPD) -> Seq<u8> {
    lit_bytes("<MPD"@) + spec_attr_opt("xmlns:xsi"@, &m.xmlns_xsi) + spec_attr_opt(
        "xmlns"@,
        &m.xmlns,
    ) + spec_attr_opt("xmlns:xlink"@, &m.xmlns_xlink) + spec_attr_opt(
        "xsi:schemaLocation"@,
        &m.schema_location,
    ) + spec_attr_str("profiles"@, &m.profiles) + spec_attr_str("type"@, &m.type_)
        + spec_attr_str("mediaPresentationDuration"@, &m.media_presentation_duration)
        + spec_attr_str("maxSegmentDuration"@, &m.max_segment_duration) + spec_attr_str(
        "minBufferTime"@,
        &m.min_buffer_time,
    ) + lit_bytes(">"@) + lit_bytes("<ProgramInformation/>"@) + lit_bytes(
        "<ServiceDescription"@,
    ) + spec_attr_str("id"@, &m.service_description.id) + lit_bytes("/>"@) + spec_period_xml(
        &m.period,
    ) + lit_bytes("</MPD>"@)
}

/// Append a piece of fixed markup.
fn push_lit(out: &mut Vec<u8>, s: &str)
    ensures
        final(out)@ == old(out)@ + lit_bytes(s@),
{
    out.extend_from_slice(s.as_bytes());
    proof {
        reveal(lit_bytes);
        assert(final(out)@ =~= old(out)@ + lit_bytes(s@));
    }
}

/// Append a value, escaped.
#[verifier::rlimit(60)]
fn push_escaped(out: &mut Vec<u8>, s: &String)
    ensures
        final(out)@ == old(out)@ + spec_escape(str_bytes(s)),
{
    proof {
        reveal(str_bytes);
    }
    let bs = s.as_str().as_bytes();
    let mut i: usize = 0;
    while i < bs.len()
        invariant
            0 <= i <= bs@.len(),
            bs@ == str_bytes(s),
            out@ == old(out)@ + spec_escape(bs@.take(i as int)),
        decreases bs@.len() - i,
    {
        let b = bs[i];
        proof {
            assert(bs@.take(i + 1) =~= bs@.take(i as int) + seq![bs@[i as int]]);
            lemma_escape_append(bs@.take(i as int), seq![bs@[i as int]]);
            reveal_with_fuel(spec_escape, 3);
            assert(seq![bs@[i as int]].drop_first() =~= Seq::<u8>::empty());
            assert(spec_escape(seq![bs@[i as int]]) =~= esc1(bs@[i as int]));
        }
        if b == 38 {
            out.push(38);
            out.push(97);
            out.push(109);
            out.push(112);
            out.push(59);
        } else if b == 60 {
            out.push(38);
            out.push(108);
            out.push(116);
            out.push(59);
        } else if b == 62 {
            out.push(38);
            out.push(103);
            out.push(116);
            out.push(59);
        } else if b == 34 {
            out.push(38);
            out.push(113);
            out.push(117);
            out.push(111);
            out.push(116);
            out.push(59);
        } else {
            out.push(b);
        }
        proof {
            assert(out@ =~= old(out)@ + spec_escape(bs@.take(i as int)) + esc1(bs@[i as int]));
            assert(out@ =~= old(out)@ + spec_escape(bs@.take(i + 1)));
        }
        i = i + 1;
    }
    proof {
        assert(bs@.take(bs@.len() as int) =~= bs@);
    }
}

/// Append one attribute with a non-empty value.
fn push_attr(out: &mut Vec<u8>, name: &str, value: &String)
    ensures
        final(out)@ == old(out)@ + spec_attr(name@, str_bytes(value)),
{
    out.push(32);
    push_lit(out, name);
    out.push(61);
    out.push(34);
    push_escaped(out, value);
    out.push(34);
    proof {
        assert(final(out)@ =~= old(out)@ + spec_attr(name@, str_bytes(value)));
    }
}

/// Append a string attribute, skipping an empty value.
fn push_attr_str(out: &mut Vec<u8>, name: &str, value: &String)
    ensures
        final(out)@ == old(out)@ + spec_attr_str(name@, value),
{
    if !value.as_str().is_empty() {
        push_attr(out, name, value);
    } else {
        proof {
            assert(final(out)@ =~= old(out)@ + spec_attr_str(name@, value));
        }
    }
}

/// Append an optional attribute, skipping a missing or empty value.
fn push_attr_opt(out: &mut Vec<u8>, name: &str, value: &Option<String>)
    ensures
        final(out)@ == old(out)@ + spec_attr_opt(name@, value),
{
    match value {
        Some(v) => push_attr_str(out, name, v),
        None => {
            proof {
                assert(final(out)@ =~= old(out)@ + spec_attr_opt(name@, value));
            }
        },
    }
}

/// Append one `S` element.
fn write_segment(out: &mut Vec<u8>, s: &Segment)
    ensures
        final(out)@ == old(out)@ + spec_segment_xml(s),
{
    push_lit(out, "<S");
    push_attr_opt(out, "t", &s.t);
    push_attr_str(out, "d", &s.d);
    push_attr_opt(out, "r", &s.r);
    push_lit(out, "/>");
    proof {
        assert(final(out)@ =~= old(out)@ + spec_segment_xml(s));
    }
}

/// Append the `SegmentTimeline` element.
fn write_timeline(out: &mut Vec<u8>, tl: &SegmentTimeline)
    ensures
        final(out)@ == old(out)@ + spec_timeline_xml(tl),
{
    push_lit(out, "<SegmentTimeline>");
    let mut i: usize = 0;
    while i < tl.segments.len()
        invariant
            0 <= i <= tl.segments@.len(),
            out@ == old(out)@ + lit_bytes("<SegmentTimeline>"@) + spec_segments_xml(
                tl.segments@.take(i as int),
            ),
        decreases tl.segments@.len() - i,
    {
        proof {
            assert(tl.segments@.take(i + 1) =~= tl.segments@.take(i as int) + seq![
                tl.segments@[i as int],
            ]);
            lemma_segments_xml_append(tl.segments@.take(i as int), seq![tl.segments@[i as int]]);
            reveal_with_fuel(spec_segments_xml, 3);
            assert(seq![tl.segments@[i as int]].drop_first() =~= Seq::<Segment>::empty());
            assert(spec_segments_xml(seq![tl.segments@[i as int]]) =~= spec_segment_xml(
                &tl.segments@[i as int],
            ));
        }
        write_segment(out, &tl.segments[i]);
        proof {
            assert(out@ =~= old(out)@ + lit_bytes("<SegmentTimeline>"@) + spec_segments_xml(
                tl.segments@.take(i + 1),
            ));
        }
        i = i + 1;
    }
    proof {
        assert(tl.segments@.take(tl.segments@.len() as int) =~= tl.segments@);
    }
    push_lit(out, "</SegmentTimeline>");
    proof {
        assert(final(out)@ =~= old(out)@ + spec_timeline_xml(tl));
    }
}

/// Append the `SegmentTemplate` element.
fn write_segment_template(out: &mut Vec<u8>, st: &SegmentTemplate)
    ensures
        final(out)@ == old(out)@ + spec_segment_template_xml(st),
{
    push_lit(out, "<SegmentTemplate");
    push_attr_str(out, "timescale", &st.timescale);
    push_attr_str(out, "initialization", &st.initialization);
    push_attr_str(out, "media", &st.media);
    push_attr_str(out, "startNumber", &st.start_number);
    push_lit(out, ">");
    write_timeline(out, &st.segment_timeline);
    push_lit(out, "</SegmentTemplate>");
    proof {
        assert(final(out)@ =~= old(out)@ + spec_segment_template_xml(st));
    }
}

/// Append the `Representation` element.
fn write_representation(out: &mut Vec<u8>, r: &Representation)
    ensures
        final(out)@ == old(out)@ + spec_representation_xml(r),
{
    let ghost c1 = lit_bytes("<Representation"@) + spec_attr_str("id"@, &r.id);
    let ghost c2 = c1 + spec_attr_str("mimeType"@, &r.mime_type);
    let ghost c3 = c2 + spec_attr_str("codecs"@, &r.codecs);
    let ghost c4 = c3 + spec_attr_str("bandwidth"@, &r.bandwidth);
    let ghost c5 = c4 + spec_attr_opt("audioSamplingRate"@, &r.audio_sampling_rate);
    let ghost c6 = c5 + spec_attr_opt("width"@, &r.width);
    let ghost c7 = c6 + spec_attr_opt("height"@, &r.height);
    let ghost c8 = c7 + spec_attr_opt("scanType"@, &r.scan_type);
    let ghost c9 = c8 + spec_attr_opt("sar"@, &r.sar);
    let ghost c10 = c9 + lit_bytes(">"@);
    let ghost c11 = c10 + (match &r.audio_channel_configuration {
        Some(acc) => spec_acc_xml(acc),
        None => Seq::<u8>::empty(),
    });
    let ghost c12 = c11 + spec_segment_template_xml(&r.segment_template);
    push_lit(out, "<Representation");
    push_attr_str(out, "id", &r.id);
    proof {
        lemma_chain(old(out)@, lit_bytes("<Representation"@), spec_attr_str("id"@, &r.id));
        assert(out@ == old(out)@ + c1);
    }
    push_attr_str(out, "mimeType", &r.mime_type);
    proof {
        lemma_chain(old(out)@, c1, spec_attr_str("mimeType"@, &r.mime_type));
        assert(out@ == old(out)@ + c2);
    }
    push_attr_str(out, "codecs", &r.codecs);
    proof {
        lemma_chain(old(out)@, c2, spec_attr_str("codecs"@, &r.codecs));
        assert(out@ == old(out)@ + c3);
    }
    push_attr_str(out, "bandwidth", &r.bandwidth);
    proof {
        lemma_chain(old(out)@, c3, spec_attr_str("bandwidth"@, &r.bandwidth));
        assert(out@ == old(out)@ + c4);
    }
    push_attr_opt(out, "audioSamplingRate", &r.audio_sampling_rate);
    proof {
        lemma_chain(old(out)@, c4, spec_attr_opt("audioSamplingRate"@, &r.audio_sampling_rate));
        assert(out@ == old(out)@ + c5);
    }
    push_attr_opt(out, "width", &r.width);
    proof {
        lemma_chain(old(out)@, c5, spec_attr_opt("width"@, &r.width));
        assert(out@ == old(out)@ + c6);
    }
    push_attr_opt(out, "height", &r.height);
    proof {
        lemma_chain(old(out)@, c6, spec_attr_opt("height"@, &r.height));
        assert(out@ == old(out)@ + c7);
    }
    push_attr_opt(out, "scanType", &r.scan_type);
    proof {
        lemma_chain(old(out)@, c7, spec_attr_opt("scanType"@, &r.scan_type));
        assert(out@ == old(out)@ + c8);
    }
    push_attr_opt(out, "sar", &r.sar);
    proof {
        lemma_chain(old(out)@, c8, spec_attr_opt("sar"@, &r.sar));
        assert(out@ == old(out)@ + c9);
    }
    push_lit(out, ">");
    proof {
        lemma_chain(old(out)@, c9, lit_bytes(">"@));
        assert(out@ == old(out)@ + c10);
    }
    match &r.audio_channel_configuration {
        Some(acc) => {
            push_lit(out, "<AudioChannelConfiguration");
            push_attr_str(out, "schemeIdUri", &acc.scheme_id_uri);
            push_attr_str(out, "value", &acc.value);
            push_lit(out, "/>");
            proof {
                assert(out@ =~= old(out)@ + c10 + spec_acc_xml(acc));
                assert(out@ =~= old(out)@ + c11);
            }
        },
        None => {
            proof {
                assert(out@ =~= old(out)@ + c11);
            }
        },
    }
    write_segment_template(out, &r.segment_template);
    proof {
        lemma_chain(old(out)@, c11, spec_segment_template_xml(&r.segment_template));
        assert(out@ == old(out)@ + c12);
    }
    push_lit(out, "</Representation>");
    proof {
        assert(final(out)@ =~= old(out)@ + (c12 + lit_bytes("</Representation>"@)));
        assert(c12 + lit_bytes("</Representation>"@) =~= spec_representation_xml(r));
    }
}

/// Append one `AdaptationSet` element.
fn write_adaptation_set(out: &mut Vec<u8>, a: &AdaptationSet)
    ensures
        final(out)@ == old(out)@ + spec_adaptation_set_xml(a),
{
    let ghost c1 = lit_bytes("<AdaptationSet"@) + spec_attr_str("id"@, &a.id);
    let ghost c2 = c1 + spec_attr_str("contentType"@, &a.content_type);
    let ghost c3 = c2 + spec_attr_str("startWithSAP"@, &a.start_with_sap);
    let ghost c4 = c3 + spec_attr_str("segmentAlignment"@, &a.segment_alignment);
    let ghost c5 = c4 + spec_attr_str("bitstreamSwitching"@, &a.bitstream_switching);
    let ghost c6 = c5 + spec_attr_opt("frameRate"@, &a.frame_rate);
    let ghost c7 = c6 + spec_attr_opt("maxWidth"@, &a.max_width);
    let ghost c8 = c7 + spec_attr_opt("maxHeight"@, &a.max_height);
    let ghost c9 = c8 + spec_attr_opt("par"@, &a.par);
    let ghost c10 = c9 + spec_attr_opt("lang"@, &a.lang);
    let ghost c11 = c10 + lit_bytes(">"@);
    let ghost c12 = c11 + spec_representation_xml(&a.representation);
    push_lit(out, "<AdaptationSet");
    push_attr_str(out, "id", &a.id);
    proof {
        lemma_chain(old(out)@, lit_bytes("<AdaptationSet"@), spec_attr_str("id"@, &a.id));
        assert(out@ == old(out)@ + c1);
    }
    push_attr_str(out, "contentType", &a.content_type);
    proof {
        lemma_chain(old(out)@, c1, spec_attr_str("contentType"@, &a.content_type));
        assert(out@ == old(out)@ + c2);
    }
    push_attr_str(out, "startWithSAP", &a.start_with_sap);
    proof {
        lemma_chain(old(out)@, c2, spec_attr_str("startWithSAP"@, &a.start_with_sap));
        assert(out@ == old(out)@ + c3);
    }
    push_attr_str(out, "segmentAlignment", &a.segment_alignment);
    proof {
        lemma_chain(old(out)@, c3, spec_attr_str("segmentAlignment"@, &a.segment_alignment));
        assert(out@ == old(out)@ + c4);
    }
    push_attr_str(out, "bitstreamSwitching", &a.bitstream_switching);
    proof {
        lemma_chain(old(out)@, c4, spec_attr_str("bitstreamSwitching"@, &a.bitstream_switching));
        assert(out@ == old(out)@ + c5);
    }
    push_attr_opt(out, "frameRate", &a.frame_rate);
    proof {
        lemma_chain(old(out)@, c5, spec_attr_opt("frameRate"@, &a.frame_rate));
        assert(out@ == old(out)@ + c6);
    }
    push_attr_opt(out, "maxWidth", &a.max_width);
    proof {
        lemma_chain(old(out)@, c6, spec_attr_opt("maxWidth"@, &a.max_width));
        assert(out@ == old(out)@ + c7);
    }
    push_attr_opt(out, "maxHeight", &a.max_height);
    proof {
        lemma_chain(old(out)@, c7, spec_attr_opt("maxHeight"@, &a.max_height));
        assert(out@ == old(out)@ + c8);
    }
    push_attr_opt(out, "par", &a.par);
    proof {
        lemma_chain(old(out)@, c8, spec_attr_opt("par"@, &a.par));
        assert(out@ == old(out)@ + c9);
    }
    push_attr_opt(out, "lang", &a.lang);
    proof {
        lemma_chain(old(out)@, c9, spec_attr_opt("lang"@, &a.lang));
        assert(out@ == old(out)@ + c10);
    }
    push_lit(out, ">");
    proof {
        lemma_chain(old(out)@, c10, lit_bytes(">"@));
        assert(out@ == old(out)@ + c11);
    }
    write_representation(out, &a.representation);
    proof {
        lemma_chain(old(out)@, c11, spec_representation_xml(&a.representation));
        assert(out@ == old(out)@ + c12);
    }
    push_lit(out, "</AdaptationSet>");
    proof {
        assert(final(out)@ =~= old(out)@ + (c12 + lit_bytes("</AdaptationSet>"@)));
        assert(c12 + lit_bytes("</AdaptationSet>"@) =~= spec_adaptation_set_xml(a));
    }
}

/// The manifest as XML text: exactly its spec-level rendering.
pub fn write_mpd(m: &MPD) -> (r: Vec<u8>)
    ensures
        r@ == spec_mpd_xml(m),
{
    let ghost c1 = lit_bytes("<MPD"@) + spec_attr_opt("xmlns:xsi"@, &m.xmlns_xsi);
    let ghost c2 = c1 + spec_attr_opt("xmlns"@, &m.xmlns);
    let ghost c3 = c2 + spec_attr_opt("xmlns:xlink"@, &m.xmlns_xlink);
    let ghost c4 = c3 + spec_attr_opt("xsi:schemaLocation"@, &m.schema_location);
    let ghost c5 = c4 + spec_attr_str("profiles"@, &m.profiles);
    let ghost c6 = c5 + spec_attr_str("type"@, &m.type_);
    let ghost c7 = c6 + spec_attr_str(
        "mediaPresentationDuration"@,
        &m.media_presentation_duration,
    );
    let ghost c8 = c7 + spec_attr_str("maxSegmentDuration"@, &m.max_segment_duration);
    let ghost c9 = c8 + spec_attr_str("minBufferTime"@, &m.min_buffer_time);
    let ghost c10 = c9 + lit_bytes(">"@);
    let ghost c11 = c10 + lit_bytes("<ProgramInformation/>"@);
    let ghost c12 = c11 + lit_bytes("<ServiceDescription"@);
    let ghost c13 = c12 + spec_attr_str("id"@, &m.service_description.id);
    let ghost c14 = c13 + lit_bytes("/>"@);
    let ghost c15 = c14 + spec_period_xml(&m.period);
    let mut out: Vec<u8> = Vec::new();
    push_lit(&mut out, "<MPD");
    push_attr_opt(&mut out, "xmlns:xsi", &m.xmlns_xsi);
    proof {
        assert(out@ =~= c1);
    }
    push_attr_opt(&mut out, "xmlns", &m.xmlns);
    proof {
        assert(out@ =~= c2);
    }
    push_attr_opt(&mut out, "xmlns:xlink", &m.xmlns_xlink);
    proof {
        assert(out@ =~= c3);
    }
    push_attr_opt(&mut out, "xsi:schemaLocation", &m.schema_location);
    proof {
        assert(out@ =~= c4);
    }
    push_attr_str(&mut out, "profiles", &m.profiles);
    proof {
        assert(out@ =~= c5);
    }
    push_attr_str(&mut out, "type", &m.type_);
    proof {
        assert(out@ =~= c6);
    }
    push_attr_str(&mut out, "mediaPresentationDuration", &m.media_presentation_duration);
    proof {
        assert(out@ =~= c7);
    }
    push_attr_str(&mut out, "maxSegmentDuration", &m.max_segment_duration);
    proof {
        assert(out@ =~= c8);
    }
    push_attr_str(&mut out, "minBufferTime", &m.min_buffer_time);
    proof {
        assert(out@ =~= c9);
    }
    push_lit(&mut out, ">");
    proof {
        assert(out@ =~= c10);
    }
    push_lit(&mut out, "<ProgramInformation/>");
    proof {
        assert(out@ =~= c11);
    }
    push_lit(&mut out, "<ServiceDescription");
    proof {
        assert(out@ =~= c12);
    }
    push_attr_str(&mut out, "id", &m.service_description.id);
    proof {
        assert(out@ =~= c13);
    }
    push_lit(&mut out, "/>");
    proof {
        assert(out@ =~= c14);
    }
    write_period(&mut out, &m.period);
    proof {
        assert(out@ =~= c15);
    }
    push_lit(&mut out, "</MPD>");
    proof {
        assert(out@ =~= c15 + lit_bytes("</MPD>"@));
        assert(c15 + lit_bytes("</MPD>"@) =~= spec_mpd_xml(m));
    }
    out
}

/// Append the `Period` element.
fn write_period(out: &mut Vec<u8>, p: &Period)
    ensures
        final(out)@ == old(out)@ + spec_period_xml(p),
{
    let ghost c1 = lit_bytes("<Period"@) + spec_attr_str("id"@, &p.id);
    let ghost c2 = c1 + spec_attr_str("start"@, &p.start);
    let ghost c3 = c2 + lit_bytes(">"@);
    push_lit(out, "<Period");
    push_attr_str(out, "id", &p.id);
    proof {
        lemma_chain(old(out)@, lit_bytes("<Period"@), spec_attr_str("id"@, &p.id));
        assert(out@ == old(out)@ + c1);
    }
    push_attr_str(out, "start", &p.start);
    proof {
        lemma_chain(old(out)@, c1, spec_attr_str("start"@, &p.start));
        assert(out@ == old(out)@ + c2);
    }
    push_lit(out, ">");
    proof {
        lemma_chain(old(out)@, c2, lit_bytes(">"@));
        assert(out@ == old(out)@ + c3);
    }
    let mut i: usize = 0;
    while i < p.adaptation_sets.len()
        invariant
            0 <= i <= p.adaptation_sets@.len(),
            out@ == old(out)@ + c3 + spec_sets_xml(p.adaptation_sets@.take(i as int)),
            c3 == lit_bytes("<Period"@) + spec_attr_str("id"@, &p.id) + spec_attr_str(
                "start"@,
                &p.start,
            ) + lit_bytes(">"@),
        decreases p.adaptation_sets@.len() - i,
    {
        proof {
            reveal_with_fuel(spec_sets_xml, 3);
            assert(p.adaptation_sets@.take(i + 1) =~= p.adaptation_sets@.take(i as int) + seq![
                p.adaptation_sets@[i as int],
            ]);
            lemma_sets_xml_append(
                p.adaptation_sets@.take(i as int),
                seq![p.adaptation_sets@[i as int]],
            );
            assert(seq![p.adaptation_sets@[i as int]].drop_first()
                =~= Seq::<AdaptationSet>::empty());
            assert(spec_sets_xml(seq![p.adaptation_sets@[i as int]]) =~= spec_adaptation_set_xml(
                &p.adaptation_sets@[i as int],
            ));
        }
        write_adaptation_set(out, &p.adaptation_sets[i]);
        proof {
            lemma_chain(
                old(out)@ + c3,
                spec_sets_xml(p.adaptation_sets@.take(i as int)),
                spec_adaptation_set_xml(&p.adaptation_sets@[i as int]),
            );
            assert(out@ == old(out)@ + c3 + spec_sets_xml(p.adaptation_sets@.take(i + 1)));
        }
        i = i + 1;
    }
    proof {
        assert(p.adaptation_sets@.take(p.adaptation_sets@.len() as int) =~= p.adaptation_sets@);
    }
    push_lit(out, "</Period>");
    proof {
        lemma_chain(old(out)@, c3, spec_sets_xml(p.adaptation_sets@));
        lemma_chain(
            old(out)@,
            c3 + spec_sets_xml(p.adaptation_sets@),
            lit_bytes("</Period>"@),
        );
        assert(final(out)@ == old(out)@ + spec_period_xml(p));
    }
}

} // verus!
