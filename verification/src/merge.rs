//! Merging the per-rendition manifests into one composite manifest: the
//! adaptation sets of every discovered `video/stream.mpd` and
//! `pitch{k}/stream.mpd` are rewritten in place — the set id becomes the
//! directory index, the segment paths gain the directory prefix — and
//! concatenated into the single period of a static header.

use vstd::prelude::*;

use crate::mpd::{
    AdaptationSet, AudioChannelConfiguration, MPD, Period, ProgramInformation, Representation,
    Segment, SegmentTemplate, SegmentTimeline, ServiceDescription,
};
use crate::text::{ascii_chars, spec_dec};

verus! {

/// The path prefix of the rendition directory `index`: `video/` for the
/// video stream, `pitch{index}/` for an audio rendition.
pub open spec fn spec_dir_prefix(index: u8) -> Seq<char> {
    if index == 0 {
        "video/"@
    } else {
        "pitch"@ + ascii_chars(spec_dec(index as nat)) + "/"@
    }
}

/// What rewriting does to one adaptation set taken from rendition
/// directory `index`: the set id becomes the directory index, the
/// initialization and media paths gain the directory prefix, and every
/// other field is kept.
pub open spec fn composed_set_ok(new: &AdaptationSet, old: &AdaptationSet, index: u8) -> bool {
    &&& new.id@ == ascii_chars(spec_dec(index as nat))
    &&& new.content_type == old.content_type
    &&& new.start_with_sap == old.start_with_sap
    &&& new.segment_alignment == old.segment_alignment
    &&& new.bitstream_switching == old.bitstream_switching
    &&& new.frame_rate == old.frame_rate
    &&& new.max_width == old.max_width
    &&& new.max_height == old.max_height
    &&& new.par == old.par
    &&& new.lang == old.lang
    &&& new.representation.id == old.representation.id
    &&& new.representation.mime_type == old.representation.mime_type
    &&& new.representation.codecs == old.representation.codecs
    &&& new.representation.bandwidth == old.representation.bandwidth
    &&& new.representation.audio_sampling_rate == old.representation.audio_sampling_rate
    &&& new.representation.width == old.representation.width
    &&& new.representation.height == old.representation.height
    &&& new.representation.scan_type == old.representation.scan_type
    &&& new.representation.sar == old.representation.sar
    &&& new.representation.audio_channel_configuration
        == old.representation.audio_channel_configuration
    &&& new.representation.segment_template.timescale
        == old.representation.segment_template.timescale
    &&& new.representation.segment_template.start_number
        == old.representation.segment_template.start_number
    &&& new.representation.segment_template.segment_timeline.segments@
        == old.representation.segment_template.segment_timeline.segments@
    &&& new.representation.segment_template.initialization@ == spec_dir_prefix(index)
        + old.representation.segment_template.initialization@
    &&& new.representation.segment_template.media@ == spec_dir_prefix(index)
        + old.representation.segment_template.media@
}

/// Number of adaptation sets contributed by the first `s` sources.
pub open spec fn sets_before(sources: Seq<(u8, MPD)>, s: int) -> int
    decreases s,
{
    if s <= 0 {
        0
    } else {
        sets_before(sources, s - 1) + sources[s - 1].1.period.adaptation_sets@.len()
    }
}

/// A region start is never negative.
proof fn lemma_sets_before_nonneg(sources: Seq<(u8, MPD)>, a: int)
    ensures
        sets_before(sources, a) >= 0,
    decreases a,
{
    if a > 0 {
        lemma_sets_before_nonneg(sources, a - 1);
    }
}

/// Earlier sources' sets lie strictly before a later source's region.
proof fn lemma_sets_before_le(sources: Seq<(u8, MPD)>, a: int, b: int)
    requires
        0 <= a < b,
    ensures
        sets_before(sources, a) + sources[a].1.period.adaptation_sets@.len() <= sets_before(
            sources,
            b,
        ),
    decreases b - a,
{
    if a + 1 < b {
        lemma_sets_before_le(sources, a, b - 1);
    }
}

/// An exact copy of an optional attribute.
fn clone_opt_string(s: &Option<String>) -> (r: Option<String>)
    ensures
        r == *s,
{
    match s {
        Some(v) => Some(v.clone()),
        None => None,
    }
}

/// An exact copy of a segment entry.
fn clone_segment(s: &Segment) -> (r: Segment)
    ensures
        r == *s,
{
    Segment { t: clone_opt_string(&s.t), d: s.d.clone(), r: clone_opt_string(&s.r) }
}

/// An exact copy of a segment timeline.
fn clone_timeline(s: &SegmentTimeline) -> (r: SegmentTimeline)
    ensures
        r.segments@ == s.segments@,
{
    let mut segments: Vec<Segment> = Vec::new();
    let mut i: usize = 0;
    while i < s.segments.len()
        invariant
            0 <= i <= s.segments@.len(),
            segments@ == s.segments@.subrange(0, i as int),
        decreases s.segments@.len() - i,
    {
        segments.push(clone_segment(&s.segments[i]));
        proof {
            assert(segments@ =~= s.segments@.subrange(0, i + 1));
        }
        i = i + 1;
    }
    proof {
        assert(segments@ =~= s.segments@);
    }
    SegmentTimeline { segments }
}

/// An exact copy of an audio channel configuration, if present.
fn clone_acc(s: &Option<AudioChannelConfiguration>) -> (r: Option<AudioChannelConfiguration>)
    ensures
        r == *s,
{
    match s {
        Some(v) => Some(
            AudioChannelConfiguration {
                scheme_id_uri: v.scheme_id_uri.clone(),
                value: v.value.clone(),
            },
        ),
        None => None,
    }
}

/// One adaptation set rewritten for the composite manifest: id set to
/// the directory index, segment paths prefixed with the directory, all
/// other fields kept.
fn rewrite_set(set: &AdaptationSet, index: u8) -> (r: AdaptationSet)
    ensures
        composed_set_ok(&r, set, index),
{
    let prefix = dir_prefix(index);
    let id = crate::text::format_u64(index as u64);
    let initialization = prefix.clone().concat(
        set.representation.segment_template.initialization.as_str(),
    );
    let media = prefix.concat(set.representation.segment_template.media.as_str());
    AdaptationSet {
        id,
        content_type: set.content_type.clone(),
        start_with_sap: set.start_with_sap.clone(),
        segment_alignment: set.segment_alignment.clone(),
        bitstream_switching: set.bitstream_switching.clone(),
        frame_rate: clone_opt_string(&set.frame_rate),
        max_width: clone_opt_string(&set.max_width),
        max_height: clone_opt_string(&set.max_height),
        par: clone_opt_string(&set.par),
        lang: clone_opt_string(&set.lang),
        representation: Representation {
            id: set.representation.id.clone(),
            mime_type: set.representation.mime_type.clone(),
            codecs: set.representation.codecs.clone(),
            bandwidth: set.representation.bandwidth.clone(),
            audio_sampling_rate: clone_opt_string(&set.representation.audio_sampling_rate),
            width: clone_opt_string(&set.representation.width),
            height: clone_opt_string(&set.representation.height),
            scan_type: clone_opt_string(&set.representation.scan_type),
            sar: clone_opt_string(&set.representation.sar),
            audio_channel_configuration: clone_acc(
                &set.representation.audio_channel_configuration,
            ),
            segment_template: SegmentTemplate {
                timescale: set.representation.segment_template.timescale.clone(),
                initialization,
                media,
                start_number: set.representation.segment_template.start_number.clone(),
                segment_timeline: clone_timeline(
                    &set.representation.segment_template.segment_timeline,
                ),
            },
        },
    }
}

/// The path prefix of a rendition directory, as a string.
fn dir_prefix(index: u8) -> (r: String)
    ensures
        r@ == spec_dir_prefix(index),
{
    if index == 0 {
        String::from_str("video/")
    } else {
        let digits = crate::text::format_u64(index as u64);
        String::from_str("pitch").concat(digits.as_str()).concat("/")
    }
}

/// The composite manifest of the rewritten adaptation sets of every
/// source, in order: a static header holding one period. The header's
/// profile and type are fixed; its durations are those of the first
/// source manifest, which the transcoder writes identically for every
/// rendition of one song. `None` exactly when no source was given.
pub fn compose_manifest(sources: &Vec<(u8, MPD)>) -> (r: Option<MPD>)
    ensures
        r is Some <==> sources@.len() > 0,
        r is Some ==> {
            let m = r.unwrap();
            &&& m.profiles@ == "urn:mpeg:dash:profile:isoff-live:2011"@
            &&& m.type_@ == "static"@
            &&& m.media_presentation_duration == sources@[0].1.media_presentation_duration
            &&& m.max_segment_duration == sources@[0].1.max_segment_duration
            &&& m.min_buffer_time == sources@[0].1.min_buffer_time
            &&& m.period.adaptation_sets@.len() == sets_before(
                sources@,
                sources@.len() as int,
            )
            &&& forall|s: int, j: int|
                0 <= s < sources@.len() && 0 <= j
                    < sources@[s].1.period.adaptation_sets@.len() ==> composed_set_ok(
                    &m.period.adaptation_sets@[sets_before(sources@, s) + j],
                    &#[trigger] sources@[s].1.period.adaptation_sets@[j],
                    sources@[s].0,
                )
        },
{
    if sources.len() == 0 {
        return None;
    }
    let mut sets: Vec<AdaptationSet> = Vec::new();
    let mut s: usize = 0;
    while s < sources.len()
        invariant
            0 <= s <= sources@.len(),
            sets@.len() == sets_before(sources@, s as int),
            forall|s2: int, j: int|
                0 <= s2 < s && 0 <= j < sources@[s2].1.period.adaptation_sets@.len()
                    ==> composed_set_ok(
                    &sets@[sets_before(sources@, s2) + j],
                    &#[trigger] sources@[s2].1.period.adaptation_sets@[j],
                    sources@[s2].0,
                ),
        decreases sources@.len() - s,
    {
        let (index, source) = &sources[s];
        let mut j: usize = 0;
        while j < source.period.adaptation_sets.len()
            invariant
                0 <= j <= source.period.adaptation_sets@.len(),
                0 <= s < sources@.len(),
                *index == sources@[s as int].0,
                *source == sources@[s as int].1,
                sets@.len() == sets_before(sources@, s as int) + j,
                forall|s2: int, j2: int|
                    0 <= s2 < s && 0 <= j2 < sources@[s2].1.period.adaptation_sets@.len()
                        ==> composed_set_ok(
                        &sets@[sets_before(sources@, s2) + j2],
                        &#[trigger] sources@[s2].1.period.adaptation_sets@[j2],
                        sources@[s2].0,
                    ),
                forall|j2: int|
                    0 <= j2 < j ==> composed_set_ok(
                        &sets@[sets_before(sources@, s as int) + j2],
                        &#[trigger] sources@[s as int].1.period.adaptation_sets@[j2],
                        sources@[s as int].0,
                    ),
            decreases source.period.adaptation_sets@.len() - j,
        {
            let ghost prev = sets@;
            let rewritten = rewrite_set(&source.period.adaptation_sets[j], *index);
            sets.push(rewritten);
            proof {
                assert(sets@ == prev.push(rewritten));
                assert(forall|k: int| 0 <= k < prev.len() ==> #[trigger] sets@[k] == prev[k]);
                assert(sets@[sets_before(sources@, s as int) + j] == rewritten);
                assert forall|s2: int, j2: int|
                    0 <= s2 < s && 0 <= j2 < sources@[s2].1.period.adaptation_sets@.len()
                        implies composed_set_ok(
                        &sets@[sets_before(sources@, s2) + j2],
                        &#[trigger] sources@[s2].1.period.adaptation_sets@[j2],
                        sources@[s2].0,
                    ) by {
                    lemma_sets_before_le(sources@, s2, s as int);
                    lemma_sets_before_nonneg(sources@, s2);
                    assert(sets@[sets_before(sources@, s2) + j2] == prev[sets_before(
                        sources@,
                        s2,
                    ) + j2]);
                }
                assert forall|j2: int| 0 <= j2 < j + 1 implies composed_set_ok(
                    &sets@[sets_before(sources@, s as int) + j2],
                    &#[trigger] sources@[s as int].1.period.adaptation_sets@[j2],
                    sources@[s as int].0,
                ) by {
                    lemma_sets_before_nonneg(sources@, s as int);
                    if j2 < j {
                        assert(sets@[sets_before(sources@, s as int) + j2] == prev[sets_before(
                            sources@,
                            s as int,
                        ) + j2]);
                    }
                }
            }
            j = j + 1;
        }
        proof {
            assert(sets_before(sources@, s as int + 1) == sets_before(sources@, s as int)
                + sources@[s as int].1.period.adaptation_sets@.len());
        }
        s = s + 1;
    }
    let first = &sources[0].1;
    Some(
        MPD {
            xmlns_xsi: Some(String::from_str("http://www.w3.org/2001/XMLSchema-instance")),
            xmlns: Some(String::from_str("urn:mpeg:dash:schema:mpd:2011")),
            xmlns_xlink: Some(String::from_str("http://www.w3.org/1999/xlink")),
            schema_location: Some(
                String::from_str("urn:mpeg:dash:schema:mpd:2011 DASH-MPD.xsd"),
            ),
            profiles: String::from_str("urn:mpeg:dash:profile:isoff-live:2011"),
            type_: String::from_str("static"),
            media_presentation_duration: first.media_presentation_duration.clone(),
            max_segment_duration: first.max_segment_duration.clone(),
            min_buffer_time: first.min_buffer_time.clone(),
            program_information: ProgramInformation {},
            service_description: ServiceDescription { id: String::from_str("0") },
            period: Period {
                id: String::from_str("0"),
                start: String::from_str("PT0.0S"),
                adaptation_sets: sets,
            },
        },
    )
}

} // verus!
