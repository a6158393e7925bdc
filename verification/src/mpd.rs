//! The DASH manifest model: the element tree of an MPD document as the
//! transcoder writes it, one struct per element kind. Attribute values
//! are kept as strings; an attribute that is absent or empty is never
//! written back out.

use vstd::prelude::*;

verus! {

/// Whether a string attribute is empty, and so left out when writing.
pub fn is_empty_string(s: &str) -> (r: bool)
    ensures
        r == (s@.len() == 0),
{
    s.is_empty()
}

/// Whether an optional string attribute is missing or empty, and so
/// left out when writing.
pub fn is_empty_option_string(s: &Option<String>) -> (r: bool)
    ensures
        r == opt_empty(opt_view(s)),
{
    match s {
        None => true,
        Some(v) => v.as_str().is_empty(),
    }
}

/// The model of an optional string: its characters, if any.
pub open spec fn opt_view(s: &Option<String>) -> Option<Seq<char>> {
    match s {
        Some(v) => Some(v@),
        None => None,
    }
}

/// Whether an optional attribute is missing or empty.
pub open spec fn opt_empty(s: Option<Seq<char>>) -> bool {
    match s {
        Some(v) => v.len() == 0,
        None => true,
    }
}

/// Two optional attributes agree once written and read back: equal, or
/// both left out for being missing or empty.
pub open spec fn opt_eqv(a: Option<Seq<char>>, b: Option<Seq<char>>) -> bool {
    if opt_empty(a) || opt_empty(b) {
        opt_empty(a) && opt_empty(b)
    } else {
        a == b
    }
}

/// A DASH manifest document.
#[derive(Debug)]
pub struct MPD {
    pub xmlns_xsi: Option<String>,
    pub xmlns: Option<String>,
    pub xmlns_xlink: Option<String>,
    pub schema_location: Option<String>,
    pub profiles: String,
    pub type_: String,
    pub media_presentation_duration: String,
    pub max_segment_duration: String,
    pub min_buffer_time: String,
    pub program_information: ProgramInformation,
    pub service_description: ServiceDescription,
    pub period: Period,
}

/// The empty `ProgramInformation` element.
#[derive(Debug)]
pub struct ProgramInformation {}

/// The `ServiceDescription` element.
#[derive(Debug)]
pub struct ServiceDescription {
    pub id: String,
}

/// The single `Period` of a static manifest, holding the adaptation
/// sets.
#[derive(Debug)]
pub struct Period {
    pub id: String,
    pub start: String,
    pub adaptation_sets: Vec<AdaptationSet>,
}

/// One adaptation set: a video stream or one pitch-shifted audio
/// rendition.
#[derive(Debug)]
pub struct AdaptationSet {
    pub id: String,
    pub content_type: String,
    pub start_with_sap: String,
    pub segment_alignment: String,
    pub bitstream_switching: String,
    pub frame_rate: Option<String>,
    pub max_width: Option<String>,
    pub max_height: Option<String>,
    pub par: Option<String>,
    pub lang: Option<String>,
    pub representation: Representation,
}

/// The representation of an adaptation set.
#[derive(Debug)]
pub struct Representation {
    pub id: String,
    pub mime_type: String,
    pub codecs: String,
    pub bandwidth: String,
    pub audio_sampling_rate: Option<String>,
    pub width: Option<String>,
    pub height: Option<String>,
    pub scan_type: Option<String>,
    pub sar: Option<String>,
    pub audio_channel_configuration: Option<AudioChannelConfiguration>,
    pub segment_template: SegmentTemplate,
}

/// The audio channel layout of an audio representation.
#[derive(Debug)]
pub struct AudioChannelConfiguration {
    pub scheme_id_uri: String,
    pub value: String,
}

/// The segment template: where the initialization and media segments of
/// a representation live.
#[derive(Debug)]
pub struct SegmentTemplate {
    pub timescale: String,
    pub initialization: String,
    pub media: String,
    pub start_number: String,
    pub segment_timeline: SegmentTimeline,
}

/// The timeline of segments of a representation.
#[derive(Debug)]
pub struct SegmentTimeline {
    pub segments: Vec<Segment>,
}

/// One `S` entry of a segment timeline.
#[derive(Debug)]
pub struct Segment {
    pub t: Option<String>,
    pub d: String,
    pub r: Option<String>,
}

/// The segment entries agree field by field, empty and missing optional
/// attributes taken as the same.
pub open spec fn segment_eqv(a: &Segment, b: &Segment) -> bool {
    &&& opt_eqv(opt_view(&a.t), opt_view(&b.t))
    &&& a.d@ == b.d@
    &&& opt_eqv(opt_view(&a.r), opt_view(&b.r))
}

/// The timelines hold the same segments in the same order.
pub open spec fn timeline_eqv(a: &SegmentTimeline, b: &SegmentTimeline) -> bool {
    &&& a.segments@.len() == b.segments@.len()
    &&& forall|i: int|
        0 <= i < a.segments@.len() ==> #[trigger] segment_eqv(&a.segments@[i], &b.segments@[i])
}

/// The segment templates agree field by field.
pub open spec fn segment_template_eqv(a: &SegmentTemplate, b: &SegmentTemplate) -> bool {
    &&& a.timescale@ == b.timescale@
    &&& a.initialization@ == b.initialization@
    &&& a.media@ == b.media@
    &&& a.start_number@ == b.start_number@
    &&& timeline_eqv(&a.segment_timeline, &b.segment_timeline)
}

/// The channel configurations agree field by field.
pub open spec fn acc_eqv(a: &AudioChannelConfiguration, b: &AudioChannelConfiguration) -> bool {
    a.scheme_id_uri@ == b.scheme_id_uri@ && a.value@ == b.value@
}

/// The representations agree field by field.
pub open spec fn representation_eqv(a: &Representation, b: &Representation) -> bool {
    &&& a.id@ == b.id@
    &&& a.mime_type@ == b.mime_type@
    &&& a.codecs@ == b.codecs@
    &&& a.bandwidth@ == b.bandwidth@
    &&& opt_eqv(opt_view(&a.audio_sampling_rate), opt_view(&b.audio_sampling_rate))
    &&& opt_eqv(opt_view(&a.width), opt_view(&b.width))
    &&& opt_eqv(opt_view(&a.height), opt_view(&b.height))
    &&& opt_eqv(opt_view(&a.scan_type), opt_view(&b.scan_type))
    &&& opt_eqv(opt_view(&a.sar), opt_view(&b.sar))
    &&& match (&a.audio_channel_configuration, &b.audio_channel_configuration) {
        (Some(x), Some(y)) => acc_eqv(x, y),
        (None, None) => true,
        _ => false,
    }
    &&& segment_template_eqv(&a.segment_template, &b.segment_template)
}

/// The adaptation sets agree field by field.
pub open spec fn adaptation_set_eqv(a: &AdaptationSet, b: &AdaptationSet) -> bool {
    &&& a.id@ == b.id@
    &&& a.content_type@ == b.content_type@
    &&& a.start_with_sap@ == b.start_with_sap@
    &&& a.segment_alignment@ == b.segment_alignment@
    &&& a.bitstream_switching@ == b.bitstream_switching@
    &&& opt_eqv(opt_view(&a.frame_rate), opt_view(&b.frame_rate))
    &&& opt_eqv(opt_view(&a.max_width), opt_view(&b.max_width))
    &&& opt_eqv(opt_view(&a.max_height), opt_view(&b.max_height))
    &&& opt_eqv(opt_view(&a.par), opt_view(&b.par))
    &&& opt_eqv(opt_view(&a.lang), opt_view(&b.lang))
    &&& representation_eqv(&a.representation, &b.representation)
}

/// The periods hold the same adaptation sets in the same order.
pub open spec fn period_eqv(a: &Period, b: &Period) -> bool {
    &&& a.id@ == b.id@
    &&& a.start@ == b.start@
    &&& a.adaptation_sets@.len() == b.adaptation_sets@.len()
    &&& forall|i: int|
        0 <= i < a.adaptation_sets@.len() ==> #[trigger] adaptation_set_eqv(
            &a.adaptation_sets@[i],
            &b.adaptation_sets@[i],
        )
}

/// The documents agree field by field: what one writes, the other
/// writes too.
pub open spec fn mpd_eqv(a: &MPD, b: &MPD) -> bool {
    &&& opt_eqv(opt_view(&a.xmlns_xsi), opt_view(&b.xmlns_xsi))
    &&& opt_eqv(opt_view(&a.xmlns), opt_view(&b.xmlns))
    &&& opt_eqv(opt_view(&a.xmlns_xlink), opt_view(&b.xmlns_xlink))
    &&& opt_eqv(opt_view(&a.schema_location), opt_view(&b.schema_location))
    &&& a.profiles@ == b.profiles@
    &&& a.type_@ == b.type_@
    &&& a.media_presentation_duration@ == b.media_presentation_duration@
    &&& a.max_segment_duration@ == b.max_segment_duration@
    &&& a.min_buffer_time@ == b.min_buffer_time@
    &&& a.service_description.id@ == b.service_description.id@
    &&& period_eqv(&a.period, &b.period)
}


/// Helper for discovering the per-rendition manifests of one artifact.
pub struct XmlMpdUtil;

/// Whether a directory name belongs to a rendition: it starts with
/// `pitch` or `video`.
pub open spec fn is_stream_dir(s: Seq<char>) -> bool {
    s.len() >= 5 && (s.take(5) == "pitch"@ || s.take(5) == "video"@)
}

/// Lexicographic order on names, by codepoint.
pub open spec fn lex_le(a: Seq<char>, b: Seq<char>) -> bool
    decreases a.len(),
{
    if a.len() == 0 {
        true
    } else if b.len() == 0 {
        false
    } else if (a[0] as u32) < (b[0] as u32) {
        true
    } else if (a[0] as u32) > (b[0] as u32) {
        false
    } else {
        lex_le(a.drop_first(), b.drop_first())
    }
}

/// The order is total.
pub proof fn lemma_lex_total(a: Seq<char>, b: Seq<char>)
    ensures
        lex_le(a, b) || lex_le(b, a),
    decreases a.len(),
{
    if a.len() > 0 && b.len() > 0 && a[0] as u32 == b[0] as u32 {
        lemma_lex_total(a.drop_first(), b.drop_first());
    }
}

/// The order is transitive.
pub proof fn lemma_lex_trans(a: Seq<char>, b: Seq<char>, c: Seq<char>)
    requires
        lex_le(a, b),
        lex_le(b, c),
    ensures
        lex_le(a, c),
    decreases a.len(),
{
    if a.len() > 0 {
        assert(b.len() > 0);
        assert(c.len() > 0);
        if a[0] as u32 == b[0] as u32 && b[0] as u32 == c[0] as u32 {
            lemma_lex_trans(a.drop_first(), b.drop_first(), c.drop_first());
        }
    }
}

/// Whether `a` sorts at or before `b`.
fn name_le(a: &String, b: &String) -> (r: bool)
    ensures
        r == lex_le(a@, b@),
{
    let a_str = a.as_str();
    let b_str = b.as_str();
    let a_len = a_str.unicode_len();
    let b_len = b_str.unicode_len();
    proof {
        assert(a@.skip(0) =~= a@);
        assert(b@.skip(0) =~= b@);
    }
    let mut i: usize = 0;
    loop
        invariant
            0 <= i <= a_len,
            i <= b_len,
            a_len == a@.len(),
            b_len == b@.len(),
            a_str@ == a@,
            b_str@ == b@,
            lex_le(a@, b@) == lex_le(a@.skip(i as int), b@.skip(i as int)),
        decreases a_len - i,
    {
        if i >= a_len {
            return true;
        }
        if i >= b_len {
            return false;
        }
        let ca = a_str.get_char(i);
        let cb = b_str.get_char(i);
        if (ca as u32) < (cb as u32) {
            return true;
        }
        if (ca as u32) > (cb as u32) {
            return false;
        }
        proof {
            assert(a@.skip(i as int).drop_first() =~= a@.skip(i + 1));
            assert(b@.skip(i as int).drop_first() =~= b@.skip(i + 1));
        }
        i = i + 1;
    }
}

/// Whether a name starts with `pitch` or `video`.
fn is_stream_dir_name(name: &String) -> (r: bool)
    ensures
        r == is_stream_dir(name@),
{
    let n = name.as_str();
    if n.unicode_len() < 5 {
        return false;
    }
    let c0 = n.get_char(0);
    let c1 = n.get_char(1);
    let c2 = n.get_char(2);
    let c3 = n.get_char(3);
    let c4 = n.get_char(4);
    let pitch = c0 == 'p' && c1 == 'i' && c2 == 't' && c3 == 'c' && c4 == 'h';
    let video = c0 == 'v' && c1 == 'i' && c2 == 'd' && c3 == 'e' && c4 == 'o';
    proof {
        reveal_strlit("pitch");
        reveal_strlit("video");
        if pitch {
            assert(name@.take(5) =~= "pitch"@);
        } else if video {
            assert(name@.take(5) =~= "video"@);
        } else {
            if name@.take(5) == "pitch"@ {
                assert(name@[0] == 'p' && name@[1] == 'i' && name@[2] == 't' && name@[3] == 'c'
                    && name@[4] == 'h') by {
                    assert(name@.take(5)[0] == 'p');
                    assert(name@.take(5)[1] == 'i');
                    assert(name@.take(5)[2] == 't');
                    assert(name@.take(5)[3] == 'c');
                    assert(name@.take(5)[4] == 'h');
                }
            }
            if name@.take(5) == "video"@ {
                assert(name@[0] == 'v' && name@[1] == 'i' && name@[2] == 'd' && name@[3] == 'e'
                    && name@[4] == 'o') by {
                    assert(name@.take(5)[0] == 'v');
                    assert(name@.take(5)[1] == 'i');
                    assert(name@.take(5)[2] == 'd');
                    assert(name@.take(5)[3] == 'e');
                    assert(name@.take(5)[4] == 'o');
                }
            }
        }
    }
    pitch || video
}

/// Number of rendition-directory names among the first `n` entries.
pub open spec fn stream_dir_count(names: Seq<String>, n: int) -> int
    decreases n,
{
    if n <= 0 {
        0
    } else {
        stream_dir_count(names, n - 1) + (if is_stream_dir(names[n - 1]@) {
            1int
        } else {
            0int
        })
    }
}

impl XmlMpdUtil {
    /// The rendition directories among the entries of an artifact
    /// directory: exactly the names starting with `pitch` or `video`,
    /// one output entry per qualifying input entry, in lexicographic
    /// order, ready to be read in a stable order.
    #[verifier::rlimit(100)]
    #[verifier::spinoff_prover]
    pub fn select_stream_dirs(names: &Vec<String>) -> (r: Vec<String>)
        ensures
            r@.len() == stream_dir_count(names@, names@.len() as int),
            forall|m: int|
                0 <= m < r@.len() ==> is_stream_dir(#[trigger] r@[m]@) && (exists|j: int|
                    0 <= j < names@.len() && (#[trigger] names@[j]@) == r@[m]@),
            forall|j: int|
                0 <= j < names@.len() && is_stream_dir(#[trigger] names@[j]@) ==> (exists|m: int|
                    0 <= m < r@.len() && (#[trigger] r@[m]@) == names@[j]@),
            forall|m1: int, m2: int|
                0 <= m1 < m2 < r@.len() ==> lex_le(#[trigger] r@[m1]@, #[trigger] r@[m2]@),
    {
        let mut out: Vec<String> = Vec::new();
        let mut j: usize = 0;
        while j < names.len()
            invariant
                0 <= j <= names@.len(),
                out@.len() == stream_dir_count(names@, j as int),
                forall|m: int|
                    0 <= m < out@.len() ==> is_stream_dir(#[trigger] out@[m]@) && (exists|
                        j2: int,
                    |
                        0 <= j2 < names@.len() && (#[trigger] names@[j2]@) == out@[m]@),
                forall|j2: int|
                    0 <= j2 < j && is_stream_dir(#[trigger] names@[j2]@) ==> (exists|m: int|
                        0 <= m < out@.len() && (#[trigger] out@[m]@) == names@[j2]@),
                forall|m1: int, m2: int|
                    0 <= m1 < m2 < out@.len() ==> lex_le(
                        #[trigger] out@[m1]@,
                        #[trigger] out@[m2]@,
                    ),
            decreases names@.len() - j,
        {
            let name = &names[j];
            if is_stream_dir_name(name) {
                let mut pos: usize = 0;
                while pos < out.len() && name_le(&out[pos], name)
                    invariant
                        0 <= pos <= out@.len(),
                        forall|k: int| 0 <= k < pos ==> lex_le(#[trigger] out@[k]@, name@),
                    decreases out@.len() - pos,
                {
                    pos = pos + 1;
                }
                proof {
                    if pos < out@.len() {
                        lemma_lex_total(out@[pos as int]@, name@);
                    }
                }
                let ghost prev = out@;
                out.insert(pos, name.clone());
                proof {
                    prev.insert_ensures(pos as int, names@[j as int]);
                    assert(out@ == prev.insert(pos as int, names@[j as int]));
                    assert forall|m1: int, m2: int|
                        0 <= m1 < m2 < out@.len() implies lex_le(
                        #[trigger] out@[m1]@,
                        #[trigger] out@[m2]@,
                    ) by {
                        if m1 > pos {
                            assert(out@[(m1 - 1) + 1] == prev[m1 - 1]);
                        }
                        if m2 > pos {
                            assert(out@[(m2 - 1) + 1] == prev[m2 - 1]);
                        }
                        if m1 < pos {
                            assert(out@[m1] == prev[m1]);
                        }
                        if m2 < pos {
                            assert(out@[m2] == prev[m2]);
                        }
                        if m2 == pos {
                            // everything before the insertion point sorts at
                            // or before the new name
                        } else if m1 == pos && m2 > pos + 1 {
                            lemma_lex_trans(name@, prev[pos as int]@, prev[m2 - 1]@);
                        }
                    }
                    assert forall|m: int|
                        0 <= m < out@.len() implies is_stream_dir(#[trigger] out@[m]@) && (exists|
                        j2: int,
                    |
                        0 <= j2 < names@.len() && (#[trigger] names@[j2]@) == out@[m]@) by {
                        if m < pos {
                            assert(out@[m] == prev[m]);
                            assert(is_stream_dir(prev[m]@));
                            let j0 = choose|j0: int|
                                0 <= j0 < names@.len() && (#[trigger] names@[j0]@) == prev[m]@;
                            assert(names@[j0]@ == out@[m]@);
                        } else if m > pos {
                            assert(out@[(m - 1) + 1] == prev[m - 1]);
                            assert(is_stream_dir(prev[m - 1]@));
                            let j0 = choose|j0: int|
                                0 <= j0 < names@.len() && (#[trigger] names@[j0]@) == prev[m
                                    - 1]@;
                            assert(names@[j0]@ == out@[m]@);
                        } else {
                            assert(names@[j as int]@ == out@[m]@);
                        }
                    }
                    assert forall|j2: int|
                        0 <= j2 < j + 1 && is_stream_dir(#[trigger] names@[j2]@) implies (exists|
                        m: int,
                    |
                        0 <= m < out@.len() && (#[trigger] out@[m]@) == names@[j2]@) by {
                        if j2 < j {
                            let m0 = choose|m0: int|
                                0 <= m0 < prev.len() && (#[trigger] prev[m0]@) == names@[j2]@;
                            if m0 < pos {
                                assert(out@[m0] == prev[m0]);
                            } else {
                                assert(out@[m0 + 1] == prev[m0]);
                            }
                        } else {
                            assert(out@[pos as int]@ == names@[j2]@);
                        }
                    }
                }
            }
            j = j + 1;
        }
        proof {
            assert forall|m: int|
                0 <= m < out@.len() implies is_stream_dir(#[trigger] out@[m]@) && (exists|j2: int|
                0 <= j2 < names@.len() && (#[trigger] names@[j2]@) == out@[m]@) by {
                let j0 = choose|j0: int|
                    0 <= j0 < names@.len() && (#[trigger] names@[j0]@) == out@[m]@;
                assert(names@[j0]@ == out@[m]@);
            }
        }
        out
    }
}

} // verus!
