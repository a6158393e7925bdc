use karaoke_core::merge::compose_manifest;
use karaoke_core::mpd::{
    is_empty_option_string, is_empty_string, AdaptationSet, AudioChannelConfiguration, MPD,
    Period, ProgramInformation, Representation, Segment, SegmentTemplate, SegmentTimeline,
    ServiceDescription,
};
use karaoke_core::mpd::XmlMpdUtil;
use karaoke_core::xml::write_mpd;
use karaoke_core::xml_read::parse_mpd;

fn stub_set(content_type: &str, codecs: &str) -> AdaptationSet {
    AdaptationSet {
        id: "0".to_string(),
        content_type: content_type.to_string(),
        start_with_sap: "1".to_string(),
        segment_alignment: "true".to_string(),
        bitstream_switching: "true".to_string(),
        frame_rate: if content_type == "video" {
            Some("30/1".to_string())
        } else {
            None
        },
        max_width: None,
        max_height: None,
        par: None,
        lang: if content_type == "audio" {
            Some("und".to_string())
        } else {
            None
        },
        representation: Representation {
            id: "0".to_string(),
            mime_type: format!("{}/mp4", content_type),
            codecs: codecs.to_string(),
            bandwidth: "128000".to_string(),
            audio_sampling_rate: None,
            width: None,
            height: None,
            scan_type: None,
            sar: None,
            audio_channel_configuration: if content_type == "audio" {
                Some(AudioChannelConfiguration {
                    scheme_id_uri: "urn:mpeg:dash:23003:3:audio_channel_configuration:2011"
                        .to_string(),
                    value: "2".to_string(),
                })
            } else {
                None
            },
            segment_template: SegmentTemplate {
                timescale: "1000000".to_string(),
                initialization: "init-stream$RepresentationID$.m4s".to_string(),
                media: "chunk-stream$RepresentationID$-$Number%05d$.m4s".to_string(),
                start_number: "1".to_string(),
                segment_timeline: SegmentTimeline {
                    segments: vec![Segment {
                        t: Some("0".to_string()),
                        d: "4000000".to_string(),
                        r: Some("2".to_string()),
                    }],
                },
            },
        },
    }
}

fn stub_mpd(content_type: &str, codecs: &str) -> MPD {
    MPD {
        xmlns_xsi: Some("http://www.w3.org/2001/XMLSchema-instance".to_string()),
        xmlns: Some("urn:mpeg:dash:schema:mpd:2011".to_string()),
        xmlns_xlink: None,
        schema_location: None,
        profiles: "urn:mpeg:dash:profile:isoff-live:2011".to_string(),
        type_: "static".to_string(),
        media_presentation_duration: "PT12.0S".to_string(),
        max_segment_duration: "PT4.0S".to_string(),
        min_buffer_time: "PT9.6S".to_string(),
        program_information: ProgramInformation {},
        service_description: ServiceDescription { id: "0".to_string() },
        period: Period {
            id: "0".to_string(),
            start: "PT0.0S".to_string(),
            adaptation_sets: vec![stub_set(content_type, codecs)],
        },
    }
}

#[test]
fn composing_four_sources_yields_four_prefixed_sets() {
    let sources = vec![
        (0u8, stub_mpd("video", "avc1.64001f")),
        (1u8, stub_mpd("audio", "mp4a.40.2")),
        (2u8, stub_mpd("audio", "mp4a.40.2")),
        (3u8, stub_mpd("audio", "mp4a.40.2")),
    ];
    let composite = compose_manifest(&sources).expect("sources were given");
    assert_eq!(composite.period.adaptation_sets.len(), 4);
    let ids: Vec<String> = composite
        .period
        .adaptation_sets
        .iter()
        .map(|s| s.id.clone())
        .collect();
    assert_eq!(
        ids,
        vec!["0".to_string(), "1".to_string(), "2".to_string(), "3".to_string()]
    );
    let prefixes = ["video/", "pitch1/", "pitch2/", "pitch3/"];
    for (set, prefix) in composite.period.adaptation_sets.iter().zip(prefixes.iter()) {
        let st = &set.representation.segment_template;
        assert_eq!(
            st.initialization,
            format!("{}init-stream$RepresentationID$.m4s", prefix)
        );
        assert_eq!(
            st.media,
            format!("{}chunk-stream$RepresentationID$-$Number%05d$.m4s", prefix)
        );
    }
    assert_eq!(composite.type_, "static".to_string());
    assert_eq!(composite.media_presentation_duration, "PT12.0S".to_string());
}

#[test]
fn composing_nothing_yields_nothing() {
    assert!(compose_manifest(&Vec::new()).is_none());
}

#[test]
fn written_manifests_parse_back_with_the_same_sets() {
    let sources = vec![
        (0u8, stub_mpd("video", "avc1.64001f")),
        (1u8, stub_mpd("audio", "mp4a.40.2")),
    ];
    let composite = compose_manifest(&sources).expect("sources were given");
    let text = write_mpd(&composite);
    let reread = parse_mpd(&text).expect("own output parses");

    assert_eq!(
        reread.period.adaptation_sets.len(),
        composite.period.adaptation_sets.len()
    );
    for (a, b) in composite
        .period
        .adaptation_sets
        .iter()
        .zip(reread.period.adaptation_sets.iter())
    {
        assert_eq!(a.id, b.id);
        assert_eq!(a.content_type, b.content_type);
        assert_eq!(a.frame_rate, b.frame_rate);
        assert_eq!(a.lang, b.lang);
        assert_eq!(a.representation.codecs, b.representation.codecs);
        assert_eq!(
            a.representation.segment_template.initialization,
            b.representation.segment_template.initialization
        );
        assert_eq!(
            a.representation.segment_template.media,
            b.representation.segment_template.media
        );
        assert_eq!(
            a.representation.segment_template.segment_timeline.segments.len(),
            b.representation.segment_template.segment_timeline.segments.len()
        );
        assert_eq!(
            a.representation.segment_template.segment_timeline.segments[0].d,
            b.representation.segment_template.segment_timeline.segments[0].d
        );
    }
    assert_eq!(composite.profiles, reread.profiles);
    assert_eq!(composite.type_, reread.type_);
    assert_eq!(composite.min_buffer_time, reread.min_buffer_time);
}

#[test]
fn escaped_attribute_values_survive_the_round_trip() {
    let mut m = stub_mpd("video", "avc1.64001f");
    m.period.adaptation_sets[0].representation.segment_template.media =
        "chunk \"a\" <&> tail".to_string();
    let text = write_mpd(&m);
    let reread = parse_mpd(&text).expect("own output parses");
    assert_eq!(
        reread.period.adaptation_sets[0].representation.segment_template.media,
        "chunk \"a\" <&> tail".to_string()
    );
}

#[test]
fn foreign_manifests_parse_despite_noise() {
    let mut text = String::new();
    text.push_str("<?xml version=\"1.0\" encoding=\"utf-8\"?>\n");
    text.push_str("<MPD xmlns=\"urn:mpeg:dash:schema:mpd:2011\" profiles=\"urn:mpeg:dash:profile:isoff-live:2011\"\n");
    text.push_str("     type=\"static\" mediaPresentationDuration=\"PT8.0S\" minBufferTime=\"PT4.0S\">\n");
    text.push_str("  <ProgramInformation/>\n");
    text.push_str("  <ServiceDescription id=\"0\"/>\n");
    text.push_str("  <UnknownThing keep=\"away\"><Nested/></UnknownThing>\n");
    text.push_str("  <Period id=\"0\" start=\"PT0.0S\">\n");
    text.push_str("    <AdaptationSet id=\"0\" contentType=\"audio\" startWithSAP=\"1\" segmentAlignment=\"true\" bitstreamSwitching=\"true\">\n");
    text.push_str("      <Representation bandwidth=\"128000\" id=\"0\" mimeType=\"audio/mp4\" codecs=\"mp4a.40.2\">\n");
    text.push_str("        <AudioChannelConfiguration schemeIdUri=\"urn:x\" value=\"2\"/>\n");
    text.push_str("        <SegmentTemplate timescale=\"1000000\" initialization=\"init-stream0.m4s\" media=\"chunk-stream0-$Number%05d$.m4s\" startNumber=\"1\">\n");
    text.push_str("          <SegmentTimeline>\n");
    text.push_str("            <S t=\"0\" d=\"4000000\" r=\"1\"/>\n");
    text.push_str("          </SegmentTimeline>\n");
    text.push_str("        </SegmentTemplate>\n");
    text.push_str("      </Representation>\n");
    text.push_str("    </AdaptationSet>\n");
    text.push_str("  </Period>\n");
    text.push_str("</MPD>\n");
    let m = parse_mpd(text.as_bytes()).expect("stub parses");
    assert_eq!(m.type_, "static".to_string());
    assert_eq!(m.period.adaptation_sets.len(), 1);
    let set = &m.period.adaptation_sets[0];
    assert_eq!(set.content_type, "audio".to_string());
    assert_eq!(set.representation.codecs, "mp4a.40.2".to_string());
    assert_eq!(
        set.representation.segment_template.initialization,
        "init-stream0.m4s".to_string()
    );
    let timeline = &set.representation.segment_template.segment_timeline;
    assert_eq!(timeline.segments.len(), 1);
    assert_eq!(timeline.segments[0].t, Some("0".to_string()));
    assert_eq!(timeline.segments[0].d, "4000000".to_string());
    assert_eq!(timeline.segments[0].r, Some("1".to_string()));
    // attributes the stub never carried read back as absent or empty
    assert!(m.xmlns_xlink.is_none());
    assert_eq!(m.max_segment_duration, "".to_string());
}

#[test]
fn empty_attributes_are_never_written() {
    let mut m = stub_mpd("video", "avc1.64001f");
    m.max_segment_duration = "".to_string();
    m.period.adaptation_sets[0].frame_rate = Some("".to_string());
    let text = write_mpd(&m);
    let as_text = String::from_utf8(text).expect("markup is valid text");
    assert!(!as_text.contains("maxSegmentDuration"));
    assert!(!as_text.contains("frameRate"));
    assert!(!as_text.contains("=\"\""));
}

#[test]
fn emptiness_tests_match_the_writer() {
    assert!(is_empty_string(""));
    assert!(!is_empty_string("x"));
    assert!(is_empty_option_string(&None));
    assert!(is_empty_option_string(&Some("".to_string())));
    assert!(!is_empty_option_string(&Some("x".to_string())));
}

#[test]
fn concat_orders_sources_as_given() {
    let sources = vec![
        (0u8, stub_mpd("video", "avc1.64001f")),
        (7u8, stub_mpd("audio", "mp4a.40.2")),
    ];
    let composite = compose_manifest(&sources).expect("sources were given");
    assert_eq!(composite.period.adaptation_sets[1].id, "7".to_string());
    assert!(composite.period.adaptation_sets[1]
        .representation
        .segment_template
        .initialization
        .starts_with("pitch7/"));
}

#[test]
fn discovery_selects_and_sorts_rendition_directories() {
    let names = vec![
        "pitch3".to_string(),
        "notes.txt".to_string(),
        "video".to_string(),
        "pitch1".to_string(),
        "pitch2".to_string(),
        "cover.jpg".to_string(),
    ];
    let dirs = XmlMpdUtil::select_stream_dirs(&names);
    assert_eq!(
        dirs,
        vec![
            "pitch1".to_string(),
            "pitch2".to_string(),
            "pitch3".to_string(),
            "video".to_string(),
        ]
    );
}
