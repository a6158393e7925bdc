use karaoke_core::naming::{
    artifact_is_complete, chunk_name, expected_segments, final_chunk_name, format_pad5,
    sentinel_content,
};
use karaoke_core::pitch::{index_to_semitone, semitone_to_index};
use karaoke_core::rename::{rename_listing, rename_segment_name};
use karaoke_core::text::{format_u64, parse_u32, trim_bytes};
use karaoke_core::worker::{choose_mode, worker_action, ProcessingMode, WorkerAction};

#[test]
fn decimal_formatting_and_parsing_agree() {
    assert_eq!(format_u64(0), "0".to_string());
    assert_eq!(format_u64(7), "7".to_string());
    assert_eq!(format_u64(12345), "12345".to_string());
    assert_eq!(parse_u32(b"0"), Some(0));
    assert_eq!(parse_u32(b"00123"), Some(123));
    assert_eq!(parse_u32(b"4294967295"), Some(u32::MAX));
    assert_eq!(parse_u32(b"4294967296"), None);
    assert_eq!(parse_u32(b"12a"), None);
    assert_eq!(parse_u32(b""), None);
    assert_eq!(parse_u32(format_u64(314159).as_bytes()), Some(314159));
}

#[test]
fn trimming_strips_both_ends() {
    assert_eq!(trim_bytes(b"  42\r\n"), b"42".to_vec());
    assert_eq!(trim_bytes(b"\t\n "), Vec::<u8>::new());
    assert_eq!(trim_bytes(b"x"), b"x".to_vec());
}

#[test]
fn segment_names_follow_the_fixed_pattern() {
    assert_eq!(format_pad5(7), "00007".to_string());
    assert_eq!(format_pad5(123456), "123456".to_string());
    assert_eq!(chunk_name(1, 7), "chunk-stream1-00007.m4s".to_string());
    assert_eq!(chunk_name(3, 123456), "chunk-stream3-123456.m4s".to_string());
}

#[test]
fn expected_segments_round_up() {
    assert_eq!(expected_segments(10, 4), 3);
    assert_eq!(expected_segments(8, 4), 2);
    assert_eq!(expected_segments(0, 4), 0);
    assert_eq!(expected_segments(1, 4), 1);
}

#[test]
fn complete_artifacts_skip_the_pipeline() {
    let expected = expected_segments(9, 4);
    assert_eq!(expected, 3);
    let sentinel = sentinel_content(expected);
    assert_eq!(sentinel, "3".to_string());
    let probe = final_chunk_name(sentinel.as_bytes());
    assert_eq!(probe, Some("chunk-stream1-00003.m4s".to_string()));

    // the sentinel as a later run reads it back, with a trailing newline
    assert_eq!(
        final_chunk_name(b" 3\n"),
        Some("chunk-stream1-00003.m4s".to_string())
    );
    assert_eq!(final_chunk_name(b"not-a-number"), None);

    assert!(artifact_is_complete(true, true));
    assert!(!artifact_is_complete(true, false));
    assert!(!artifact_is_complete(false, true));
    assert_eq!(worker_action(true), WorkerAction::SkipComplete);
    assert_eq!(worker_action(false), WorkerAction::RunPipeline);
}

#[test]
fn the_offset_map_is_stable() {
    assert_eq!(semitone_to_index(0), 1);
    assert_eq!(semitone_to_index(1), 2);
    assert_eq!(semitone_to_index(2), 3);
    assert_eq!(semitone_to_index(3), 4);
    assert_eq!(semitone_to_index(-1), 5);
    assert_eq!(semitone_to_index(-2), 6);
    assert_eq!(semitone_to_index(-3), 7);
    for index in 1..=7u8 {
        assert_eq!(semitone_to_index(index_to_semitone(index)), index);
    }
}

#[test]
fn renaming_is_idempotent_on_a_listing() {
    let names = vec![
        "chunk-stream0-00001.m4s".to_string(),
        "chunk-stream0-00002.m4s".to_string(),
        "init-stream0.m4s".to_string(),
        "stream.mpd".to_string(),
    ];
    let renamed = rename_segment_name("chunk-stream0-00001.m4s", 3);
    assert_eq!(renamed, "chunk-stream3-00001.m4s".to_string());
    assert_eq!(rename_segment_name(&renamed, 3), renamed);

    let once: Vec<String> = rename_listing(&names, 2).into_iter().map(|p| p.1).collect();
    assert_eq!(
        once,
        vec![
            "chunk-stream2-00001.m4s".to_string(),
            "chunk-stream2-00002.m4s".to_string(),
            "init-stream2.m4s".to_string(),
            "stream.mpd".to_string(),
        ]
    );
    let twice: Vec<String> = rename_listing(&once, 2).into_iter().map(|p| p.1).collect();
    assert_eq!(twice, once);
}

#[test]
fn processing_modes_cover_every_offset() {
    match choose_mode(true) {
        ProcessingMode::PitchShift(offsets) => {
            assert_eq!(offsets, vec![-3, -2, -1, 0, 1, 2, 3])
        }
        ProcessingMode::Copy => panic!("expected pitch shifting"),
    }
    assert!(matches!(choose_mode(false), ProcessingMode::Copy));
}
