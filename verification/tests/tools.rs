use karaoke_core::encode::{event_json, parse_uuid, song_json, uuid_to_string};
use karaoke_core::events::SseEvent;
use karaoke_core::pitch_shifter::DashPitchShifter;
use karaoke_core::song::{QueuedSongStatus, Song};
use karaoke_core::video_extractor::DashVideoProcessor;
use karaoke_core::worker::{job_completion, pitch_shift_failure, shift_error_line};
use karaoke_core::yt_downloader::{VideoProcessError, YtDownloader};
use std::collections::VecDeque;

#[test]
fn downloader_arguments_are_fixed() {
    let d = YtDownloader {};
    let args = d.build_args("http://example/a", "./assets", "song-a");
    let expected = vec![
        "-f",
        "bestvideo[height<=720][vcodec^=avc1]+bestaudio",
        "-o",
        "./assets/song-a/song-a.%(ext)s",
        "--merge-output-format",
        "mp4",
        "--restrict-filenames",
        "--get-filename",
        "--no-simulate",
        "--",
        "http://example/a",
    ];
    let got: Vec<&str> = args.iter().map(|s| s.as_str()).collect();
    assert_eq!(got, expected);
}

#[test]
fn printed_paths_split_at_the_right_separators() {
    let d = YtDownloader {};
    let parsed = d.parse_filename_and_extension(b"./assets/song-a/song-a.mp4\n");
    match parsed {
        Ok((dir, name, ext)) => {
            assert_eq!(dir, "./assets/song-a".to_string());
            assert_eq!(name, "song-a".to_string());
            assert_eq!(ext, "mp4".to_string());
        }
        Err(_) => panic!("expected a parsed path"),
    }

    // the rightmost dot wins
    match d.parse_filename_and_extension(b"/a/b.c/v1.2.mp4") {
        Ok((dir, name, ext)) => {
            assert_eq!(dir, "/a/b.c".to_string());
            assert_eq!(name, "v1.2".to_string());
            assert_eq!(ext, "mp4".to_string());
        }
        Err(_) => panic!("expected a parsed path"),
    }

    assert!(matches!(
        d.parse_filename_and_extension(b"no-separators"),
        Err(VideoProcessError::FilenameError(_))
    ));
    assert!(matches!(
        d.parse_filename_and_extension(b"/dir/no-extension"),
        Err(VideoProcessError::FilenameError(_))
    ));
}

#[test]
fn video_invocation_is_fixed() {
    let p = DashVideoProcessor::new("in.mp4", "./out");
    assert_eq!(p.build_adaptation_sets(), "id=0,streams=0".to_string());
    assert_eq!(p.get_output_path(), "./out/video/stream.mpd".to_string());
    let args: Vec<String> = p.build_command_args();
    let got: Vec<&str> = args.iter().map(|s| s.as_str()).collect();
    assert_eq!(
        got,
        vec![
            "-i",
            "in.mp4",
            "-threads",
            "16",
            "-thread_type",
            "frame",
            "-map",
            "0:v",
            "-c:v",
            "copy",
            "-f",
            "dash",
            "-adaptation_sets",
            "id=0,streams=0",
            "-seg_duration",
            "4",
            "./out/video/stream.mpd",
        ]
    );
    assert_eq!(
        p.output_directories(),
        vec!["./out".to_string(), "./out/video".to_string()]
    );
}

#[test]
fn audio_invocations_follow_the_offset_map() {
    let s = DashPitchShifter::new("in.mp4", "./out", -3, 3, 4);
    assert_eq!(s.semitones, vec![-3, -2, -1, 0, 1, 2, 3]);
    assert_eq!(s.get_output_path(0), "./out/pitch1/stream.mpd".to_string());
    assert_eq!(s.get_output_path(-3), "./out/pitch7/stream.mpd".to_string());
    assert_eq!(s.get_output_path(2), "./out/pitch3/stream.mpd".to_string());
    assert_eq!(
        s.build_filter_complex("1.059463"),
        "[0:a]rubberband=pitch=1.059463:threads=16[p0]".to_string()
    );
    let head = s.build_command_args(1, "1.059463");
    assert_eq!(head.len(), 21);
    assert_eq!(head[10], "-filter_complex".to_string());
    assert_eq!(
        head[11],
        "[0:a]rubberband=pitch=1.059463:threads=16[p0]".to_string()
    );
    let tail = s.build_command_tail(1);
    assert_eq!(
        tail,
        vec![
            "id=0,streams=0".to_string(),
            "-seg_duration".to_string(),
            "4".to_string(),
            "./out/pitch2/stream.mpd".to_string(),
        ]
    );
    let dirs = s.output_directories();
    assert_eq!(dirs.len(), 7);
    assert_eq!(dirs[0], "./out/pitch1".to_string());
    assert_eq!(dirs[6], "./out/pitch7".to_string());
}

#[test]
fn job_completion_resolves_and_releases() {
    let ok: Result<String, VideoProcessError> = Ok("./assets/a/a.mp4".to_string());
    let (status, delete) = job_completion(&ok);
    assert_eq!(status, QueuedSongStatus::Success);
    assert!(delete);

    let err: Result<String, VideoProcessError> =
        Err(VideoProcessError::PitchShiftError("boom".to_string()));
    let (status, delete) = job_completion(&err);
    assert_eq!(status, QueuedSongStatus::Failed);
    assert!(!delete);
}

#[test]
fn identifiers_round_trip_through_their_text_form() {
    assert_eq!(
        uuid_to_string(7),
        "00000000-0000-0000-0000-000000000007".to_string()
    );
    let v: u128 = 0xa1a2a3a4_b1b2_c1c2_d1d2_d3d4d5d6d7d8;
    assert_eq!(
        uuid_to_string(v),
        "a1a2a3a4-b1b2-c1c2-d1d2-d3d4d5d6d7d8".to_string()
    );
    assert_eq!(parse_uuid("a1a2a3a4-b1b2-c1c2-d1d2-d3d4d5d6d7d8"), Some(v));
    assert_eq!(parse_uuid(&uuid_to_string(12345)), Some(12345));
    assert_eq!(parse_uuid("not-a-uuid"), None);
}

#[test]
fn song_bodies_encode_as_the_wire_expects() {
    let s = Song {
        name: "song \"a\"".to_string(),
        uuid: 7,
        yt_link: "http://example/a".to_string(),
        status: QueuedSongStatus::InProgress,
    };
    let body = String::from_utf8(song_json(&s)).expect("json is text");
    assert_eq!(
        body,
        "{\"name\":\"song \\\"a\\\"\",\"uuid\":\"00000000-0000-0000-0000-000000000007\",\"yt_link\":\"http://example/a\",\"status\":\"InProgress\"}"
    );
}

#[test]
fn event_bodies_encode_as_the_wire_expects() {
    let toggle = String::from_utf8(event_json(&SseEvent::TogglePlayback)).expect("text");
    assert_eq!(toggle, "{\"type\":\"TogglePlayback\"}");

    let key = String::from_utf8(event_json(&SseEvent::KeyChange { current_key: -2 }))
        .expect("text");
    assert_eq!(key, "{\"type\":\"KeyChange\",\"current_key\":-2}");

    let mut queue: VecDeque<Song> = VecDeque::new();
    queue.push_back(Song {
        name: "a".to_string(),
        uuid: 1,
        yt_link: "l1".to_string(),
        status: QueuedSongStatus::Success,
    });
    queue.push_back(Song {
        name: "b".to_string(),
        uuid: 2,
        yt_link: "l2".to_string(),
        status: QueuedSongStatus::Failed,
    });
    let body = String::from_utf8(event_json(&SseEvent::QueueUpdated { queue })).expect("text");
    assert_eq!(
        body,
        "{\"type\":\"QueueUpdated\",\"queue\":[{\"name\":\"a\",\"uuid\":\"00000000-0000-0000-0000-000000000001\",\"yt_link\":\"l1\",\"status\":\"Success\"},{\"name\":\"b\",\"uuid\":\"00000000-0000-0000-0000-000000000002\",\"yt_link\":\"l2\",\"status\":\"Failed\"}]}"
    );
}

#[test]
fn orchestration_of_one_job_end_to_end() {
    // queue a song, run the job to completion, patch the status back
    let mut c = karaoke_core::coordinator::SongCoordinator::new();
    let s = Song::new(
        "song-a".to_string(),
        "http://example/a".to_string(),
        QueuedSongStatus::InProgress,
    );
    let id = s.uuid;
    let (_, ev) = c.queue_song(s);
    assert!(ev.is_some());

    // the pipeline succeeded: the song resolves to Success and the
    // source file is released for deletion
    let outcome: Result<String, VideoProcessError> = Ok("./assets/a/a.mp4".to_string());
    let (status, delete_source) = job_completion(&outcome);
    let (_, ev) = c.update_song_status(id, status);
    assert!(ev.is_some());
    assert!(delete_source);

    // a second song whose pipeline fails stays visible as Failed and
    // keeps its source media
    let s2 = Song::new(
        "song-b".to_string(),
        "http://example/b".to_string(),
        QueuedSongStatus::InProgress,
    );
    let id2 = s2.uuid;
    let (_, _) = c.queue_song(s2);
    let outcome: Result<String, VideoProcessError> =
        Err(VideoProcessError::PitchShiftError("transcode failed".to_string()));
    let (status, delete_source) = job_completion(&outcome);
    assert!(!delete_source);
    let (_, ev) = c.update_song_status(id2, status);
    assert!(ev.is_some());
    match c.get_queue() {
        karaoke_core::coordinator::GetQueueResponse::Success(q) => {
            let statuses: Vec<QueuedSongStatus> = q.iter().map(|s| s.status).collect();
            assert_eq!(
                statuses,
                vec![QueuedSongStatus::Success, QueuedSongStatus::Failed]
            );
        }
        karaoke_core::coordinator::GetQueueResponse::Fail => panic!("queue read failed"),
    }
}

#[test]
fn fetch_runs_are_judged_by_their_exit() {
    let d = YtDownloader {};
    assert!(matches!(
        d.interpret_run(Some("spawn failed".to_string()), false, b"", String::new()),
        Err(VideoProcessError::CommandError(m)) if m == "spawn failed"
    ));
    assert!(matches!(
        d.interpret_run(None, false, b"", "tool stderr".to_string()),
        Err(VideoProcessError::DownloadError(m)) if m == "tool stderr"
    ));
    match d.interpret_run(None, true, b"/a/b/c.mp4\n", String::new()) {
        Ok((dir, name, ext)) => {
            assert_eq!(dir, "/a/b".to_string());
            assert_eq!(name, "c".to_string());
            assert_eq!(ext, "mp4".to_string());
        }
        Err(_) => panic!("expected a parsed path"),
    }
}

#[test]
fn failed_shifts_are_joined_into_one_report() {
    assert!(pitch_shift_failure(&Vec::new()).is_none());
    let lines = vec![
        shift_error_line(-3, "boom"),
        shift_error_line(2, "bang"),
    ];
    assert_eq!(lines[0], "Semitones -3: boom".to_string());
    assert_eq!(lines[1], "Semitones 2: bang".to_string());
    match pitch_shift_failure(&lines) {
        Some(VideoProcessError::PitchShiftError(m)) => {
            assert_eq!(m, "Semitones -3: boom\nSemitones 2: bang".to_string());
        }
        _ => panic!("expected a combined pitch-shift error"),
    }
}
