use karaoke_core::coordinator::{
    KeyDownResponse, KeyUpResponse, QueueSongResponse, RemoveSongResponse,
    RepositionSongResponse, SongCoordinator, UpdateSongStatusResponse,
};
use karaoke_core::events::SseEvent;
use karaoke_core::http::{
    current_song_status, key_down_status, key_up_status, remove_song_status,
    reposition_song_status,
};
use karaoke_core::coordinator::{CurrentSongResponse, GetQueueResponse, PopSongResponse};
use karaoke_core::song::{QueuedSongStatus, Song};

fn song(name: &str, uuid: u128) -> Song {
    Song {
        name: name.to_string(),
        uuid,
        yt_link: format!("http://example/{}", name),
        status: QueuedSongStatus::InProgress,
    }
}

fn queue_uuids(c: &SongCoordinator) -> Vec<u128> {
    match c.get_queue() {
        GetQueueResponse::Success(q) => q.iter().map(|s| s.uuid).collect(),
        GetQueueResponse::Fail => panic!("queue read failed"),
    }
}

fn current_uuid(c: &SongCoordinator) -> Option<u128> {
    match c.current_song() {
        CurrentSongResponse::Success(s) => s.map(|s| s.uuid),
        CurrentSongResponse::Fail => panic!("current read failed"),
    }
}

#[test]
fn pop_sequence_moves_head_to_current() {
    let mut c = SongCoordinator::new();
    let (r, _) = c.queue_song(song("song-a", 1));
    assert_eq!(r, QueueSongResponse::Success);
    let (r, _) = c.queue_song(song("song-b", 2));
    assert_eq!(r, QueueSongResponse::Success);

    let (popped, ev) = c.pop_song();
    match popped {
        PopSongResponse::Success(Some(s)) => assert_eq!(s.uuid, 1),
        _ => panic!("expected song-a"),
    }
    assert!(ev.is_some());
    assert_eq!(current_uuid(&c), Some(1));
    assert_eq!(queue_uuids(&c), vec![2]);

    let (popped, _) = c.pop_song();
    match popped {
        PopSongResponse::Success(Some(s)) => assert_eq!(s.uuid, 2),
        _ => panic!("expected song-b"),
    }
    assert_eq!(current_uuid(&c), Some(2));
    assert_eq!(queue_uuids(&c), Vec::<u128>::new());

    let (popped, _) = c.pop_song();
    match popped {
        PopSongResponse::Success(None) => {}
        _ => panic!("expected empty pop"),
    }
    assert_eq!(current_uuid(&c), None);
}

#[test]
fn key_up_four_times_hits_the_ceiling() {
    let mut c = SongCoordinator::new();
    let mut key_events = 0;
    let mut responses = Vec::new();
    for _ in 0..4 {
        let (r, ev) = c.key_up();
        if let Some(SseEvent::KeyChange { current_key }) = &ev {
            key_events += 1;
            match r {
                KeyUpResponse::Success(k) => assert_eq!(k, *current_key),
                KeyUpResponse::Fail => panic!("event without success"),
            }
        }
        responses.push(r);
    }
    assert_eq!(
        responses,
        vec![
            KeyUpResponse::Success(1),
            KeyUpResponse::Success(2),
            KeyUpResponse::Success(3),
            KeyUpResponse::Fail,
        ]
    );
    assert_eq!(c.get_key(), 3);
    assert_eq!(key_events, 3);
}

#[test]
fn key_boundaries_answer_not_modified() {
    let mut c = SongCoordinator::new();
    for _ in 0..3 {
        let (r, _) = c.key_up();
        assert_eq!(key_up_status(&r), 200);
    }
    let (r, ev) = c.key_up();
    assert_eq!(r, KeyUpResponse::Fail);
    assert!(ev.is_none());
    assert_eq!(key_up_status(&r), 304);

    let mut c = SongCoordinator::new();
    for _ in 0..3 {
        let (r, _) = c.key_down();
        assert_eq!(key_down_status(&r), 200);
    }
    let (r, ev) = c.key_down();
    assert_eq!(r, KeyDownResponse::Fail);
    assert!(ev.is_none());
    assert_eq!(key_down_status(&r), 304);
    assert_eq!(c.get_key(), -3);
}

#[test]
fn reposition_clamps_to_tail() {
    let mut c = SongCoordinator::new();
    c.queue_song(song("a", 1));
    c.queue_song(song("b", 2));
    c.queue_song(song("c", 3));
    let (r, ev) = c.reposition_song(1, 99);
    assert_eq!(r, RepositionSongResponse::Success);
    assert!(ev.is_some());
    assert_eq!(queue_uuids(&c), vec![2, 3, 1]);
    assert_eq!(reposition_song_status(&Some(1), &Some(r)), 200);
}

#[test]
fn reposition_to_same_place_emits_nothing() {
    let mut c = SongCoordinator::new();
    c.queue_song(song("a", 1));
    c.queue_song(song("b", 2));
    let (r, ev) = c.reposition_song(2, 1);
    assert_eq!(r, RepositionSongResponse::Success);
    assert!(ev.is_none());
    assert_eq!(queue_uuids(&c), vec![1, 2]);
}

#[test]
fn reposition_unknown_id_is_a_noop() {
    let mut c = SongCoordinator::new();
    c.queue_song(song("a", 1));
    let (r, ev) = c.reposition_song(42, 0);
    assert_eq!(r, RepositionSongResponse::Success);
    assert!(ev.is_none());
    assert_eq!(queue_uuids(&c), vec![1]);
}

#[test]
fn remove_unknown_id_still_succeeds() {
    let mut c = SongCoordinator::new();
    c.queue_song(song("a", 1));
    let (r, ev) = c.remove_song(99);
    assert_eq!(r, RemoveSongResponse::Success);
    assert!(ev.is_none());
    assert_eq!(queue_uuids(&c), vec![1]);
    assert_eq!(remove_song_status(&r), 200);
}

#[test]
fn remove_known_id_emits_the_new_queue() {
    let mut c = SongCoordinator::new();
    c.queue_song(song("a", 1));
    c.queue_song(song("b", 2));
    let (r, ev) = c.remove_song(1);
    assert_eq!(r, RemoveSongResponse::Success);
    match ev {
        Some(SseEvent::QueueUpdated { queue }) => {
            let ids: Vec<u128> = queue.iter().map(|s| s.uuid).collect();
            assert_eq!(ids, vec![2]);
        }
        _ => panic!("expected a queue update"),
    }
    assert_eq!(queue_uuids(&c), vec![2]);
}

#[test]
fn duplicate_identifiers_are_refused() {
    let mut c = SongCoordinator::new();
    let (r, _) = c.queue_song(song("a", 7));
    assert_eq!(r, QueueSongResponse::Success);
    let (r, ev) = c.queue_song(song("a-again", 7));
    assert_eq!(r, QueueSongResponse::Fail);
    assert!(ev.is_none());
    assert_eq!(queue_uuids(&c), vec![7]);

    // the current song's identifier is reserved too
    let (_, _) = c.pop_song();
    assert_eq!(current_uuid(&c), Some(7));
    let (r, _) = c.queue_song(song("a-third", 7));
    assert_eq!(r, QueueSongResponse::Fail);
}

#[test]
fn update_status_resolves_a_pending_song() {
    let mut c = SongCoordinator::new();
    c.queue_song(song("a", 1));
    let (r, ev) = c.update_song_status(1, QueuedSongStatus::Success);
    assert_eq!(r, UpdateSongStatusResponse::Success);
    assert!(ev.is_some());
    match c.get_queue() {
        GetQueueResponse::Success(q) => {
            assert_eq!(q[0].status, QueuedSongStatus::Success)
        }
        GetQueueResponse::Fail => panic!("queue read failed"),
    }

    let (r, ev) = c.update_song_status(42, QueuedSongStatus::Failed);
    assert_eq!(r, UpdateSongStatusResponse::Fail);
    assert!(ev.is_none());
}

#[test]
fn current_song_maps_to_no_content_when_empty() {
    let c = SongCoordinator::new();
    match c.current_song() {
        CurrentSongResponse::Success(s) => {
            assert_eq!(current_song_status(&s), 204);
        }
        CurrentSongResponse::Fail => panic!("current read failed"),
    }
}
