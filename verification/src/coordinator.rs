//! The queue coordinator: the single owner of the play queue, the current
//! song and the pitch key. Every command is a pure transition on this
//! state; each state-changing command reports the one event to broadcast,
//! or none when the state did not observably change.
//!
//! The surrounding actor task owns a `SongCoordinator`, serialises
//! commands from its mailbox, applies them through the methods here and
//! sends each returned event on the broadcast channel.

use vstd::prelude::*;

use std::collections::VecDeque;

use crate::events::{opt_event_view, SseEvent, SseEventView};
use crate::song::{QueuedSongStatus, Song, SongView};

verus! {

/// The smallest value the pitch key can take.
pub const MIN_KEY: i8 = -3;

/// The largest value the pitch key can take.
pub const MAX_KEY: i8 = 3;

/// The models of the songs of a queue, in order.
pub open spec fn song_views(q: Seq<Song>) -> Seq<SongView> {
    q.map_values(|s: Song| s@)
}

/// The model of an optional song.
pub open spec fn opt_song_view(s: Option<Song>) -> Option<SongView> {
    match s {
        Some(song) => Some(song@),
        None => None,
    }
}

/// Whether some song of `q` carries the identifier `song_uuid`.
pub open spec fn id_in(q: Seq<SongView>, song_uuid: u128) -> bool {
    exists|i: int| 0 <= i < q.len() && #[trigger] q[i].uuid == song_uuid
}

/// No two songs of `q` share an identifier.
pub open spec fn distinct_ids(q: Seq<SongView>) -> bool {
    forall|i: int, j: int|
        0 <= i < j < q.len() ==> #[trigger] q[i].uuid != #[trigger] q[j].uuid
}

/// Index of the first song of `q` carrying `song_uuid`, or -1 when absent.
pub open spec fn spec_find(q: Seq<SongView>, song_uuid: u128) -> int
    decreases q.len(),
{
    if q.len() == 0 {
        -1
    } else if q[0].uuid == song_uuid {
        0
    } else if spec_find(q.drop_first(), song_uuid) == -1 {
        -1
    } else {
        1 + spec_find(q.drop_first(), song_uuid)
    }
}

/// Mathematical model of the coordinator's state.
pub ghost struct CoordinatorView {
    pub pending: Seq<SongView>,
    pub current: Option<SongView>,
    pub key: int,
}

impl CoordinatorView {
    /// Whether `song_uuid` is carried by a pending song or by the current one.
    pub open spec fn has_id(self, song_uuid: u128) -> bool {
        id_in(self.pending, song_uuid) || (self.current is Some
            && self.current.unwrap().uuid == song_uuid)
    }

    /// Identifiers are unique across the pending queue and the current song.
    pub open spec fn ids_unique(self) -> bool {
        distinct_ids(self.pending) && (self.current is Some ==> !id_in(
            self.pending,
            self.current.unwrap().uuid,
        ))
    }

    /// The pitch key never leaves the closed interval [MIN_KEY, MAX_KEY].
    pub open spec fn key_in_range(self) -> bool {
        MIN_KEY as int <= self.key <= MAX_KEY as int
    }

    /// Every state the coordinator can reach satisfies this invariant.
    pub open spec fn wf(self) -> bool {
        self.ids_unique() && self.key_in_range()
    }
}

/// A coordinator command, as its model.
pub ghost enum Command {
    QueueSong { song: SongView },
    RemoveSong { song_uuid: u128 },
    PopSong,
    Reposition { song_uuid: u128, position: nat },
    CurrentSong,
    GetQueue,
    KeyUp,
    KeyDown,
    GetKey,
    UpdateSongStatus { song_uuid: u128, status: QueuedSongStatus },
}

/// The state after one command.
pub open spec fn spec_step(s: CoordinatorView, c: Command) -> CoordinatorView {
    match c {
        Command::QueueSong { song } => if s.has_id(song.uuid) {
            s
        } else {
            CoordinatorView { pending: s.pending.push(song), ..s }
        },
        Command::RemoveSong { song_uuid } => {
            let i = spec_find(s.pending, song_uuid);
            if i >= 0 {
                CoordinatorView { pending: s.pending.remove(i), ..s }
            } else {
                s
            }
        },
        Command::PopSong => if s.pending.len() > 0 {
            CoordinatorView {
                pending: s.pending.drop_first(),
                current: Some(s.pending[0]),
                ..s
            }
        } else {
            CoordinatorView { current: None, ..s }
        },
        Command::Reposition { song_uuid, position } => {
            let i = spec_find(s.pending, song_uuid);
            if i >= 0 {
                let shorter = s.pending.remove(i);
                let j = if position <= shorter.len() {
                    position as int
                } else {
                    shorter.len() as int
                };
                CoordinatorView { pending: shorter.insert(j, s.pending[i]), ..s }
            } else {
                s
            }
        },
        Command::KeyUp => if s.key < MAX_KEY as int {
            CoordinatorView { key: s.key + 1, ..s }
        } else {
            s
        },
        Command::KeyDown => if s.key > MIN_KEY as int {
            CoordinatorView { key: s.key - 1, ..s }
        } else {
            s
        },
        Command::UpdateSongStatus { song_uuid, status } => {
            let i = spec_find(s.pending, song_uuid);
            if i >= 0 {
                let updated = SongView { status, ..s.pending[i] };
                CoordinatorView { pending: s.pending.update(i, updated), ..s }
            } else {
                s
            }
        },
        _ => s,
    }
}

/// The one event a command broadcasts, or `None`.
pub open spec fn spec_event(s: CoordinatorView, c: Command) -> Option<SseEventView> {
    match c {
        Command::QueueSong { song } => if s.has_id(song.uuid) {
            None
        } else {
            Some(SseEventView::QueueUpdated { queue: spec_step(s, c).pending })
        },
        Command::RemoveSong { song_uuid } => if spec_find(s.pending, song_uuid) >= 0 {
            Some(SseEventView::QueueUpdated { queue: spec_step(s, c).pending })
        } else {
            None
        },
        Command::PopSong => Some(SseEventView::QueueUpdated { queue: spec_step(s, c).pending }),
        Command::Reposition { song_uuid, position } => {
            let i = spec_find(s.pending, song_uuid);
            let j = if position <= s.pending.len() - 1 {
                position as int
            } else {
                s.pending.len() - 1
            };
            if i >= 0 && j != i {
                Some(SseEventView::QueueUpdated { queue: spec_step(s, c).pending })
            } else {
                None
            }
        },
        Command::KeyUp => if s.key < MAX_KEY as int {
            Some(SseEventView::KeyChange { current_key: s.key + 1 })
        } else {
            None
        },
        Command::KeyDown => if s.key > MIN_KEY as int {
            Some(SseEventView::KeyChange { current_key: s.key - 1 })
        } else {
            None
        },
        Command::UpdateSongStatus { song_uuid, status } => if spec_find(s.pending, song_uuid)
            >= 0 {
            Some(SseEventView::QueueUpdated { queue: spec_step(s, c).pending })
        } else {
            None
        },
        _ => None,
    }
}

/// Reply to `QueueSong`.
#[derive(Clone, Copy, Debug, PartialEq, Eq, Structural)]
pub enum QueueSongResponse {
    Success,
    Fail,
}

/// Reply to `RemoveSong`.
#[derive(Clone, Copy, Debug, PartialEq, Eq, Structural)]
pub enum RemoveSongResponse {
    Success,
    Fail,
}

/// Reply to `PopSong`: the song now playing, if any.
#[derive(Clone, Debug)]
pub enum PopSongResponse {
    Success(Option<Song>),
    Fail,
}

/// Reply to `Reposition`.
#[derive(Clone, Copy, Debug, PartialEq, Eq, Structural)]
pub enum RepositionSongResponse {
    Success,
    Fail,
}

/// Reply to `Current`: a snapshot of the current song, if any.
#[derive(Clone, Debug)]
pub enum CurrentSongResponse {
    Success(Option<Song>),
    Fail,
}

/// Reply to `GetQueue`: a snapshot of the pending queue.
#[derive(Clone, Debug)]
pub enum GetQueueResponse {
    Success(VecDeque<Song>),
    Fail,
}

/// Reply to `KeyUp`: the new key on success.
#[derive(Clone, Copy, Debug, PartialEq, Eq, Structural)]
pub enum KeyUpResponse {
    Success(i8),
    Fail,
}

/// Reply to `KeyDown`: the new key on success.
#[derive(Clone, Copy, Debug, PartialEq, Eq, Structural)]
pub enum KeyDownResponse {
    Success(i8),
    Fail,
}

/// Reply to `UpdateSongStatus`.
#[derive(Clone, Copy, Debug, PartialEq, Eq, Structural)]
pub enum UpdateSongStatusResponse {
    Success,
    Fail,
}

/// An exact copy of a song.
fn clone_song(s: &Song) -> (r: Song)
    ensures
        r == *s,
{
    Song { name: s.name.clone(), uuid: s.uuid, yt_link: s.yt_link.clone(), status: s.status }
}

/// An exact copy of an optional song.
fn clone_opt_song(s: &Option<Song>) -> (r: Option<Song>)
    ensures
        r == *s,
{
    match s {
        Some(song) => Some(clone_song(song)),
        None => None,
    }
}

/// An exact copy of a queue of songs.
fn clone_deque(q: &VecDeque<Song>) -> (r: VecDeque<Song>)
    ensures
        r@ == q@,
{
    let mut out: VecDeque<Song> = VecDeque::new();
    let mut i: usize = 0;
    while i < q.len()
        invariant
            i <= q@.len(),
            out@ == q@.subrange(0, i as int),
        decreases q@.len() - i,
    {
        out.push_back(clone_song(&q[i]));
        proof {
            assert(out@ =~= q@.subrange(0, i as int + 1));
        }
        i += 1;
    }
    proof {
        assert(q@.subrange(0, q@.len() as int) =~= q@);
    }
    out
}

/// Index of the first song of `q` carrying `song_uuid`, if any.
fn find_index(q: &VecDeque<Song>, song_uuid: u128) -> (r: Option<usize>)
    ensures
        match r {
            Some(i) => i < q@.len() && song_views(q@)[i as int].uuid == song_uuid && (forall|
                k: int,
            |
                0 <= k < i ==> song_views(q@)[k].uuid != song_uuid),
            None => !id_in(song_views(q@), song_uuid),
        },
{
    let mut i: usize = 0;
    while i < q.len()
        invariant
            i <= q@.len(),
            forall|k: int| 0 <= k < i ==> song_views(q@)[k].uuid != song_uuid,
        decreases q@.len() - i,
    {
        if q[i].uuid == song_uuid {
            return Some(i);
        }
        i += 1;
    }
    None
}

/// A found first occurrence pins down `spec_find`.
proof fn lemma_find_at(q: Seq<SongView>, song_uuid: u128, i: int)
    requires
        0 <= i < q.len(),
        q[i].uuid == song_uuid,
        forall|k: int| 0 <= k < i ==> q[k].uuid != song_uuid,
    ensures
        spec_find(q, song_uuid) == i,
    decreases q.len(),
{
    if i > 0 {
        lemma_find_at(q.drop_first(), song_uuid, i - 1);
    }
}

/// When no song carries the identifier, `spec_find` reports -1.
proof fn lemma_find_none(q: Seq<SongView>, song_uuid: u128)
    requires
        forall|k: int| 0 <= k < q.len() ==> q[k].uuid != song_uuid,
    ensures
        spec_find(q, song_uuid) == -1,
    decreases q.len(),
{
    if q.len() > 0 {
        lemma_find_none(q.drop_first(), song_uuid);
    }
}

/// What a non-negative `spec_find` result means.
pub proof fn lemma_find_props(q: Seq<SongView>, song_uuid: u128)
    ensures
        spec_find(q, song_uuid) >= 0 <==> id_in(q, song_uuid),
        spec_find(q, song_uuid) >= 0 ==> spec_find(q, song_uuid) < q.len() && q[spec_find(
            q,
            song_uuid,
        )].uuid == song_uuid,
    decreases q.len(),
{
    if q.len() > 0 {
        lemma_find_props(q.drop_first(), song_uuid);
        if q[0].uuid != song_uuid {
            assert forall|i: int| 0 <= i < q.len() && #[trigger] q[i].uuid == song_uuid implies id_in(
                q.drop_first(),
                song_uuid,
            ) by {
                assert(q.drop_first()[i - 1].uuid == song_uuid);
            }
        }
    }
}

/// Removing one song keeps the rest distinct, and removes the only
/// occurrence of its identifier.
proof fn lemma_distinct_remove(q: Seq<SongView>, i: int)
    requires
        distinct_ids(q),
        0 <= i < q.len(),
    ensures
        distinct_ids(q.remove(i)),
        !id_in(q.remove(i), q[i].uuid),
        forall|id: u128| id_in(q.remove(i), id) ==> id_in(q, id),
{
    q.remove_ensures(i);
    assert forall|id: u128| id_in(q.remove(i), id) implies id_in(q, id) by {
        let k = choose|k: int| 0 <= k < q.remove(i).len() && #[trigger] q.remove(i)[k].uuid == id;
        if k < i {
            assert(q[k].uuid == id);
        } else {
            assert(q[k + 1].uuid == id);
        }
    }
}

/// Inserting a song with a fresh identifier keeps identifiers distinct.
proof fn lemma_distinct_insert(q: Seq<SongView>, j: int, song: SongView)
    requires
        distinct_ids(q),
        !id_in(q, song.uuid),
        0 <= j <= q.len(),
    ensures
        distinct_ids(q.insert(j, song)),
        forall|id: u128| id_in(q.insert(j, song), id) ==> id_in(q, id) || id == song.uuid,
{
    q.insert_ensures(j, song);
    let q2 = q.insert(j, song);
    assert forall|a: int, b: int| 0 <= a < b < q2.len() implies #[trigger] q2[a].uuid
        != #[trigger] q2[b].uuid by {
        if a > j {
            assert(q2[(a - 1) + 1] == q[a - 1]);
        }
        if b > j {
            assert(q2[(b - 1) + 1] == q[b - 1]);
        }
        if a == j {
            assert(q[b - 1].uuid != song.uuid);
        } else if b == j {
            assert(q[a].uuid != song.uuid);
        }
    }
    assert forall|id: u128| id_in(q2, id) implies id_in(q, id) || id == song.uuid by {
        let k = choose|k: int| 0 <= k < q2.len() && #[trigger] q2[k].uuid == id;
        if k < j {
            assert(q[k].uuid == id);
        } else if k > j {
            assert(q2[(k - 1) + 1] == q[k - 1]);
            assert(q[k - 1].uuid == id);
        }
    }
}

/// Putting a song back where it was found leaves the queue as it was.
proof fn lemma_remove_insert_same(q: Seq<SongView>, i: int)
    requires
        0 <= i < q.len(),
    ensures
        q.remove(i).insert(i, q[i]) == q,
    {
    q.remove_ensures(i);
    q.remove(i).insert_ensures(i, q[i]);
    assert(q.remove(i).insert(i, q[i]) =~= q);
}

/// Every command preserves the coordinator invariant: identifiers stay
/// unique across the pending queue and the current song, and the key
/// stays within [MIN_KEY, MAX_KEY].
pub proof fn lemma_step_preserves_wf(s: CoordinatorView, c: Command)
    requires
        s.wf(),
    ensures
        spec_step(s, c).wf(),
{
    let s2 = spec_step(s, c);
    match c {
        Command::QueueSong { song } => {
            if !s.has_id(song.uuid) {
                assert forall|a: int, b: int| 0 <= a < b < s2.pending.len() implies #[trigger] s2
                    .pending[a].uuid != #[trigger] s2.pending[b].uuid by {
                    if b == s.pending.len() {
                        assert(s.pending[a].uuid != song.uuid);
                    }
                }
                if s.current is Some {
                    assert forall|i: int|
                        0 <= i < s2.pending.len() implies #[trigger] s2.pending[i].uuid
                        != s.current.unwrap().uuid by {
                        if i < s.pending.len() {
                            assert(s.pending[i] == s2.pending[i]);
                        }
                    }
                    assert(!id_in(s2.pending, s2.current.unwrap().uuid));
                }
            }
        },
        Command::RemoveSong { song_uuid } => {
            let i = spec_find(s.pending, song_uuid);
            if i >= 0 {
                lemma_find_props(s.pending, song_uuid);
                lemma_distinct_remove(s.pending, i);
            }
        },
        Command::PopSong => {
            if s.pending.len() > 0 {
                assert forall|a: int, b: int| 0 <= a < b < s2.pending.len() implies #[trigger] s2
                    .pending[a].uuid != #[trigger] s2.pending[b].uuid by {
                    assert(s.pending[a + 1].uuid != s.pending[b + 1].uuid);
                }
                assert forall|i: int|
                    0 <= i < s2.pending.len() implies #[trigger] s2.pending[i].uuid
                    != s2.current.unwrap().uuid by {
                    assert(s.pending[i + 1].uuid != s.pending[0].uuid);
                }
            }
        },
        Command::Reposition { song_uuid, position } => {
            let i = spec_find(s.pending, song_uuid);
            if i >= 0 {
                lemma_find_props(s.pending, song_uuid);
                lemma_distinct_remove(s.pending, i);
                let shorter = s.pending.remove(i);
                let j = if position <= shorter.len() {
                    position as int
                } else {
                    shorter.len() as int
                };
                lemma_distinct_insert(shorter, j, s.pending[i]);
                if s.current is Some {
                    assert(!id_in(s2.pending, s.current.unwrap().uuid));
                }
            }
        },
        Command::UpdateSongStatus { song_uuid, status } => {
            let i = spec_find(s.pending, song_uuid);
            if i >= 0 {
                lemma_find_props(s.pending, song_uuid);
                let updated = SongView { status, ..s.pending[i] };
                assert forall|a: int, b: int| 0 <= a < b < s2.pending.len() implies #[trigger] s2
                    .pending[a].uuid != #[trigger] s2.pending[b].uuid by {
                    assert(s.pending[a].uuid != s.pending[b].uuid);
                }
                if s.current is Some {
                    assert forall|k: int|
                        0 <= k < s2.pending.len() implies #[trigger] s2.pending[k].uuid
                        != s2.current.unwrap().uuid by {
                        assert(s.pending[k].uuid != s.current.unwrap().uuid);
                    }
                }
            }
        },
        _ => {},
    }
}

/// A command that emits no event leaves the state exactly as it was; so
/// every command with an observable effect emits exactly one event.
pub proof fn lemma_silent_commands_change_nothing(s: CoordinatorView, c: Command)
    requires
        s.wf(),
        spec_event(s, c) is None,
    ensures
        spec_step(s, c) == s,
{
    match c {
        Command::Reposition { song_uuid, position } => {
            let i = spec_find(s.pending, song_uuid);
            if i >= 0 {
                lemma_find_props(s.pending, song_uuid);
                let shorter = s.pending.remove(i);
                let j = if position <= shorter.len() {
                    position as int
                } else {
                    shorter.len() as int
                };
                lemma_remove_insert_same(s.pending, i);
            }
        },
        _ => {},
    }
}

/// The coordinator's state: the pending queue in insertion order, the
/// song most recently popped for playback, and the pitch key.
pub struct SongCoordinator {
    song_deque: VecDeque<Song>,
    current_song: Option<Song>,
    current_key: i8,
}

impl View for SongCoordinator {
    type V = CoordinatorView;

    closed spec fn view(&self) -> CoordinatorView {
        CoordinatorView {
            pending: song_views(self.song_deque@),
            current: opt_song_view(self.current_song),
            key: self.current_key as int,
        }
    }
}

impl SongCoordinator {
    /// A coordinator with an empty queue, no current song and key 0.
    pub fn new() -> (c: SongCoordinator)
        ensures
            c@.pending == Seq::<SongView>::empty(),
            c@.current is None,
            c@.key == 0,
            c@.wf(),
    {
        let c = SongCoordinator {
            song_deque: VecDeque::new(),
            current_song: None,
            current_key: 0,
        };
        proof {
            assert(c@.pending =~= Seq::<SongView>::empty());
        }
        c
    }

    /// Append a song to the pending queue. A song whose identifier is
    /// already present (pending or current) is refused and nothing
    /// changes; otherwise the new queue is broadcast.
    pub fn queue_song(&mut self, song: Song) -> (r: (QueueSongResponse, Option<SseEvent>))
        requires
            old(self)@.wf(),
        ensures
            final(self)@.wf(),
            final(self)@ == spec_step(old(self)@, Command::QueueSong { song: song@ }),
            opt_event_view(r.1) == spec_event(old(self)@, Command::QueueSong { song: song@ }),
            r.0 == QueueSongResponse::Success <==> !old(self)@.has_id(song@.uuid),
    {
        proof {
            lemma_step_preserves_wf(self@, Command::QueueSong { song: song@ });
        }
        let current_dup = match &self.current_song {
            Some(c) => c.uuid == song.uuid,
            None => false,
        };
        if current_dup || find_index(&self.song_deque, song.uuid).is_some() {
            (QueueSongResponse::Fail, None)
        } else {
            self.song_deque.push_back(song);
            proof {
                assert(song_views(self.song_deque@) =~= song_views(old(self).song_deque@).push(
                    song@,
                ));
            }
            let ev = SseEvent::QueueUpdated { queue: clone_deque(&self.song_deque) };
            (QueueSongResponse::Success, Some(ev))
        }
    }

    /// Remove the song carrying `song_uuid`, if any; removing an unknown
    /// identifier is a tolerated no-op. The reply is `Success` either
    /// way; the new queue is broadcast only when something was removed.
    pub fn remove_song(&mut self, song_uuid: u128) -> (r: (RemoveSongResponse, Option<SseEvent>))
        requires
            old(self)@.wf(),
        ensures
            final(self)@.wf(),
            final(self)@ == spec_step(old(self)@, Command::RemoveSong { song_uuid }),
            opt_event_view(r.1) == spec_event(old(self)@, Command::RemoveSong { song_uuid }),
            r.0 == RemoveSongResponse::Success,
    {
        proof {
            lemma_step_preserves_wf(self@, Command::RemoveSong { song_uuid });
        }
        match find_index(&self.song_deque, song_uuid) {
            Some(i) => {
                proof {
                    lemma_find_at(song_views(self.song_deque@), song_uuid, i as int);
                }
                let _ = self.song_deque.remove(i);
                proof {
                    assert(song_views(self.song_deque@) =~= song_views(
                        old(self).song_deque@,
                    ).remove(i as int));
                }
                let ev = SseEvent::QueueUpdated { queue: clone_deque(&self.song_deque) };
                (RemoveSongResponse::Success, Some(ev))
            },
            None => {
                proof {
                    lemma_find_none(song_views(self.song_deque@), song_uuid);
                }
                (RemoveSongResponse::Success, None)
            },
        }
    }

    /// Pop the head of the pending queue into the current slot,
    /// replacing the previous current song; on an empty queue the
    /// current slot is cleared. The new queue is broadcast.
    pub fn pop_song(&mut self) -> (r: (PopSongResponse, Option<SseEvent>))
        requires
            old(self)@.wf(),
        ensures
            final(self)@.wf(),
            final(self)@ == spec_step(old(self)@, Command::PopSong),
            opt_event_view(r.1) == spec_event(old(self)@, Command::PopSong),
            r.0 is Success && opt_song_view(r.0->Success_0) == final(self)@.current,
    {
        proof {
            lemma_step_preserves_wf(self@, Command::PopSong);
        }
        let popped = self.song_deque.pop_front();
        let snapshot = clone_opt_song(&popped);
        self.current_song = popped;
        proof {
            if old(self).song_deque@.len() > 0 {
                assert(song_views(self.song_deque@) =~= song_views(
                    old(self).song_deque@,
                ).drop_first());
            } else {
                assert(song_views(self.song_deque@) =~= song_views(old(self).song_deque@));
            }
        }
        let ev = SseEvent::QueueUpdated { queue: clone_deque(&self.song_deque) };
        (PopSongResponse::Success(snapshot), Some(ev))
    }

    /// Move the song carrying `song_uuid` to `position`, clamped to the
    /// tail of the queue; an unknown identifier is a no-op. The reply is
    /// `Success` either way; the new queue is broadcast only when the
    /// order actually changed.
    pub fn reposition_song(&mut self, song_uuid: u128, position: usize) -> (r: (
        RepositionSongResponse,
        Option<SseEvent>,
    ))
        requires
            old(self)@.wf(),
        ensures
            final(self)@.wf(),
            final(self)@ == spec_step(
                old(self)@,
                Command::Reposition { song_uuid, position: position as nat },
            ),
            opt_event_view(r.1) == spec_event(
                old(self)@,
                Command::Reposition { song_uuid, position: position as nat },
            ),
            r.0 == RepositionSongResponse::Success,
    {
        proof {
            lemma_step_preserves_wf(
                self@,
                Command::Reposition { song_uuid, position: position as nat },
            );
        }
        match find_index(&self.song_deque, song_uuid) {
            Some(i) => {
                proof {
                    lemma_find_at(song_views(self.song_deque@), song_uuid, i as int);
                }
                let song = self.song_deque.remove(i).unwrap();
                proof {
                    assert(song_views(self.song_deque@) =~= song_views(
                        old(self).song_deque@,
                    ).remove(i as int));
                }
                let new_position = if position <= self.song_deque.len() {
                    position
                } else {
                    self.song_deque.len()
                };
                self.song_deque.insert(new_position, song);
                proof {
                    assert(song_views(self.song_deque@) =~= song_views(
                        old(self).song_deque@,
                    ).remove(i as int).insert(
                        new_position as int,
                        song_views(old(self).song_deque@)[i as int],
                    ));
                }
                if new_position != i {
                    let ev = SseEvent::QueueUpdated { queue: clone_deque(&self.song_deque) };
                    (RepositionSongResponse::Success, Some(ev))
                } else {
                    proof {
                        lemma_remove_insert_same(
                            song_views(old(self).song_deque@),
                            i as int,
                        );
                    }
                    (RepositionSongResponse::Success, None)
                }
            },
            None => {
                proof {
                    lemma_find_none(song_views(self.song_deque@), song_uuid);
                }
                (RepositionSongResponse::Success, None)
            },
        }
    }

    /// A snapshot of the current song, if any.
    pub fn current_song(&self) -> (r: CurrentSongResponse)
        ensures
            r is Success && opt_song_view(r->Success_0) == self@.current,
    {
        CurrentSongResponse::Success(clone_opt_song(&self.current_song))
    }

    /// A snapshot of the pending queue, in order.
    pub fn get_queue(&self) -> (r: GetQueueResponse)
        ensures
            r is Success && song_views(r->Success_0@) == self@.pending,
    {
        GetQueueResponse::Success(clone_deque(&self.song_deque))
    }

    /// Raise the key by one semitone; at `MAX_KEY` the command fails and
    /// nothing changes. The new key is broadcast on success.
    pub fn key_up(&mut self) -> (r: (KeyUpResponse, Option<SseEvent>))
        requires
            old(self)@.wf(),
        ensures
            final(self)@.wf(),
            final(self)@ == spec_step(old(self)@, Command::KeyUp),
            opt_event_view(r.1) == spec_event(old(self)@, Command::KeyUp),
            r.0 == if old(self)@.key < MAX_KEY as int {
                KeyUpResponse::Success((old(self)@.key + 1) as i8)
            } else {
                KeyUpResponse::Fail
            },
    {
        if self.current_key >= MAX_KEY {
            (KeyUpResponse::Fail, None)
        } else {
            self.current_key = self.current_key + 1;
            let ev = SseEvent::KeyChange { current_key: self.current_key };
            (KeyUpResponse::Success(self.current_key), Some(ev))
        }
    }

    /// Lower the key by one semitone; at `MIN_KEY` the command fails and
    /// nothing changes. The new key is broadcast on success.
    pub fn key_down(&mut self) -> (r: (KeyDownResponse, Option<SseEvent>))
        requires
            old(self)@.wf(),
        ensures
            final(self)@.wf(),
            final(self)@ == spec_step(old(self)@, Command::KeyDown),
            opt_event_view(r.1) == spec_event(old(self)@, Command::KeyDown),
            r.0 == if old(self)@.key > MIN_KEY as int {
                KeyDownResponse::Success((old(self)@.key - 1) as i8)
            } else {
                KeyDownResponse::Fail
            },
    {
        if self.current_key <= MIN_KEY {
            (KeyDownResponse::Fail, None)
        } else {
            self.current_key = self.current_key - 1;
            let ev = SseEvent::KeyChange { current_key: self.current_key };
            (KeyDownResponse::Success(self.current_key), Some(ev))
        }
    }

    /// The current key.
    pub fn get_key(&self) -> (r: i8)
        ensures
            r as int == self@.key,
    {
        self.current_key
    }

    /// Set the status of the pending song carrying `song_uuid`; an
    /// unknown identifier fails and nothing changes. The new queue is
    /// broadcast on success.
    pub fn update_song_status(&mut self, song_uuid: u128, status: QueuedSongStatus) -> (r: (
        UpdateSongStatusResponse,
        Option<SseEvent>,
    ))
        requires
            old(self)@.wf(),
        ensures
            final(self)@.wf(),
            final(self)@ == spec_step(
                old(self)@,
                Command::UpdateSongStatus { song_uuid, status },
            ),
            opt_event_view(r.1) == spec_event(
                old(self)@,
                Command::UpdateSongStatus { song_uuid, status },
            ),
            r.0 == UpdateSongStatusResponse::Success <==> id_in(old(self)@.pending, song_uuid),
    {
        proof {
            lemma_step_preserves_wf(self@, Command::UpdateSongStatus { song_uuid, status });
            lemma_find_props(song_views(self.song_deque@), song_uuid);
        }
        match find_index(&self.song_deque, song_uuid) {
            Some(i) => {
                proof {
                    lemma_find_at(song_views(self.song_deque@), song_uuid, i as int);
                }
                let song = self.song_deque.remove(i).unwrap();
                let updated = Song { status, ..song };
                self.song_deque.insert(i, updated);
                proof {
                    let q0 = song_views(old(self).song_deque@);
                    q0.remove_ensures(i as int);
                    q0.remove(i as int).insert_ensures(i as int, updated@);
                    assert(song_views(self.song_deque@) =~= q0.update(
                        i as int,
                        SongView { status, ..q0[i as int] },
                    ));
                }
                let ev = SseEvent::QueueUpdated { queue: clone_deque(&self.song_deque) };
                (UpdateSongStatusResponse::Success, Some(ev))
            },
            None => {
                proof {
                    lemma_find_none(song_views(self.song_deque@), song_uuid);
                }
                (UpdateSongStatusResponse::Fail, None)
            },
        }
    }
}

} // verus!
