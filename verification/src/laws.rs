//! Laws of the coordinator over whole command sequences: a song's
//! observed status sequence is a prefix of InProgress followed by one
//! terminal status, under the discipline the orchestrator follows
//! (each song is queued as InProgress and resolved at most once).

use vstd::prelude::*;

use crate::coordinator::{id_in, spec_event, spec_find, spec_step, Command, CoordinatorView};
use crate::song::QueuedSongStatus;

verus! {

/// Some song of `q` carries identifier `id` with status `st`.
pub open spec fn has_status(q: Seq<crate::song::SongView>, id: u128, st: QueuedSongStatus) -> bool {
    exists|i: int|
        0 <= i < q.len() && #[trigger] q[i].uuid == id && q[i].status == st
}

/// The status under which the song carrying `id` is observed in state
/// `s`, in the pending queue or as the current song.
pub open spec fn observed(s: CoordinatorView, id: u128, st: QueuedSongStatus) -> bool {
    has_status(s.pending, id, st) || (s.current is Some && s.current.unwrap().uuid == id
        && s.current.unwrap().status == st)
}

/// Whether the command queues a song carrying `id`.
pub open spec fn queues_id(c: Command, id: u128) -> bool {
    match c {
        Command::QueueSong { song } => song.uuid == id,
        _ => false,
    }
}

/// Whether the command updates the status of the song carrying `id`.
pub open spec fn updates_id(c: Command, id: u128) -> bool {
    match c {
        Command::UpdateSongStatus { song_uuid, .. } => song_uuid == id,
        _ => false,
    }
}

/// The state after a whole command sequence.
pub open spec fn spec_run(s: CoordinatorView, cmds: Seq<Command>) -> CoordinatorView
    decreases cmds.len(),
{
    if cmds.len() == 0 {
        s
    } else {
        spec_run(spec_step(s, cmds[0]), cmds.drop_first())
    }
}

/// Running a concatenation runs the parts in order.
pub proof fn lemma_run_append(s: CoordinatorView, a: Seq<Command>, b: Seq<Command>)
    ensures
        spec_run(s, a + b) == spec_run(spec_run(s, a), b),
    decreases a.len(),
{
    if a.len() == 0 {
        assert(a + b =~= b);
    } else {
        assert((a + b).drop_first() =~= a.drop_first() + b);
        lemma_run_append(spec_step(s, a[0]), a.drop_first(), b);
    }
}

/// The invariant holds after every command sequence.
pub proof fn lemma_run_preserves_wf(s: CoordinatorView, cmds: Seq<Command>)
    requires
        s.wf(),
    ensures
        spec_run(s, cmds).wf(),
    decreases cmds.len(),
{
    if cmds.len() > 0 {
        crate::coordinator::lemma_step_preserves_wf(s, cmds[0]);
        lemma_run_preserves_wf(spec_step(s, cmds[0]), cmds.drop_first());
    }
}

/// In a well-formed state a song is observed under at most one status.
pub proof fn lemma_observed_unique(
    s: CoordinatorView,
    id: u128,
    st1: QueuedSongStatus,
    st2: QueuedSongStatus,
)
    requires
        s.wf(),
        observed(s, id, st1),
        observed(s, id, st2),
    ensures
        st1 == st2,
{
    if has_status(s.pending, id, st1) && has_status(s.pending, id, st2) {
        let i = choose|i: int| 0 <= i < s.pending.len() && #[trigger] s.pending[i].uuid == id
            && s.pending[i].status == st1;
        let j = choose|j: int| 0 <= j < s.pending.len() && #[trigger] s.pending[j].uuid == id
            && s.pending[j].status == st2;
        assert(i == j);
    } else if has_status(s.pending, id, st1) {
        assert(id_in(s.pending, id));
    } else if has_status(s.pending, id, st2) {
        assert(id_in(s.pending, id));
    }
}

/// A song that is observed is present.
pub proof fn lemma_observed_present(s: CoordinatorView, id: u128, st: QueuedSongStatus)
    requires
        observed(s, id, st),
    ensures
        s.has_id(id),
{
}

/// One command cannot bring back a song that is absent, unless it is the
/// command that queues it.
proof fn lemma_step_absent(s: CoordinatorView, c: Command, id: u128)
    requires
        s.wf(),
        !s.has_id(id),
        !queues_id(c, id),
    ensures
        !spec_step(s, c).has_id(id),
{
    let s2 = spec_step(s, c);
    match c {
        Command::QueueSong { song } => {
            if !s.has_id(song.uuid) {
                if id_in(s2.pending, id) {
                    let k = choose|k: int|
                        0 <= k < s2.pending.len() && #[trigger] s2.pending[k].uuid == id;
                    assert(s.pending[k].uuid == id);
                }
            }
        },
        Command::RemoveSong { song_uuid } => {
            let i = spec_find(s.pending, song_uuid);
            if i >= 0 {
                crate::coordinator::lemma_find_props(s.pending, song_uuid);
                s.pending.remove_ensures(i);
                if id_in(s2.pending, id) {
                    let k = choose|k: int|
                        0 <= k < s2.pending.len() && #[trigger] s2.pending[k].uuid == id;
                    if k < i {
                        assert(s.pending[k].uuid == id);
                    } else {
                        assert(s.pending[k + 1].uuid == id);
                    }
                }
            }
        },
        Command::PopSong => {
            if s.pending.len() > 0 {
                if id_in(s2.pending, id) {
                    let k = choose|k: int|
                        0 <= k < s2.pending.len() && #[trigger] s2.pending[k].uuid == id;
                    assert(s.pending[k + 1].uuid == id);
                }
                assert(s.pending[0].uuid != id);
            }
        },
        Command::Reposition { song_uuid, position } => {
            let i = spec_find(s.pending, song_uuid);
            if i >= 0 {
                crate::coordinator::lemma_find_props(s.pending, song_uuid);
                s.pending.remove_ensures(i);
                let shorter = s.pending.remove(i);
                let j = if position <= shorter.len() {
                    position as int
                } else {
                    shorter.len() as int
                };
                shorter.insert_ensures(j, s.pending[i]);
                if id_in(s2.pending, id) {
                    let k = choose|k: int|
                        0 <= k < s2.pending.len() && #[trigger] s2.pending[k].uuid == id;
                    if k == j {
                        assert(s.pending[i].uuid == id);
                    } else if k < j {
                        if k < i {
                            assert(s.pending[k].uuid == id);
                        } else {
                            assert(s.pending[k + 1].uuid == id);
                        }
                    } else {
                        if k - 1 < i {
                            assert(s2.pending[(k - 1) + 1] == shorter[k - 1]);
                            assert(s.pending[k - 1].uuid == id);
                        } else {
                            assert(s2.pending[(k - 1) + 1] == shorter[k - 1]);
                            assert(s.pending[k].uuid == id);
                        }
                    }
                }
            }
        },
        Command::UpdateSongStatus { song_uuid, status } => {
            let i = spec_find(s.pending, song_uuid);
            if i >= 0 {
                crate::coordinator::lemma_find_props(s.pending, song_uuid);
                if id_in(s2.pending, id) {
                    let k = choose|k: int|
                        0 <= k < s2.pending.len() && #[trigger] s2.pending[k].uuid == id;
                    assert(s.pending[k].uuid == id);
                }
            }
        },
        _ => {},
    }
}

/// One command keeps the observed status of a song, unless it is an
/// update targeting that song.
proof fn lemma_step_keeps(s: CoordinatorView, c: Command, id: u128, st: QueuedSongStatus)
    requires
        s.wf(),
        observed(s, id, st),
        !updates_id(c, id),
    ensures
        spec_step(s, c).has_id(id) ==> observed(spec_step(s, c), id, st),
{
    let s2 = spec_step(s, c);
    match c {
        Command::QueueSong { song } => {
            if !s.has_id(song.uuid) {
                if has_status(s.pending, id, st) {
                    let w = choose|w: int|
                        0 <= w < s.pending.len() && #[trigger] s.pending[w].uuid == id
                            && s.pending[w].status == st;
                    assert(s2.pending[w].uuid == id && s2.pending[w].status == st);
                }
            }
        },
        Command::RemoveSong { song_uuid } => {
            let i = spec_find(s.pending, song_uuid);
            if i >= 0 {
                crate::coordinator::lemma_find_props(s.pending, song_uuid);
                s.pending.remove_ensures(i);
                if has_status(s.pending, id, st) {
                    let w = choose|w: int|
                        0 <= w < s.pending.len() && #[trigger] s.pending[w].uuid == id
                            && s.pending[w].status == st;
                    if w < i {
                        assert(s2.pending[w].uuid == id && s2.pending[w].status == st);
                    } else if w > i {
                        assert(s2.pending[w - 1] == s.pending[w]);
                        assert(s2.pending[w - 1].uuid == id && s2.pending[w - 1].status == st);
                    } else {
                        // the observed song itself was removed
                        if s2.has_id(id) {
                            lemma_step_absent_target(s, i, id);
                        }
                    }
                }
            }
        },
        Command::PopSong => {
            if s.pending.len() > 0 {
                if has_status(s.pending, id, st) {
                    let w = choose|w: int|
                        0 <= w < s.pending.len() && #[trigger] s.pending[w].uuid == id
                            && s.pending[w].status == st;
                    if w == 0 {
                        assert(s2.current.unwrap().uuid == id && s2.current.unwrap().status == st);
                    } else {
                        assert(s2.pending[w - 1] == s.pending[w]);
                    }
                } else {
                    // the old current song is dropped; the new state cannot hold id
                    if s2.has_id(id) {
                        if id_in(s2.pending, id) {
                            let k = choose|k: int|
                                0 <= k < s2.pending.len() && #[trigger] s2.pending[k].uuid == id;
                            assert(s.pending[k + 1].uuid == id);
                        }
                        assert(s.pending[0].uuid != id);
                        assert(false);
                    }
                }
            } else {
                if s2.has_id(id) {
                    assert(false);
                }
            }
        },
        Command::Reposition { song_uuid, position } => {
            let i = spec_find(s.pending, song_uuid);
            if i >= 0 {
                crate::coordinator::lemma_find_props(s.pending, song_uuid);
                s.pending.remove_ensures(i);
                let shorter = s.pending.remove(i);
                let j = if position <= shorter.len() {
                    position as int
                } else {
                    shorter.len() as int
                };
                shorter.insert_ensures(j, s.pending[i]);
                if has_status(s.pending, id, st) {
                    let w = choose|w: int|
                        0 <= w < s.pending.len() && #[trigger] s.pending[w].uuid == id
                            && s.pending[w].status == st;
                    if w == i {
                        assert(s2.pending[j] == s.pending[i]);
                    } else {
                        let w1: int = if w < i {
                            w
                        } else {
                            w - 1
                        };
                        assert(shorter[w1] == s.pending[w]);
                        if w1 < j {
                            assert(s2.pending[w1] == shorter[w1]);
                        } else {
                            assert(s2.pending[w1 + 1] == shorter[w1]);
                        }
                    }
                }
            }
        },
        Command::UpdateSongStatus { song_uuid, status } => {
            let i = spec_find(s.pending, song_uuid);
            if i >= 0 {
                crate::coordinator::lemma_find_props(s.pending, song_uuid);
                if has_status(s.pending, id, st) {
                    let w = choose|w: int|
                        0 <= w < s.pending.len() && #[trigger] s.pending[w].uuid == id
                            && s.pending[w].status == st;
                    assert(w != i);
                    assert(s2.pending[w].uuid == id && s2.pending[w].status == st);
                }
            }
        },
        _ => {},
    }
}

/// After removing the only pending occurrence of `id`, and with `id` not
/// current, the state no longer holds `id`.
proof fn lemma_step_absent_target(s: CoordinatorView, i: int, id: u128)
    requires
        s.wf(),
        0 <= i < s.pending.len(),
        s.pending[i].uuid == id,
    ensures
        !id_in(s.pending.remove(i), id),
{
    s.pending.remove_ensures(i);
    if id_in(s.pending.remove(i), id) {
        let k = choose|k: int|
            0 <= k < s.pending.remove(i).len() && #[trigger] s.pending.remove(i)[k].uuid == id;
        if k < i {
            assert(s.pending[k].uuid == id);
        } else {
            assert(s.pending[k + 1].uuid == id);
        }
    }
}

/// Absence is absorbing: once a song has left the coordinator, no later
/// command (short of queuing it again) brings it back.
pub proof fn lemma_absent_stays(s: CoordinatorView, cmds: Seq<Command>, id: u128)
    requires
        s.wf(),
        !s.has_id(id),
        forall|m: int| 0 <= m < cmds.len() ==> !queues_id(#[trigger] cmds[m], id),
    ensures
        !spec_run(s, cmds).has_id(id),
    decreases cmds.len(),
{
    if cmds.len() > 0 {
        lemma_step_absent(s, cmds[0], id);
        crate::coordinator::lemma_step_preserves_wf(s, cmds[0]);
        lemma_absent_stays(spec_step(s, cmds[0]), cmds.drop_first(), id);
    }
}

/// With the song never re-queued and no update targeting it, its
/// observed status never changes while it stays present.
pub proof fn lemma_no_update_constant(
    s: CoordinatorView,
    cmds: Seq<Command>,
    id: u128,
    st: QueuedSongStatus,
)
    requires
        s.wf(),
        observed(s, id, st),
        forall|m: int| 0 <= m < cmds.len() ==> !updates_id(#[trigger] cmds[m], id),
        forall|m: int| 0 <= m < cmds.len() ==> !queues_id(#[trigger] cmds[m], id),
    ensures
        spec_run(s, cmds).has_id(id) ==> observed(spec_run(s, cmds), id, st),
    decreases cmds.len(),
{
    if cmds.len() > 0 {
        lemma_step_keeps(s, cmds[0], id, st);
        crate::coordinator::lemma_step_preserves_wf(s, cmds[0]);
        let s1 = spec_step(s, cmds[0]);
        assert forall|m: int| 0 <= m < cmds.drop_first().len() implies !updates_id(
            #[trigger] cmds.drop_first()[m],
            id,
        ) && !queues_id(cmds.drop_first()[m], id) by {
            assert(cmds.drop_first()[m] == cmds[m + 1]);
        }
        if s1.has_id(id) {
            lemma_no_update_constant(s1, cmds.drop_first(), id, st);
        } else {
            lemma_absent_stays(s1, cmds.drop_first(), id);
        }
    }
}


/// Once a song has left the coordinator it never reappears later in the
/// run, as long as it is not queued again.
pub proof fn lemma_gone_stays_gone(
    s0: CoordinatorView,
    cmds: Seq<Command>,
    id: u128,
    j: int,
    k: int,
)
    requires
        s0.wf(),
        forall|m: int| 0 <= m < cmds.len() ==> !queues_id(#[trigger] cmds[m], id),
        0 <= j <= k <= cmds.len(),
        !spec_run(s0, cmds.take(j)).has_id(id),
    ensures
        !spec_run(s0, cmds.take(k)).has_id(id),
{
    let mid = cmds.subrange(j, k);
    assert(cmds.take(k) =~= cmds.take(j) + mid);
    lemma_run_append(s0, cmds.take(j), mid);
    lemma_run_preserves_wf(s0, cmds.take(j));
    assert forall|m: int| 0 <= m < mid.len() implies !queues_id(#[trigger] mid[m], id) by {
        assert(mid[m] == cmds[j + m]);
    }
    lemma_absent_stays(spec_run(s0, cmds.take(j)), mid, id);
}

/// The statuses under which a song is observed along a run form a prefix
/// of InProgress followed by at most one other status: starting from a
/// state that holds the song as InProgress, if the song is never queued
/// again and its status is updated at most once, then between any two
/// points of the run its observed status either stays the same or moves
/// away from InProgress, never back.
pub proof fn lemma_status_monotone(
    s0: CoordinatorView,
    cmds: Seq<Command>,
    id: u128,
    j: int,
    k: int,
    st_j: QueuedSongStatus,
    st_k: QueuedSongStatus,
)
    requires
        s0.wf(),
        observed(s0, id, QueuedSongStatus::InProgress),
        forall|m: int| 0 <= m < cmds.len() ==> !queues_id(#[trigger] cmds[m], id),
        forall|m1: int, m2: int|
            0 <= m1 < m2 < cmds.len() ==> !(updates_id(#[trigger] cmds[m1], id) && updates_id(
                #[trigger] cmds[m2],
                id,
            )),
        0 <= j <= k <= cmds.len(),
        observed(spec_run(s0, cmds.take(j)), id, st_j),
        observed(spec_run(s0, cmds.take(k)), id, st_k),
    ensures
        st_j == st_k || (st_j == QueuedSongStatus::InProgress && st_k
            != QueuedSongStatus::InProgress),
{
    if st_j != QueuedSongStatus::InProgress {
        let sj = spec_run(s0, cmds.take(j));
        let sk = spec_run(s0, cmds.take(k));
        let mid = cmds.subrange(j, k);
        assert(cmds.take(k) =~= cmds.take(j) + mid);
        lemma_run_append(s0, cmds.take(j), mid);
        lemma_run_preserves_wf(s0, cmds.take(j));
        lemma_run_preserves_wf(s0, cmds.take(k));
        lemma_observed_present(sj, id, st_j);
        lemma_observed_present(sk, id, st_k);
        if exists|m: int| 0 <= m < mid.len() && updates_id(#[trigger] mid[m], id) {
            // the single update would lie at or after j, so none precedes
            // j, so the song would still be InProgress at j
            let m = choose|m: int| 0 <= m < mid.len() && updates_id(#[trigger] mid[m], id);
            assert(updates_id(cmds[j + m], id));
            assert forall|m2: int| 0 <= m2 < cmds.take(j).len() implies !updates_id(
                #[trigger] cmds.take(j)[m2],
                id,
            ) by {
                assert(cmds.take(j)[m2] == cmds[m2]);
                if updates_id(cmds[m2], id) {
                    assert(!(updates_id(cmds[m2], id) && updates_id(cmds[j + m], id)));
                }
            }
            assert forall|m2: int| 0 <= m2 < cmds.take(j).len() implies !queues_id(
                #[trigger] cmds.take(j)[m2],
                id,
            ) by {
                assert(cmds.take(j)[m2] == cmds[m2]);
            }
            lemma_no_update_constant(s0, cmds.take(j), id, QueuedSongStatus::InProgress);
            lemma_observed_unique(sj, id, st_j, QueuedSongStatus::InProgress);
            assert(false);
        }
        assert forall|m2: int| 0 <= m2 < mid.len() implies !updates_id(#[trigger] mid[m2], id)
            && !queues_id(mid[m2], id) by {
            assert(mid[m2] == cmds[j + m2]);
        }
        lemma_no_update_constant(sj, mid, id, st_j);
        lemma_observed_unique(sk, id, st_j, st_k);
    }
}


/// At the top of its range a key-up changes nothing and emits nothing,
/// and the handler answers 304 Not Modified; at the bottom, likewise
/// for a key-down.
pub proof fn lemma_key_boundary(s: CoordinatorView)
    requires
        s.wf(),
    ensures
        s.key == crate::coordinator::MAX_KEY as int ==> spec_step(s, Command::KeyUp) == s
            && spec_event(s, Command::KeyUp) is None,
        s.key == crate::coordinator::MIN_KEY as int ==> spec_step(s, Command::KeyDown) == s
            && spec_event(s, Command::KeyDown) is None,
{
}

/// Repositioning to a position at or past the end of the queue clamps
/// to the tail: the song ends up last, and the queue keeps its length.
pub proof fn lemma_reposition_clamps(s: CoordinatorView, song_uuid: u128, position: nat)
    requires
        s.wf(),
        id_in(s.pending, song_uuid),
        position >= s.pending.len(),
    ensures
        spec_step(s, Command::Reposition { song_uuid, position }).pending.len()
            == s.pending.len(),
        spec_step(s, Command::Reposition { song_uuid, position }).pending.last().uuid
            == song_uuid,
{
    crate::coordinator::lemma_find_props(s.pending, song_uuid);
    let i = spec_find(s.pending, song_uuid);
    let shorter = s.pending.remove(i);
    s.pending.remove_ensures(i);
    shorter.insert_ensures(shorter.len() as int, s.pending[i]);
}

/// Removing an unknown identifier is a no-op: the state is unchanged
/// and no event is emitted, while the reply is still a success.
pub proof fn lemma_remove_unknown_is_noop(s: CoordinatorView, song_uuid: u128)
    requires
        s.wf(),
        !id_in(s.pending, song_uuid),
    ensures
        spec_step(s, Command::RemoveSong { song_uuid }) == s,
        spec_event(s, Command::RemoveSong { song_uuid }) is None,
{
    crate::coordinator::lemma_find_props(s.pending, song_uuid);
}


/// A song accepted into the queue is observed at once, under the status
/// it was queued with; the orchestrator queues every song as
/// InProgress, which is where the monotonicity law starts.
pub proof fn lemma_queue_observes_song(s: CoordinatorView, song: crate::song::SongView)
    requires
        s.wf(),
        !s.has_id(song.uuid),
    ensures
        observed(spec_step(s, Command::QueueSong { song }), song.uuid, song.status),
{
    let s2 = spec_step(s, Command::QueueSong { song });
    assert(s2.pending[s.pending.len() as int] == song);
}

} // verus!
