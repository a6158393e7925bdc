//! The status codes the HTTP handlers answer with, as pure decisions on
//! the coordinator's replies: a key change out of range is 304 Not
//! Modified, a missing current song is 204 No Content, a removal is 200
//! whether or not anything was removed, a bad song identifier is 400.

use vstd::prelude::*;

use crate::coordinator::{
    KeyDownResponse, KeyUpResponse, QueueSongResponse, RemoveSongResponse,
    RepositionSongResponse,
};
use crate::song::Song;

verus! {

/// Status of a queue request: accepted for background processing.
pub fn queue_song_status(resp: &QueueSongResponse) -> (code: u16)
    ensures
        code == 202,
{
    let _ = resp;
    202
}

/// Status of a play-next request: 200 whether or not the queue held a
/// song; the pop's outcome travels on the event stream.
pub fn play_next_status(popped: &Option<Song>) -> (code: u16)
    ensures
        code == 200,
{
    let _ = popped;
    200
}

/// Status of a key-up reply: the new key with 200, or 304 when the key
/// already stood at the top of its range.
pub fn key_up_status(resp: &KeyUpResponse) -> (code: u16)
    ensures
        code == (if resp is Success {
            200u16
        } else {
            304u16
        }),
{
    match resp {
        KeyUpResponse::Success(_) => 200,
        KeyUpResponse::Fail => 304,
    }
}

/// Status of a key-down reply: the new key with 200, or 304 when the
/// key already stood at the bottom of its range.
pub fn key_down_status(resp: &KeyDownResponse) -> (code: u16)
    ensures
        code == (if resp is Success {
            200u16
        } else {
            304u16
        }),
{
    match resp {
        KeyDownResponse::Success(_) => 200,
        KeyDownResponse::Fail => 304,
    }
}

/// Status of a removal: 200 even for an unknown identifier — removal is
/// deliberately tolerant.
pub fn remove_song_status(resp: &RemoveSongResponse) -> (code: u16)
    ensures
        code == (if resp is Success {
            200u16
        } else {
            304u16
        }),
{
    match resp {
        RemoveSongResponse::Success => 200,
        RemoveSongResponse::Fail => 304,
    }
}

/// Status of a reposition request: 400 for an identifier that does not
/// parse, 200 for a served command, 304 when no reply came back.
pub fn reposition_song_status(parsed_uuid: &Option<u128>, resp: &Option<
    RepositionSongResponse,
>) -> (code: u16)
    ensures
        parsed_uuid is None ==> code == 400,
        parsed_uuid is Some && (resp matches Some(RepositionSongResponse::Success)) ==> code
            == 200,
        parsed_uuid is Some && !(resp matches Some(RepositionSongResponse::Success)) ==> code
            == 304,
{
    if parsed_uuid.is_none() {
        400
    } else {
        match resp {
            Some(RepositionSongResponse::Success) => 200,
            _ => 304,
        }
    }
}

/// Status of a current-song read: 204 No Content when nothing is
/// playing, 200 with the song otherwise.
pub fn current_song_status(current: &Option<Song>) -> (code: u16)
    ensures
        code == (if current is Some {
            200u16
        } else {
            204u16
        }),
{
    match current {
        Some(_) => 200,
        None => 204,
    }
}

} // verus!
