//! The unit of queued work: a song submitted by a client, identified by a
//! 128-bit identifier assigned on creation and stable for its lifetime.

use vstd::prelude::*;

verus! {

/// Rendering progress of a queued song. A song starts `InProgress` and is
/// resolved to `Success` or `Failed` exactly once.
#[derive(Clone, Copy, Debug, PartialEq, Eq, Structural)]
pub enum QueuedSongStatus {
    InProgress,
    Failed,
    Success,
}

/// A queued song. `uuid` is unique within the coordinator; `name` and
/// `yt_link` are user-supplied and opaque to the queue logic.
#[derive(Clone, Debug)]
pub struct Song {
    pub name: String,
    pub uuid: u128,
    pub yt_link: String,
    pub status: QueuedSongStatus,
}

/// Mathematical model of a `Song`.
pub ghost struct SongView {
    pub name: Seq<char>,
    pub uuid: u128,
    pub yt_link: Seq<char>,
    pub status: QueuedSongStatus,
}

impl View for Song {
    type V = SongView;

    open spec fn view(&self) -> SongView {
        SongView {
            name: self.name@,
            uuid: self.uuid,
            yt_link: self.yt_link@,
            status: self.status,
        }
    }
}

/// Relies on uuid::Uuid::new_v4, read through Uuid::as_u128: a freshly
/// drawn random identifier. Nothing is promised of the value; the
/// coordinator tolerates collisions by refusing a song whose identifier
/// is already present.
#[verifier::external_body]
fn random_uuid() -> u128 {
    uuid::Uuid::new_v4().as_u128()
}

impl Song {
    /// A new song under a freshly drawn identifier.
    pub fn new(name: String, yt_link: String, status: QueuedSongStatus) -> (song: Song)
        ensures
            song@.name == name@,
            song@.yt_link == yt_link@,
            song@.status == status,
    {
        Song { name, uuid: random_uuid(), yt_link, status }
    }

    /// The display form of a song is its name.
    pub fn to_string(&self) -> (r: String)
        ensures
            r@ == self@.name,
    {
        self.name.clone()
    }
}

/// Two songs are the same song exactly when their identifiers agree,
/// whatever their display fields say.
impl PartialEq for Song {
    fn eq(&self, other: &Self) -> (r: bool) {
        self.uuid == other.uuid
    }
}

impl vstd::std_specs::cmp::PartialEqSpecImpl for Song {
    open spec fn obeys_eq_spec() -> bool {
        true
    }

    open spec fn eq_spec(&self, other: &Song) -> bool {
        self.uuid == other.uuid
    }
}

} // verus!
