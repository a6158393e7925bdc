//! Core of a karaoke playback server: the play-queue coordinator, the
//! DASH post-processing rules (segment renaming, manifest merging), the
//! external-tool command builders and output parsers, and the event
//! encodings served to clients.
//!
//! Everything here is pure logic on plain values; the surrounding
//! process-spawning, file I/O and HTTP plumbing live outside the library
//! and call into it.

pub mod coordinator;
pub mod encode;
pub mod events;
pub mod http;
pub mod laws;
pub mod merge;
pub mod mpd;
pub mod naming;
pub mod pitch;
pub mod pitch_shifter;
pub mod rename;
pub mod song;
pub mod text;
pub mod video_extractor;
pub mod worker;
pub mod xml;
pub mod xml_read;
pub mod yt_downloader;
