//! Events broadcast to subscribed clients after every observable change
//! of the coordinator's state.

use vstd::prelude::*;

use std::collections::VecDeque;

use crate::song::{Song, SongView};

verus! {

/// One broadcast event. `QueueUpdated` carries the full pending queue so
/// that a client can repair its view from any single surviving event.
#[derive(Clone, Debug)]
pub enum SseEvent {
    QueueUpdated { queue: VecDeque<Song> },
    KeyChange { current_key: i8 },
    TogglePlayback,
}

/// Mathematical model of an `SseEvent`.
pub ghost enum SseEventView {
    QueueUpdated { queue: Seq<SongView> },
    KeyChange { current_key: int },
    TogglePlayback,
}

impl View for SseEvent {
    type V = SseEventView;

    open spec fn view(&self) -> SseEventView {
        match self {
            SseEvent::QueueUpdated { queue } => SseEventView::QueueUpdated {
                queue: queue@.map_values(|s: Song| s@),
            },
            SseEvent::KeyChange { current_key } => SseEventView::KeyChange {
                current_key: *current_key as int,
            },
            SseEvent::TogglePlayback => SseEventView::TogglePlayback,
        }
    }
}

/// The model of an optional event, `None` when nothing was emitted.
pub open spec fn opt_event_view(e: Option<SseEvent>) -> Option<SseEventView> {
    match e {
        Some(ev) => Some(ev@),
        None => None,
    }
}

} // verus!
