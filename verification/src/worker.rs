//! The decisions of the download/process worker and of the request
//! orchestrator: what a worker does with a job, which processing mode a
//! job runs under, and how a finished job is reported back to the
//! coordinator. The surrounding tasks perform the I/O and hand the
//! results back in.

use vstd::prelude::*;

use crate::song::QueuedSongStatus;
use crate::yt_downloader::VideoProcessError;

verus! {

/// How the transcoder is driven for one job.
#[derive(Debug)]
pub enum ProcessingMode {
    /// Stream-copy without pitch work.
    Copy,
    /// One rendition per semitone offset.
    PitchShift(Vec<i8>),
}

/// What a worker does with a job it received.
#[derive(Debug, PartialEq, Eq, Structural)]
pub enum WorkerAction {
    /// The artifact is already complete: reply success at once and
    /// touch neither the downloader nor the transcoder.
    SkipComplete,
    /// Run the full pipeline.
    RunPipeline,
}

/// The worker's first decision: an already-complete artifact skips the
/// whole pipeline and is reported as a success.
pub fn worker_action(artifact_complete: bool) -> (r: WorkerAction)
    ensures
        r == WorkerAction::SkipComplete <==> artifact_complete,
{
    if artifact_complete {
        WorkerAction::SkipComplete
    } else {
        WorkerAction::RunPipeline
    }
}

/// The processing mode of a job: with pitch shifting requested, every
/// offset from -3 to +3 is rendered; without, the media is copied.
pub fn choose_mode(pitch_shift: bool) -> (r: ProcessingMode)
    ensures
        pitch_shift ==> (r matches ProcessingMode::PitchShift(offsets) && offsets@.len() == 7
            && (forall|i: int| 0 <= i < 7 ==> #[trigger] offsets@[i] == -3 + i)),
        !pitch_shift ==> r is Copy,
{
    if pitch_shift {
        let mut offsets: Vec<i8> = Vec::new();
        offsets.push(-3);
        offsets.push(-2);
        offsets.push(-1);
        offsets.push(0);
        offsets.push(1);
        offsets.push(2);
        offsets.push(3);
        ProcessingMode::PitchShift(offsets)
    } else {
        ProcessingMode::Copy
    }
}

/// How the orchestrator reports a finished job: a successful pipeline
/// resolves the song to `Success` and releases the intermediate source
/// media for deletion; a failed one resolves it to `Failed` and keeps
/// the source so a retry can reuse it.
pub fn job_completion(outcome: &Result<String, VideoProcessError>) -> (r: (
    QueuedSongStatus,
    bool,
))
    ensures
        r.0 == (if outcome is Ok {
            QueuedSongStatus::Success
        } else {
            QueuedSongStatus::Failed
        }),
        r.1 == (outcome is Ok),
{
    match outcome {
        Ok(_) => (QueuedSongStatus::Success, true),
        Err(_) => (QueuedSongStatus::Failed, false),
    }
}


/// One failed rendition's report line: the offset and the transcoder's
/// own words.
pub fn shift_error_line(semitones: i8, error: &str) -> (r: String)
    ensures
        r@ == "Semitones "@ + crate::text::ascii_chars(
            crate::text::spec_signed_dec(semitones as int),
        ) + ": "@ + error@,
{
    let offset = crate::text::format_i64(semitones as i64);
    String::from_str("Semitones ").concat(offset.as_str()).concat(": ").concat(error)
}

/// The combined judgement of the per-offset transcodes: nothing when
/// every offset succeeded, else one `PitchShiftError` joining every
/// failed offset's report line.
pub fn pitch_shift_failure(failure_lines: &Vec<String>) -> (r: Option<VideoProcessError>)
    ensures
        r is None <==> failure_lines@.len() == 0,
        failure_lines@.len() > 0 ==> (r matches Some(VideoProcessError::PitchShiftError(m))
            && m@ == crate::text::spec_joined(failure_lines@.map_values(|l: String| l@))),
{
    if failure_lines.len() == 0 {
        None
    } else {
        Some(VideoProcessError::PitchShiftError(crate::text::join_lines(failure_lines)))
    }
}

} // verus!
