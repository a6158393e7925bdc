//! The audio half of the transcode: one pitch-shifted DASH rendition
//! per semitone offset, each written to its `pitch{k}/` directory under
//! the stable offset-to-index map. The pitch filter's rate multiplier
//! is a real number computed by the caller and handed in already
//! formatted; everything else about the invocation is fixed here.

use vstd::prelude::*;

use crate::pitch::{semitone_to_index, spec_semitone_index};
use crate::text::{ascii_chars, spec_dec};

verus! {

/// Builder of the per-offset audio transcode invocations.
pub struct DashPitchShifter {
    pub input_file: String,
    pub output_dir: String,
    pub semitones: Vec<i8>,
    pub max_concurrent_tasks: usize,
}

impl DashPitchShifter {
    /// A shifter for every offset of the closed range
    /// `[semitone_low, semitone_high]`.
    pub fn new(
        input_file: &str,
        output_dir: &str,
        semitone_low: i8,
        semitone_high: i8,
        max_concurrent_tasks: usize,
    ) -> (r: DashPitchShifter)
        requires
            semitone_low <= semitone_high,
        ensures
            r.input_file@ == input_file@,
            r.output_dir@ == output_dir@,
            r.semitones@.len() == semitone_high - semitone_low + 1,
            forall|i: int|
                0 <= i < r.semitones@.len() ==> #[trigger] r.semitones@[i] == semitone_low + i,
            r.max_concurrent_tasks == max_concurrent_tasks,
    {
        let mut semitones: Vec<i8> = Vec::new();
        let mut n = semitone_low;
        while n < semitone_high
            invariant
                semitone_low <= n <= semitone_high,
                semitones@.len() == n - semitone_low,
                forall|i: int|
                    0 <= i < semitones@.len() ==> #[trigger] semitones@[i] == semitone_low + i,
            decreases semitone_high - n,
        {
            semitones.push(n);
            n = n + 1;
        }
        semitones.push(semitone_high);
        DashPitchShifter {
            input_file: String::from_str(input_file),
            output_dir: String::from_str(output_dir),
            semitones,
            max_concurrent_tasks,
        }
    }

    /// The pitch filter line: the rate multiplier is handed in as text.
    pub fn build_filter_complex(&self, rate: &str) -> (r: String)
        ensures
            r@ == "[0:a]rubberband=pitch="@ + rate@ + ":threads=16[p0]"@,
    {
        String::from_str("[0:a]rubberband=pitch=").concat(rate).concat(":threads=16[p0]")
    }

    /// The single adaptation set the invocation announces.
    pub fn build_adaptation_sets(&self) -> (r: String)
        ensures
            r@ == "id=0,streams=0"@,
    {
        String::from_str("id=0,streams=0")
    }

    /// Map only the filtered audio.
    pub fn build_stream_mappings(&self) -> (r: Vec<String>)
        ensures
            r@.len() == 2,
            r@[0]@ == "-map"@,
            r@[1]@ == "[p0]"@,
    {
        let mut v: Vec<String> = Vec::new();
        v.push(String::from_str("-map"));
        v.push(String::from_str("[p0]"));
        v
    }

    /// Encode the audio as 128k AAC.
    pub fn build_audio_encodings(&self) -> (r: Vec<String>)
        ensures
            r@.len() == 4,
            r@[0]@ == "-c:a"@,
            r@[1]@ == "aac"@,
            r@[2]@ == "-b:a"@,
            r@[3]@ == "128k"@,
    {
        let mut v: Vec<String> = Vec::new();
        v.push(String::from_str("-c:a"));
        v.push(String::from_str("aac"));
        v.push(String::from_str("-b:a"));
        v.push(String::from_str("128k"));
        v
    }

    /// Where the rendition for a semitone offset writes its manifest:
    /// the directory index comes from the stable offset map.
    pub fn get_output_path(&self, semitones: i8) -> (r: String)
        ensures
            r@ == self.output_dir@ + "/pitch"@ + ascii_chars(
                spec_dec(spec_semitone_index(semitones as int) as nat),
            ) + "/stream.mpd"@,
    {
        let index = semitone_to_index(semitones);
        let digits = crate::text::format_u64(index as u64);
        self.output_dir.clone().concat("/pitch").concat(digits.as_str()).concat("/stream.mpd")
    }

    /// The full transcoder argument list for one semitone offset.
    pub fn build_command_args(&self, semitones: i8, rate: &str) -> (r: Vec<String>)
        ensures
            r@.len() == 21,
            r@[0]@ == "-i"@,
            r@[1]@ == self.input_file@,
            r@[2]@ == "-threads"@,
            r@[3]@ == "16"@,
            r@[4]@ == "-filter_threads"@,
            r@[5]@ == "16"@,
            r@[6]@ == "-filter_complex_threads"@,
            r@[7]@ == "16"@,
            r@[8]@ == "-thread_type"@,
            r@[9]@ == "frame"@,
            r@[10]@ == "-filter_complex"@,
            r@[11]@ == "[0:a]rubberband=pitch="@ + rate@ + ":threads=16[p0]"@,
            r@[12]@ == "-map"@,
            r@[13]@ == "[p0]"@,
            r@[14]@ == "-c:a"@,
            r@[15]@ == "aac"@,
            r@[16]@ == "-b:a"@,
            r@[17]@ == "128k"@,
            r@[18]@ == "-f"@,
            r@[19]@ == "dash"@,
            r@[20]@ == "-adaptation_sets"@,
    {
        let mut v: Vec<String> = Vec::new();
        v.push(String::from_str("-i"));
        v.push(self.input_file.clone());
        v.push(String::from_str("-threads"));
        v.push(String::from_str("16"));
        v.push(String::from_str("-filter_threads"));
        v.push(String::from_str("16"));
        v.push(String::from_str("-filter_complex_threads"));
        v.push(String::from_str("16"));
        v.push(String::from_str("-thread_type"));
        v.push(String::from_str("frame"));
        v.push(String::from_str("-filter_complex"));
        v.push(self.build_filter_complex(rate));
        v.push(String::from_str("-map"));
        v.push(String::from_str("[p0]"));
        v.push(String::from_str("-c:a"));
        v.push(String::from_str("aac"));
        v.push(String::from_str("-b:a"));
        v.push(String::from_str("128k"));
        v.push(String::from_str("-f"));
        v.push(String::from_str("dash"));
        v.push(String::from_str("-adaptation_sets"));
        v
    }

    /// The tail of the argument list, after the adaptation sets value:
    /// the segment duration and the output path for the offset.
    pub fn build_command_tail(&self, semitones: i8) -> (r: Vec<String>)
        ensures
            r@.len() == 4,
            r@[0]@ == "id=0,streams=0"@,
            r@[1]@ == "-seg_duration"@,
            r@[2]@ == "4"@,
            r@[3]@ == self.output_dir@ + "/pitch"@ + ascii_chars(
                spec_dec(spec_semitone_index(semitones as int) as nat),
            ) + "/stream.mpd"@,
    {
        let mut v: Vec<String> = Vec::new();
        v.push(String::from_str("id=0,streams=0"));
        v.push(String::from_str("-seg_duration"));
        v.push(String::from_str("4"));
        v.push(self.get_output_path(semitones));
        v
    }

    /// The directories the renditions write into: `pitch{1}` up to
    /// `pitch{n}` for `n` configured offsets, under the output
    /// directory. The caller creates them, and the output directory
    /// itself, first.
    pub fn output_directories(&self) -> (r: Vec<String>)
        ensures
            r@.len() == self.semitones@.len(),
            forall|i: int|
                0 <= i < r@.len() ==> (#[trigger] r@[i])@ == self.output_dir@ + "/pitch"@
                    + ascii_chars(spec_dec((i + 1) as nat)),
    {
        let mut v: Vec<String> = Vec::new();
        let mut idx: usize = 0;
        while idx < self.semitones.len()
            invariant
                0 <= idx <= self.semitones@.len(),
                v@.len() == idx,
                forall|i: int|
                    0 <= i < v@.len() ==> (#[trigger] v@[i])@ == self.output_dir@ + "/pitch"@
                        + ascii_chars(spec_dec((i + 1) as nat)),
            decreases self.semitones@.len() - idx,
        {
            let digits = crate::text::format_u64((idx as u64) + 1);
            v.push(self.output_dir.clone().concat("/pitch").concat(digits.as_str()));
            idx = idx + 1;
        }
        v
    }
}

} // verus!
