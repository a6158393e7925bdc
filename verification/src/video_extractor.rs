//! The video half of the transcode: the fixed transcoder invocation
//! that stream-copies the video track once into `video/` as a DASH
//! rendition. The caller spawns the process with exactly the arguments
//! built here.

use vstd::prelude::*;

verus! {

/// Builder of the video transcode invocation.
pub struct DashVideoProcessor {
    pub input_file: String,
    pub output_dir: String,
}

impl DashVideoProcessor {
    /// A processor for one source file and one output directory.
    pub fn new(input_file: &str, output_dir: &str) -> (r: DashVideoProcessor)
        ensures
            r.input_file@ == input_file@,
            r.output_dir@ == output_dir@,
    {
        DashVideoProcessor {
            input_file: String::from_str(input_file),
            output_dir: String::from_str(output_dir),
        }
    }

    /// The single adaptation set the invocation announces.
    pub fn build_adaptation_sets(&self) -> (r: String)
        ensures
            r@ == "id=0,streams=0"@,
    {
        String::from_str("id=0,streams=0")
    }

    /// Map only the video track.
    pub fn build_stream_mappings(&self) -> (r: Vec<String>)
        ensures
            r@.len() == 2,
            r@[0]@ == "-map"@,
            r@[1]@ == "0:v"@,
    {
        let mut v: Vec<String> = Vec::new();
        v.push(String::from_str("-map"));
        v.push(String::from_str("0:v"));
        v
    }

    /// Stream-copy the video track.
    pub fn build_video_encodings(&self) -> (r: Vec<String>)
        ensures
            r@.len() == 2,
            r@[0]@ == "-c:v"@,
            r@[1]@ == "copy"@,
    {
        let mut v: Vec<String> = Vec::new();
        v.push(String::from_str("-c:v"));
        v.push(String::from_str("copy"));
        v
    }

    /// Where the video rendition's manifest is written.
    pub fn get_output_path(&self) -> (r: String)
        ensures
            r@ == self.output_dir@ + "/video/stream.mpd"@,
    {
        self.output_dir.clone().concat("/video/stream.mpd")
    }

    /// The full transcoder argument list for the video rendition.
    pub fn build_command_args(&self) -> (r: Vec<String>)
        ensures
            r@.len() == 17,
            r@[0]@ == "-i"@,
            r@[1]@ == self.input_file@,
            r@[2]@ == "-threads"@,
            r@[3]@ == "16"@,
            r@[4]@ == "-thread_type"@,
            r@[5]@ == "frame"@,
            r@[6]@ == "-map"@,
            r@[7]@ == "0:v"@,
            r@[8]@ == "-c:v"@,
            r@[9]@ == "copy"@,
            r@[10]@ == "-f"@,
            r@[11]@ == "dash"@,
            r@[12]@ == "-adaptation_sets"@,
            r@[13]@ == "id=0,streams=0"@,
            r@[14]@ == "-seg_duration"@,
            r@[15]@ == "4"@,
            r@[16]@ == self.output_dir@ + "/video/stream.mpd"@,
    {
        let mut v: Vec<String> = Vec::new();
        v.push(String::from_str("-i"));
        v.push(self.input_file.clone());
        v.push(String::from_str("-threads"));
        v.push(String::from_str("16"));
        v.push(String::from_str("-thread_type"));
        v.push(String::from_str("frame"));
        v.push(String::from_str("-map"));
        v.push(String::from_str("0:v"));
        v.push(String::from_str("-c:v"));
        v.push(String::from_str("copy"));
        v.push(String::from_str("-f"));
        v.push(String::from_str("dash"));
        v.push(String::from_str("-adaptation_sets"));
        v.push(String::from_str("id=0,streams=0"));
        v.push(String::from_str("-seg_duration"));
        v.push(String::from_str("4"));
        v.push(self.get_output_path());
        v
    }

    /// The directories the invocation writes into: the output directory
    /// and its `video/` subdirectory. The caller creates them first.
    pub fn output_directories(&self) -> (r: Vec<String>)
        ensures
            r@.len() == 2,
            r@[0]@ == self.output_dir@,
            r@[1]@ == self.output_dir@ + "/video"@,
    {
        let mut v: Vec<String> = Vec::new();
        v.push(self.output_dir.clone());
        v.push(self.output_dir.clone().concat("/video"));
        v
    }
}

} // verus!
