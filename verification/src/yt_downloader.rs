//! The downloader adapter: the fixed argument list handed to the
//! external fetch tool, and the parser for the file path the tool
//! prints. The caller spawns the process and hands its standard output
//! back here.

use vstd::prelude::*;

use crate::text::{all_ascii, spec_trim, trim_bytes, utf8_to_string};

verus! {

/// Why fetching or processing a video failed.
#[derive(Debug, Clone)]
pub enum VideoProcessError {
    /// The external fetch failed; holds its standard error.
    DownloadError(String),
    /// The fetch output did not parse as a file path.
    FilenameError(String),
    /// The transcoder failed.
    PitchShiftError(String),
    /// The manifest merge step failed.
    VideoExtractError(String),
    /// A process could not be spawned or a local file not be touched.
    CommandError(String),
}

/// The downloader: stateless; it only knows how to call the tool and
/// read what the tool prints.
#[derive(Clone)]
pub struct YtDownloader {}

/// Index of the last occurrence of `b` in `bs`, or -1.
pub open spec fn find_last(bs: Seq<u8>, b: u8) -> int
    decreases bs.len(),
{
    if bs.len() == 0 {
        -1
    } else if bs.last() == b {
        bs.len() - 1
    } else {
        find_last(bs.drop_last(), b)
    }
}

/// A last occurrence found from the right pins down `find_last`.
proof fn lemma_find_last_at(bs: Seq<u8>, b: u8, i: int)
    requires
        0 <= i < bs.len(),
        bs[i] == b,
        forall|k: int| i < k < bs.len() ==> bs[k] != b,
    ensures
        find_last(bs, b) == i,
    decreases bs.len(),
{
    if i < bs.len() - 1 {
        assert(bs.drop_last() =~= bs.take(bs.len() - 1));
        lemma_find_last_at(bs.drop_last(), b, i);
    }
}

/// With no occurrence at all, `find_last` reports -1.
proof fn lemma_find_last_none(bs: Seq<u8>, b: u8)
    requires
        forall|k: int| 0 <= k < bs.len() ==> bs[k] != b,
    ensures
        find_last(bs, b) == -1,
    decreases bs.len(),
{
    if bs.len() > 0 {
        lemma_find_last_none(bs.drop_last(), b);
    }
}

/// What a non-negative `find_last` means: the byte stands there, and
/// nowhere after it.
pub proof fn lemma_find_last_props(bs: Seq<u8>, b: u8)
    ensures
        find_last(bs, b) >= 0 ==> find_last(bs, b) < bs.len() && bs[find_last(bs, b)] == b,
        find_last(bs, b) == -1 || find_last(bs, b) >= 0,
        forall|k: int| find_last(bs, b) < k < bs.len() ==> bs[k] != b,
    decreases bs.len(),
{
    if bs.len() > 0 {
        lemma_find_last_props(bs.drop_last(), b);
        if bs.last() != b {
            assert forall|k: int| find_last(bs, b) < k < bs.len() implies bs[k] != b by {
                if k < bs.len() - 1 {
                    assert(bs.drop_last()[k] == bs[k]);
                }
            }
        }
    }
}

/// Exactly how the printed path splits: `Err` when the trimmed output
/// lacks a `/`, or a `.` after the last `/`; `Ok` holds the directory,
/// the name and the extension, cut at the last separators, and is owed
/// whenever the trimmed output is ASCII and both separators are there.
pub open spec fn parse_filename_post(
    output: Seq<u8>,
    r: Result<(String, String, String), VideoProcessError>,
) -> bool {
    let t = spec_trim(output);
    &&& (slash_split(t) < 0 ==> r is Err)
    &&& (slash_split(t) >= 0 && dot_split(t.skip(slash_split(t) + 1)) < 0 ==> r is Err)
    &&& (r is Ok ==> {
        let i = slash_split(t);
        let f = t.skip(i + 1);
        let j = dot_split(f);
        &&& i >= 0
        &&& j >= 0
        &&& vstd::utf8::encode_utf8(r.unwrap().0@) == t.take(i)
        &&& vstd::utf8::encode_utf8(r.unwrap().1@) == f.take(j)
        &&& vstd::utf8::encode_utf8(r.unwrap().2@) == f.skip(j + 1)
        &&& forall|k: int| 0 <= k < f.len() ==> #[trigger] f[k] != 47
        &&& forall|k: int| j < k < f.len() ==> #[trigger] f[k] != 46
    })
    &&& (all_ascii(t) && slash_split(t) >= 0 && dot_split(t.skip(slash_split(t) + 1)) >= 0
        ==> r is Ok)
}

/// Index of the last `/` of the trimmed output, or -1.
pub open spec fn slash_split(t: Seq<u8>) -> int {
    find_last(t, 47)
}

/// Index of the last `.` of the file-name part, or -1.
pub open spec fn dot_split(f: Seq<u8>) -> int {
    find_last(f, 46)
}

/// The exec search for the last occurrence of `b`.
fn find_last_exec(bs: &Vec<u8>, b: u8) -> (r: Option<usize>)
    ensures
        match r {
            Some(i) => i == find_last(bs@, b),
            None => find_last(bs@, b) == -1,
        },
{
    let mut i: usize = bs.len();
    while i > 0
        invariant
            0 <= i <= bs@.len(),
            forall|k: int| i <= k < bs@.len() ==> bs@[k] != b,
        decreases i,
    {
        i = i - 1;
        if bs[i] == b {
            proof {
                lemma_find_last_at(bs@, b, i as int);
            }
            return Some(i);
        }
    }
    proof {
        lemma_find_last_none(bs@, b);
    }
    None
}

/// The bytes of range `[lo, hi)` of `bs`.
fn copy_range(bs: &Vec<u8>, lo: usize, hi: usize) -> (r: Vec<u8>)
    requires
        lo <= hi <= bs@.len(),
    ensures
        r@ == bs@.subrange(lo as int, hi as int),
{
    let mut out: Vec<u8> = Vec::new();
    let mut i = lo;
    while i < hi
        invariant
            lo <= i <= hi <= bs@.len(),
            out@ == bs@.subrange(lo as int, i as int),
        decreases hi - i,
    {
        out.push(bs[i]);
        proof {
            assert(out@ =~= bs@.subrange(lo as int, i + 1));
        }
        i = i + 1;
    }
    out
}

impl YtDownloader {
    /// The fixed argument list of the external fetch tool: cap the video
    /// at 720p H.264 plus best audio, merge into one mp4 container,
    /// restrict the file name to a safe charset, download, and print
    /// the resulting file path.
    pub fn build_args(&self, yt_link: &str, base_dir: &str, file_name: &str) -> (r: Vec<String>)
        ensures
            r@.len() == 11,
            r@[0]@ == "-f"@,
            r@[1]@ == "bestvideo[height<=720][vcodec^=avc1]+bestaudio"@,
            r@[2]@ == "-o"@,
            r@[3]@ == base_dir@ + "/"@ + file_name@ + "/"@ + file_name@ + ".%(ext)s"@,
            r@[4]@ == "--merge-output-format"@,
            r@[5]@ == "mp4"@,
            r@[6]@ == "--restrict-filenames"@,
            r@[7]@ == "--get-filename"@,
            r@[8]@ == "--no-simulate"@,
            r@[9]@ == "--"@,
            r@[10]@ == yt_link@,
    {
        let template = String::from_str(base_dir).concat("/").concat(file_name).concat(
            "/",
        ).concat(file_name).concat(".%(ext)s");
        let mut args: Vec<String> = Vec::new();
        args.push(String::from_str("-f"));
        args.push(String::from_str("bestvideo[height<=720][vcodec^=avc1]+bestaudio"));
        args.push(String::from_str("-o"));
        args.push(template);
        args.push(String::from_str("--merge-output-format"));
        args.push(String::from_str("mp4"));
        args.push(String::from_str("--restrict-filenames"));
        args.push(String::from_str("--get-filename"));
        args.push(String::from_str("--no-simulate"));
        args.push(String::from_str("--"));
        args.push(String::from_str(yt_link));
        args
    }

    /// Split the tool's printed path into directory, file name without
    /// extension, and extension: the output is trimmed, cut at its last
    /// `/`, and the remainder cut at its last `.`. Output of any other
    /// shape is a `FilenameError`.
    pub fn parse_filename_and_extension(&self, output: &[u8]) -> (r: Result<
        (String, String, String),
        VideoProcessError,
    >)
        ensures
            parse_filename_post(output@, r),
    {
        let trimmed = trim_bytes(output);
        let slash = match find_last_exec(&trimmed, 47) {
            Some(i) => i,
            None => {
                proof {
                    lemma_find_last_props(trimmed@, 47);
                }
                return Err(
                    VideoProcessError::FilenameError(String::from_str("Invalid path format")),
                );
            },
        };
        let trimmed_len = trimmed.len();
        proof {
            lemma_find_last_props(trimmed@, 47);
            assert(0 <= slash < trimmed_len);
        }
        let dir_bytes = copy_range(&trimmed, 0, slash);
        let rest = copy_range(&trimmed, slash + 1, trimmed_len);
        let dot = match find_last_exec(&rest, 46) {
            Some(j) => j,
            None => {
                proof {
                    lemma_find_last_props(rest@, 46);
                }
                return Err(
                    VideoProcessError::FilenameError(
                        String::from_str("Invalid filename format"),
                    ),
                );
            },
        };
        proof {
            lemma_find_last_props(rest@, 46);
        }
        let name_bytes = copy_range(&rest, 0, dot);
        let ext_bytes = copy_range(&rest, dot + 1, rest.len());
        proof {
            if all_ascii(trimmed@) {
                assert(all_ascii(dir_bytes@));
                assert(all_ascii(name_bytes@));
                assert(all_ascii(ext_bytes@));
            }
            assert(rest@ =~= trimmed@.skip(slash as int + 1));
            assert(name_bytes@ =~= trimmed@.skip(slash as int + 1).take(dot as int));
            assert(ext_bytes@ =~= trimmed@.skip(slash as int + 1).skip(dot + 1));
            assert(dir_bytes@ =~= trimmed@.take(slash as int));
        }
        let dir = match utf8_to_string(dir_bytes) {
            Some(s) => s,
            None => {
                return Err(
                    VideoProcessError::FilenameError(String::from_str("Invalid path format")),
                );
            },
        };
        let name = match utf8_to_string(name_bytes) {
            Some(s) => s,
            None => {
                return Err(
                    VideoProcessError::FilenameError(
                        String::from_str("Invalid filename format"),
                    ),
                );
            },
        };
        let ext = match utf8_to_string(ext_bytes) {
            Some(s) => s,
            None => {
                return Err(
                    VideoProcessError::FilenameError(
                        String::from_str("Invalid filename format"),
                    ),
                );
            },
        };
        Ok((dir, name, ext))
    }
}


impl YtDownloader {
    /// How one run of the external fetch tool is judged: a spawn
    /// failure is a `CommandError` carrying the spawn error's text, a
    /// non-zero exit a `DownloadError` carrying the tool's standard
    /// error, and on success the printed path is parsed.
    pub fn interpret_run(
        &self,
        spawn_error: Option<String>,
        exit_success: bool,
        stdout: &[u8],
        stderr: String,
    ) -> (r: Result<(String, String, String), VideoProcessError>)
        ensures
            (match spawn_error {
                Some(msg) => r matches Err(VideoProcessError::CommandError(t)) && t@ == msg@,
                None => {
                    &&& (!exit_success ==> (r matches Err(VideoProcessError::DownloadError(t))
                        && t@ == stderr@))
                    &&& (exit_success ==> parse_filename_post(stdout@, r))
                },
            }),
    {
        match spawn_error {
            Some(msg) => Err(VideoProcessError::CommandError(msg)),
            None => {
                if !exit_success {
                    Err(VideoProcessError::DownloadError(stderr))
                } else {
                    self.parse_filename_and_extension(stdout)
                }
            },
        }
    }
}

} // verus!
