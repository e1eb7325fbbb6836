//! Downloads: their status, their errors, the bytes kept of each segment,
//! and the order in which segments are tried.
use vstd::prelude::*;

use crate::config::PostDownloadSpecification;
use crate::request::{concat, request_error_text, RequestError};
use crate::text::{char_views, chars_of, split, split_chars};

verus! {

// ---------------------------------------------------------------------------
// Status and errors
// ---------------------------------------------------------------------------

/// Where a download stands.
#[derive(Debug, Clone)]
pub enum DownloadStatus {
    Pending,
    Converting,
    DownloadingSegments { amount: u32, total: u32 },
    Finished,
    Failed(String),
}

/// Why a download failed.
#[derive(Debug, Clone)]
pub enum DownloadError {
    FailedToOpenOutputFile { file: String, error: String },
    RequestFailed(RequestError),
    FailedToWriteBytes(String),
}

/// The text that describes each download error.
pub open spec fn download_error_text(e: DownloadError) -> Seq<char> {
    match e {
        DownloadError::FailedToOpenOutputFile { file, error } => "Failed to open output file \""@
            + file@ + "\" with error: "@ + error@,
        DownloadError::RequestFailed(r) => "Request error: "@ + request_error_text(r),
        DownloadError::FailedToWriteBytes(s) => "Failed to write bytes to disk due to error: "@ + s@,
    }
}

impl DownloadError {
    /// The human-readable description of this error.
    pub fn message(&self) -> (s: String)
        ensures
            s@ == download_error_text(*self),
    {
        match self {
            DownloadError::FailedToOpenOutputFile { file, error } => {
                let mut s = concat("Failed to open output file \"", file.as_str());
                s.append("\" with error: ");
                s.append(error.as_str());
                s
            },
            DownloadError::RequestFailed(r) => {
                let inner = r.message();
                concat("Request error: ", inner.as_str())
            },
            DownloadError::FailedToWriteBytes(m) => concat(
                "Failed to write bytes to disk due to error: ",
                m.as_str(),
            ),
        }
    }
}

/// The status a download ends in: finished, or failed with the error's text.
pub fn final_status(result: &Result<(), DownloadError>) -> (s: DownloadStatus)
    ensures
        match result {
            Ok(_) => s is Finished,
            Err(e) => s matches DownloadStatus::Failed(m) && m@ == download_error_text(*e),
        },
{
    match result {
        Ok(_) => DownloadStatus::Finished,
        Err(e) => DownloadStatus::Failed(e.message()),
    }
}

// ---------------------------------------------------------------------------
// Output files
// ---------------------------------------------------------------------------

/// The directory downloads are written to.
pub const OUTPUT_DIRECTORY: &'static str = "/output/";

/// An output file name that stays inside the output directory: not
/// absolute, and with no `..` among its `/`-separated parts. The empty name
/// names the directory itself, where writing the download then fails.
pub open spec fn output_name_ok(name: Seq<char>) -> bool {
    &&& name.len() > 0 ==> name[0] != '/'
    &&& forall|i: int| 0 <= i < split(name, '/').len() ==> #[trigger] split(name, '/')[i] != seq!['.', '.']
}

/// The file a download named `output_file` is written to: that name inside
/// the output directory. A name that would leave the directory is refused.
pub fn output_path(output_file: &str) -> (r: Option<String>)
    ensures
        output_name_ok(output_file@) ==> (r matches Some(p) && p@ == "/output/"@ + output_file@),
        !output_name_ok(output_file@) ==> r is None,
{
    let chars = chars_of(output_file);
    if chars.len() > 0 && chars[0] == '/' {
        return None;
    }
    let parts = split_chars(&chars, '/');
    let n = parts.len();
    let mut i: usize = 0;
    while i < n
        invariant
            n == parts@.len(),
            char_views(parts@) == split(output_file@, '/'),
            i <= n,
            forall|k: int| 0 <= k < i ==> #[trigger] split(output_file@, '/')[k] != seq!['.', '.'],
        decreases n - i,
    {
        let part = &parts[i];
        assert(split(output_file@, '/')[i as int] == part@);
        if part.len() == 2 && part[0] == '.' && part[1] == '.' {
            assert(part@ =~= seq!['.', '.']);
            return None;
        }
        assert(part@ != seq!['.', '.']);
        i = i + 1;
    }
    Some(concat("/output/", output_file))
}

// ---------------------------------------------------------------------------
// Segment bytes
// ---------------------------------------------------------------------------

/// The text of the error for a segment shorter than what is to be cut from it.
pub open spec fn too_short_text() -> Seq<char> {
    "Downloaded amount of bytes is less than the amount specified in postprocessing arguments."@
}

/// The bytes kept of a downloaded segment: all but `remove_front_bytes` at
/// the front and `remove_back_bytes` at the back. A segment with no more
/// bytes than the two together is refused.
pub fn strip_segment(contents: &Vec<u8>, post: &PostDownloadSpecification) -> (r: Result<Vec<u8>, DownloadError>)
    requires
        post.remove_front_bytes + post.remove_back_bytes <= u32::MAX,
    ensures
        contents@.len() <= post.remove_front_bytes + post.remove_back_bytes ==> (r matches Err(
            DownloadError::FailedToWriteBytes(m),
        ) && m@ == too_short_text()),
        contents@.len() > post.remove_front_bytes + post.remove_back_bytes ==> (r matches Ok(b)
            && b@ == contents@.subrange(
            post.remove_front_bytes as int,
            contents@.len() - post.remove_back_bytes,
        )),
{
    let front = post.remove_front_bytes as usize;
    let back = post.remove_back_bytes as usize;
    let cut = (post.remove_front_bytes + post.remove_back_bytes) as usize;
    if contents.len() <= cut {
        return Err(
            DownloadError::FailedToWriteBytes(
                "Downloaded amount of bytes is less than the amount specified in postprocessing arguments.".to_owned(),
            ),
        );
    }
    let end = contents.len() - back;
    let mut kept: Vec<u8> = Vec::new();
    let mut i = front;
    while i < end
        invariant
            front <= i <= end <= contents@.len(),
            kept@ == contents@.subrange(front as int, i as int),
        decreases end - i,
    {
        kept.push(contents[i]);
        assert(contents@.subrange(front as int, i + 1) =~= contents@.subrange(front as int, i as int).push(
            contents@[i as int],
        ));
        i = i + 1;
    }
    Ok(kept)
}

// ---------------------------------------------------------------------------
// Segment attempts
// ---------------------------------------------------------------------------

/// Where a segmented download stands: the segment being fetched (of
/// `total`), and which of at most `attempts` tries of it this is.
#[derive(Debug, Clone, Copy, PartialEq, Eq, Structural)]
pub struct SegmentProgress {
    pub segment: usize,
    pub attempt: u32,
    pub total: usize,
    pub attempts: u32,
}

/// What to do next in a segmented download.
#[derive(Debug, Clone, Copy, PartialEq, Eq, Structural)]
pub enum SegmentAction {
    /// Fetch segment `segment` (try number `attempt`).
    Download { segment: usize, attempt: u32 },
    /// Show segment `segment` as the current one and pass over it: no tries
    /// are allowed, so none is made.
    Skip { segment: usize },
    /// Every segment is done.
    Finished,
    /// The last try of the current segment failed; the download fails with its error.
    GiveUp,
}

/// A progress that names a real segment and try.
pub open spec fn progress_ok(p: SegmentProgress) -> bool {
    p.segment < p.total && 1 <= p.attempt <= p.attempts
}

/// The start of a download of `total` segments, each tried at most
/// `attempts` times: the first try of the first segment; nothing at all
/// where there are no segments; and where no tries are allowed, passing over
/// the first segment.
pub open spec fn start_progress(total: usize, attempts: u32) -> (SegmentProgress, SegmentAction) {
    let p = SegmentProgress { segment: 0, attempt: 1, total, attempts };
    if total == 0 {
        (p, SegmentAction::Finished)
    } else if attempts == 0 {
        (p, SegmentAction::Skip { segment: 0 })
    } else {
        (p, SegmentAction::Download { segment: 0, attempt: 1 })
    }
}

/// The step after a try of the current segment: on success the next
/// segment's first try (or the end after the last segment); on failure the
/// next try of the same segment, or giving up after its last try.
pub open spec fn next_progress(p: SegmentProgress, succeeded: bool) -> (SegmentProgress, SegmentAction) {
    if succeeded {
        let next = SegmentProgress { segment: (p.segment + 1) as usize, attempt: 1, ..p };
        if next.segment == p.total {
            (next, SegmentAction::Finished)
        } else {
            (next, SegmentAction::Download { segment: next.segment, attempt: 1 })
        }
    } else if p.attempt < p.attempts {
        let next = SegmentProgress { attempt: (p.attempt + 1) as u32, ..p };
        (next, SegmentAction::Download { segment: p.segment, attempt: next.attempt })
    } else {
        (p, SegmentAction::GiveUp)
    }
}

/// The step after passing over the current segment: passing over the next
/// one, or the end after the last.
pub open spec fn next_skip(p: SegmentProgress) -> (SegmentProgress, SegmentAction) {
    let next = SegmentProgress { segment: (p.segment + 1) as usize, ..p };
    if next.segment == p.total {
        (next, SegmentAction::Finished)
    } else {
        (next, SegmentAction::Skip { segment: next.segment })
    }
}

impl SegmentProgress {
    /// The start of a download of `total` segments, each tried at most
    /// `attempts` times.
    pub fn start(total: usize, attempts: u32) -> (r: (SegmentProgress, SegmentAction))
        ensures
            r == start_progress(total, attempts),
    {
        let p = SegmentProgress { segment: 0, attempt: 1, total, attempts };
        if total == 0 {
            (p, SegmentAction::Finished)
        } else if attempts == 0 {
            (p, SegmentAction::Skip { segment: 0 })
        } else {
            (p, SegmentAction::Download { segment: 0, attempt: 1 })
        }
    }

    /// The next step after a try of the current segment.
    pub fn after_attempt(&self, succeeded: bool) -> (r: (SegmentProgress, SegmentAction))
        requires
            progress_ok(*self),
        ensures
            r == next_progress(*self, succeeded),
    {
        if succeeded {
            let next = SegmentProgress {
                segment: self.segment + 1,
                attempt: 1,
                total: self.total,
                attempts: self.attempts,
            };
            if next.segment == self.total {
                (next, SegmentAction::Finished)
            } else {
                (next, SegmentAction::Download { segment: next.segment, attempt: 1 })
            }
        } else if self.attempt < self.attempts {
            let next = SegmentProgress {
                segment: self.segment,
                attempt: self.attempt + 1,
                total: self.total,
                attempts: self.attempts,
            };
            (next, SegmentAction::Download { segment: self.segment, attempt: next.attempt })
        } else {
            (*self, SegmentAction::GiveUp)
        }
    }

    /// The next step after passing over the current segment.
    pub fn after_skip(&self) -> (r: (SegmentProgress, SegmentAction))
        requires
            self.segment < self.total,
        ensures
            r == next_skip(*self),
    {
        let next = SegmentProgress {
            segment: self.segment + 1,
            attempt: self.attempt,
            total: self.total,
            attempts: self.attempts,
        };
        if next.segment == self.total {
            (next, SegmentAction::Finished)
        } else {
            (next, SegmentAction::Skip { segment: next.segment })
        }
    }

    /// The status shown while the current segment is fetched or passed over.
    pub fn status(&self) -> (s: DownloadStatus)
        ensures
            s matches DownloadStatus::DownloadingSegments { amount, total } && amount == self.segment
                as u32 && total == self.total as u32,
    {
        DownloadStatus::DownloadingSegments {
            amount: self.segment as u32,
            total: self.total as u32,
        }
    }
}

} // verus!
