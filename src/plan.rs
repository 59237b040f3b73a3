//! Decisions taken before any byte moves: which path a download takes, where
//! a segmented download resumes, how the file is cut into segments, and the
//! `Range` header of each segment.

use vstd::prelude::*;
use vstd::string::StringExecFns;

use crate::download::{DownloadConfig, DownloadError};
use crate::text::{decimal, decimal_string};

verus! {

/// Bytes in one segment of a segmented download (4 MiB).
pub const CHUNK_SIZE: u64 = 4194304;

/// Which of the two transfer paths a download takes.
#[derive(Debug, Clone, Copy, PartialEq, Eq, Structural)]
pub enum TransferMode {
    /// One streaming request for the whole file.
    SingleThread,
    /// Range requests per segment, at most `max_concurrent` at once.
    Chunked { total: u64, max_concurrent: usize },
}

/// A validated download: the path it takes and its sinks.
#[derive(Debug, Clone)]
pub struct DownloadPlan {
    pub mode: TransferMode,
    pub save_path: Option<String>,
    pub output_bytes: bool,
    pub total: Option<u64>,
}

/// Whether the configuration selects the segmented path.
pub open spec fn wants_chunked(config: DownloadConfig) -> bool {
    match config.max_concurrent_chunks {
        Some(n) => n > 1,
        None => false,
    }
}

/// Whether the configuration has at least one sink.
pub open spec fn has_destination(config: DownloadConfig) -> bool {
    config.save_path is Some || config.is_output_bytes
}

/// The concurrency bound of the segmented path: the configured value when it
/// is above one, else two.
pub open spec fn spec_max_concurrent(config: DownloadConfig) -> usize {
    match config.max_concurrent_chunks {
        Some(n) => if n > 1 { n } else { 2 },
        None => 2,
    }
}

/// The concurrency bound of the segmented path: the configured value when it
/// is above one, else two.
pub fn max_concurrent_from_config(config: &DownloadConfig) -> (r: usize)
    ensures
        r == spec_max_concurrent(*config),
        r > 1,
{
    match config.max_concurrent_chunks {
        Some(n) => if n > 1 { n } else { 2 },
        None => 2,
    }
}

/// Validates a download of a resource (`is_dir`, `size`) under `config` and
/// picks its path. A directory fails with `IsDir`; the segmented path with an
/// unknown size fails with `UnknownFileSizeForChunked`; no sink fails with
/// `NoDestination`; anything else is planned.
pub fn plan_download(is_dir: bool, size: Option<u64>, config: &DownloadConfig) -> (r: Result<
    DownloadPlan,
    DownloadError,
>)
    ensures
        is_dir ==> r matches Err(DownloadError::IsDir),
        !is_dir && wants_chunked(*config) && size is None ==> r matches Err(
            DownloadError::UnknownFileSizeForChunked,
        ),
        !is_dir && !(wants_chunked(*config) && size is None) && !has_destination(*config) ==> r matches Err(
            DownloadError::NoDestination,
        ),
        r is Ok <==> (!is_dir && !(wants_chunked(*config) && size is None) && has_destination(
            *config,
        )),
        r matches Ok(p) ==> {
            &&& p.save_path == config.save_path
            &&& p.output_bytes == config.is_output_bytes
            &&& p.total == size
            &&& wants_chunked(*config) ==> p.mode == (TransferMode::Chunked {
                total: size->Some_0,
                max_concurrent: spec_max_concurrent(*config),
            })
            &&& !wants_chunked(*config) ==> p.mode == TransferMode::SingleThread
        },
{
    if is_dir {
        return Err(DownloadError::IsDir);
    }
    let chunked = match config.max_concurrent_chunks {
        Some(n) => n > 1,
        None => false,
    };
    if chunked && size.is_none() {
        return Err(DownloadError::UnknownFileSizeForChunked);
    }
    if config.save_path.is_none() && !config.is_output_bytes {
        return Err(DownloadError::NoDestination);
    }
    let mode = if chunked {
        TransferMode::Chunked { total: size.unwrap(), max_concurrent: max_concurrent_from_config(config) }
    } else {
        TransferMode::SingleThread
    };
    let save_path = match &config.save_path {
        Some(p) => Some(p.clone()),
        None => None,
    };
    Ok(DownloadPlan { mode, save_path, output_bytes: config.is_output_bytes, total: size })
}

/// Where a segmented download starts, given what is already on disk.
#[derive(Debug, Clone, Copy, PartialEq, Eq, Structural)]
pub enum ChunkedResumeOutcome {
    /// The file on disk already has every byte: publish `(total, total)` and stop.
    AlreadyComplete,
    /// Fetch `[start, total)`, keeping the bytes before `start`.
    DownloadFrom { start: u64 },
    /// The file on disk is longer than the resource: remove it and start at zero.
    DiscardAndRestart,
}

/// The resume rule. Only a save-to-file download without in-memory output
/// resumes: no file starts at zero, a file of exactly `total` bytes is
/// complete, a longer one is discarded, a shorter one resumes at its length.
pub open spec fn spec_resume(save_to_file: bool, output_bytes: bool, total: u64, local_len: Option<
    u64,
>) -> ChunkedResumeOutcome {
    if !save_to_file || output_bytes {
        ChunkedResumeOutcome::DownloadFrom { start: 0 }
    } else {
        match local_len {
            None => ChunkedResumeOutcome::DownloadFrom { start: 0 },
            Some(len) => if len == total {
                ChunkedResumeOutcome::AlreadyComplete
            } else if len > total {
                ChunkedResumeOutcome::DiscardAndRestart
            } else {
                ChunkedResumeOutcome::DownloadFrom { start: len }
            },
        }
    }
}

/// Applies the resume rule to the length of the file on disk (`None` when
/// there is no file).
pub fn compute_resume_start(
    save_to_file: bool,
    output_bytes: bool,
    total: u64,
    local_len: Option<u64>,
) -> (r: ChunkedResumeOutcome)
    ensures
        r == spec_resume(save_to_file, output_bytes, total, local_len),
{
    if !save_to_file || output_bytes {
        return ChunkedResumeOutcome::DownloadFrom { start: 0 };
    }
    match local_len {
        None => ChunkedResumeOutcome::DownloadFrom { start: 0 },
        Some(len) => if len == total {
            ChunkedResumeOutcome::AlreadyComplete
        } else if len > total {
            ChunkedResumeOutcome::DiscardAndRestart
        } else {
            ChunkedResumeOutcome::DownloadFrom { start: len }
        },
    }
}

/// `ranges` cut `[start, total)` into half-open segments in order: the first
/// begins at `start`, each next one where the previous ends, the last ends at
/// `total`, and all but the last hold exactly `CHUNK_SIZE` bytes (the last at
/// most that, and at least one).
pub open spec fn cuts(ranges: Seq<(u64, u64)>, start: u64, total: u64) -> bool {
    &&& start >= total ==> ranges.len() == 0
    &&& start < total ==> {
        &&& ranges.len() > 0
        &&& ranges[0].0 == start
        &&& ranges.last().1 == total
        &&& forall|k: int| 0 <= k < ranges.len() - 1 ==> #[trigger] ranges[k].1 == ranges[k + 1].0
        &&& forall|k: int|
            0 <= k < ranges.len() - 1 ==> #[trigger] ranges[k].1 - ranges[k].0 == CHUNK_SIZE
        &&& 0 < ranges.last().1 - ranges.last().0 <= CHUNK_SIZE
    }
}

/// The segments of `[start, total)`, in order.
pub fn segment_ranges(start: u64, total: u64) -> (r: Vec<(u64, u64)>)
    ensures
        cuts(r@, start, total),
{
    let mut out: Vec<(u64, u64)> = Vec::new();
    let mut lo = start;
    while lo < total
        invariant
            start < total ==> (out@.len() == 0 ==> lo == start),
            start < total ==> (out@.len() > 0 ==> {
                &&& out@[0].0 == start
                &&& out@.last().1 == lo
                &&& forall|k: int| 0 <= k < out@.len() - 1 ==> #[trigger] out@[k].1 == out@[k + 1].0
                &&& forall|k: int|
                    0 <= k < out@.len() - 1 ==> #[trigger] out@[k].1 - out@[k].0 == CHUNK_SIZE
                &&& 0 < out@.last().1 - out@.last().0 <= CHUNK_SIZE
                &&& lo < total ==> out@.last().1 - out@.last().0 == CHUNK_SIZE
            }),
            start >= total ==> out@.len() == 0 && lo == start,
            lo <= total || lo == start,
        decreases total - lo,
    {
        let hi = if total - lo > CHUNK_SIZE {
            lo + CHUNK_SIZE
        } else {
            total
        };
        let ghost prev = out@;
        out.push((lo, hi));
        proof {
            assert forall|k: int| 0 <= k < out@.len() - 1 implies #[trigger] out@[k].1 == out@[k + 1].0 by {
                if k < prev.len() - 1 {
                    assert(out@[k] == prev[k] && out@[k + 1] == prev[k + 1]);
                }
            }
            assert forall|k: int| 0 <= k < out@.len() - 1 implies #[trigger] out@[k].1 - out@[k].0
                == CHUNK_SIZE by {
                assert(out@[k] == prev[k]);
            }
        }
        lo = hi;
    }
    out
}

/// The value of the `Range` header for the half-open segment `[start, end)`:
/// `bytes=<start>-<end - 1>`, with `end - 1` kept at zero when `end` is zero.
pub open spec fn range_value(start: u64, end: u64) -> Seq<char> {
    let last = if end == 0 { 0 } else { end - 1 };
    seq!['b', 'y', 't', 'e', 's', '='] + decimal(start as nat) + seq!['-'] + decimal(last as nat)
}

/// Builds the `Range` header value for the half-open segment `[start, end)`.
pub fn range_header(start: u64, end: u64) -> (r: String)
    ensures
        r@ == range_value(start, end),
{
    let last: u64 = if end == 0 { 0 } else { end - 1 };
    let mut s = String::new();
    s.append("bytes=");
    let a = decimal_string(start);
    s.append(a.as_str());
    s.append("-");
    let b = decimal_string(last);
    s.append(b.as_str());
    proof {
        reveal_strlit("bytes=");
        reveal_strlit("-");
        assert(s@ =~= range_value(start, end));
    }
    s
}

/// Resume idempotence: once a save-to-file segmented download has left a
/// file of `total` bytes, running it again finds it complete, and a resume
/// at `total` has no segment left to fetch.
pub proof fn lemma_resume_idempotent(total: u64, ranges: Seq<(u64, u64)>)
    requires
        cuts(ranges, total, total),
    ensures
        spec_resume(true, false, total, Some(total)) == ChunkedResumeOutcome::AlreadyComplete,
        ranges.len() == 0,
{
}

} // verus!
