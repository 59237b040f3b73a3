//! Configuration, progress, results and errors of a download.

use vstd::prelude::*;

use crate::hooks::HookAbort;
use crate::segments::ByteSegments;

verus! {

/// What one download writes to and how it runs.
#[derive(Debug, Clone)]
pub struct DownloadConfig {
    /// File to save to; `None` means no file is written.
    pub save_path: Option<String>,
    /// Whether the bytes are also returned in memory.
    pub is_output_bytes: bool,
    /// Segments fetched at once; `None` or `Some(1)` selects the single-stream path.
    pub max_concurrent_chunks: Option<usize>,
}

impl Default for DownloadConfig {
    fn default() -> (r: Self)
        ensures
            r.save_path is None,
            !r.is_output_bytes,
            r.max_concurrent_chunks is None,
    {
        DownloadConfig { save_path: None, is_output_bytes: false, max_concurrent_chunks: None }
    }
}

/// Bytes received so far and the total size when known.
#[derive(Debug, Clone, Copy, PartialEq, Eq, Structural)]
pub struct DownloadProgress {
    pub bytes_done: u64,
    pub total: Option<u64>,
}

/// Outcome of a successful download.
#[derive(Debug)]
pub enum DownloadResult {
    /// The payload went to the save file only.
    Saved,
    /// The whole payload, from the single-stream path.
    Bytes(Vec<u8>),
    /// The payload as offset-addressed segments, from the segmented path.
    BytesSegments(ByteSegments),
}

/// Why a download failed. Causes that come from the network or the file
/// system are carried as their rendered message.
#[derive(Debug, Clone)]
pub enum DownloadError {
    Request(String),
    CreateFile(String),
    WriteFile(String),
    FlushFile(String),
    SeekFile(String),
    RemoveTempFile(String),
    PreallocateFile(String),
    CloneFile(String),
    IsDir,
    NoDestination,
    Cancelled,
    Paused,
    UnknownFileSizeForChunked,
    TaskJoin(String),
    ChunkFailed { chunk_index: usize, retries: usize, message: String },
    MultipleChunksFailed(Vec<String>),
    ChunkedInternal(String),
    HookAbort(HookAbort),
    RangeNotSupported,
}

/// Default number of retries of a failed segment.
pub const DEFAULT_MAX_RETRIES: usize = 3;

/// Default delay before a retry, in milliseconds.
pub const DEFAULT_RETRY_DELAY_MS: u64 = 1000;

/// What follows a failed attempt at a segment.
#[derive(Debug, Clone)]
pub enum RetryStep {
    /// Try again; this many retries have now been used.
    Retry(usize),
    /// Stop with this error.
    GiveUp(DownloadError),
}

/// Decides what follows a failed attempt at segment `chunk_index` after
/// `retries_done` retries. A cancel or a hook abort is never retried; any
/// other failure is retried while at most `max_retries` retries are used, and
/// then becomes `ChunkFailed` with `message`, the failure's text.
pub fn retry_step(
    chunk_index: usize,
    retries_done: usize,
    max_retries: usize,
    error: DownloadError,
    message: String,
) -> (r: RetryStep)
    requires
        retries_done < usize::MAX,
    ensures
        error is Cancelled ==> (r matches RetryStep::GiveUp(DownloadError::Cancelled)),
        error is HookAbort ==> (r matches RetryStep::GiveUp(DownloadError::HookAbort(_))),
        !(error is Cancelled) && !(error is HookAbort) && retries_done + 1 <= max_retries ==> (r matches RetryStep::Retry(n) && n == retries_done + 1),
        !(error is Cancelled) && !(error is HookAbort) && retries_done + 1 > max_retries ==> (r matches RetryStep::GiveUp(
            DownloadError::ChunkFailed { chunk_index: i, retries: n, message: m },
        ) && i == chunk_index && n == retries_done + 1 && m@ == message@),
{
    match error {
        DownloadError::Cancelled => RetryStep::GiveUp(DownloadError::Cancelled),
        DownloadError::HookAbort(a) => RetryStep::GiveUp(DownloadError::HookAbort(a)),
        _ => {
            let retries = retries_done + 1;
            if retries > max_retries {
                RetryStep::GiveUp(DownloadError::ChunkFailed { chunk_index, retries, message })
            } else {
                RetryStep::Retry(retries)
            }
        },
    }
}

} // verus!
