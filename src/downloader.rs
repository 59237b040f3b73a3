//! The downloader of one remote file: its configuration, its hooks, the last
//! progress it published, and the checks that precede any transfer.

use vstd::prelude::*;

use crate::download::{DownloadConfig, DownloadError, DownloadProgress};
use crate::files::{same_record, RemoteFile};
use crate::hooks::{
    aborted,
    after_calls,
    before_start_run,
    chunk_calls,
    progress_calls,
    DownloadHook,
    DownloadHooksContainer,
    HookEvent,
};
use crate::plan::{has_destination, plan_download, wants_chunked, DownloadPlan, TransferMode};
use crate::text::opt_view;
use crate::webdav::RemoteFileData;

verus! {

/// Whether a download of `file` under `config` passes validation: not a
/// directory, a known size when segmented, and at least one sink.
pub open spec fn valid_download(file: RemoteFileData, config: DownloadConfig) -> bool {
    &&& !file.is_dir
    &&& !(wants_chunked(config) && file.size is None)
    &&& has_destination(config)
}

/// A configured download of one remote file.
pub struct RemoteFileDownloader<H: DownloadHook> {
    file_data: RemoteFileData,
    config: DownloadConfig,
    hooks: DownloadHooksContainer<H>,
    progress: DownloadProgress,
}

/// A downloader for `remote_file` with the default configuration, no hooks,
/// and progress at zero bytes of the file's size.
pub fn build_downloader<H: DownloadHook>(remote_file: &RemoteFile) -> (r: RemoteFileDownloader<H>)
    ensures
        same_record(r.file(), remote_file.data),
        r.config().save_path is None,
        !r.config().is_output_bytes,
        r.config().max_concurrent_chunks is None,
        r.hooks().len() == 0,
        !r.hooks().cancel_flag(),
        r.hooks().log() == Seq::<HookEvent>::empty(),
        r.spec_progress() == (DownloadProgress { bytes_done: 0, total: remote_file.data.size }),
{
    RemoteFileDownloader {
        file_data: remote_file.data.duplicate(),
        config: DownloadConfig { save_path: None, is_output_bytes: false, max_concurrent_chunks: None },
        hooks: DownloadHooksContainer::new(),
        progress: DownloadProgress { bytes_done: 0, total: remote_file.data.size },
    }
}

impl RemoteFile {
    /// A downloader for this file (see `build_downloader`).
    pub fn build_downloader<H: DownloadHook>(&self) -> (r: RemoteFileDownloader<H>)
        ensures
            same_record(r.file(), self.data),
            r.config().save_path is None,
            !r.config().is_output_bytes,
            r.config().max_concurrent_chunks is None,
            r.hooks().len() == 0,
            !r.hooks().cancel_flag(),
            r.hooks().log() == Seq::<HookEvent>::empty(),
            r.spec_progress() == (DownloadProgress { bytes_done: 0, total: self.data.size }),
    {
        build_downloader(self)
    }
}

impl<H: DownloadHook> RemoteFileDownloader<H> {
    pub closed spec fn file(&self) -> RemoteFileData {
        self.file_data
    }

    pub closed spec fn config(&self) -> DownloadConfig {
        self.config
    }

    pub closed spec fn hooks(&self) -> DownloadHooksContainer<H> {
        self.hooks
    }

    /// The last progress published.
    pub closed spec fn spec_progress(&self) -> DownloadProgress {
        self.progress
    }

    /// Saves to `path`; an empty path means no file is written.
    pub fn save_to(self, path: &str) -> (r: Self)
        ensures
            path@.len() == 0 ==> r.config().save_path is None,
            path@.len() > 0 ==> opt_view(r.config().save_path) == Some(path@),
            r.config().is_output_bytes == self.config().is_output_bytes,
            r.config().max_concurrent_chunks == self.config().max_concurrent_chunks,
            r.file() == self.file(),
            r.hooks() == self.hooks(),
            r.spec_progress() == self.spec_progress(),
    {
        let mut d = self;
        d.config.save_path = if path.unicode_len() == 0 {
            None
        } else {
            Some(path.to_string())
        };
        d
    }

    /// Also returns the bytes in memory.
    pub fn output_bytes(self) -> (r: Self)
        ensures
            r.config().is_output_bytes,
            r.config().save_path == self.config().save_path,
            r.config().max_concurrent_chunks == self.config().max_concurrent_chunks,
            r.file() == self.file(),
            r.hooks() == self.hooks(),
            r.spec_progress() == self.spec_progress(),
    {
        let mut d = self;
        d.config.is_output_bytes = true;
        d
    }

    /// Sets how many segments are fetched at once; above one selects the
    /// segmented path.
    pub fn max_concurrent_chunks(self, n: usize) -> (r: Self)
        ensures
            r.config().max_concurrent_chunks == Some(n),
            r.config().save_path == self.config().save_path,
            r.config().is_output_bytes == self.config().is_output_bytes,
            r.file() == self.file(),
            r.hooks() == self.hooks(),
            r.spec_progress() == self.spec_progress(),
    {
        let mut d = self;
        d.config.max_concurrent_chunks = Some(n);
        d
    }

    /// Registers a hook after those already registered.
    pub fn with_hook(self, hook: H) -> (r: Self)
        ensures
            r.hooks().hook_seq() == self.hooks().hook_seq().push(hook),
            r.hooks().log() == self.hooks().log(),
            r.hooks().cancel_flag() == self.hooks().cancel_flag(),
            r.config() == self.config(),
            r.file() == self.file(),
            r.spec_progress() == self.spec_progress(),
    {
        let mut d = self;
        d.hooks.add(hook);
        d
    }

    /// The last progress published.
    pub fn progress(&self) -> (r: DownloadProgress)
        ensures
            r == self.spec_progress(),
    {
        self.progress
    }

    /// The file being downloaded.
    pub fn file_data(&self) -> (r: &RemoteFileData)
        ensures
            *r == self.file(),
    {
        &self.file_data
    }

    /// The configuration.
    pub fn download_config(&self) -> (r: &DownloadConfig)
        ensures
            *r == self.config(),
    {
        &self.config
    }

    /// Records a newly published progress.
    pub fn publish(&mut self, p: DownloadProgress)
        ensures
            final(self).spec_progress() == p,
            final(self).file() == old(self).file(),
            final(self).config() == old(self).config(),
            final(self).hooks() == old(self).hooks(),
    {
        self.progress = p;
    }

    /// Asks the transfer to stop at the next chunk boundary.
    pub fn request_cancel(&mut self)
        ensures
            final(self).hooks().cancel_flag(),
            final(self).hooks().len() == old(self).hooks().len(),
            final(self).hooks().log() == old(self).hooks().log(),
            final(self).file() == old(self).file(),
            final(self).config() == old(self).config(),
            final(self).spec_progress() == old(self).spec_progress(),
    {
        self.hooks.request_cancel();
    }

    /// Whether a cancel has been requested.
    pub fn cancel_requested(&self) -> (r: bool)
        ensures
            r == self.hooks().cancel_flag(),
    {
        self.hooks.cancel_requested()
    }

    /// Runs `on_chunk` and then `on_progress` of every hook, in registration
    /// order, for one received chunk.
    pub fn notify_chunk(&mut self, chunk: &[u8], p: DownloadProgress)
        ensures
            final(self).hooks().len() == old(self).hooks().len(),
            final(self).hooks().cancel_flag() == old(self).hooks().cancel_flag(),
            final(self).hooks().log() == old(self).hooks().log() + chunk_calls(
                old(self).hooks().len() as int,
                chunk@,
            ) + progress_calls(old(self).hooks().len() as int, p.bytes_done, p.total),
            final(self).file() == old(self).file(),
            final(self).config() == old(self).config(),
            final(self).spec_progress() == old(self).spec_progress(),
    {
        self.hooks.run_on_chunk(chunk);
        self.hooks.run_on_progress(p.bytes_done, p.total);
    }

    /// Runs `after_complete` of every hook, in registration order.
    pub fn complete(&mut self)
        ensures
            final(self).hooks().len() == old(self).hooks().len(),
            final(self).hooks().cancel_flag() == old(self).hooks().cancel_flag(),
            final(self).hooks().log() == old(self).hooks().log() + after_calls(old(self).hooks().len() as int),
            final(self).file() == old(self).file(),
            final(self).config() == old(self).config(),
            final(self).spec_progress() == old(self).spec_progress(),
    {
        self.hooks.run_after_complete();
    }

    /// Everything that precedes network and file work. The download is
    /// validated first: `IsDir`, `UnknownFileSizeForChunked` and
    /// `NoDestination` come exactly on the inputs that call for them, with no
    /// hook called and the progress untouched. A valid download then runs
    /// every `before_start` hook in order: if one aborts, the result is
    /// `HookAbort`, the progress is untouched and no plan is handed out;
    /// otherwise the progress becomes zero bytes of the file's size and the
    /// plan is returned.
    pub fn prepare(&mut self) -> (r: Result<DownloadPlan, DownloadError>)
        ensures
            final(self).file() == old(self).file(),
            final(self).config() == old(self).config(),
            final(self).hooks().len() == old(self).hooks().len(),
            final(self).hooks().cancel_flag() == old(self).hooks().cancel_flag(),
            (r matches Err(DownloadError::IsDir)) <==> old(self).file().is_dir,
            (r matches Err(DownloadError::UnknownFileSizeForChunked)) <==> (!old(self).file().is_dir
                && wants_chunked(old(self).config()) && old(self).file().size is None),
            (r matches Err(DownloadError::NoDestination)) <==> (!old(self).file().is_dir && !(
            wants_chunked(old(self).config()) && old(self).file().size is None) && !has_destination(
                old(self).config(),
            )),
            !valid_download(old(self).file(), old(self).config()) ==> {
                &&& final(self).hooks().log() == old(self).hooks().log()
                &&& final(self).spec_progress() == old(self).spec_progress()
            },
            valid_download(old(self).file(), old(self).config()) ==> (r is Ok || r matches Err(
                DownloadError::HookAbort(_),
            )),
            valid_download(old(self).file(), old(self).config()) ==> ({
                let calls = final(self).hooks().log().subrange(
                    old(self).hooks().log().len() as int,
                    final(self).hooks().log().len() as int,
                );
                &&& old(self).hooks().log().is_prefix_of(final(self).hooks().log())
                &&& before_start_run(calls, old(self).hooks().len() as int)
                &&& r is Ok <==> forall|k: int| 0 <= k < calls.len() ==> !aborted(#[trigger] calls[k])
                &&& r is Ok ==> calls.len() == old(self).hooks().len()
                &&& (r matches Err(DownloadError::HookAbort(_))) ==> calls.len() > 0 && aborted(
                    calls.last(),
                )
            }),
            (r matches Err(DownloadError::HookAbort(_))) ==> final(self).spec_progress() == old(
                self,
            ).spec_progress(),
            r matches Ok(p) ==> {
                &&& final(self).spec_progress() == (DownloadProgress {
                    bytes_done: 0,
                    total: old(self).file().size,
                })
                &&& p.output_bytes == old(self).config().is_output_bytes
                &&& p.save_path == old(self).config().save_path
                &&& p.total == old(self).file().size
                &&& wants_chunked(old(self).config()) <==> p.mode is Chunked
            },
    {
        let plan = match plan_download(self.file_data.is_dir, self.file_data.size, &self.config) {
            Ok(p) => p,
            Err(e) => {
                return Err(e);
            },
        };
        match self.hooks.run_before_start() {
            Ok(()) => {},
            Err(abort) => {
                return Err(DownloadError::HookAbort(abort));
            },
        }
        self.progress = DownloadProgress { bytes_done: 0, total: self.file_data.size };
        Ok(plan)
    }
}

} // verus!
