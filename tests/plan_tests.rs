use webdav_fs::download::{DownloadConfig, DownloadError};
use webdav_fs::plan::{
    compute_resume_start, max_concurrent_from_config, plan_download, range_header, segment_ranges,
    ChunkedResumeOutcome, TransferMode, CHUNK_SIZE,
};

const MIB: u64 = 1024 * 1024;

fn config(save: Option<&str>, bytes: bool, chunks: Option<usize>) -> DownloadConfig {
    DownloadConfig { save_path: save.map(|s| s.to_string()), is_output_bytes: bytes, max_concurrent_chunks: chunks }
}

#[test]
fn directory_is_refused() {
    let r = plan_download(true, None, &config(Some("out.bin"), false, None));
    assert!(matches!(r, Err(DownloadError::IsDir)));
    let r = plan_download(true, None, &config(None, false, None));
    assert!(matches!(r, Err(DownloadError::IsDir)));
}

#[test]
fn no_destination_is_refused() {
    let r = plan_download(false, Some(13), &DownloadConfig::default());
    assert!(matches!(r, Err(DownloadError::NoDestination)));
}

#[test]
fn chunked_needs_known_size() {
    let r = plan_download(false, None, &config(Some("a"), false, Some(4)));
    assert!(matches!(r, Err(DownloadError::UnknownFileSizeForChunked)));
    let r = plan_download(false, None, &config(Some("a"), false, Some(1)));
    assert!(matches!(r.unwrap().mode, TransferMode::SingleThread));
}

#[test]
fn mode_selection() {
    let p = plan_download(false, Some(10), &config(None, true, Some(4))).unwrap();
    assert_eq!(p.mode, TransferMode::Chunked { total: 10, max_concurrent: 4 });
    assert!(p.output_bytes);
    let p = plan_download(false, Some(10), &config(Some("x"), false, None)).unwrap();
    assert_eq!(p.mode, TransferMode::SingleThread);
    assert_eq!(p.save_path.as_deref(), Some("x"));
}

#[test]
fn concurrency_bound() {
    assert_eq!(max_concurrent_from_config(&config(None, true, Some(8))), 8);
    assert_eq!(max_concurrent_from_config(&config(None, true, Some(1))), 2);
    assert_eq!(max_concurrent_from_config(&config(None, true, None)), 2);
}

#[test]
fn ten_mib_makes_three_segments() {
    let r = segment_ranges(0, 10 * MIB);
    assert_eq!(r, vec![(0, 4 * MIB), (4 * MIB, 8 * MIB), (8 * MIB, 10 * MIB)]);
    assert_eq!(CHUNK_SIZE, 4 * MIB);
    assert!(segment_ranges(10, 10).is_empty());
    assert_eq!(segment_ranges(0, 1), vec![(0, 1)]);
}

#[test]
fn range_headers() {
    assert_eq!(range_header(0, 4 * MIB), "bytes=0-4194303");
    assert_eq!(range_header(8 * MIB, 10 * MIB), "bytes=8388608-10485759");
    assert_eq!(range_header(0, 0), "bytes=0-0");
}

#[test]
fn resume_rule() {
    let total = 10 * MIB;
    assert_eq!(compute_resume_start(true, false, total, None), ChunkedResumeOutcome::DownloadFrom { start: 0 });
    assert_eq!(compute_resume_start(true, false, total, Some(total)), ChunkedResumeOutcome::AlreadyComplete);
    assert_eq!(compute_resume_start(true, false, total, Some(total + 1)), ChunkedResumeOutcome::DiscardAndRestart);
    assert_eq!(
        compute_resume_start(true, false, total, Some(5 * MIB)),
        ChunkedResumeOutcome::DownloadFrom { start: 5 * MIB }
    );
    assert_eq!(compute_resume_start(true, true, total, Some(5 * MIB)), ChunkedResumeOutcome::DownloadFrom { start: 0 });
    assert_eq!(compute_resume_start(false, true, total, Some(5 * MIB)), ChunkedResumeOutcome::DownloadFrom { start: 0 });
}

#[test]
fn resume_after_five_mib_requests_from_five_mib() {
    let total = 10 * MIB;
    let start = match compute_resume_start(true, false, total, Some(5 * MIB)) {
        ChunkedResumeOutcome::DownloadFrom { start } => start,
        other => panic!("unexpected {:?}", other),
    };
    let r = segment_ranges(start, total);
    assert_eq!(r, vec![(5 * MIB, 9 * MIB), (9 * MIB, 10 * MIB)]);
    assert_eq!(range_header(r[0].0, r[0].1), "bytes=5242880-9437183");
}

#[test]
fn second_run_of_complete_file_fetches_nothing() {
    let total = 10 * MIB;
    assert_eq!(compute_resume_start(true, false, total, Some(total)), ChunkedResumeOutcome::AlreadyComplete);
    assert!(segment_ranges(total, total).is_empty());
}
