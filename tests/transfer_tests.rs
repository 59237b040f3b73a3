use webdav_fs::download::{DownloadError, DownloadProgress, DownloadResult};
use webdav_fs::transfer::{assemble_segments, join_outcomes, ChunkedProgress, JoinVerdict, SegmentTask, SingleTransfer};

#[test]
fn single_stream_to_memory_returns_the_body() {
    let (mut t, first) = SingleTransfer::start(Some(13), true);
    assert_eq!(first, DownloadProgress { bytes_done: 0, total: Some(13) });
    let mut last = first;
    for chunk in [&b"hello"[..], b", wor", b"ld!"] {
        let p = t.accept_chunk(chunk, false).unwrap();
        assert!(p.bytes_done >= last.bytes_done);
        last = p;
    }
    assert_eq!(last, DownloadProgress { bytes_done: 13, total: Some(13) });
    match t.finish() {
        DownloadResult::Bytes(b) => assert_eq!(
            b,
            vec![0x68, 0x65, 0x6c, 0x6c, 0x6f, 0x2c, 0x20, 0x77, 0x6f, 0x72, 0x6c, 0x64, 0x21]
        ),
        other => panic!("unexpected {:?}", other),
    }
}

#[test]
fn single_stream_to_file_only_reports_saved() {
    let (mut t, _) = SingleTransfer::start(None, false);
    let p = t.accept_chunk(b"abc", false).unwrap();
    assert_eq!(p, DownloadProgress { bytes_done: 3, total: None });
    assert_eq!(t.bytes_done(), 3);
    assert!(matches!(t.finish(), DownloadResult::Saved));
}

#[test]
fn single_stream_cancel_takes_nothing() {
    let (mut t, _) = SingleTransfer::start(Some(100), true);
    t.accept_chunk(b"0123456789", false).unwrap();
    let r = t.accept_chunk(b"more", true);
    assert!(matches!(r, Err(DownloadError::Cancelled)));
    assert_eq!(t.bytes_done(), 10);
}

#[test]
fn chunked_progress_only_grows() {
    let mut c = ChunkedProgress::new(0, 10);
    let a = c.record(4);
    let b = c.record(0);
    let d = c.record(6);
    assert_eq!(a, DownloadProgress { bytes_done: 4, total: Some(10) });
    assert!(b.bytes_done >= a.bytes_done && d.bytes_done >= b.bytes_done);
    assert_eq!(c.done(), 10);
}

#[test]
fn segment_task_writes_in_order() {
    let mut s = SegmentTask::new(100, 106, true);
    assert_eq!(s.accept_chunk(b"abc", false).unwrap(), 100);
    assert_eq!(s.accept_chunk(b"def", false).unwrap(), 103);
    let seg = s.finish().unwrap().unwrap();
    assert_eq!(seg.offset, 100);
    assert_eq!(seg.data, b"abcdef".to_vec());
}

#[test]
fn segment_task_errors() {
    let mut s = SegmentTask::new(0, 4, false);
    assert!(matches!(s.accept_chunk(b"abcde", false), Err(DownloadError::RangeNotSupported)));
    assert!(matches!(s.accept_chunk(b"ab", true), Err(DownloadError::Cancelled)));
    s.accept_chunk(b"ab", false).unwrap();
    assert!(matches!(s.finish(), Err(DownloadError::ChunkedInternal(_))));
    let mut t = SegmentTask::new(0, 2, false);
    t.accept_chunk(b"ab", false).unwrap();
    assert!(matches!(t.finish(), Ok(None)));
}

#[test]
fn join_picks_first_failure() {
    let v: Vec<Result<(), DownloadError>> =
        vec![Ok(()), Err(DownloadError::Cancelled), Err(DownloadError::RangeNotSupported), Err(DownloadError::IsDir)];
    assert_eq!(join_outcomes(&v), JoinVerdict::Failed(2));
    let v: Vec<Result<(), DownloadError>> = vec![Ok(()), Err(DownloadError::Cancelled)];
    assert_eq!(join_outcomes(&v), JoinVerdict::Cancelled);
    let v: Vec<Result<(), DownloadError>> = vec![Ok(()), Ok(())];
    assert_eq!(join_outcomes(&v), JoinVerdict::AllDone);
}

#[test]
fn ten_mib_segmented_output_reassembles() {
    let total: usize = 10 * 1024 * 1024;
    let file: Vec<u8> = (0..total).map(|i| (i % 251) as u8).collect();
    let ranges = webdav_fs::plan::segment_ranges(0, total as u64);
    assert_eq!(ranges.len(), 3);
    let mut collected = Vec::new();
    for (lo, hi) in ranges.iter().rev() {
        let mut task = SegmentTask::new(*lo, *hi, true);
        for part in file[*lo as usize..*hi as usize].chunks(65536) {
            task.accept_chunk(part, false).unwrap();
        }
        collected.push(task.finish().unwrap().unwrap());
    }
    let bs = assemble_segments(collected).unwrap();
    assert_eq!(bs.total_len(), total as u64);
    assert!(bs.read_at(0, total) == file);
    assert_eq!(bs.read_at(4 * 1024 * 1024 - 2, 4), file[4 * 1024 * 1024 - 2..4 * 1024 * 1024 + 2].to_vec());
}
