use webdav_fs::download::DownloadError;
use webdav_fs::segments::{is_contiguous, sort_by_offset, ByteSegment, ByteSegments};
use webdav_fs::transfer::assemble_segments;

fn seg(offset: u64, data: &[u8]) -> ByteSegment {
    ByteSegment { offset, data: data.to_vec() }
}

fn sample() -> ByteSegments {
    ByteSegments::new(vec![seg(0, b"hello"), seg(5, b", "), seg(7, b"world!")])
}

#[test]
fn total_len_is_end_of_last_segment() {
    assert_eq!(sample().total_len(), 13);
    assert_eq!(ByteSegments::new(Vec::new()).total_len(), 0);
}

#[test]
fn read_at_whole_range_returns_every_byte() {
    let s = sample();
    assert_eq!(s.read_at(0, 13), b"hello, world!".to_vec());
}

#[test]
fn read_at_spans_segment_boundaries() {
    let s = sample();
    assert_eq!(s.read_at(3, 6), b"lo, wo".to_vec());
    assert_eq!(s.read_at(4, 1), b"o".to_vec());
}

#[test]
fn read_at_clips_at_the_end() {
    let s = sample();
    assert_eq!(s.read_at(10, 100), b"ld!".to_vec());
}

#[test]
fn read_at_edges_are_empty() {
    let s = sample();
    assert!(s.read_at(4, 0).is_empty());
    assert!(s.read_at(13, 5).is_empty());
    assert!(s.read_at(200, 5).is_empty());
}

#[test]
fn contiguity_check() {
    assert!(is_contiguous(&vec![seg(0, b"ab"), seg(2, b"cd")]));
    assert!(is_contiguous(&Vec::new()));
    assert!(!is_contiguous(&vec![seg(1, b"ab")]));
    assert!(!is_contiguous(&vec![seg(0, b"ab"), seg(3, b"cd")]));
    assert!(!is_contiguous(&vec![seg(0, b"ab"), seg(1, b"cd")]));
}

#[test]
fn sort_orders_by_offset() {
    let v = sort_by_offset(vec![seg(4, b"e"), seg(0, b"abcd"), seg(5, b"f")]);
    let offs: Vec<u64> = v.iter().map(|s| s.offset).collect();
    assert_eq!(offs, vec![0, 4, 5]);
    assert_eq!(v[0].data, b"abcd".to_vec());
}

#[test]
fn assemble_sorts_and_checks() {
    let bs = assemble_segments(vec![seg(7, b"world!"), seg(0, b"hello"), seg(5, b", ")]).unwrap();
    assert_eq!(bs.total_len(), 13);
    assert_eq!(bs.read_at(0, 13), b"hello, world!".to_vec());
    let gap = assemble_segments(vec![seg(0, b"ab"), seg(5, b"cd")]);
    assert!(matches!(gap, Err(DownloadError::ChunkedInternal(_))));
}
