//! Bookkeeping of a transfer while bytes arrive: the single-stream transfer,
//! one segment of a segmented transfer, the shared progress counter, joining
//! segment outcomes and assembling the segments.

use vstd::prelude::*;
use vstd::string::StringExecFns;

use crate::download::{DownloadError, DownloadProgress, DownloadResult};
use crate::plan::cuts;
use crate::segments::{
    concat_bytes,
    segment_end,
    contiguous,
    covered_len,
    lemma_reassembly,
    segments_match,
    is_contiguous,
    sort_by_offset,
    sorted_by_offset,
    ByteSegment,
    ByteSegments,
};

verus! {

/// Appends a copy of `chunk` to `buf`.
fn append_bytes(buf: &mut Vec<u8>, chunk: &[u8])
    ensures
        final(buf)@ == old(buf)@ + chunk@,
{
    let len = chunk.len();
    let mut i: usize = 0;
    while i < len
        invariant
            len == chunk@.len(),
            0 <= i <= len,
            buf@ == old(buf)@ + chunk@.subrange(0, i as int),
        decreases len - i,
    {
        buf.push(chunk[i]);
        i = i + 1;
    }
    proof {
        assert(chunk@.subrange(0, len as int) =~= chunk@);
    }
}

/// State of a single-stream transfer: bytes counted so far and, when the
/// bytes are kept in memory, the buffer that holds them.
pub struct SingleTransfer {
    bytes_done: u64,
    total: Option<u64>,
    output_bytes: bool,
    buffer: Vec<u8>,
    received: Ghost<Seq<u8>>,
}

impl SingleTransfer {
    /// Every byte accepted so far, in order.
    pub closed spec fn received(&self) -> Seq<u8> {
        self.received@
    }

    /// The total size the progress reports.
    pub closed spec fn spec_total(&self) -> Option<u64> {
        self.total
    }

    /// Whether the bytes are kept in memory.
    pub closed spec fn keeps_bytes(&self) -> bool {
        self.output_bytes
    }

    pub closed spec fn wf(&self) -> bool {
        &&& self.bytes_done == self.received@.len()
        &&& self.output_bytes ==> self.buffer@ == self.received@
    }

    /// A transfer with nothing received, and the first progress to publish:
    /// zero bytes of `total`.
    pub fn start(total: Option<u64>, output_bytes: bool) -> (r: (Self, DownloadProgress))
        ensures
            r.0.wf(),
            r.0.received() == Seq::<u8>::empty(),
            r.0.spec_total() == total,
            r.0.keeps_bytes() == output_bytes,
            r.1 == (DownloadProgress { bytes_done: 0, total }),
    {
        let t = SingleTransfer {
            bytes_done: 0,
            total,
            output_bytes,
            buffer: Vec::new(),
            received: Ghost(Seq::empty()),
        };
        (t, DownloadProgress { bytes_done: 0, total })
    }

    /// Bytes accepted so far.
    pub fn bytes_done(&self) -> (r: u64)
        requires
            self.wf(),
        ensures
            r == self.received().len(),
    {
        self.bytes_done
    }

    /// Takes the next chunk of the stream. A requested cancel wins and leaves
    /// the transfer as it was; otherwise the chunk is counted (and kept when
    /// bytes are kept) and the progress to publish is returned.
    pub fn accept_chunk(&mut self, chunk: &[u8], cancel_requested: bool) -> (r: Result<
        DownloadProgress,
        DownloadError,
    >)
        requires
            old(self).wf(),
            old(self).received().len() + chunk@.len() <= u64::MAX,
        ensures
            final(self).wf(),
            final(self).spec_total() == old(self).spec_total(),
            final(self).keeps_bytes() == old(self).keeps_bytes(),
            cancel_requested ==> (r matches Err(DownloadError::Cancelled)),
            cancel_requested ==> final(self).received() == old(self).received(),
            r matches Ok(p) ==> p.bytes_done >= old(self).received().len(),
            !cancel_requested ==> {
                &&& final(self).received() == old(self).received() + chunk@
                &&& r == Ok::<DownloadProgress, DownloadError>(
                    DownloadProgress {
                        bytes_done: final(self).received().len() as u64,
                        total: old(self).spec_total(),
                    },
                )
            },
    {
        if cancel_requested {
            return Err(DownloadError::Cancelled);
        }
        let len = chunk.len();
        if self.output_bytes {
            append_bytes(&mut self.buffer, chunk);
        }
        self.received = Ghost(self.received@ + chunk@);
        self.bytes_done = self.bytes_done + len as u64;
        Ok(DownloadProgress { bytes_done: self.bytes_done, total: self.total })
    }

    /// The result once the stream has ended: every received byte when bytes
    /// are kept, else `Saved`.
    pub fn finish(self) -> (r: DownloadResult)
        requires
            self.wf(),
        ensures
            self.keeps_bytes() ==> (r matches DownloadResult::Bytes(b) && b@ == self.received()),
            !self.keeps_bytes() ==> r matches DownloadResult::Saved,
    {
        if self.output_bytes {
            DownloadResult::Bytes(self.buffer)
        } else {
            DownloadResult::Saved
        }
    }
}

/// Shared count of the bytes all segments have received.
pub struct ChunkedProgress {
    done: u64,
    total: u64,
}

impl ChunkedProgress {
    pub closed spec fn spec_done(&self) -> u64 {
        self.done
    }

    pub closed spec fn spec_total(&self) -> u64 {
        self.total
    }

    /// A counter that starts at `done` bytes of `total`.
    pub fn new(done: u64, total: u64) -> (r: Self)
        ensures
            r.spec_done() == done,
            r.spec_total() == total,
    {
        ChunkedProgress { done, total }
    }

    /// Bytes counted so far.
    pub fn done(&self) -> (r: u64)
        ensures
            r == self.spec_done(),
    {
        self.done
    }

    /// Counts `len` more bytes and returns the progress to publish, which
    /// never goes below any earlier one.
    pub fn record(&mut self, len: u64) -> (r: DownloadProgress)
        requires
            old(self).spec_done() + len <= u64::MAX,
        ensures
            final(self).spec_done() == old(self).spec_done() + len,
            final(self).spec_total() == old(self).spec_total(),
            r == (DownloadProgress { bytes_done: final(self).spec_done(), total: Some(old(self).spec_total()) }),
            r.bytes_done >= old(self).spec_done(),
    {
        self.done = self.done + len;
        DownloadProgress { bytes_done: self.done, total: Some(self.total) }
    }
}

/// State of one segment `[start, end)` of a segmented transfer: where the
/// next bytes go and, when bytes are kept, the segment's buffer.
pub struct SegmentTask {
    start: u64,
    end: u64,
    next: u64,
    keep: bool,
    buffer: Vec<u8>,
    received: Ghost<Seq<u8>>,
}

impl SegmentTask {
    pub closed spec fn spec_start(&self) -> u64 {
        self.start
    }

    pub closed spec fn spec_end(&self) -> u64 {
        self.end
    }

    /// Bytes of this segment received so far.
    pub closed spec fn received(&self) -> Seq<u8> {
        self.received@
    }

    pub closed spec fn keeps_bytes(&self) -> bool {
        self.keep
    }

    pub closed spec fn wf(&self) -> bool {
        &&& self.start <= self.next <= self.end
        &&& self.next - self.start == self.received@.len()
        &&& self.keep ==> self.buffer@ == self.received@
    }

    /// A segment `[start, end)` with nothing received.
    pub fn new(start: u64, end: u64, keep: bool) -> (r: Self)
        requires
            start <= end,
        ensures
            r.wf(),
            r.spec_start() == start,
            r.spec_end() == end,
            r.keeps_bytes() == keep,
            r.received() == Seq::<u8>::empty(),
    {
        SegmentTask { start, end, next: start, keep, buffer: Vec::new(), received: Ghost(Seq::empty()) }
    }

    /// Takes the next chunk of the segment's response. A requested cancel
    /// wins; bytes beyond the segment's end mean the server ignored the range.
    /// Otherwise the chunk is taken and the file offset to write it at is
    /// returned: right after the bytes already received.
    pub fn accept_chunk(&mut self, chunk: &[u8], cancel_requested: bool) -> (r: Result<u64, DownloadError>)
        requires
            old(self).wf(),
        ensures
            final(self).wf(),
            final(self).spec_start() == old(self).spec_start(),
            final(self).spec_end() == old(self).spec_end(),
            final(self).keeps_bytes() == old(self).keeps_bytes(),
            cancel_requested ==> r matches Err(DownloadError::Cancelled),
            !cancel_requested && old(self).spec_start() + old(self).received().len() + chunk@.len()
                > old(self).spec_end() ==> r matches Err(DownloadError::RangeNotSupported),
            r is Err ==> final(self).received() == old(self).received(),
            r is Ok <==> !cancel_requested && old(self).spec_start() + old(self).received().len()
                + chunk@.len() <= old(self).spec_end(),
            r matches Ok(at) ==> {
                &&& at == old(self).spec_start() + old(self).received().len()
                &&& final(self).received() == old(self).received() + chunk@
            },
    {
        if cancel_requested {
            return Err(DownloadError::Cancelled);
        }
        let len = chunk.len();
        if len as u64 > self.end - self.next {
            return Err(DownloadError::RangeNotSupported);
        }
        let at = self.next;
        if self.keep {
            append_bytes(&mut self.buffer, chunk);
        }
        self.received = Ghost(self.received@ + chunk@);
        self.next = self.next + len as u64;
        Ok(at)
    }

    /// Closes the segment once its response has ended. A response shorter
    /// than the segment fails; otherwise the segment's bytes are handed out
    /// at its offset when they are kept.
    pub fn finish(self) -> (r: Result<Option<ByteSegment>, DownloadError>)
        requires
            self.wf(),
        ensures
            r is Ok <==> self.spec_start() + self.received().len() == self.spec_end(),
            r is Err ==> (r matches Err(DownloadError::ChunkedInternal(_))),
            r matches Ok(o) ==> (self.keeps_bytes() <==> o is Some),
            r matches Ok(Some(seg)) ==> seg.offset == self.spec_start() && seg.data@ == self.received(),
    {
        if self.next != self.end {
            return Err(DownloadError::ChunkedInternal(String::from_str("segment response ended early")));
        }
        if self.keep {
            Ok(Some(ByteSegment { offset: self.start, data: self.buffer }))
        } else {
            Ok(None)
        }
    }
}

/// How a set of finished segment tasks ends the transfer.
#[derive(Debug, Clone, Copy, PartialEq, Eq, Structural)]
pub enum JoinVerdict {
    /// Every segment succeeded.
    AllDone,
    /// No segment failed, but at least one observed a cancel.
    Cancelled,
    /// The segment at this index failed first with something other than a cancel.
    Failed(usize),
}

/// A segment outcome that is a real failure: an error that is not a cancel.
pub open spec fn is_failure(o: Result<(), DownloadError>) -> bool {
    o is Err && !(o matches Err(DownloadError::Cancelled))
}

/// Joins segment outcomes in segment order: the first real failure decides;
/// without one, any cancel makes the transfer cancelled; else all is done.
pub fn join_outcomes(outcomes: &Vec<Result<(), DownloadError>>) -> (r: JoinVerdict)
    ensures
        r matches JoinVerdict::Failed(i) ==> i < outcomes@.len() && is_failure(outcomes@[i as int])
            && forall|k: int| 0 <= k < i ==> !is_failure(#[trigger] outcomes@[k]),
        r == JoinVerdict::Cancelled ==> (forall|k: int|
            0 <= k < outcomes@.len() ==> !is_failure(#[trigger] outcomes@[k])) && exists|k: int|
            0 <= k < outcomes@.len() && #[trigger] outcomes@[k] is Err,
        r == JoinVerdict::AllDone <==> forall|k: int|
            0 <= k < outcomes@.len() ==> #[trigger] outcomes@[k] is Ok,
{
    let n = outcomes.len();
    let mut i: usize = 0;
    let mut cancelled = false;
    let mut at: usize = 0;
    while i < n
        invariant
            n == outcomes@.len(),
            0 <= i <= n,
            forall|k: int| 0 <= k < i ==> !is_failure(#[trigger] outcomes@[k]),
            cancelled <==> exists|k: int| 0 <= k < i && #[trigger] outcomes@[k] is Err,
            cancelled ==> at < i && outcomes@[at as int] is Err,
        decreases n - i,
    {
        match &outcomes[i] {
            Ok(()) => {},
            Err(DownloadError::Cancelled) => {
                cancelled = true;
                at = i;
            },
            Err(_) => {
                return JoinVerdict::Failed(i);
            },
        }
        i = i + 1;
    }
    if cancelled {
        JoinVerdict::Cancelled
    } else {
        proof {
            assert forall|k: int| 0 <= k < outcomes@.len() implies #[trigger] outcomes@[k] is Ok by {
                if outcomes@[k] is Err {
                    assert(exists|j: int| 0 <= j < i && #[trigger] outcomes@[j] is Err);
                }
            }
        }
        JoinVerdict::AllDone
    }
}

/// Puts collected segments in offset order and checks that they cover the
/// file back to back. On success the view holds exactly the collected
/// segments, sorted by offset.
pub fn assemble_segments(collected: Vec<ByteSegment>) -> (r: Result<ByteSegments, DownloadError>)
    ensures
        r matches Ok(bs) ==> {
            &&& bs.wf()
            &&& sorted_by_offset(bs.segs())
            &&& bs.segs().to_multiset() == collected@.to_multiset()
            &&& contiguous(bs.segs())
        },
        r is Err ==> r matches Err(DownloadError::ChunkedInternal(_)),
        r is Err ==> exists|s: Seq<ByteSegment>|
            #[trigger] s.to_multiset() == collected@.to_multiset() && sorted_by_offset(s) && !(
            contiguous(s) && covered_len(s) <= u64::MAX),
{
    let ghost c = collected@;
    let sorted = sort_by_offset(collected);
    if is_contiguous(&sorted) {
        Ok(ByteSegments::new(sorted))
    } else {
        proof {
            assert(sorted@.to_multiset() == c.to_multiset());
        }
        Err(DownloadError::ChunkedInternal(String::from_str("segments do not cover the file")))
    }
}

/// Total bytes of a list of half-open ranges.
pub open spec fn ranges_len(r: Seq<(u64, u64)>) -> int
    decreases r.len(),
{
    if r.len() == 0 {
        0
    } else {
        ranges_len(r.drop_last()) + (r.last().1 - r.last().0)
    }
}

/// Ranges that follow one another from `s` to `t`, none of them reversed.
pub open spec fn chained(r: Seq<(u64, u64)>, s: int, t: int) -> bool {
    &&& r.len() == 0 ==> s == t
    &&& r.len() > 0 ==> {
        &&& r[0].0 == s
        &&& r.last().1 == t
        &&& forall|k: int| 0 <= k < r.len() - 1 ==> #[trigger] r[k].1 == r[k + 1].0
        &&& forall|k: int| 0 <= k < r.len() ==> #[trigger] r[k].0 <= r[k].1
    }
}

proof fn lemma_chained_len(r: Seq<(u64, u64)>, s: int, t: int)
    requires
        chained(r, s, t),
    ensures
        ranges_len(r) == t - s,
    decreases r.len(),
{
    if r.len() > 0 {
        let init = r.drop_last();
        if init.len() > 0 {
            assert(init[init.len() - 1].1 == r[r.len() - 1].0);
            assert forall|k: int| 0 <= k < init.len() - 1 implies #[trigger] init[k].1 == init[k + 1].0 by {
                assert(r[k].1 == r[k + 1].0);
            }
            assert forall|k: int| 0 <= k < init.len() implies #[trigger] init[k].0 <= init[k].1 by {
                assert(r[k].0 <= r[k].1);
            }
        }
        lemma_chained_len(init, s, r.last().0 as int);
        assert(r[r.len() - 1].0 <= r[r.len() - 1].1);
    }
}

/// The segments of `[start, total)` hold `total - start` bytes in all, so a
/// file resumed at `start` ends with exactly `total` bytes once every
/// segment has been written.
pub proof fn lemma_cuts_cover(ranges: Seq<(u64, u64)>, start: u64, total: u64)
    requires
        cuts(ranges, start, total),
        start <= total,
    ensures
        ranges_len(ranges) == total - start,
        start as int + ranges_len(ranges) == total as int,
{
    if start < total {
        assert forall|k: int| 0 <= k < ranges.len() implies #[trigger] ranges[k].0 <= ranges[k].1 by {
            if k < ranges.len() - 1 {
                assert(ranges[k].1 - ranges[k].0 == crate::plan::CHUNK_SIZE);
            }
        }
    }
    lemma_chained_len(ranges, start as int, total as int);
}

/// Segmented output: segments placed at the cuts of `[0, file.len())`, each
/// holding the file's bytes of its range, are contiguous, cover exactly the
/// file's length, and concatenated in offset order give back the file.
pub proof fn lemma_segmented_output(segs: Seq<ByteSegment>, ranges: Seq<(u64, u64)>, file: Seq<u8>)
    requires
        file.len() <= u64::MAX,
        cuts(ranges, 0, file.len() as u64),
        segs.len() == ranges.len(),
        forall|k: int|
            0 <= k < segs.len() ==> #[trigger] segs[k].offset == ranges[k].0 && segs[k].data@
                == file.subrange(ranges[k].0 as int, ranges[k].1 as int),
    ensures
        contiguous(segs),
        covered_len(segs) == file.len(),
        concat_bytes(segs) == file,
{
    if file.len() > 0 {
        assert forall|k: int| 0 <= k < ranges.len() implies #[trigger] ranges[k].0 <= ranges[k].1 && ranges[k].1 <= file.len() by {
            lemma_cut_bounds(ranges, file.len() as u64, k);
        }
        assert forall|k: int| 0 <= k < segs.len() implies segment_end(#[trigger] segs[k]) == ranges[k].1 by {
            assert(segs[k].offset == ranges[k].0);
            assert(ranges[k].0 <= ranges[k].1 && ranges[k].1 <= file.len());
        }
        assert(contiguous(segs)) by {
            assert forall|i: int| 1 <= i < segs.len() implies #[trigger] segs[i].offset == segment_end(segs[i - 1]) by {
                assert(segment_end(segs[i - 1]) == ranges[i - 1].1);
                assert(ranges[i - 1].1 == ranges[i - 1 + 1].0);
            }
        }
        assert(segment_end(segs[segs.len() - 1]) == ranges[ranges.len() - 1].1);
        assert(segments_match(segs, file)) by {
            assert forall|i: int| 0 <= i < segs.len() implies segment_end(#[trigger] segs[i]) <= file.len()
                && segs[i].data@ == file.subrange(segs[i].offset as int, segment_end(segs[i])) by {
                assert(segment_end(segs[i]) == ranges[i].1);
            }
        }
        lemma_reassembly(segs, file);
    } else {
        assert(concat_bytes(segs) =~= file);
    }
}

/// Every cut of `[0, total)` lies within `[0, total]` and is not reversed.
proof fn lemma_cut_bounds(ranges: Seq<(u64, u64)>, total: u64, k: int)
    requires
        cuts(ranges, 0, total),
        0 < total,
        0 <= k < ranges.len(),
    ensures
        ranges[k].0 <= ranges[k].1 <= total,
    decreases ranges.len() - k,
{
    if k < ranges.len() - 1 {
        lemma_cut_bounds(ranges, total, k + 1);
        assert(ranges[k].1 == ranges[k + 1].0);
        assert(ranges[k].1 - ranges[k].0 == crate::plan::CHUNK_SIZE);
    }
}

/// Whether the answer to a range request for `[lo, hi)` can be used: a
/// `206 Partial Content`, or a plain `200` carrying exactly the bytes asked
/// for when the range starts at zero.
pub open spec fn spec_range_response_usable(status: u16, lo: u64, hi: u64, content_length: Option<u64>) -> bool {
    status == 206 || (status == 200 && lo == 0 && content_length == Some(hi))
}

/// Whether the answer to a range request for `[lo, hi)` can be used (see
/// `spec_range_response_usable`); otherwise the server ignored the range.
pub fn range_response_usable(status: u16, lo: u64, hi: u64, content_length: Option<u64>) -> (r: bool)
    ensures
        r == spec_range_response_usable(status, lo, hi, content_length),
{
    status == 206 || (status == 200 && lo == 0 && match content_length {
        Some(n) => n == hi,
        None => false,
    })
}

/// Offsets that strictly increase along the sequence.
pub open spec fn strictly_sorted(segs: Seq<ByteSegment>) -> bool {
    forall|i: int, j: int| 0 <= i < j < segs.len() ==> #[trigger] segs[i].offset < #[trigger] segs[j].offset
}

/// A sequence sorted by offset holding the same segments as one whose
/// offsets strictly increase is that sequence.
pub proof fn lemma_sorted_unique(s1: Seq<ByteSegment>, s2: Seq<ByteSegment>)
    requires
        sorted_by_offset(s1),
        strictly_sorted(s2),
        s1.to_multiset() == s2.to_multiset(),
    ensures
        s1 == s2,
    decreases s1.len(),
{
    broadcast use vstd::seq_lib::group_to_multiset_ensures, vstd::multiset::group_multiset_axioms;

    assert(s1.len() == s1.to_multiset().len());
    assert(s2.len() == s2.to_multiset().len());
    if s1.len() > 0 {
        let x = s1[0];
        let y = s2[0];
        assert(s1.contains(x));
        assert(s2.to_multiset().count(x) > 0);
        assert(s2.contains(x));
        let k = choose|k: int| 0 <= k < s2.len() && s2[k] == x;
        assert(s1.to_multiset().count(y) > 0 && s2.contains(y));
        assert(s1.contains(y));
        let m = choose|m: int| 0 <= m < s1.len() && s1[m] == y;
        if m > 0 {
            assert(s1[0].offset <= s1[m].offset);
        }
        if k > 0 {
            assert(s2[0].offset < s2[k].offset);
        }
        assert(k == 0);
        vstd::seq_lib::to_multiset_remove(s1, 0);
        vstd::seq_lib::to_multiset_remove(s2, 0);
        assert(s1.remove(0) =~= s1.drop_first());
        assert(s2.remove(0) =~= s2.drop_first());
        assert(sorted_by_offset(s1.drop_first())) by {
            assert forall|i: int, j: int| 0 <= i < j < s1.drop_first().len() implies #[trigger] s1.drop_first()[i].offset
                <= #[trigger] s1.drop_first()[j].offset by {
                assert(s1[i + 1].offset <= s1[j + 1].offset);
            }
        }
        assert(strictly_sorted(s2.drop_first())) by {
            assert forall|i: int, j: int| 0 <= i < j < s2.drop_first().len() implies #[trigger] s2.drop_first()[i].offset
                < #[trigger] s2.drop_first()[j].offset by {
                assert(s2[i + 1].offset < s2[j + 1].offset);
            }
        }
        lemma_sorted_unique(s1.drop_first(), s2.drop_first());
        assert(s1 =~= seq![x] + s1.drop_first());
        assert(s2 =~= seq![y] + s2.drop_first());
    }
}

proof fn lemma_cut_offsets_increase(segs: Seq<ByteSegment>, ranges: Seq<(u64, u64)>, total: u64, i: int, j: int)
    requires
        0 < total,
        cuts(ranges, 0, total),
        segs.len() == ranges.len(),
        forall|k: int| 0 <= k < segs.len() ==> #[trigger] segs[k].offset == ranges[k].0,
        0 <= i < j < segs.len(),
    ensures
        segs[i].offset < segs[j].offset,
    decreases j - i,
{
    lemma_cut_bounds(ranges, total, i);
    assert(ranges[i].1 - ranges[i].0 == crate::plan::CHUNK_SIZE || i == ranges.len() - 1);
    assert(ranges[i].1 == ranges[i + 1].0);
    if i + 1 < j {
        lemma_cut_offsets_increase(segs, ranges, total, i + 1, j);
    }
}

/// Segmented output, as assembled: when the segment tasks hand in, in any
/// order, the segments at the cuts of `[0, file.len())` each holding the
/// file's bytes of its range, the only arrangement sorted by offset is the
/// cut order. So assembling cannot fail, and the view it builds holds the
/// file byte for byte, with `total_len` equal to the file's length.
pub proof fn lemma_assembled_output(
    collected: Seq<ByteSegment>,
    segs: Seq<ByteSegment>,
    ranges: Seq<(u64, u64)>,
    file: Seq<u8>,
)
    requires
        file.len() <= u64::MAX,
        cuts(ranges, 0, file.len() as u64),
        segs.len() == ranges.len(),
        forall|k: int|
            0 <= k < segs.len() ==> #[trigger] segs[k].offset == ranges[k].0 && segs[k].data@
                == file.subrange(ranges[k].0 as int, ranges[k].1 as int),
        collected.to_multiset() == segs.to_multiset(),
    ensures
        forall|s: Seq<ByteSegment>|
            #[trigger] s.to_multiset() == collected.to_multiset() && sorted_by_offset(s) ==> {
                &&& s == segs
                &&& contiguous(s)
                &&& covered_len(s) == file.len()
                &&& concat_bytes(s) == file
            },
{
    lemma_segmented_output(segs, ranges, file);
    if file.len() > 0 {
        assert(strictly_sorted(segs)) by {
            assert forall|i: int, j: int| 0 <= i < j < segs.len() implies #[trigger] segs[i].offset
                < #[trigger] segs[j].offset by {
                lemma_cut_offsets_increase(segs, ranges, file.len() as u64, i, j);
            }
        }
    } else {
        assert(segs.len() == 0);
    }
    assert forall|s: Seq<ByteSegment>|
        #[trigger] s.to_multiset() == collected.to_multiset() && sorted_by_offset(s) implies s == segs by {
        lemma_sorted_unique(s, segs);
    }
}

} // verus!
