//! Bytes of a segmented download, addressed by their offset in the whole file.

use vstd::multiset::Multiset;
use vstd::prelude::*;

verus! {

/// One segment: its starting offset in the whole file and its bytes.
#[derive(Debug, Clone)]
pub struct ByteSegment {
    pub offset: u64,
    pub data: Vec<u8>,
}

/// Segments sorted by offset that cover `[0, total_len)` back to back.
#[derive(Debug, Clone)]
pub struct ByteSegments {
    segments: Vec<ByteSegment>,
    total_len: u64,
}

/// Offset one past the last byte of a segment.
pub open spec fn segment_end(s: ByteSegment) -> int {
    s.offset + s.data@.len()
}

/// The segments start at zero and each one begins where the previous ends.
pub open spec fn contiguous(segs: Seq<ByteSegment>) -> bool {
    &&& segs.len() > 0 ==> segs[0].offset == 0
    &&& forall|i: int| 1 <= i < segs.len() ==> #[trigger] segs[i].offset == segment_end(segs[i - 1])
}

/// The bytes of all segments, concatenated in sequence order.
pub open spec fn concat_bytes(segs: Seq<ByteSegment>) -> Seq<u8>
    decreases segs.len(),
{
    if segs.len() == 0 {
        Seq::empty()
    } else {
        concat_bytes(segs.drop_last()) + segs.last().data@
    }
}

/// Length covered by contiguous segments: the end of the last one, or zero.
pub open spec fn covered_len(segs: Seq<ByteSegment>) -> int {
    if segs.len() == 0 {
        0
    } else {
        segment_end(segs.last())
    }
}

/// The bytes in `[offset, min(offset + len, total))` of `bytes`, empty when
/// `offset` is at or past the end.
pub open spec fn window(bytes: Seq<u8>, offset: int, len: int) -> Seq<u8> {
    if offset >= bytes.len() {
        Seq::empty()
    } else if offset + len >= bytes.len() {
        bytes.subrange(offset, bytes.len() as int)
    } else {
        bytes.subrange(offset, offset + len)
    }
}

/// For contiguous segments, the prefix of `k` segments has as many bytes as
/// the offset at which segment `k` starts, and all of them have `covered_len`.
pub proof fn lemma_prefix_len(segs: Seq<ByteSegment>, k: int)
    requires
        contiguous(segs),
        0 <= k <= segs.len(),
    ensures
        k < segs.len() ==> concat_bytes(segs.take(k)).len() == segs[k].offset,
        k == segs.len() ==> concat_bytes(segs.take(k)).len() == covered_len(segs),
    decreases k,
{
    if k > 0 {
        lemma_prefix_len(segs, k - 1);
        assert(segs.take(k).drop_last() =~= segs.take(k - 1));
    }
}

/// The bytes of a prefix of the segments are no more than those of all.
pub proof fn lemma_prefix_le(segs: Seq<ByteSegment>, k: int)
    requires
        0 <= k <= segs.len(),
    ensures
        concat_bytes(segs.take(k)).len() <= concat_bytes(segs).len(),
    decreases segs.len(),
{
    if k == segs.len() {
        assert(segs.take(k) =~= segs);
    } else {
        lemma_prefix_le(segs.drop_last(), k);
        assert(segs.drop_last().take(k) =~= segs.take(k));
    }
}

/// All segments together hold exactly `covered_len` bytes.
pub proof fn lemma_total_len(segs: Seq<ByteSegment>)
    requires
        contiguous(segs),
    ensures
        concat_bytes(segs).len() == covered_len(segs),
{
    lemma_prefix_len(segs, segs.len() as int);
    assert(segs.take(segs.len() as int) =~= segs);
}

/// Segments in non-decreasing order of offset.
pub open spec fn sorted_by_offset(segs: Seq<ByteSegment>) -> bool {
    forall|i: int, j: int| 0 <= i < j < segs.len() ==> #[trigger] segs[i].offset <= #[trigger] segs[j].offset
}

/// Each segment holds the bytes of `file` at its place.
pub open spec fn segments_match(segs: Seq<ByteSegment>, file: Seq<u8>) -> bool {
    forall|i: int|
        0 <= i < segs.len() ==> segment_end(#[trigger] segs[i]) <= file.len() && segs[i].data@
            == file.subrange(segs[i].offset as int, segment_end(segs[i]))
}

/// Contiguous segments that each hold the bytes of `file` at their place and
/// end where `file` ends put `file` back together, byte for byte.
pub proof fn lemma_reassembly(segs: Seq<ByteSegment>, file: Seq<u8>)
    requires
        contiguous(segs),
        segments_match(segs, file),
        covered_len(segs) == file.len(),
    ensures
        concat_bytes(segs) == file,
    decreases segs.len(),
{
    if segs.len() > 0 {
        let init = segs.drop_last();
        let last = segs.last();
        assert(contiguous(init)) by {
            assert forall|i: int| 1 <= i < init.len() implies #[trigger] init[i].offset
                == segment_end(init[i - 1]) by {
                assert(segs[i].offset == segment_end(segs[i - 1]));
            }
        }
        let prefix = file.subrange(0, last.offset as int);
        assert(segments_match(init, prefix)) by {
            assert forall|i: int| 0 <= i < init.len() implies segment_end(#[trigger] init[i])
                <= prefix.len() && init[i].data@ == prefix.subrange(
                init[i].offset as int,
                segment_end(init[i]),
            ) by {
                lemma_prefix_len(segs, i + 1);
                lemma_prefix_len(segs, segs.len() - 1);
                lemma_prefix_le(segs.take(segs.len() - 1), i + 1);
                assert(segs.take(segs.len() - 1).take(i + 1) =~= segs.take(i + 1));
                assert(segs.take(i + 1).drop_last() =~= segs.take(i));
                assert(init[i].data@ =~= prefix.subrange(init[i].offset as int, segment_end(init[i])));
            }
        }
        if init.len() > 0 {
            assert(last.offset == segment_end(init.last()));
        }
        lemma_reassembly(init, prefix);
        assert(file =~= prefix + last.data@);
    }
}

/// Along contiguous segments the ends only grow, up to `covered_len`.
pub proof fn lemma_end_within(segs: Seq<ByteSegment>, i: int)
    requires
        contiguous(segs),
        0 <= i < segs.len(),
    ensures
        segment_end(segs[i]) <= covered_len(segs),
    decreases segs.len() - i,
{
    if i + 1 < segs.len() {
        lemma_end_within(segs, i + 1);
        assert(segs[i + 1].offset == segment_end(segs[i]));
    }
}

/// Tells whether the segments start at zero, follow one another without gap
/// or overlap, and end within the `u64` range.
pub fn is_contiguous(segs: &Vec<ByteSegment>) -> (r: bool)
    ensures
        r == (contiguous(segs@) && covered_len(segs@) <= u64::MAX),
{
    let n = segs.len();
    if n == 0 {
        return true;
    }
    if segs[0].offset != 0 {
        return false;
    }
    let mut i: usize = 1;
    let mut end: u64 = segs[0].data.len() as u64;
    while i < n
        invariant
            n == segs@.len(),
            1 <= i <= n,
            segs@[0].offset == 0,
            end == segment_end(segs@[i - 1]),
            forall|k: int| 1 <= k < i ==> #[trigger] segs@[k].offset == segment_end(segs@[k - 1]),
        decreases n - i,
    {
        let seg = &segs[i];
        if seg.offset != end {
            return false;
        }
        if seg.data.len() as u64 > u64::MAX - seg.offset {
            proof {
                if contiguous(segs@) {
                    lemma_end_within(segs@, i as int);
                }
            }
            return false;
        }
        end = seg.offset + seg.data.len() as u64;
        i = i + 1;
    }
    true
}

/// Orders segments by offset, keeping each one exactly once.
pub fn sort_by_offset(v: Vec<ByteSegment>) -> (r: Vec<ByteSegment>)
    ensures
        sorted_by_offset(r@),
        r@.to_multiset() == v@.to_multiset(),
{
    let mut input = v;
    let mut out: Vec<ByteSegment> = Vec::new();
    proof {
        broadcast use vstd::seq_lib::group_to_multiset_ensures, vstd::multiset::group_multiset_axioms;
        assert(out@.to_multiset().len() == 0);
        assert(out@.to_multiset() =~= Multiset::empty());
        assert(out@.to_multiset().add(input@.to_multiset()) =~= v@.to_multiset());
    }
    while input.len() > 0
        invariant
            sorted_by_offset(out@),
            out@.to_multiset().add(input@.to_multiset()) == v@.to_multiset(),
        decreases input@.len(),
    {
        let ghost before = input@;
        let x = input.pop().unwrap();
        proof {
            assert(before =~= input@.push(x));
        }
        let mut p: usize = 0;
        while p < out.len() && out[p].offset <= x.offset
            invariant
                0 <= p <= out@.len(),
                sorted_by_offset(out@),
                forall|k: int| 0 <= k < p ==> #[trigger] out@[k].offset <= x.offset,
            decreases out@.len() - p,
        {
            p = p + 1;
        }
        let ghost old_out = out@;
        out.insert(p, x);
        proof {
            assert(out@ == old_out.insert(p as int, x));
            assert(sorted_by_offset(out@)) by {
                assert forall|i: int, j: int| 0 <= i < j < out@.len() implies #[trigger] out@[i].offset
                    <= #[trigger] out@[j].offset by {
                    if j < p {
                    } else if j == p {
                    } else if i < p {
                        assert(old_out[j - 1].offset >= x.offset || p == old_out.len());
                    } else if i == p {
                        if p < old_out.len() {
                            assert(old_out[p as int].offset > x.offset);
                            assert(old_out[p as int].offset <= old_out[j - 1].offset || j - 1 == p);
                        }
                    } else {
                    }
                }
            }
            broadcast use vstd::multiset::group_multiset_axioms;
            assert(before.to_multiset() == input@.push(x).to_multiset());
            vstd::seq_lib::to_multiset_build(input@, x);
            vstd::seq_lib::to_multiset_insert(old_out, p as int, x);
            assert(out@.to_multiset().add(input@.to_multiset()) =~= v@.to_multiset());
        }
    }
    proof {
        broadcast use vstd::seq_lib::group_to_multiset_ensures, vstd::multiset::group_multiset_axioms;
        assert(input@.to_multiset().len() == 0);
        assert(input@.to_multiset() =~= Multiset::empty());
        assert(out@.to_multiset() =~= v@.to_multiset());
    }
    out
}

impl ByteSegments {
    /// Well-formedness: contiguous from zero, with `total_len` their end.
    pub closed spec fn wf(&self) -> bool {
        &&& contiguous(self.segments@)
        &&& self.total_len == covered_len(self.segments@)
    }

    /// The segments in offset order.
    pub closed spec fn segs(&self) -> Seq<ByteSegment> {
        self.segments@
    }

    /// The whole file that the segments hold.
    pub open spec fn bytes(&self) -> Seq<u8> {
        concat_bytes(self.segs())
    }

    pub closed spec fn spec_total_len(&self) -> u64 {
        self.total_len
    }

    /// Builds the view from segments already sorted by offset that cover
    /// `[0, total)` without gaps or overlaps.
    pub fn new(segments: Vec<ByteSegment>) -> (r: Self)
        requires
            contiguous(segments@),
            covered_len(segments@) <= u64::MAX,
        ensures
            r.wf(),
            r.segs() == segments@,
            r.spec_total_len() == covered_len(segments@),
    {
        let n = segments.len();
        let total_len: u64 = if n == 0 {
            0
        } else {
            let last = &segments[n - 1];
            last.offset + last.data.len() as u64
        };
        ByteSegments { segments, total_len }
    }

    /// Reading `[0, total_len)` gives back every byte of the file; a read of
    /// length zero, or one that starts at `total_len`, gives nothing.
    pub proof fn lemma_read_at_edges(&self, offset: int, len: int)
        requires
            self.wf(),
            0 <= offset,
            0 <= len,
        ensures
            window(self.bytes(), 0, self.spec_total_len() as int) == self.bytes(),
            window(self.bytes(), offset, 0) == Seq::<u8>::empty(),
            window(self.bytes(), self.spec_total_len() as int, len) == Seq::<u8>::empty(),
    {
        lemma_total_len(self.segments@);
        let bytes = self.bytes();
        assert(bytes.subrange(0, bytes.len() as int) =~= bytes);
        if offset < bytes.len() {
            assert(bytes.subrange(offset, offset) =~= Seq::<u8>::empty());
        }
    }

    /// Number of bytes covered.
    pub fn total_len(&self) -> (r: u64)
        requires
            self.wf(),
        ensures
            r == self.spec_total_len(),
            r == self.bytes().len(),
    {
        proof {
            lemma_total_len(self.segments@);
        }
        self.total_len
    }

    /// A fresh copy of the bytes in `[offset, min(offset + len, total_len))`;
    /// empty when `offset` is at or past the end or `len` is zero.
    #[verifier::rlimit(60)]
    pub fn read_at(&self, offset: u64, len: usize) -> (r: Vec<u8>)
        requires
            self.wf(),
        ensures
            r@ == window(self.bytes(), offset as int, len as int),
    {
        proof {
            lemma_total_len(self.segments@);
        }
        let ghost all = self.bytes();
        if offset >= self.total_len || len == 0 {
            assert(window(all, offset as int, len as int) =~= Seq::<u8>::empty());
            return Vec::new();
        }
        let end: u64 = if len as u64 >= self.total_len - offset {
            self.total_len
        } else {
            offset + len as u64
        };
        let mut out: Vec<u8> = Vec::new();
        let n = self.segments.len();
        let mut i: usize = 0;
        let mut pos: u64 = 0;
        while i < n
            invariant
                self.wf(),
                n == self.segments@.len(),
                all == concat_bytes(self.segments@),
                all.len() == self.total_len,
                offset < end <= self.total_len,
                0 <= i <= n,
                pos == concat_bytes(self.segments@.take(i as int)).len(),
                pos <= self.total_len,
                i < n ==> pos == self.segments@[i as int].offset,
                out@ == concat_bytes(self.segments@.take(i as int)).subrange(
                    if offset <= pos { offset as int } else { pos as int },
                    if end <= pos { end as int } else { pos as int },
                ),
            decreases n - i,
        {
            let seg = &self.segments[i];
            let ghost before = concat_bytes(self.segments@.take(i as int));
            let ghost after = concat_bytes(self.segments@.take(i + 1));
            proof {
                assert(self.segments@.take(i + 1).drop_last() =~= self.segments@.take(i as int));
                assert(after == before + seg.data@);
                lemma_prefix_len(self.segments@, i + 1);
                lemma_prefix_le(self.segments@, i + 1);
                if i + 1 == n {
                    assert(self.segments@.take(i + 1) =~= self.segments@);
                }
            }
            let dlen = seg.data.len();
            let seg_end: u64 = pos + dlen as u64;
            let ghost out0 = out@;
            let from: usize = if offset <= pos { 0 } else if offset >= seg_end { dlen } else {
                (offset - pos) as usize
            };
            let to: usize = if end <= pos { 0 } else if end >= seg_end { dlen } else {
                (end - pos) as usize
            };
            let mut j: usize = from;
            while j < to
                invariant
                    from <= j <= to <= dlen,
                    dlen == seg.data@.len(),
                    out@ == out0 + seg.data@.subrange(from as int, j as int),
                decreases to - j,
            {
                out.push(seg.data[j]);
                j = j + 1;
            }
            proof {
                let lo = if offset <= pos { offset as int } else { pos as int };
                let hi = if end <= pos { end as int } else { pos as int };
                let lo2 = if offset <= seg_end { offset as int } else { seg_end as int };
                let hi2 = if end <= seg_end { end as int } else { seg_end as int };
                assert(out0 == before.subrange(lo, hi));
                if from < to {
                    assert(after.subrange(lo2, hi2) =~= before.subrange(lo, hi) + seg.data@.subrange(
                        from as int,
                        to as int,
                    ));
                } else {
                    assert(after.subrange(lo2, hi2) =~= before.subrange(lo, hi));
                }
            }
            pos = seg_end;
            i = i + 1;
        }
        proof {
            assert(self.segments@.take(n as int) =~= self.segments@);
            assert(window(all, offset as int, len as int) =~= all.subrange(offset as int, end as int));
        }
        out
    }
}

} // verus!
