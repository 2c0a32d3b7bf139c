//! Byte-range addressing of a composed, never-materialized entity: an
//! ordered list of segment byte lengths with precomputed prefix-sum
//! offsets, mapping any byte offset of the whole to the owning segment
//! and the offset within it, plus resolution of requested byte ranges
//! against the entity's stable total length.

use vstd::prelude::*;

verus! {

/// Sum of the first `i` segment lengths.
pub open spec fn spec_prefix_sum(lens: Seq<u64>, i: int) -> int
    decreases i,
{
    if i <= 0 {
        0
    } else {
        spec_prefix_sum(lens, i - 1) + lens[i - 1]
    }
}

/// Prefix sums never decrease.
pub proof fn lemma_prefix_sum_mono(lens: Seq<u64>, i: int, j: int)
    requires
        0 <= i <= j <= lens.len(),
    ensures
        spec_prefix_sum(lens, i) <= spec_prefix_sum(lens, j),
    decreases j - i,
{
    if i < j {
        lemma_prefix_sum_mono(lens, i, j - 1);
    }
}

/// The byte index of a composed entity.
#[derive(Debug, Clone, PartialEq, Eq)]
pub struct CompositeIndex {
    pub lens: Vec<u64>,
    pub starts: Vec<u64>,
    pub total: u64,
}

impl CompositeIndex {
    /// `starts[i]` is the offset of segment `i` in the composed entity;
    /// `total` the entity's length.
    pub open spec fn wf(self) -> bool {
        &&& self.starts@.len() == self.lens@.len()
        &&& forall|i: int|
            0 <= i < self.lens@.len() ==> (#[trigger] self.starts@[i]) as int == spec_prefix_sum(
                self.lens@,
                i,
            )
        &&& self.total as int == spec_prefix_sum(self.lens@, self.lens@.len() as int)
    }

    pub open spec fn spec_lens(self) -> Seq<u64> {
        self.lens@
    }

    /// Builds the index for the given segment lengths; `None` when the
    /// total would not fit 64 bits.
    pub fn new(lens: Vec<u64>) -> (r: Option<CompositeIndex>)
        ensures
            match r {
                Some(ix) => ix.wf() && ix.spec_lens() == lens@,
                None => spec_prefix_sum(lens@, lens@.len() as int) > u64::MAX,
            },
    {
        let n = lens.len();
        let mut starts: Vec<u64> = Vec::new();
        let mut total: u64 = 0;
        let mut i: usize = 0;
        while i < n
            invariant
                0 <= i <= n,
                n == lens@.len(),
                starts@.len() == i,
                forall|j: int|
                    0 <= j < i ==> (#[trigger] starts@[j]) as int == spec_prefix_sum(lens@, j),
                total as int == spec_prefix_sum(lens@, i as int),
            decreases n - i,
        {
            let l = lens[i];
            starts.push(total);
            if l > u64::MAX - total {
                proof {
                    lemma_prefix_sum_mono(lens@, i + 1, n as int);
                }
                return None;
            }
            total = total + l;
            i = i + 1;
        }
        Some(CompositeIndex { lens, starts, total })
    }

    /// The entity's stable total length.
    pub fn total_len(&self) -> (r: u64)
        requires
            self.wf(),
        ensures
            r as int == spec_prefix_sum(self.spec_lens(), self.spec_lens().len() as int),
    {
        self.total
    }

    /// Number of segments.
    pub fn segment_count(&self) -> (r: usize)
        ensures
            r == self.spec_lens().len(),
    {
        self.lens.len()
    }

    /// `off` belongs to segment `i` at local offset `local`, and to no
    /// earlier segment.
    pub open spec fn located(self, off: u64, i: int, local: u64) -> bool {
        &&& 0 <= i < self.lens@.len()
        &&& self.starts@[i] <= off
        &&& off < self.starts@[i] + self.lens@[i]
        &&& local == off - self.starts@[i]
        &&& forall|j: int| 0 <= j < i ==> (#[trigger] self.starts@[j]) + self.lens@[j] <= off
    }

    /// Maps a byte offset of the composed entity to the first segment
    /// that owns it, and the offset within that segment. `None` exactly
    /// when the offset lies at or past the end of the entity.
    pub fn locate(&self, off: u64) -> (r: Option<(usize, u64)>)
        requires
            self.wf(),
        ensures
            match r {
                Some((i, local)) => self.located(off, i as int, local),
                None => off as int >= spec_prefix_sum(self.spec_lens(), self.spec_lens().len() as int),
            },
    {
        let n = self.lens.len();
        let mut i: usize = 0;
        while i < n
            invariant
                self.wf(),
                0 <= i <= n,
                n == self.lens@.len(),
                forall|j: int|
                    0 <= j < i ==> (#[trigger] self.starts@[j]) + self.lens@[j] <= off,
                i < n ==> self.starts@[i as int] <= off,
                off as int >= spec_prefix_sum(self.lens@, i as int),
            decreases n - i,
        {
            let s = self.starts[i];
            let l = self.lens[i];
            proof {
                lemma_prefix_sum_mono(self.lens@, i + 1, n as int);
            }
            if off < s + l {
                return Some((i, off - s));
            }
            i = i + 1;
        }
        None
    }
}

/// One requested byte range, as HTTP states it: either a first byte with
/// an optional inclusive last byte, or a suffix of the given length.
#[derive(Debug, Clone, Copy, PartialEq, Eq)]
pub enum ByteRangeRequest {
    FromTo { first: u64, last: Option<u64> },
    Suffix { len: u64 },
}

/// A satisfiable range against an entity: half-open byte range, to be
/// served with partial-content status and a `Content-Range` of
/// `start..=end - 1` over the total.
#[derive(Debug, Clone, Copy, PartialEq, Eq)]
pub struct ResolvedRange {
    pub start: u64,
    pub end: u64,
}

/// Resolution of a requested range against an entity of length `total`:
/// `None` is an unsatisfiable request. A from-to range must start inside
/// the entity and end after its (clamped) start; a suffix takes the last
/// `len` bytes, the whole entity when shorter than that.
pub open spec fn spec_resolve_range(req: ByteRangeRequest, total: int) -> Option<(int, int)> {
    match req {
        ByteRangeRequest::FromTo { first, last } => if first >= total {
            None
        } else {
            let e = match last {
                Some(l) => if l + 1 < total {
                    l + 1
                } else {
                    total
                },
                None => total,
            };
            if e <= first {
                None
            } else {
                Some((first as int, e))
            }
        },
        ByteRangeRequest::Suffix { len } => if len == 0 || total == 0 {
            None
        } else {
            Some((if total - len > 0 { total - len } else { 0 }, total))
        },
    }
}

/// Resolves one requested byte range against the entity's total length.
pub fn resolve_range(req: ByteRangeRequest, total: u64) -> (r: Option<ResolvedRange>)
    ensures
        match r {
            Some(rr) => spec_resolve_range(req, total as int) == Some((rr.start as int, rr.end as int))
                && rr.start < rr.end <= total,
            None => spec_resolve_range(req, total as int) is None,
        },
{
    match req {
        ByteRangeRequest::FromTo { first, last } => {
            if first >= total {
                return None;
            }
            let e = match last {
                Some(l) => if l >= total {
                    total
                } else if l + 1 < total {
                    l + 1
                } else {
                    total
                },
                None => total,
            };
            if e <= first {
                return None;
            }
            Some(ResolvedRange { start: first, end: e })
        },
        ByteRangeRequest::Suffix { len } => {
            if len == 0 || total == 0 {
                return None;
            }
            let start = if len < total {
                total - len
            } else {
                0
            };
            Some(ResolvedRange { start, end: total })
        },
    }
}

} // verus!
