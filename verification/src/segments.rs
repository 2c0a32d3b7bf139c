//! The segment-selection mini-language for `view.mp4` / `view.m4s` requests.
//!
//! One selection is written `START_ID[-END_ID][@OPEN_ID][.[REL_START]-[REL_END]]`:
//! a recording-id range, an optional crash epoch that every selected recording
//! must carry, and an optional relative time window in 90 kHz units.

use vstd::prelude::*;
use crate::bytestr::{
    all_ascii_digits, digit_run_end, digits_val, lemma_digit_run_end_bounds, digit_run,
    parse_decimal,
};
use vstd::string::StringSliceAdditionalSpecFns;

verus! {

/// Half-open range of recording ids.
#[derive(Debug, Clone, Copy, PartialEq, Eq)]
pub struct IdRange {
    pub start: i32,
    pub end: i32,
}

/// A parsed, validated segment selection.
#[derive(Debug, Clone, Copy, PartialEq, Eq)]
pub struct Segments {
    pub ids: IdRange,
    pub open_id: Option<u32>,
    pub start_time: i64,
    pub end_time: Option<i64>,
}

impl Segments {
    /// Invariant established by parsing: the id range is non-empty and
    /// non-negative, the window start is non-negative, and an explicit
    /// window end strictly exceeds the start.
    pub open spec fn wf(self) -> bool {
        &&& 0 <= self.ids.start < self.ids.end
        &&& self.start_time >= 0
        &&& match self.end_time {
            Some(e) => e > self.start_time,
            None => true,
        }
    }
}

/// A non-empty digit run starting at `i`: its end and its value.
pub open spec fn spec_num(s: Seq<u8>, i: int) -> Option<(int, nat)> {
    let j = digit_run_end(s, i);
    if j > i {
        Some((j, digits_val(s.subrange(i, j))))
    } else {
        None
    }
}

/// Grammar after the leading `START_ID` digits: an optional `-END_ID`.
pub open spec fn spec_parse_after_ids(s: Seq<u8>, p: int, a: nat) -> Option<Segments> {
    if p < s.len() && s[p] == 45 {
        match spec_num(s, p + 1) {
            None => None,
            Some((q, bv)) => spec_parse_after_range(s, q, a, bv),
        }
    } else {
        spec_parse_after_range(s, p, a, a)
    }
}

/// Grammar after the id range: an optional `@OPEN_ID`.
pub open spec fn spec_parse_after_range(s: Seq<u8>, p: int, a: nat, bv: nat) -> Option<Segments> {
    if p < s.len() && s[p] == 64 {
        match spec_num(s, p + 1) {
            None => None,
            Some((q, c)) => if c > 4294967295 {
                None
            } else {
                spec_parse_time(s, q, a, bv, Some(c as u32))
            },
        }
    } else {
        spec_parse_time(s, p, a, bv, None)
    }
}

/// Grammar tail: an optional `.[REL_START]-[REL_END]` window, then the
/// range and ordering checks. `a` is the start id, `bv` the end id
/// (equal to `a` when no `-END_ID` was written); the stored half-open
/// range is `[a, bv + 1)`, so `bv + 1` must still fit a 32-bit id and
/// `bv` must not precede `a`.
pub open spec fn spec_parse_time(s: Seq<u8>, p: int, a: nat, bv: nat, open_id: Option<u32>) -> Option<
    Segments,
> {
    if a > 2147483647 || bv > 2147483646 || bv < a {
        None
    } else if p == s.len() {
        Some(Segments {
            ids: IdRange { start: a as i32, end: (bv + 1) as i32 },
            open_id,
            start_time: 0,
            end_time: None,
        })
    } else if s[p] != 46 {
        None
    } else {
        let q1 = digit_run_end(s, p + 1);
        let st = if q1 > p + 1 {
            digits_val(s.subrange(p + 1, q1))
        } else {
            0
        };
        if st > 9223372036854775807 {
            None
        } else if q1 >= s.len() || s[q1] != 45 {
            None
        } else {
            let q2 = digit_run_end(s, q1 + 1);
            if q2 != s.len() {
                None
            } else if q2 > q1 + 1 {
                let e = digits_val(s.subrange(q1 + 1, q2));
                if e > 9223372036854775807 || e <= st {
                    None
                } else {
                    Some(Segments {
                        ids: IdRange { start: a as i32, end: (bv + 1) as i32 },
                        open_id,
                        start_time: st as i64,
                        end_time: Some(e as i64),
                    })
                }
            } else {
                Some(Segments {
                    ids: IdRange { start: a as i32, end: (bv + 1) as i32 },
                    open_id,
                    start_time: st as i64,
                    end_time: None,
                })
            }
        }
    }
}

/// The selection denoted by the byte string `s`, or `None` when `s` does
/// not follow the grammar, holds an out-of-range integer, or violates an
/// ordering constraint.
pub open spec fn spec_parse_segments(s: Seq<u8>) -> Option<Segments> {
    match spec_num(s, 0) {
        None => None,
        Some((p, a)) => spec_parse_after_ids(s, p, a),
    }
}

impl Segments {
    /// Parses one occurrence of the segment-selection parameter.
    pub fn parse(input: &str) -> (r: Result<Segments, ()>)
        ensures
            match r {
                Ok(seg) => Some(seg) == spec_parse_segments(input.spec_bytes()) && seg.wf(),
                Err(_) => spec_parse_segments(input.spec_bytes()) is None,
            },
    {
        Segments::parse_bytes(input.as_bytes())
    }

    /// Byte-level core of [`Segments::parse`]; query handling feeds it the
    /// already-decoded parameter value.
    pub fn parse_bytes(b: &[u8]) -> (r: Result<Segments, ()>)
        ensures
            match r {
                Ok(seg) => Some(seg) == spec_parse_segments(b@) && seg.wf(),
                Err(_) => spec_parse_segments(b@) is None,
            },
    {
        let ghost s = b@;
        let n = b.len();

        // START_ID
        let p1 = digit_run(b, 0);
        if p1 == 0 {
            assert(spec_num(s, 0) is None);
            return Err(());
        }
        let ghost a = digits_val(s.subrange(0, p1 as int));
        assert(spec_parse_segments(s) == spec_parse_after_ids(s, p1 as int, a));

        // optional -END_ID
        let has_b = p1 < n && b[p1] == 45;
        let p2: usize = if has_b {
            let q = digit_run(b, p1 + 1);
            if q == p1 + 1 {
                assert(spec_num(s, p1 + 1) is None);
                return Err(());
            }
            q
        } else {
            p1
        };
        let ghost bv = if has_b {
            digits_val(s.subrange(p1 + 1, p2 as int))
        } else {
            a
        };
        proof {
            if has_b {
                assert(spec_num(s, p1 + 1) == Some((p2 as int, bv)));
            }
            assert(spec_parse_after_ids(s, p1 as int, a) == spec_parse_after_range(
                s,
                p2 as int,
                a,
                bv,
            ));
        }

        // optional @OPEN_ID
        let has_c = p2 < n && b[p2] == 64;
        let (p3, open_id): (usize, Option<u32>) = if has_c {
            let q = digit_run(b, p2 + 1);
            if q == p2 + 1 {
                assert(spec_num(s, p2 + 1) is None);
                return Err(());
            }
            proof {
                lemma_digit_run_end_bounds(s, p2 + 1);
                assert(all_ascii_digits(s.subrange(p2 + 1, q as int)));
            }
            match parse_decimal(b, p2 + 1, q, 4294967295) {
                None => {
                    return Err(());
                },
                Some(c) => (q, Some(c as u32)),
            }
        } else {
            (p2, None)
        };
        assert(spec_parse_after_range(s, p2 as int, a, bv) == spec_parse_time(
            s,
            p3 as int,
            a,
            bv,
            open_id,
        ));

        // id range and ordering checks
        proof {
            lemma_digit_run_end_bounds(s, 0);
            assert(all_ascii_digits(s.subrange(0, p1 as int)));
        }
        let va = match parse_decimal(b, 0, p1, 2147483647) {
            None => {
                return Err(());
            },
            Some(v) => v,
        };
        let vb: u64 = if has_b {
            proof {
                lemma_digit_run_end_bounds(s, p1 + 1);
                assert(all_ascii_digits(s.subrange(p1 + 1, p2 as int)));
            }
            match parse_decimal(b, p1 + 1, p2, 2147483646) {
                None => {
                    return Err(());
                },
                Some(v) => v,
            }
        } else {
            if va > 2147483646 {
                return Err(());
            }
            va
        };
        if vb < va {
            return Err(());
        }
        let ids = IdRange { start: va as i32, end: (vb + 1) as i32 };

        // optional time window
        if p3 == n {
            let seg = Segments { ids, open_id, start_time: 0, end_time: None };
            assert(Some(seg) == spec_parse_time(s, p3 as int, a, bv, open_id));
            return Ok(seg);
        }
        if b[p3] != 46 {
            return Err(());
        }
        let q1 = digit_run(b, p3 + 1);
        let st: u64 = if q1 > p3 + 1 {
            proof {
                lemma_digit_run_end_bounds(s, p3 + 1);
                assert(all_ascii_digits(s.subrange(p3 + 1, q1 as int)));
            }
            match parse_decimal(b, p3 + 1, q1, 9223372036854775807) {
                None => {
                    return Err(());
                },
                Some(v) => v,
            }
        } else {
            0
        };
        if q1 >= n {
            return Err(());
        }
        if b[q1] != 45 {
            return Err(());
        }
        let q2 = digit_run(b, q1 + 1);
        if q2 != n {
            return Err(());
        }
        if q2 > q1 + 1 {
            proof {
                lemma_digit_run_end_bounds(s, q1 + 1);
                assert(all_ascii_digits(s.subrange(q1 + 1, q2 as int)));
            }
            let e = match parse_decimal(b, q1 + 1, q2, 9223372036854775807) {
                None => {
                    return Err(());
                },
                Some(v) => v,
            };
            if e <= st {
                return Err(());
            }
            let seg = Segments {
                ids,
                open_id,
                start_time: st as i64,
                end_time: Some(e as i64),
            };
            assert(Some(seg) == spec_parse_time(s, p3 as int, a, bv, open_id));
            Ok(seg)
        } else {
            let seg = Segments { ids, open_id, start_time: st as i64, end_time: None };
            assert(Some(seg) == spec_parse_time(s, p3 as int, a, bv, open_id));
            Ok(seg)
        }
    }
}

} // verus!
