//! Recording range validation and clipping: one forward scan over stored
//! recording rows that enforces crash-epoch and contiguity invariants,
//! clips each row to the requested time window, and reports the clipped
//! sub-ranges to hand to a container builder.

use vstd::prelude::*;
use crate::segments::Segments;

verus! {

/// The per-recording facts the scan reads from one stored row.
#[derive(Debug, Clone, Copy, PartialEq, Eq)]
pub struct RecordingRow {
    /// Per-stream sequence number.
    pub id: i32,
    /// Crash epoch under which the recording was made.
    pub open_id: u32,
    /// Full duration of the recording, in 90 kHz units.
    pub duration_90k: i32,
}

/// One clipped sub-range of a scanned row, to be appended to the builder.
#[derive(Debug, Clone, Copy, PartialEq, Eq)]
pub struct ClippedSegment {
    /// Index into the scanned row sequence.
    pub row_index: usize,
    /// Start of the clip, relative to the row, in 90 kHz units.
    pub start_90k: i32,
    /// End of the clip (exclusive), relative to the row.
    pub end_90k: i32,
}

/// A consistency fault that aborts the whole selection.
#[derive(Debug, Clone, Copy, PartialEq, Eq)]
pub enum StitchError {
    /// A row's crash epoch differs from the requested one.
    EpochMismatch { recording_id: i32, actual_open_id: u32, requested_open_id: u32 },
    /// The scan did not see the identified recording id.
    MissingRecording { recording_id: i32 },
    /// The requested end time lies beyond the selected recordings.
    EndBeyondAvailable { end_time_90k: i64, total_duration_90k: i64 },
}

/// Result of a successful scan.
#[derive(Debug, Clone, PartialEq, Eq)]
pub struct StitchOutcome {
    /// The clipped sub-ranges, in row order.
    pub segments: Vec<ClippedSegment>,
    /// Sum of the full durations of all scanned rows.
    pub total_duration_90k: i64,
}

/// A row spanning `[off, off + d)` contributes iff that span has a
/// non-empty intersection with the requested window.
pub open spec fn row_included(sel: Segments, off: int, d: int) -> bool {
    &&& d > 0
    &&& sel.start_time < off + d
    &&& match sel.end_time {
        Some(e) => off < e,
        None => true,
    }
}

/// The clip of the row at index `i` spanning `[off, off + d)`, reduced to
/// its intersection with the requested window and expressed relative to
/// the row.
pub open spec fn clip_of(sel: Segments, i: int, off: int, d: int) -> ClippedSegment {
    ClippedSegment {
        row_index: i as usize,
        start_90k: (if sel.start_time - off > 0 {
            sel.start_time - off
        } else {
            0
        }) as i32,
        end_90k: (match sel.end_time {
            Some(e) => if e - off < d {
                e - off
            } else {
                d
            },
            None => d,
        }) as i32,
    }
}

/// One step of the scan, starting at row `i` with `prev` the last id seen
/// and `off` the cumulative duration of the rows before `i`. Yields the
/// clips of the remaining rows and the final cumulative duration, or the
/// first fault met.
pub open spec fn spec_stitch_from(
    sel: Segments,
    rows: Seq<RecordingRow>,
    i: int,
    prev: Option<i32>,
    off: int,
) -> Result<(Seq<ClippedSegment>, int), StitchError>
    decreases rows.len() - i,
{
    if i < 0 || i >= rows.len() {
        // end of scan: the whole id range must have been covered, and an
        // explicit end time must not exceed what exists.
        match prev {
            None => Err(StitchError::MissingRecording { recording_id: sel.ids.start }),
            Some(p) => if p + 1 != sel.ids.end {
                Err(StitchError::MissingRecording { recording_id: (sel.ids.end - 1) as i32 })
            } else {
                match sel.end_time {
                    Some(e) => if e > off {
                        Err(StitchError::EndBeyondAvailable {
                            end_time_90k: e,
                            total_duration_90k: off as i64,
                        })
                    } else {
                        Ok((Seq::empty(), off))
                    },
                    None => Ok((Seq::empty(), off)),
                }
            },
        }
    } else {
        let r = rows[i];
        let d = r.duration_90k as int;
        if match sel.open_id {
            Some(o) => r.open_id != o,
            None => false,
        } {
            Err(StitchError::EpochMismatch {
                recording_id: r.id,
                actual_open_id: r.open_id,
                requested_open_id: match sel.open_id {
                    Some(o) => o,
                    None => 0,
                },
            })
        } else if match prev {
            None => r.id != sel.ids.start,
            Some(p) => r.id != p + 1,
        } {
            Err(StitchError::MissingRecording {
                recording_id: match prev {
                    None => sel.ids.start,
                    Some(p) => (p + 1) as i32,
                },
            })
        } else {
            match spec_stitch_from(sel, rows, i + 1, Some(r.id), off + d) {
                Err(e) => Err(e),
                Ok((segs, total)) => if row_included(sel, off, d) {
                    Ok((seq![clip_of(sel, i, off, d)] + segs, total))
                } else {
                    Ok((segs, total))
                },
            }
        }
    }
}

/// The whole scan over `rows` for the selection `sel`.
pub open spec fn spec_stitch(sel: Segments, rows: Seq<RecordingRow>) -> Result<
    (Seq<ClippedSegment>, int),
    StitchError,
> {
    spec_stitch_from(sel, rows, 0, None, 0)
}

/// Rows come from one locked scan of the store over the selection's id
/// range: visited in strictly increasing id order, each id inside the
/// range, each duration non-negative.
pub open spec fn rows_wf(sel: Segments, rows: Seq<RecordingRow>) -> bool {
    &&& forall|i: int|
        0 <= i < rows.len() ==> sel.ids.start <= (#[trigger] rows[i]).id < sel.ids.end
    &&& forall|i: int| 0 <= i < rows.len() - 1 ==> (#[trigger] rows[i]).id < rows[i + 1].id
    &&& forall|i: int| 0 <= i < rows.len() ==> (#[trigger] rows[i]).duration_90k >= 0
}

/// Walks `rows` for `sel`: checks epochs and contiguity, clips each row
/// to the requested window, and accumulates the total duration.
pub fn stitch(sel: &Segments, rows: &Vec<RecordingRow>) -> (r: Result<StitchOutcome, StitchError>)
    requires
        sel.wf(),
        rows_wf(*sel, rows@),
    ensures
        match r {
            Ok(o) => spec_stitch(*sel, rows@) == Ok::<_, StitchError>(
                (o.segments@, o.total_duration_90k as int),
            ),
            Err(e) => spec_stitch(*sel, rows@) == Err::<(Seq<ClippedSegment>, int), _>(e),
        },
{
    let n = rows.len();
    let mut out: Vec<ClippedSegment> = Vec::new();
    let mut prev: Option<i32> = None;
    let mut off: i64 = 0;
    let mut i: usize = 0;
    while i < n
        invariant
            sel.wf(),
            rows_wf(*sel, rows@),
            n == rows@.len(),
            0 <= i <= n,
            i == 0 ==> prev is None && off == 0,
            i > 0 ==> prev == Some(rows@[i - 1].id) && rows@[i - 1].id == sel.ids.start + i - 1,
            0 <= off <= i * 2147483647,
            match spec_stitch_from(*sel, rows@, i as int, prev, off as int) {
                Ok((segs, total)) => spec_stitch(*sel, rows@) == Ok::<_, StitchError>(
                    (out@ + segs, total),
                ),
                Err(e) => spec_stitch(*sel, rows@) == Err::<(Seq<ClippedSegment>, int), _>(e),
            },
        decreases n - i,
    {
        let row = rows[i];
        let d64 = row.duration_90k as i64;

        // crash-epoch constraint
        if let Some(o) = sel.open_id {
            if row.open_id != o {
                return Err(StitchError::EpochMismatch {
                    recording_id: row.id,
                    actual_open_id: row.open_id,
                    requested_open_id: o,
                });
            }
        }

        // contiguity: first row at the range start, then steps of one
        match prev {
            None => if row.id != sel.ids.start {
                return Err(StitchError::MissingRecording { recording_id: sel.ids.start });
            },
            Some(p) => {
                assert(p < sel.ids.end);
                if row.id != p + 1 {
                    return Err(StitchError::MissingRecording { recording_id: p + 1 });
                }
            },
        }

        // clip to the requested window, if the spans intersect
        let included = d64 > 0 && sel.start_time < off + d64 && (match sel.end_time {
            Some(e) => off < e,
            None => true,
        });
        if included {
            let start_c: i64 = if sel.start_time > off {
                sel.start_time - off
            } else {
                0
            };
            let end_c: i64 = match sel.end_time {
                Some(e) => if e - off < d64 {
                    e - off
                } else {
                    d64
                },
                None => d64,
            };
            let clip = ClippedSegment {
                row_index: i,
                start_90k: start_c as i32,
                end_90k: end_c as i32,
            };
            assert(clip == clip_of(*sel, i as int, off as int, d64 as int));
            let ghost old_out = out@;
            out.push(clip);
            proof {
                match spec_stitch_from(*sel, rows@, i + 1, Some(row.id), off + d64) {
                    Ok((segs, total)) => {
                        assert(old_out + (seq![clip] + segs) =~= out@ + segs);
                    },
                    Err(_) => {},
                }
            }
        }
        prev = Some(row.id);
        off = off + d64;
        i = i + 1;
    }

    // end of scan: whole-range and end-time checks
    match prev {
        None => Err(StitchError::MissingRecording { recording_id: sel.ids.start }),
        Some(p) => {
            assert(p < sel.ids.end);
            if p + 1 != sel.ids.end {
                return Err(StitchError::MissingRecording { recording_id: sel.ids.end - 1 });
            }
            if let Some(e) = sel.end_time {
                if e > off {
                    return Err(StitchError::EndBeyondAvailable {
                        end_time_90k: e,
                        total_duration_90k: off,
                    });
                }
            }
            proof {
                match spec_stitch_from(*sel, rows@, n as int, prev, off as int) {
                    Ok((segs, total)) => {
                        assert(out@ + segs =~= out@);
                    },
                    Err(_) => {},
                }
            }
            Ok(StitchOutcome { segments: out, total_duration_90k: off })
        },
    }
}

/// Rows from index `i` on carry the ids `first_id, first_id + 1, ...`.
pub open spec fn runs_from(rows: Seq<RecordingRow>, i: int, first_id: int) -> bool {
    forall|j: int| i <= j < rows.len() ==> (#[trigger] rows[j]).id == first_id + (j - i)
}

/// Rows from index `i` on match the requested crash epoch, if one is set.
pub open spec fn epochs_match_from(sel: Segments, rows: Seq<RecordingRow>, i: int) -> bool {
    match sel.open_id {
        Some(o) => forall|j: int| i <= j < rows.len() ==> (#[trigger] rows[j]).open_id == o,
        None => true,
    }
}

/// Sum of the full durations of the rows from index `i` on.
pub open spec fn duration_from(rows: Seq<RecordingRow>, i: int) -> int
    decreases rows.len() - i,
{
    if i < 0 || i >= rows.len() {
        0
    } else {
        rows[i].duration_90k + duration_from(rows, i + 1)
    }
}

/// The selection asks for every id in its range, and the rows deliver
/// exactly those, in order.
pub open spec fn covers_range(sel: Segments, rows: Seq<RecordingRow>) -> bool {
    rows.len() == sel.ids.end - sel.ids.start && runs_from(rows, 0, sel.ids.start as int)
}

/// An explicit end time lies within the rows' total duration.
pub open spec fn within_available(sel: Segments, rows: Seq<RecordingRow>) -> bool {
    match sel.end_time {
        Some(e) => e <= duration_from(rows, 0),
        None => true,
    }
}

proof fn lemma_stitch_from_success(sel: Segments, rows: Seq<RecordingRow>, i: int, p: int, off: int)
    requires
        sel.wf(),
        0 <= i <= rows.len(),
        i32::MIN <= p <= i32::MAX - 1,
        forall|j: int| 0 <= j < rows.len() ==> i32::MIN <= (#[trigger] rows[j]).id < i32::MAX,
    ensures
        spec_stitch_from(sel, rows, i, Some(p as i32), off) is Ok <==> {
            &&& runs_from(rows, i, p + 1)
            &&& p + (rows.len() - i) + 1 == sel.ids.end
            &&& epochs_match_from(sel, rows, i)
            &&& match sel.end_time {
                Some(e) => e <= off + duration_from(rows, i),
                None => true,
            }
        },
    decreases rows.len() - i,
{
    if i < rows.len() {
        let r = rows[i];
        let epoch_bad = match sel.open_id {
            Some(o) => r.open_id != o,
            None => false,
        };
        if epoch_bad {
            assert(!epochs_match_from(sel, rows, i));
        } else if r.id != p + 1 {
            assert(!runs_from(rows, i, p + 1));
        } else {
            lemma_stitch_from_success(sel, rows, i + 1, p + 1, off + r.duration_90k);
            assert(runs_from(rows, i, p + 1) <==> runs_from(rows, i + 1, p + 2)) by {
                if runs_from(rows, i + 1, p + 2) {
                    assert forall|j: int| i <= j < rows.len() implies (#[trigger] rows[j]).id == p
                        + 1 + (j - i) by {
                        if j > i {
                            assert(rows[j].id == p + 2 + (j - (i + 1)));
                        }
                    }
                }
            }
            assert(epochs_match_from(sel, rows, i) <==> epochs_match_from(sel, rows, i + 1)) by {
                match sel.open_id {
                    Some(o) => {
                        if epochs_match_from(sel, rows, i + 1) {
                            assert forall|j: int| i <= j < rows.len() implies (#[trigger] rows[j]).open_id
                                == o by {
                                if j > i {
                                    assert(rows[j].open_id == o);
                                }
                            }
                        }
                    },
                    None => {},
                }
            }
        }
    }
}

/// The scan succeeds exactly on a complete pass: the rows carry every id
/// of the selection's range in order, each matches the requested crash
/// epoch when one is set, and an explicit end time does not exceed the
/// rows' total duration. On any other input it reports a fault.
pub proof fn lemma_stitch_success(sel: Segments, rows: Seq<RecordingRow>)
    requires
        sel.wf(),
        rows_wf(sel, rows),
    ensures
        spec_stitch(sel, rows) is Ok <==> covers_range(sel, rows) && epochs_match_from(sel, rows, 0)
            && within_available(sel, rows),
{
    if rows.len() == 0 {
        assert(!(spec_stitch(sel, rows) is Ok));
        assert(sel.ids.end - sel.ids.start >= 1);
    } else {
        let r = rows[0];
        let epoch_bad = match sel.open_id {
            Some(o) => r.open_id != o,
            None => false,
        };
        if epoch_bad {
            assert(!epochs_match_from(sel, rows, 0));
        } else if r.id != sel.ids.start {
            assert(!runs_from(rows, 0, sel.ids.start as int));
        } else {
            lemma_stitch_from_success(sel, rows, 1, r.id as int, r.duration_90k as int);
            assert(runs_from(rows, 0, sel.ids.start as int) <==> runs_from(rows, 1, r.id + 1)) by {
                if runs_from(rows, 1, r.id + 1) {
                    assert forall|j: int| 0 <= j < rows.len() implies (#[trigger] rows[j]).id
                        == sel.ids.start + j by {
                        if j > 0 {
                            assert(rows[j].id == r.id + 1 + (j - 1));
                        }
                    }
                }
            }
            assert(epochs_match_from(sel, rows, 0) <==> epochs_match_from(sel, rows, 1)) by {
                match sel.open_id {
                    Some(o) => {
                        if epochs_match_from(sel, rows, 1) {
                            assert forall|j: int| 0 <= j < rows.len() implies (#[trigger] rows[j]).open_id
                                == o by {
                                if j > 0 {
                                    assert(rows[j].open_id == o);
                                }
                            }
                        }
                    },
                    None => {},
                }
            }
        }
    }
}

/// Nominal duration of one stored recording, in 90 kHz units (one
/// minute), used only to size the builder's buffer up front.
pub const NOMINAL_RECORDING_DURATION_90K: i64 = 5400000;

/// Number of container segments to reserve for `sel`: the id count,
/// capped — when an end time is given — by the number of nominal
/// recording durations that cover the window, plus two for misalignment
/// with recording boundaries and keyframe-only rotation.
pub open spec fn spec_estimate_segments(sel: Segments) -> int {
    let count = sel.ids.end - sel.ids.start;
    match sel.end_time {
        None => count,
        Some(e) => {
            // ceiling of (e - start_time) / nominal, written to avoid
            // overflow near the top of the range
            let ceil = (e - sel.start_time - 1) / (NOMINAL_RECORDING_DURATION_90K as int) + 1;
            if ceil + 2 < count {
                ceil + 2
            } else {
                count
            }
        },
    }
}

/// Sizes the container builder's buffer before the scan. An estimate
/// only; correctness never depends on it.
pub fn estimate_segments(sel: &Segments) -> (r: usize)
    requires
        sel.wf(),
    ensures
        r as int == spec_estimate_segments(*sel),
{
    let count: i64 = sel.ids.end as i64 - sel.ids.start as i64;
    match sel.end_time {
        None => count as usize,
        Some(e) => {
            let ceil: i64 = (e - sel.start_time - 1) / NOMINAL_RECORDING_DURATION_90K + 1;
            if ceil + 2 < count {
                (ceil + 2) as usize
            } else {
                count as usize
            }
        },
    }
}

} // verus!
