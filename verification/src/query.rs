//! Query-string handling for the API routes: the decoded key/value
//! pairs, the `s`/`ts` parameters of the view routes (unknown keys are a
//! hard error there), the `days` flag of the top level, and the time
//! window of the recordings listing (unknown keys are ignored there).

use vstd::prelude::*;
use crate::bytestr::{bytes_eq, parse_i64, spec_parse_i64};
use crate::segments::{spec_parse_segments, Segments};

verus! {

/// The key/value pairs denoted by a query string: split on `&` and `=`,
/// percent- and plus-decoded, in order of occurrence.
pub uninterp spec fn spec_query_pairs(q: Seq<char>) -> Seq<(Seq<u8>, Seq<u8>)>;

/// Relies on `url::form_urlencoded::parse`: the decoded pair sequence
/// depends on the query string alone.
#[verifier::external_body]
fn query_pairs(q: &str) -> (r: Vec<(Vec<u8>, Vec<u8>)>)
    ensures
        r@.len() == spec_query_pairs(q@).len(),
        forall|i: int|
            0 <= i < r@.len() ==> (#[trigger] r@[i]).0@ == spec_query_pairs(q@)[i].0 && r@[i].1@
                == spec_query_pairs(q@)[i].1,
{
    url::form_urlencoded::parse(q.as_bytes())
        .into_owned()
        .map(|(k, v)| (k.into_bytes(), v.into_bytes()))
        .collect()
}

/// A failure while reading query parameters, carrying the offending raw
/// input for the client-facing message.
#[derive(Debug, Clone, PartialEq, Eq)]
pub enum QueryError {
    /// A key the route does not understand.
    UnknownParameter { key: Vec<u8> },
    /// An `s` value that the selection grammar rejects.
    InvalidSegments { value: Vec<u8> },
    /// A value that is not a time integer.
    InvalidInteger { key: Vec<u8>, value: Vec<u8> },
}

/// Mathematical shape of a [`QueryError`].
pub enum QueryErrorSpec {
    UnknownParameter { key: Seq<u8> },
    InvalidSegments { value: Seq<u8> },
    InvalidInteger { key: Seq<u8>, value: Seq<u8> },
}

impl View for QueryError {
    type V = QueryErrorSpec;

    open spec fn view(&self) -> QueryErrorSpec {
        match self {
            QueryError::UnknownParameter { key } => QueryErrorSpec::UnknownParameter {
                key: key@,
            },
            QueryError::InvalidSegments { value } => QueryErrorSpec::InvalidSegments {
                value: value@,
            },
            QueryError::InvalidInteger { key, value } => QueryErrorSpec::InvalidInteger {
                key: key@,
                value: value@,
            },
        }
    }
}

pub open spec fn kw_s() -> Seq<u8> {
    seq![115u8]  // "s"
}

pub open spec fn kw_ts() -> Seq<u8> {
    seq![116u8, 115u8]  // "ts"
}

pub open spec fn kw_true() -> Seq<u8> {
    seq![116u8, 114u8, 117u8, 101u8]  // "true"
}

pub open spec fn kw_days() -> Seq<u8> {
    seq![100u8, 97u8, 121u8, 115u8]  // "days"
}

pub open spec fn kw_start_time() -> Seq<u8> {
    // "startTime90k"
    seq![115u8, 116u8, 97u8, 114u8, 116u8, 84u8, 105u8, 109u8, 101u8, 57u8, 48u8, 107u8]
}

pub open spec fn kw_end_time() -> Seq<u8> {
    // "endTime90k"
    seq![101u8, 110u8, 100u8, 84u8, 105u8, 109u8, 101u8, 57u8, 48u8, 107u8]
}

pub open spec fn kw_split() -> Seq<u8> {
    seq![115u8, 112u8, 108u8, 105u8, 116u8, 57u8, 48u8, 107u8]  // "split90k"
}

/// Parameters of a `view.mp4` / `view.m4s` request.
#[derive(Debug, Clone, PartialEq, Eq)]
pub struct ViewQuery {
    /// The selections named by the `s` parameter, in order of occurrence.
    pub selections: Vec<Segments>,
    /// Whether a timestamp subtitle track was requested (`ts=true`).
    pub timestamp_track: bool,
}

/// Folds the pairs from index `i` with the selections and timestamp flag
/// accumulated so far: each `s` value must parse, the last `ts` wins,
/// and any other key is refused.
pub open spec fn spec_view_query_from(
    pairs: Seq<(Seq<u8>, Seq<u8>)>,
    i: int,
    sels: Seq<Segments>,
    ts: bool,
) -> Result<(Seq<Segments>, bool), QueryErrorSpec>
    decreases pairs.len() - i,
{
    if i < 0 || i >= pairs.len() {
        Ok((sels, ts))
    } else {
        let k = pairs[i].0;
        let v = pairs[i].1;
        if k == kw_s() {
            match spec_parse_segments(v) {
                None => Err(QueryErrorSpec::InvalidSegments { value: v }),
                Some(seg) => spec_view_query_from(pairs, i + 1, sels.push(seg), ts),
            }
        } else if k == kw_ts() {
            spec_view_query_from(pairs, i + 1, sels, v == kw_true())
        } else {
            Err(QueryErrorSpec::UnknownParameter { key: k })
        }
    }
}

pub open spec fn spec_view_query(pairs: Seq<(Seq<u8>, Seq<u8>)>) -> Result<
    (Seq<Segments>, bool),
    QueryErrorSpec,
> {
    spec_view_query_from(pairs, 0, Seq::empty(), false)
}

/// Reads the query string of a view route. Every selection in a
/// successful result satisfies the parse invariant.
pub fn view_query(q: &str) -> (r: Result<ViewQuery, QueryError>)
    ensures
        match r {
            Ok(vq) => spec_view_query(spec_query_pairs(q@)) == Ok::<_, QueryErrorSpec>(
                (vq.selections@, vq.timestamp_track),
            ) && forall|i: int|
                0 <= i < vq.selections@.len() ==> (#[trigger] vq.selections@[i]).wf(),
            Err(e) => spec_view_query(spec_query_pairs(q@)) == Err::<(Seq<Segments>, bool), _>(
                e@,
            ),
        },
{
    let pairs = query_pairs(q);
    let ghost ps = spec_query_pairs(q@);
    let n = pairs.len();
    let mut sels: Vec<Segments> = Vec::new();
    let mut ts = false;
    let mut i: usize = 0;
    let s_pat: [u8; 1] = [115];
    let ts_pat: [u8; 2] = [116, 115];
    let true_pat: [u8; 4] = [116, 114, 117, 101];
    proof {
        assert(s_pat@ =~= kw_s());
        assert(ts_pat@ =~= kw_ts());
        assert(true_pat@ =~= kw_true());
    }
    while i < n
        invariant
            0 <= i <= n,
            n == pairs@.len(),
            n == ps.len(),
            ps == spec_query_pairs(q@),
            s_pat@ == kw_s(),
            ts_pat@ == kw_ts(),
            true_pat@ == kw_true(),
            forall|j: int|
                0 <= j < n ==> (#[trigger] pairs@[j]).0@ == ps[j].0 && pairs@[j].1@ == ps[j].1,
            forall|j: int| 0 <= j < sels@.len() ==> (#[trigger] sels@[j]).wf(),
            spec_view_query(ps) == spec_view_query_from(ps, i as int, sels@, ts),
        decreases n - i,
    {
        let pair = &pairs[i];
        if bytes_eq(pair.0.as_slice(), s_pat.as_slice()) {
            match Segments::parse_bytes(pair.1.as_slice()) {
                Ok(seg) => {
                    sels.push(seg);
                },
                Err(_) => {
                    proof {
                        assert(ps[i as int].0 == kw_s());
                        assert(spec_view_query_from(ps, i as int, sels@, ts) matches Err(e2)
                            && e2 == (QueryErrorSpec::InvalidSegments { value: ps[i as int].1 }));
                    }
                    return Err(QueryError::InvalidSegments { value: vstd::slice::slice_to_vec(pair.1.as_slice()) });
                },
            }
        } else if bytes_eq(pair.0.as_slice(), ts_pat.as_slice()) {
            ts = bytes_eq(pair.1.as_slice(), true_pat.as_slice());
        } else {
            return Err(QueryError::UnknownParameter { key: vstd::slice::slice_to_vec(pair.0.as_slice()) });
        }
        i = i + 1;
    }
    Ok(ViewQuery { selections: sels, timestamp_track: ts })
}

/// Folds the pairs from index `i`: the last `days` value wins, compared
/// against `true`; every other key is ignored here.
pub open spec fn spec_days_param(pairs: Seq<(Seq<u8>, Seq<u8>)>, i: int, acc: bool) -> bool
    decreases pairs.len() - i,
{
    if i < 0 || i >= pairs.len() {
        acc
    } else {
        let acc2 = if pairs[i].0 == kw_days() {
            pairs[i].1 == kw_true()
        } else {
            acc
        };
        spec_days_param(pairs, i + 1, acc2)
    }
}

/// Reads the `days` flag of a top-level request.
pub fn top_level_query(q: &str) -> (r: bool)
    ensures
        r == spec_days_param(spec_query_pairs(q@), 0, false),
{
    let pairs = query_pairs(q);
    let ghost ps = spec_query_pairs(q@);
    let n = pairs.len();
    let mut days = false;
    let mut i: usize = 0;
    let days_pat: [u8; 4] = [100, 97, 121, 115];
    let true_pat: [u8; 4] = [116, 114, 117, 101];
    proof {
        assert(days_pat@ =~= kw_days());
        assert(true_pat@ =~= kw_true());
    }
    while i < n
        invariant
            0 <= i <= n,
            n == pairs@.len(),
            n == ps.len(),
            ps == spec_query_pairs(q@),
            days_pat@ == kw_days(),
            true_pat@ == kw_true(),
            forall|j: int|
                0 <= j < n ==> (#[trigger] pairs@[j]).0@ == ps[j].0 && pairs@[j].1@ == ps[j].1,
            spec_days_param(ps, 0, false) == spec_days_param(ps, i as int, days),
        decreases n - i,
    {
        let pair = &pairs[i];
        if bytes_eq(pair.0.as_slice(), days_pat.as_slice()) {
            days = bytes_eq(pair.1.as_slice(), true_pat.as_slice());
        }
        i = i + 1;
    }
    days
}

/// Parameters of a recordings-listing request: an absolute time window
/// (90 kHz units, unbounded by default) and a split duration.
#[derive(Debug, Clone, Copy, PartialEq, Eq)]
pub struct RecordingsQuery {
    pub start_time_90k: i64,
    pub end_time_90k: i64,
    pub split_90k: i64,
}

/// Folds the pairs from index `i` over the accumulated window: the three
/// known keys replace their field (last occurrence wins), a value that
/// is not an integer is refused, unknown keys are ignored.
pub open spec fn spec_recordings_query_from(
    pairs: Seq<(Seq<u8>, Seq<u8>)>,
    i: int,
    acc: RecordingsQuery,
) -> Result<RecordingsQuery, QueryErrorSpec>
    decreases pairs.len() - i,
{
    if i < 0 || i >= pairs.len() {
        Ok(acc)
    } else {
        let k = pairs[i].0;
        let v = pairs[i].1;
        if k == kw_start_time() || k == kw_end_time() || k == kw_split() {
            match spec_parse_i64(v) {
                None => Err(QueryErrorSpec::InvalidInteger { key: k, value: v }),
                Some(x) => spec_recordings_query_from(
                    pairs,
                    i + 1,
                    RecordingsQuery {
                        start_time_90k: if k == kw_start_time() {
                            x as i64
                        } else {
                            acc.start_time_90k
                        },
                        end_time_90k: if k == kw_end_time() {
                            x as i64
                        } else {
                            acc.end_time_90k
                        },
                        split_90k: if k == kw_split() {
                            x as i64
                        } else {
                            acc.split_90k
                        },
                    },
                ),
            }
        } else {
            spec_recordings_query_from(pairs, i + 1, acc)
        }
    }
}

/// The window before any parameter is read: unbounded.
pub open spec fn spec_recordings_query_default() -> RecordingsQuery {
    RecordingsQuery {
        start_time_90k: i64::MIN,
        end_time_90k: i64::MAX,
        split_90k: i64::MAX,
    }
}

/// Reads the query string of a recordings-listing request.
pub fn recordings_query(q: &str) -> (r: Result<RecordingsQuery, QueryError>)
    ensures
        match r {
            Ok(rq) => spec_recordings_query_from(
                spec_query_pairs(q@),
                0,
                spec_recordings_query_default(),
            ) == Ok::<_, QueryErrorSpec>(rq),
            Err(e) => spec_recordings_query_from(
                spec_query_pairs(q@),
                0,
                spec_recordings_query_default(),
            ) == Err::<RecordingsQuery, _>(e@),
        },
{
    let pairs = query_pairs(q);
    let ghost ps = spec_query_pairs(q@);
    let n = pairs.len();
    let mut acc = RecordingsQuery {
        start_time_90k: i64::MIN,
        end_time_90k: i64::MAX,
        split_90k: i64::MAX,
    };
    let mut i: usize = 0;
    let start_pat: [u8; 12] = [115, 116, 97, 114, 116, 84, 105, 109, 101, 57, 48, 107];
    let end_pat: [u8; 10] = [101, 110, 100, 84, 105, 109, 101, 57, 48, 107];
    let split_pat: [u8; 8] = [115, 112, 108, 105, 116, 57, 48, 107];
    proof {
        assert(start_pat@ =~= kw_start_time());
        assert(end_pat@ =~= kw_end_time());
        assert(split_pat@ =~= kw_split());
    }
    while i < n
        invariant
            0 <= i <= n,
            n == pairs@.len(),
            n == ps.len(),
            ps == spec_query_pairs(q@),
            start_pat@ == kw_start_time(),
            end_pat@ == kw_end_time(),
            split_pat@ == kw_split(),
            forall|j: int|
                0 <= j < n ==> (#[trigger] pairs@[j]).0@ == ps[j].0 && pairs@[j].1@ == ps[j].1,
            spec_recordings_query_from(ps, 0, spec_recordings_query_default())
                == spec_recordings_query_from(ps, i as int, acc),
        decreases n - i,
    {
        let pair = &pairs[i];
        let is_start = bytes_eq(pair.0.as_slice(), start_pat.as_slice());
        let is_end = bytes_eq(pair.0.as_slice(), end_pat.as_slice());
        let is_split = bytes_eq(pair.0.as_slice(), split_pat.as_slice());
        if is_start || is_end || is_split {
            match parse_i64(pair.1.as_slice()) {
                None => {
                    proof {
                        assert(spec_recordings_query_from(ps, i as int, acc) matches Err(e2)
                            && e2 == (QueryErrorSpec::InvalidInteger {
                                key: ps[i as int].0,
                                value: ps[i as int].1,
                            }));
                    }
                    return Err(QueryError::InvalidInteger {
                        key: vstd::slice::slice_to_vec(pair.0.as_slice()),
                        value: vstd::slice::slice_to_vec(pair.1.as_slice()),
                    });
                },
                Some(x) => {
                    acc = RecordingsQuery {
                        start_time_90k: if is_start {
                            x
                        } else {
                            acc.start_time_90k
                        },
                        end_time_90k: if is_end {
                            x
                        } else {
                            acc.end_time_90k
                        },
                        split_90k: if is_split {
                            x
                        } else {
                            acc.split_90k
                        },
                    };
                },
            }
        }
        i = i + 1;
    }
    Ok(acc)
}

} // verus!
