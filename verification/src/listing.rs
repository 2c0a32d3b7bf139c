//! The recordings-listing aggregator's rendering step: each aggregated
//! row, together with its resolved video format entry, becomes one
//! listing record. Informational only — no contiguity or epoch
//! validation happens here.

use vstd::prelude::*;
use crate::bytestr::{bytes_eq, hex_digit_of};

verus! {

/// One aggregated run of recordings, as the store reports it.
#[derive(Debug, Clone, Copy, PartialEq, Eq)]
pub struct AggregatedRow {
    /// Half-open id range of the run.
    pub ids_start: i32,
    pub ids_end: i32,
    /// Absolute time window, 90 kHz units.
    pub time_start_90k: i64,
    pub time_end_90k: i64,
    pub sample_file_bytes: i64,
    pub open_id: u32,
    pub first_uncommitted: Option<i32>,
    pub video_samples: i64,
    pub growing: bool,
    /// Reference to the video format entry, resolved by the caller.
    pub video_sample_entry_id: i32,
}

/// The resolved video format facts a listing record carries.
#[derive(Debug, Clone, PartialEq, Eq)]
pub struct VideoSampleEntryInfo {
    pub width: u16,
    pub height: u16,
    /// 20-byte content hash of the entry.
    pub sha1: Vec<u8>,
}

/// One rendered listing record. Ids are inclusive here: the end id is
/// omitted when the run is a single recording.
#[derive(Debug, Clone, PartialEq, Eq)]
pub struct ListingRecord {
    pub start_id: i32,
    pub end_id: Option<i32>,
    pub start_time_90k: i64,
    pub end_time_90k: i64,
    pub sample_file_bytes: i64,
    pub open_id: u32,
    pub first_uncommitted: Option<i32>,
    pub video_samples: i64,
    pub video_sample_entry_width: u16,
    pub video_sample_entry_height: u16,
    /// Lowercase hex of the format entry's content hash.
    pub video_sample_entry_sha1: Vec<u8>,
    pub growing: bool,
}

/// Lowercase hex encoding: two digits per byte, high digit first.
pub open spec fn spec_hex_lower(s: Seq<u8>) -> Seq<u8> {
    Seq::new(
        s.len() * 2,
        |i: int| if i % 2 == 0 {
            hex_digit_of(s[i / 2] as int / 16)
        } else {
            hex_digit_of(s[i / 2] as int % 16)
        },
    )
}

/// One lowercase hex digit.
fn hex_digit(n: u8) -> (r: u8)
    requires
        n < 16,
    ensures
        r == hex_digit_of(n as int),
{
    if n < 10 {
        48 + n
    } else {
        87 + n
    }
}

/// Encodes bytes as lowercase hex.
pub fn hex_lower(b: &[u8]) -> (r: Vec<u8>)
    ensures
        r@ == spec_hex_lower(b@),
{
    let n = b.len();
    let mut out: Vec<u8> = Vec::new();
    let mut i: usize = 0;
    while i < n
        invariant
            0 <= i <= n,
            n == b@.len(),
            out@ =~= spec_hex_lower(b@).take(2 * i as int),
        decreases n - i,
    {
        let byte = b[i];
        out.push(hex_digit(byte / 16));
        out.push(hex_digit(byte % 16));
        assert(out@ =~= spec_hex_lower(b@).take(2 * (i + 1)));
        i = i + 1;
    }
    assert(spec_hex_lower(b@).take(2 * n as int) =~= spec_hex_lower(b@));
    out
}

/// Renders one aggregated row with its resolved format entry.
pub fn render_listing_row(row: &AggregatedRow, vse: &VideoSampleEntryInfo) -> (r: ListingRecord)
    requires
        row.ids_start < row.ids_end,
    ensures
        r.start_id == row.ids_start,
        r.end_id == (if row.ids_end - 1 == row.ids_start {
            None::<i32>
        } else {
            Some((row.ids_end - 1) as i32)
        }),
        r.start_time_90k == row.time_start_90k,
        r.end_time_90k == row.time_end_90k,
        r.sample_file_bytes == row.sample_file_bytes,
        r.open_id == row.open_id,
        r.first_uncommitted == row.first_uncommitted,
        r.video_samples == row.video_samples,
        r.video_sample_entry_width == vse.width,
        r.video_sample_entry_height == vse.height,
        r.video_sample_entry_sha1@ == spec_hex_lower(vse.sha1@),
        r.growing == row.growing,
{
    let end = row.ids_end - 1;
    ListingRecord {
        start_id: row.ids_start,
        end_id: if end == row.ids_start {
            None
        } else {
            Some(end)
        },
        start_time_90k: row.time_start_90k,
        end_time_90k: row.time_end_90k,
        sample_file_bytes: row.sample_file_bytes,
        open_id: row.open_id,
        first_uncommitted: row.first_uncommitted,
        video_samples: row.video_samples,
        video_sample_entry_width: vse.width,
        video_sample_entry_height: vse.height,
        video_sample_entry_sha1: hex_lower(vse.sha1.as_slice()),
        growing: row.growing,
    }
}

/// Linear scan of the known format entries for a content hash; used by
/// the init-segment route. Returns the first match.
pub fn find_by_sha1(entries: &Vec<VideoSampleEntryInfo>, hash: &[u8]) -> (r: Option<usize>)
    ensures
        match r {
            Some(i) => 0 <= i < entries@.len() && entries@[i as int].sha1@ == hash@ && forall|
                j: int,
            | 0 <= j < i ==> (#[trigger] entries@[j]).sha1@ != hash@,
            None => forall|j: int|
                0 <= j < entries@.len() ==> (#[trigger] entries@[j]).sha1@ != hash@,
        },
{
    let n = entries.len();
    let mut i: usize = 0;
    while i < n
        invariant
            0 <= i <= n,
            n == entries@.len(),
            forall|j: int| 0 <= j < i ==> (#[trigger] entries@[j]).sha1@ != hash@,
        decreases n - i,
    {
        if bytes_eq(entries[i].sha1.as_slice(), hash) {
            return Some(i);
        }
        i = i + 1;
    }
    None
}

} // verus!
