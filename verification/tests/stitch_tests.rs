use nvr_web::segments::Segments;
use nvr_web::stitch::{estimate_segments, stitch, ClippedSegment, RecordingRow, StitchError};

fn rows(ids: &[i32], open_id: u32, dur: i32) -> Vec<RecordingRow> {
    ids.iter().map(|&id| RecordingRow { id, open_id, duration_90k: dur }).collect()
}

#[test]
fn clips_rows_to_window() {
    // contiguous rows [1..5), each lasting 10 units, requested as 1-4.5-25
    let sel = Segments::parse("1-4.5-25").unwrap();
    let out = stitch(&sel, &rows(&[1, 2, 3, 4], 7, 10)).unwrap();
    assert_eq!(
        out.segments,
        vec![
            ClippedSegment { row_index: 0, start_90k: 5, end_90k: 10 },
            ClippedSegment { row_index: 1, start_90k: 0, end_90k: 10 },
            ClippedSegment { row_index: 2, start_90k: 0, end_90k: 5 },
        ]
    );
    assert_eq!(out.total_duration_90k, 40);
}

#[test]
fn unwindowed_selection_takes_whole_rows() {
    let sel = Segments::parse("1-3").unwrap();
    let out = stitch(&sel, &rows(&[1, 2, 3], 7, 10)).unwrap();
    assert_eq!(out.segments.len(), 3);
    for (i, s) in out.segments.iter().enumerate() {
        assert_eq!(s.row_index, i);
        assert_eq!(s.start_90k, 0);
        assert_eq!(s.end_90k, 10);
    }
    assert_eq!(out.total_duration_90k, 30);
}

#[test]
fn gap_in_sequence_names_missing_id() {
    // rows 1,2,4 (3 missing) requested as 1-4
    let sel = Segments::parse("1-4").unwrap();
    let r = stitch(&sel, &rows(&[1, 2, 4], 7, 10));
    assert_eq!(r.unwrap_err(), StitchError::MissingRecording { recording_id: 3 });
}

#[test]
fn missing_first_row() {
    let sel = Segments::parse("1-4").unwrap();
    let r = stitch(&sel, &rows(&[2, 3, 4], 7, 10));
    assert_eq!(r.unwrap_err(), StitchError::MissingRecording { recording_id: 1 });
    let r = stitch(&sel, &rows(&[], 7, 10));
    assert_eq!(r.unwrap_err(), StitchError::MissingRecording { recording_id: 1 });
}

#[test]
fn tail_gap_detected() {
    let sel = Segments::parse("1-4").unwrap();
    let r = stitch(&sel, &rows(&[1, 2], 7, 10));
    assert_eq!(r.unwrap_err(), StitchError::MissingRecording { recording_id: 4 });
}

#[test]
fn epoch_mismatch_fails_even_when_contiguous() {
    let sel = Segments::parse("1-2@42").unwrap();
    let r = stitch(&sel, &rows(&[1, 2], 41, 10));
    assert_eq!(
        r.unwrap_err(),
        StitchError::EpochMismatch { recording_id: 1, actual_open_id: 41, requested_open_id: 42 }
    );
    // matching epoch passes
    let sel = Segments::parse("1-2@41").unwrap();
    assert!(stitch(&sel, &rows(&[1, 2], 41, 10)).is_ok());
}

#[test]
fn end_time_beyond_recordings_fails() {
    let sel = Segments::parse("1.-11").unwrap();
    let r = stitch(&sel, &rows(&[1], 7, 10));
    assert_eq!(
        r.unwrap_err(),
        StitchError::EndBeyondAvailable { end_time_90k: 11, total_duration_90k: 10 }
    );
    // an end time exactly at the total is fine
    let sel = Segments::parse("1.-10").unwrap();
    assert!(stitch(&sel, &rows(&[1], 7, 10)).is_ok());
}

#[test]
fn rows_before_window_still_advance_offset() {
    // window entirely inside row 3 of 1-3
    let sel = Segments::parse("1-3.21-25").unwrap();
    let out = stitch(&sel, &rows(&[1, 2, 3], 7, 10)).unwrap();
    assert_eq!(
        out.segments,
        vec![ClippedSegment { row_index: 2, start_90k: 1, end_90k: 5 }]
    );
    assert_eq!(out.total_duration_90k, 30);
}

#[test]
fn estimate_is_id_count_without_end_time() {
    let sel = Segments::parse("1-5").unwrap();
    assert_eq!(estimate_segments(&sel), 5);
    let sel = Segments::parse("7").unwrap();
    assert_eq!(estimate_segments(&sel), 1);
}

#[test]
fn estimate_caps_by_window_duration() {
    // one nominal recording duration covers the window: ceil = 1, plus 2
    let sel = Segments::parse("1-1000.-5400000").unwrap();
    assert_eq!(estimate_segments(&sel), 3);
    // a window of one unit
    let sel = Segments::parse("1-1000.26-27").unwrap();
    assert_eq!(estimate_segments(&sel), 3);
    // two nominal durations plus one unit: ceil = 3, plus 2
    let sel = Segments::parse("1-1000.-10800001").unwrap();
    assert_eq!(estimate_segments(&sel), 5);
    // the id count still wins when smaller
    let sel = Segments::parse("1-2.-5400000").unwrap();
    assert_eq!(estimate_segments(&sel), 2);
}
