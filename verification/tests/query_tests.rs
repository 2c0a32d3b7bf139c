use nvr_web::query::{recordings_query, top_level_query, view_query, QueryError};
use nvr_web::segments::Segments;

#[test]
fn view_query_collects_selections_in_order() {
    let vq = view_query("s=1-5&s=7&ts=true").unwrap();
    assert_eq!(
        vq.selections,
        vec![Segments::parse("1-5").unwrap(), Segments::parse("7").unwrap()]
    );
    assert!(vq.timestamp_track);
}

#[test]
fn view_query_defaults() {
    let vq = view_query("").unwrap();
    assert!(vq.selections.is_empty());
    assert!(!vq.timestamp_track);
    let vq = view_query("ts=false").unwrap();
    assert!(!vq.timestamp_track);
}

#[test]
fn view_query_decodes_percent_escapes() {
    // %2D is '-' and %40 is '@': the decoded value must parse as 1-5@42
    let vq = view_query("s=1%2D5%4042").unwrap();
    assert_eq!(vq.selections, vec![Segments::parse("1-5@42").unwrap()]);
}

#[test]
fn view_query_rejects_unknown_parameter() {
    let e = view_query("s=1&foo=bar").unwrap_err();
    assert_eq!(e, QueryError::UnknownParameter { key: b"foo".to_vec() });
}

#[test]
fn view_query_rejects_bad_selection() {
    let e = view_query("s=abc").unwrap_err();
    assert_eq!(e, QueryError::InvalidSegments { value: b"abc".to_vec() });
    // a failure aborts the request even when a valid selection precedes it
    assert!(view_query("s=1&s=5-4").is_err());
}

#[test]
fn days_flag() {
    assert!(top_level_query("days=true"));
    assert!(!top_level_query("days=false"));
    assert!(!top_level_query(""));
    assert!(!top_level_query("other=true"));
    // last occurrence wins
    assert!(!top_level_query("days=true&days=false"));
}

#[test]
fn recordings_window() {
    let rq = recordings_query("startTime90k=100&endTime90k=200&split90k=50").unwrap();
    assert_eq!(rq.start_time_90k, 100);
    assert_eq!(rq.end_time_90k, 200);
    assert_eq!(rq.split_90k, 50);
}

#[test]
fn recordings_window_defaults_unbounded() {
    let rq = recordings_query("").unwrap();
    assert_eq!(rq.start_time_90k, i64::MIN);
    assert_eq!(rq.end_time_90k, i64::MAX);
    assert_eq!(rq.split_90k, i64::MAX);
    // unknown keys are ignored on this route
    assert!(recordings_query("foo=bar").is_ok());
}

#[test]
fn recordings_window_accepts_negative_times() {
    let rq = recordings_query("startTime90k=-5").unwrap();
    assert_eq!(rq.start_time_90k, -5);
}

#[test]
fn recordings_window_rejects_bad_integer() {
    let e = recordings_query("startTime90k=x").unwrap_err();
    assert_eq!(
        e,
        QueryError::InvalidInteger { key: b"startTime90k".to_vec(), value: b"x".to_vec() }
    );
    assert!(recordings_query("split90k=").is_err());
}
