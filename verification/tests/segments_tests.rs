use nvr_web::segments::{IdRange, Segments};

fn seg(start: i32, end: i32, open_id: Option<u32>, start_time: i64, end_time: Option<i64>) -> Segments {
    Segments { ids: IdRange { start, end }, open_id, start_time, end_time }
}

#[test]
fn test_segments() {
    assert_eq!(seg(1, 2, None, 0, None), Segments::parse("1").unwrap());
    assert_eq!(seg(1, 2, Some(42), 0, None), Segments::parse("1@42").unwrap());
    assert_eq!(seg(1, 2, None, 26, None), Segments::parse("1.26-").unwrap());
    assert_eq!(seg(1, 2, Some(42), 26, None), Segments::parse("1@42.26-").unwrap());
    assert_eq!(seg(1, 2, None, 0, Some(42)), Segments::parse("1.-42").unwrap());
    assert_eq!(seg(1, 2, None, 26, Some(42)), Segments::parse("1.26-42").unwrap());
    assert_eq!(seg(1, 6, None, 0, None), Segments::parse("1-5").unwrap());
    assert_eq!(seg(1, 6, None, 26, None), Segments::parse("1-5.26-").unwrap());
    assert_eq!(seg(1, 6, None, 0, Some(42)), Segments::parse("1-5.-42").unwrap());
    assert_eq!(seg(1, 6, None, 26, Some(42)), Segments::parse("1-5.26-42").unwrap());
}

#[test]
fn rejects_malformed() {
    assert!(Segments::parse("").is_err());
    assert!(Segments::parse("-1").is_err());
    assert!(Segments::parse("abc").is_err());
    assert!(Segments::parse("1-x").is_err());
    assert!(Segments::parse("1@z").is_err());
    assert!(Segments::parse("1.a-b").is_err());
    assert!(Segments::parse("1-").is_err());
    assert!(Segments::parse("1.26").is_err());
    assert!(Segments::parse("1 ").is_err());
}

#[test]
fn rejects_ordering_violations() {
    // end id before start id
    assert!(Segments::parse("5-4").is_err());
    // end time not after start time
    assert!(Segments::parse("1.30-30").is_err());
    assert!(Segments::parse("1.30-20").is_err());
    assert!(Segments::parse("1.-0").is_err());
}

#[test]
fn rejects_out_of_range_integers() {
    // start id above i32
    assert!(Segments::parse("2147483648").is_err());
    // a range whose exclusive end would overflow i32
    assert!(Segments::parse("2147483647").is_err());
    assert!(Segments::parse("1-2147483647").is_err());
    assert_eq!(
        seg(1, 2147483647, None, 0, None),
        Segments::parse("1-2147483646").unwrap()
    );
    // epoch above u32
    assert!(Segments::parse("1@4294967296").is_err());
    assert_eq!(seg(1, 2, Some(4294967295), 0, None), Segments::parse("1@4294967295").unwrap());
    // times above i64
    assert!(Segments::parse("1.9223372036854775808-").is_err());
    assert!(Segments::parse("1.-9223372036854775808").is_err());
}

#[test]
fn accepted_selections_are_well_formed() {
    // the invariant proved of the parser, spot-checked on values
    for input in ["1", "1-5", "1@42", "1.26-", "1.-42", "1-5.26-42", "0", "0-0"] {
        let s = Segments::parse(input).unwrap();
        assert!(s.ids.start >= 0);
        assert!(s.ids.start < s.ids.end, "empty range from {input}");
        assert!(s.start_time >= 0);
        if let Some(e) = s.end_time {
            assert!(e > s.start_time);
        }
    }
}

#[test]
fn empty_window_clause_defaults() {
    // `.-` present but both bounds omitted
    assert_eq!(seg(1, 2, None, 0, None), Segments::parse("1.-").unwrap());
}
