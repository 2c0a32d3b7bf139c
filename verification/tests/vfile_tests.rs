use nvr_web::vfile::{resolve_range, ByteRangeRequest, CompositeIndex, ResolvedRange};

#[test]
fn index_locates_offsets() {
    let ix = CompositeIndex::new(vec![10, 0, 5]).unwrap();
    assert_eq!(ix.total_len(), 15);
    assert_eq!(ix.segment_count(), 3);
    assert_eq!(ix.locate(0), Some((0, 0)));
    assert_eq!(ix.locate(9), Some((0, 9)));
    // the zero-length segment owns no byte
    assert_eq!(ix.locate(10), Some((2, 0)));
    assert_eq!(ix.locate(14), Some((2, 4)));
    assert_eq!(ix.locate(15), None);
    assert_eq!(ix.locate(100), None);
}

#[test]
fn empty_index() {
    let ix = CompositeIndex::new(vec![]).unwrap();
    assert_eq!(ix.total_len(), 0);
    assert_eq!(ix.locate(0), None);
}

#[test]
fn index_refuses_overflowing_total() {
    assert!(CompositeIndex::new(vec![u64::MAX, 1]).is_none());
    assert!(CompositeIndex::new(vec![u64::MAX]).is_some());
}

#[test]
fn sub_range_resolves_to_partial_content() {
    // bytes=2-5 of a 10-byte entity: serve [2, 6), Content-Range 2-5/10
    let r = resolve_range(ByteRangeRequest::FromTo { first: 2, last: Some(5) }, 10).unwrap();
    assert_eq!(r, ResolvedRange { start: 2, end: 6 });
    // an end past the entity is clamped
    let r = resolve_range(ByteRangeRequest::FromTo { first: 2, last: Some(99) }, 10).unwrap();
    assert_eq!(r, ResolvedRange { start: 2, end: 10 });
    // open-ended range
    let r = resolve_range(ByteRangeRequest::FromTo { first: 0, last: None }, 10).unwrap();
    assert_eq!(r, ResolvedRange { start: 0, end: 10 });
}

#[test]
fn unsatisfiable_ranges() {
    assert!(resolve_range(ByteRangeRequest::FromTo { first: 10, last: None }, 10).is_none());
    assert!(resolve_range(ByteRangeRequest::FromTo { first: 5, last: Some(2) }, 10).is_none());
    assert!(resolve_range(ByteRangeRequest::Suffix { len: 0 }, 10).is_none());
    assert!(resolve_range(ByteRangeRequest::FromTo { first: 0, last: None }, 0).is_none());
}

#[test]
fn suffix_ranges() {
    let r = resolve_range(ByteRangeRequest::Suffix { len: 3 }, 10).unwrap();
    assert_eq!(r, ResolvedRange { start: 7, end: 10 });
    // a suffix longer than the entity takes the whole entity
    let r = resolve_range(ByteRangeRequest::Suffix { len: 99 }, 10).unwrap();
    assert_eq!(r, ResolvedRange { start: 0, end: 10 });
}
