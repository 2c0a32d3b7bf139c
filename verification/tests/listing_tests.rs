use nvr_web::listing::{
    find_by_sha1, hex_lower, render_listing_row, AggregatedRow, VideoSampleEntryInfo,
};

fn sample_row() -> AggregatedRow {
    AggregatedRow {
        ids_start: 1,
        ids_end: 4,
        time_start_90k: 1000,
        time_end_90k: 4000,
        sample_file_bytes: 12345,
        open_id: 9,
        first_uncommitted: Some(3),
        video_samples: 90,
        growing: true,
        video_sample_entry_id: 42,
    }
}

fn sample_vse() -> VideoSampleEntryInfo {
    VideoSampleEntryInfo { width: 1920, height: 1080, sha1: vec![0xab, 0x01, 0xff] }
}

#[test]
fn renders_fields_and_inclusive_end() {
    let rec = render_listing_row(&sample_row(), &sample_vse());
    assert_eq!(rec.start_id, 1);
    assert_eq!(rec.end_id, Some(3));
    assert_eq!(rec.start_time_90k, 1000);
    assert_eq!(rec.end_time_90k, 4000);
    assert_eq!(rec.sample_file_bytes, 12345);
    assert_eq!(rec.open_id, 9);
    assert_eq!(rec.first_uncommitted, Some(3));
    assert_eq!(rec.video_samples, 90);
    assert_eq!(rec.video_sample_entry_width, 1920);
    assert_eq!(rec.video_sample_entry_height, 1080);
    assert_eq!(rec.video_sample_entry_sha1, b"ab01ff".to_vec());
    assert!(rec.growing);
}

#[test]
fn single_id_run_omits_end() {
    let mut row = sample_row();
    row.ids_end = 2;
    let rec = render_listing_row(&row, &sample_vse());
    assert_eq!(rec.start_id, 1);
    assert_eq!(rec.end_id, None);
}

#[test]
fn hex_is_lowercase_two_digits_per_byte() {
    assert_eq!(hex_lower(&[]), Vec::<u8>::new());
    assert_eq!(hex_lower(&[0x00, 0x0f, 0x10, 0xfe]), b"000f10fe".to_vec());
}

#[test]
fn finds_entry_by_content_hash() {
    let mut e1 = sample_vse();
    e1.sha1 = vec![1; 20];
    let mut e2 = sample_vse();
    e2.sha1 = vec![2; 20];
    let entries = vec![e1, e2];
    assert_eq!(find_by_sha1(&entries, &[2; 20]), Some(1));
    assert_eq!(find_by_sha1(&entries, &[1; 20]), Some(0));
    assert_eq!(find_by_sha1(&entries, &[3; 20]), None);
}
