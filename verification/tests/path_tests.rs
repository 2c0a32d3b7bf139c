use nvr_web::path::{decode_path, Route, StreamKind};

const UUID: &str = "123e4567-e89b-12d3-a456-426614174000";

fn uuid_value() -> u128 {
    uuid::Uuid::parse_str(UUID).unwrap().as_u128()
}

#[test]
fn init_segment_with_40_hex_chars() {
    let p = "/api/init/000102030405060708090a0b0c0d0e0f10111213.mp4";
    let expected: Vec<u8> = (0u8..20).collect();
    assert_eq!(decode_path(p), Route::InitSegment(expected));
}

#[test]
fn init_segment_wrong_shapes_are_not_found() {
    // 39 hex digits
    assert_eq!(
        decode_path("/api/init/000102030405060708090a0b0c0d0e0f1011121.mp4"),
        Route::NotFound
    );
    // 41 hex digits
    assert_eq!(
        decode_path("/api/init/000102030405060708090a0b0c0d0e0f101112134.mp4"),
        Route::NotFound
    );
    // non-hex content of the right length
    assert_eq!(
        decode_path("/api/init/0001020304050607g8090a0b0c0d0e0f10111213.mp4"),
        Route::NotFound
    );
    // uppercase digits are not canonical
    assert_eq!(
        decode_path("/api/init/000102030405060708090A0B0C0D0E0F10111213.mp4"),
        Route::NotFound
    );
    // wrong suffix
    assert_eq!(
        decode_path("/api/init/000102030405060708090a0b0c0d0e0f10111213.m4s"),
        Route::NotFound
    );
}

#[test]
fn non_api_paths_are_static() {
    assert_eq!(decode_path("/"), Route::Static);
    assert_eq!(decode_path("/index.html"), Route::Static);
    assert_eq!(decode_path("/apix/"), Route::Static);
    assert_eq!(decode_path("/api"), Route::Static);
    // even shapes that would otherwise look like API routes
    assert_eq!(decode_path("/ui/init/000102030405060708090a0b0c0d0e0f10111213.mp4"), Route::Static);
}

#[test]
fn top_level_route() {
    assert_eq!(decode_path("/api/"), Route::TopLevel);
    assert_eq!(decode_path("/api/x"), Route::NotFound);
}

#[test]
fn camera_routes() {
    let u = uuid_value();
    assert_eq!(decode_path(&format!("/api/cameras/{UUID}/")), Route::Camera(u));
    assert_eq!(
        decode_path(&format!("/api/cameras/{UUID}/main/recordings")),
        Route::StreamRecordings(u, StreamKind::Main)
    );
    assert_eq!(
        decode_path(&format!("/api/cameras/{UUID}/sub/view.mp4")),
        Route::StreamViewMp4(u, StreamKind::Sub)
    );
    assert_eq!(
        decode_path(&format!("/api/cameras/{UUID}/main/view.m4s")),
        Route::StreamViewMp4Segment(u, StreamKind::Main)
    );
}

#[test]
fn camera_route_rejects() {
    assert_eq!(decode_path("/api/cameras/not-a-uuid/"), Route::NotFound);
    assert_eq!(decode_path(&format!("/api/cameras/{UUID}")), Route::NotFound);
    assert_eq!(decode_path(&format!("/api/cameras/{UUID}/other/recordings")), Route::NotFound);
    assert_eq!(decode_path(&format!("/api/cameras/{UUID}/main/unknown")), Route::NotFound);
    assert_eq!(decode_path(&format!("/api/cameras/{UUID}/main")), Route::NotFound);
}

#[test]
fn stream_kind_tokens() {
    assert_eq!(StreamKind::parse(b"main"), Some(StreamKind::Main));
    assert_eq!(StreamKind::parse(b"sub"), Some(StreamKind::Sub));
    assert_eq!(StreamKind::parse(b"Main"), None);
    assert_eq!(StreamKind::parse(b""), None);
}
