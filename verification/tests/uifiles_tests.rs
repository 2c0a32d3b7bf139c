use nvr_web::uifiles::{ui_file_entry, MimeKind};

#[test]
fn index_page_served_at_root() {
    let u = ui_file_entry(b"index.html").unwrap();
    assert_eq!(u.key, b"/".to_vec());
    assert_eq!(u.mime, MimeKind::Html);
}

#[test]
fn known_extensions() {
    let u = ui_file_entry(b"about.html").unwrap();
    assert_eq!(u.key, b"/about.html".to_vec());
    assert_eq!(u.mime, MimeKind::Html);
    assert_eq!(ui_file_entry(b"favicon.ico").unwrap().mime, MimeKind::Icon);
    assert_eq!(ui_file_entry(b"app.js").unwrap().mime, MimeKind::JavaScript);
    assert_eq!(ui_file_entry(b"app.js.map").unwrap().mime, MimeKind::JavaScript);
    assert_eq!(ui_file_entry(b"logo.png").unwrap().mime, MimeKind::Png);
}

#[test]
fn unknown_extensions_are_skipped() {
    assert!(ui_file_entry(b"readme.txt").is_none());
    assert!(ui_file_entry(b"app.jsx").is_none());
    assert!(ui_file_entry(b"js").is_none());
    assert!(ui_file_entry(b"").is_none());
}
