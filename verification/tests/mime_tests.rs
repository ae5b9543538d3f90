use simple_http_server::mime::{content_type_of, extension_of, media_type_of};

#[test]
fn extension_follows_the_last_full_stop() {
    assert_eq!(extension_of(b"index.html"), b"html");
    assert_eq!(extension_of(b"archive.tar.gz"), b"gz");
    assert_eq!(extension_of(b"img/logo.png"), b"png");
    assert_eq!(extension_of(b".hidden"), b"hidden");
}

#[test]
fn no_full_stop_in_last_component_means_no_extension() {
    assert_eq!(extension_of(b""), b"");
    assert_eq!(extension_of(b"README"), b"");
    assert_eq!(extension_of(b"v1.2/README"), b"");
    assert_eq!(extension_of(b"dir.d/"), b"");
    assert_eq!(extension_of(b"name."), b"");
}

#[test]
fn known_extensions_have_media_types() {
    assert_eq!(media_type_of(b"html"), "text/html");
    assert_eq!(media_type_of(b"png"), "image/png");
    assert_eq!(media_type_of(b"ico"), "image/vnd.microsoft.icon");
}

#[test]
fn unknown_extensions_have_no_media_type() {
    assert_eq!(media_type_of(b""), "");
    assert_eq!(media_type_of(b"HTML"), "");
    assert_eq!(media_type_of(b"htm"), "");
    assert_eq!(media_type_of(b"jpg"), "");
    assert_eq!(media_type_of(b"html "), "");
}

#[test]
fn only_html_declares_a_character_set() {
    assert_eq!(content_type_of(b"html"), "text/html; charset=UTF-8");
    assert_eq!(content_type_of(b"png"), "image/png");
    assert_eq!(content_type_of(b"ico"), "image/vnd.microsoft.icon");
    assert_eq!(content_type_of(b"txt"), "");
}
