use simple_http_server::request::{request_line, route, Route};

#[test]
fn request_line_ends_at_first_line_break() {
    assert_eq!(request_line(b"GET / HTTP/1.1\r\nHost: x\r\n\r\n"), b"GET / HTTP/1.1");
    assert_eq!(request_line(b"\r\nrest"), b"");
    assert_eq!(request_line(b"no break"), b"no break");
    assert_eq!(request_line(b""), b"");
}

#[test]
fn lone_carriage_return_or_line_feed_ends_no_line() {
    assert_eq!(request_line(b"a\rb\nc\r\nd"), b"a\rb\nc");
    assert_eq!(request_line(b"ends with cr\r"), b"ends with cr\r");
    assert_eq!(request_line(b"\n\r\r\n"), b"\n\r");
}

#[test]
fn empty_path_is_a_file_route() {
    assert_eq!(route(b"GET / HTTP/1.1"), Route::File(Vec::new()));
}

#[test]
fn path_is_what_follows_the_slash() {
    assert_eq!(route(b"GET /index.html HTTP/1.1"), Route::File(b"index.html".to_vec()));
    assert_eq!(route(b"GET /img/logo.png HTTP/1.1"), Route::File(b"img/logo.png".to_vec()));
    assert_eq!(route(b"GET //x HTTP/1.1"), Route::File(b"/x".to_vec()));
    assert_eq!(route(b"GET /caf\xc3\xa9 HTTP/1.1"), Route::File(b"caf\xc3\xa9".to_vec()));
}

#[test]
fn sleep_route_is_its_exact_line() {
    assert_eq!(route(b"GET /api/sleep HTTP/1.1"), Route::Sleep);
    assert_eq!(route(b"GET /api/sleep/ HTTP/1.1"), Route::File(b"api/sleep/".to_vec()));
    assert_eq!(route(b"GET /api/Sleep HTTP/1.1"), Route::File(b"api/Sleep".to_vec()));
}

#[test]
fn other_lines_are_unsupported() {
    assert_eq!(route(b""), Route::Unsupported);
    assert_eq!(route(b"GET /"), Route::Unsupported);
    assert_eq!(route(b"GET HTTP/1.1"), Route::Unsupported);
    assert_eq!(route(b"GET  HTTP/1.1"), Route::Unsupported);
    assert_eq!(route(b"POST / HTTP/1.1"), Route::Unsupported);
    assert_eq!(route(b"get / HTTP/1.1"), Route::Unsupported);
    assert_eq!(route(b"GET / http/1.1"), Route::Unsupported);
    assert_eq!(route(b"GET / HTTP/1.0"), Route::Unsupported);
    assert_eq!(route(b"GET / HTTP/1.1 "), Route::Unsupported);
    assert_eq!(route(b" GET / HTTP/1.1"), Route::Unsupported);
    assert_eq!(route(b"GET index.html HTTP/1.1"), Route::Unsupported);
}

#[test]
fn blanks_and_control_characters_are_no_path() {
    assert_eq!(route(b"GET /a b HTTP/1.1"), Route::Unsupported);
    assert_eq!(route(b"GET /a\tb HTTP/1.1"), Route::Unsupported);
    assert_eq!(route(b"GET /a\rb HTTP/1.1"), Route::Unsupported);
    assert_eq!(route(b"GET /a\x00b HTTP/1.1"), Route::Unsupported);
    assert_eq!(route(b"GET /a\x7fb HTTP/1.1"), Route::Unsupported);
    assert_eq!(route(b"GET /  HTTP/1.1"), Route::Unsupported);
    assert_eq!(route(b"GET /!~ HTTP/1.1"), Route::File(b"!~".to_vec()));
}
