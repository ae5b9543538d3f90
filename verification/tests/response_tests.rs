use simple_http_server::request::{route, Route};
use simple_http_server::response::{candidate_of, decision, response_head, Decision, Status};

#[test]
fn status_text_is_code_and_reason() {
    assert_eq!(Status::Success.as_str(), "200 OK");
    assert_eq!(Status::NotFound.as_str(), "404 NOT FOUND");
}

#[test]
fn candidate_of_each_route() {
    assert_eq!(candidate_of(&Route::Sleep), Some(b"index.html".to_vec()));
    assert_eq!(candidate_of(&Route::File(Vec::new())), Some(b"index.html".to_vec()));
    assert_eq!(candidate_of(&Route::File(b"a/b.png".to_vec())), Some(b"a/b.png".to_vec()));
    assert_eq!(candidate_of(&Route::Unsupported), None);
}

#[test]
fn existing_file_is_served() {
    let served = decision(&route(b"GET /img/logo.png HTTP/1.1"), true);
    assert_eq!(served, Decision { status: Status::Success, file: b"img/logo.png".to_vec() });
    let index = decision(&route(b"GET / HTTP/1.1"), true);
    assert_eq!(index, Decision { status: Status::Success, file: b"index.html".to_vec() });
    let slow = decision(&route(b"GET /api/sleep HTTP/1.1"), true);
    assert_eq!(slow, Decision { status: Status::Success, file: b"index.html".to_vec() });
}

#[test]
fn missing_file_is_not_found() {
    let not_found = Decision { status: Status::NotFound, file: b"404.html".to_vec() };
    assert_eq!(decision(&route(b"GET /missing.png HTTP/1.1"), false), not_found);
    assert_eq!(decision(&route(b"GET / HTTP/1.1"), false), not_found);
    assert_eq!(decision(&route(b"GET /api/sleep HTTP/1.1"), false), not_found);
}

#[test]
fn malformed_request_is_not_found_whatever_exists() {
    let not_found = Decision { status: Status::NotFound, file: b"404.html".to_vec() };
    assert_eq!(decision(&route(b"DELETE /index.html HTTP/1.1"), true), not_found);
    assert_eq!(decision(&route(b"garbage"), true), not_found);
    assert_eq!(decision(&Route::Unsupported, false), not_found);
}

#[test]
fn head_of_a_successful_html_response() {
    let served = Decision { status: Status::Success, file: b"index.html".to_vec() };
    assert_eq!(
        response_head(&served),
        b"HTTP/1.1 200 OK\r\nContent-Type: text/html; charset=UTF-8\r\nConnection: close\r\n\r\n"
            .to_vec()
    );
}

#[test]
fn head_of_a_not_found_response() {
    let missing = Decision { status: Status::NotFound, file: b"404.html".to_vec() };
    assert_eq!(
        response_head(&missing),
        b"HTTP/1.1 404 NOT FOUND\r\nContent-Type: text/html; charset=UTF-8\r\nConnection: close\r\n\r\n"
            .to_vec()
    );
}

#[test]
fn head_names_the_type_of_images() {
    let png = Decision { status: Status::Success, file: b"img/logo.png".to_vec() };
    assert_eq!(
        response_head(&png),
        b"HTTP/1.1 200 OK\r\nContent-Type: image/png\r\nConnection: close\r\n\r\n".to_vec()
    );
    let icon = Decision { status: Status::Success, file: b"favicon.ico".to_vec() };
    assert_eq!(
        response_head(&icon),
        b"HTTP/1.1 200 OK\r\nContent-Type: image/vnd.microsoft.icon\r\nConnection: close\r\n\r\n"
            .to_vec()
    );
}

#[test]
fn head_leaves_an_unknown_type_empty() {
    let plain = Decision { status: Status::Success, file: b"notes.txt".to_vec() };
    assert_eq!(
        response_head(&plain),
        b"HTTP/1.1 200 OK\r\nContent-Type: \r\nConnection: close\r\n\r\n".to_vec()
    );
}
