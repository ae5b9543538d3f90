use simple_http_server::connection::{Abort, Action, Connection, Event, Outcome, SLEEP_SECONDS};
use simple_http_server::response::Status;

const HTML_OK: &[u8] =
    b"HTTP/1.1 200 OK\r\nContent-Type: text/html; charset=UTF-8\r\nConnection: close\r\n\r\n";
const HTML_NOT_FOUND: &[u8] =
    b"HTTP/1.1 404 NOT FOUND\r\nContent-Type: text/html; charset=UTF-8\r\nConnection: close\r\n\r\n";

fn data(bytes: &[u8]) -> Event {
    Event::Data(bytes.to_vec())
}

/// Feeds `header` in pieces of `size` bytes and returns the connection with
/// the action that followed the last piece.
fn read_header(header: &[u8], size: usize) -> (Connection, Action) {
    let (mut connection, mut action) = Connection::begin();
    for piece in header.chunks(size) {
        assert_eq!(action, Action::Read(14));
        (connection, action) = connection.step(data(piece));
    }
    (connection, action)
}

/// Takes a connection whose header is complete through the drain.
fn drain(connection: Connection, action: Action) -> (Connection, Action) {
    assert_eq!(action, Action::SetNonBlocking(true));
    let (connection, action) = connection.step(Event::Done);
    assert_eq!(action, Action::Read(14));
    let (connection, action) = connection.step(Event::WouldBlock);
    assert_eq!(action, Action::SetNonBlocking(false));
    connection.step(Event::Done)
}

#[test]
fn connection_begins_with_a_read() {
    let (_, action) = Connection::begin();
    assert_eq!(action, Action::Read(14));
}

#[test]
fn request_for_root_serves_the_index_document() {
    let (connection, action) = read_header(b"GET / HTTP/1.1\r\n\r\n", 14);
    let (connection, action) = drain(connection, action);
    assert_eq!(action, Action::Probe(b"index.html".to_vec()));
    let (connection, action) = connection.step(Event::Exists(true));
    assert_eq!(action, Action::Respond { head: HTML_OK.to_vec(), file: b"index.html".to_vec() });
    let (_, action) = connection.step(Event::Done);
    assert_eq!(action, Action::Close(Outcome::Served(Status::Success)));
}

#[test]
fn request_for_missing_file_serves_the_error_document() {
    let (connection, action) = read_header(b"GET /missing.png HTTP/1.1\r\n\r\n", 14);
    let (connection, action) = drain(connection, action);
    assert_eq!(action, Action::Probe(b"missing.png".to_vec()));
    let (connection, action) = connection.step(Event::Exists(false));
    assert_eq!(
        action,
        Action::Respond { head: HTML_NOT_FOUND.to_vec(), file: b"404.html".to_vec() }
    );
    let (_, action) = connection.step(Event::Done);
    assert_eq!(action, Action::Close(Outcome::Served(Status::NotFound)));
}

#[test]
fn request_for_existing_image_serves_it() {
    let header = b"GET /img/logo.png HTTP/1.1\r\nHost: example.org\r\n\r\n";
    for size in 1..=14 {
        let (connection, action) = read_header(header, size);
        let (connection, action) = drain(connection, action);
        assert_eq!(action, Action::Probe(b"img/logo.png".to_vec()));
        let (_, action) = connection.step(Event::Exists(true));
        assert_eq!(
            action,
            Action::Respond {
                head: b"HTTP/1.1 200 OK\r\nContent-Type: image/png\r\nConnection: close\r\n\r\n"
                    .to_vec(),
                file: b"img/logo.png".to_vec(),
            }
        );
    }
}

#[test]
fn slow_route_waits_before_it_asks_for_the_index_document() {
    assert_eq!(SLEEP_SECONDS, 5);
    let (connection, action) = read_header(b"GET /api/sleep HTTP/1.1\r\n\r\n", 14);
    let (connection, action) = drain(connection, action);
    assert_eq!(action, Action::Sleep(5));
    let (connection, action) = connection.step(Event::Done);
    assert_eq!(action, Action::Probe(b"index.html".to_vec()));
    let (connection, action) = connection.step(Event::Exists(true));
    assert_eq!(action, Action::Respond { head: HTML_OK.to_vec(), file: b"index.html".to_vec() });
    let (_, action) = connection.step(Event::Done);
    assert_eq!(action, Action::Close(Outcome::Served(Status::Success)));
}

#[test]
fn malformed_request_line_is_not_found_without_a_probe() {
    let (connection, action) = read_header(b"FETCH / HTTP/1.1\r\n\r\n", 14);
    let (connection, action) = drain(connection, action);
    assert_eq!(
        action,
        Action::Respond { head: HTML_NOT_FOUND.to_vec(), file: b"404.html".to_vec() }
    );
    let (_, action) = connection.step(Event::Done);
    assert_eq!(action, Action::Close(Outcome::Served(Status::NotFound)));
}

#[test]
fn only_the_first_line_is_routed() {
    let (connection, action) = read_header(b"GET /a.png HTTP/1.1\r\nGET /b.png HTTP/1.1\r\n\r\n", 7);
    let (_, action) = drain(connection, action);
    assert_eq!(action, Action::Probe(b"a.png".to_vec()));
}

#[test]
fn drain_reads_until_nothing_is_left() {
    let (connection, action) = read_header(b"GET / HTTP/1.1\r\n\r\n", 14);
    assert_eq!(action, Action::SetNonBlocking(true));
    let (connection, action) = connection.step(Event::Done);
    assert_eq!(action, Action::Read(14));
    let (connection, action) = connection.step(data(b"body bytes"));
    assert_eq!(action, Action::Read(14));
    let (connection, action) = connection.step(data(b"x"));
    assert_eq!(action, Action::Read(14));
    let (connection, action) = connection.step(data(b""));
    assert_eq!(action, Action::SetNonBlocking(false));
    let (_, action) = connection.step(Event::Done);
    assert_eq!(action, Action::Probe(b"index.html".to_vec()));
}

#[test]
fn header_that_runs_too_long_aborts() {
    let header = vec![b'a'; 2049];
    let (_, action) = read_header(&header, 14);
    assert_eq!(action, Action::Close(Outcome::Aborted(Abort::HeaderTooLong)));
}

#[test]
fn peer_that_closes_early_aborts() {
    let (connection, _) = read_header(b"GET / HT", 14);
    let (_, action) = connection.step(data(b""));
    assert_eq!(action, Action::Close(Outcome::Aborted(Abort::PeerClosed)));
}

#[test]
fn header_that_is_not_utf8_aborts() {
    let (_, action) = read_header(b"GET /\xff HTTP/1.1\r\n\r\n", 14);
    assert_eq!(action, Action::Close(Outcome::Aborted(Abort::NotText)));
    let (_, action) = read_header(b"GET / HTTP/1.1\r\nX: \xc3\r\n\r\n", 14);
    assert_eq!(action, Action::Close(Outcome::Aborted(Abort::NotText)));
}

#[test]
fn header_that_is_utf8_goes_on() {
    let (connection, action) = read_header("GET /caf\u{e9}.html HTTP/1.1\r\n\r\n".as_bytes(), 14);
    let (_, action) = drain(connection, action);
    assert_eq!(action, Action::Probe("caf\u{e9}.html".as_bytes().to_vec()));
}

#[test]
fn failure_aborts_in_every_open_state() {
    let failed = Action::Close(Outcome::Aborted(Abort::Failed));
    let (connection, _) = Connection::begin();
    assert_eq!(connection.step(Event::Failed).1, failed);

    let (connection, _) = read_header(b"GET / HTTP/1.1\r\n\r\n", 14);
    assert_eq!(connection.step(Event::Failed).1, failed);

    let (connection, _) = read_header(b"GET / HTTP/1.1\r\n\r\n", 14);
    let (connection, _) = connection.step(Event::Done);
    assert_eq!(connection.step(Event::Failed).1, failed);

    let (connection, action) = read_header(b"GET / HTTP/1.1\r\n\r\n", 14);
    let (connection, _) = drain(connection, action);
    let (connection, _) = connection.step(Event::Exists(true));
    assert_eq!(connection.step(Event::Failed).1, failed);
}

#[test]
fn event_out_of_turn_aborts() {
    let out_of_turn = Action::Close(Outcome::Aborted(Abort::OutOfTurn));
    let (connection, _) = Connection::begin();
    assert_eq!(connection.step(Event::Done).1, out_of_turn);
    let (connection, _) = Connection::begin();
    assert_eq!(connection.step(Event::WouldBlock).1, out_of_turn);
    let (connection, _) = Connection::begin();
    assert_eq!(connection.step(Event::Exists(true)).1, out_of_turn);

    let (connection, _) = read_header(b"GET / HTTP/1.1\r\n\r\n", 14);
    assert_eq!(connection.step(data(b"x")).1, out_of_turn);

    let (connection, action) = read_header(b"GET / HTTP/1.1\r\n\r\n", 14);
    let (connection, _) = drain(connection, action);
    assert_eq!(connection.step(Event::Done).1, out_of_turn);
}

#[test]
fn read_longer_than_asked_for_aborts() {
    let (connection, _) = Connection::begin();
    let (_, action) = connection.step(data(b"GET / HTTP/1.1\r"));
    assert_eq!(action, Action::Close(Outcome::Aborted(Abort::OutOfTurn)));
}

#[test]
fn closed_connection_stays_closed() {
    let (connection, _) = Connection::begin();
    let (connection, action) = connection.step(data(b""));
    assert_eq!(action, Action::Close(Outcome::Aborted(Abort::PeerClosed)));
    let (connection, action) = connection.step(Event::Done);
    assert_eq!(action, Action::Close(Outcome::Aborted(Abort::PeerClosed)));
    let (_, action) = connection.step(Event::Failed);
    assert_eq!(action, Action::Close(Outcome::Aborted(Abort::PeerClosed)));
}
