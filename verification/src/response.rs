//! The decision on a request and the head of the response that announces it.

use crate::ascii::{ascii, ascii_bytes};
use crate::mime::{content_type, content_type_of, extension, extension_of, lemma_known_types};
use crate::request::{
    asks_for_path, first_line, is_path, lemma_first_line_of_request, lemma_request_for_path,
    lemma_request_parts, line_break, path_in, request_for, route_of, sleep_request, Route,
    RouteView,
};
use vstd::prelude::*;

verus! {

/// The status of a response.
#[derive(Clone, Copy, Debug, PartialEq, Eq, Structural)]
pub enum Status {
    /// The file asked for is sent.
    Success,
    /// The error document is sent.
    NotFound,
}

impl Status {
    /// The status as it stands in the status line.
    pub open spec fn text(self) -> Seq<char> {
        match self {
            Status::Success => "200 OK"@,
            Status::NotFound => "404 NOT FOUND"@,
        }
    }

    /// The status as it stands in the status line.
    pub fn as_str(self) -> (text: &'static str)
        ensures
            text@ == self.text(),
    {
        match self {
            Status::Success => "200 OK",
            Status::NotFound => "404 NOT FOUND",
        }
    }
}

/// The path of the document sent for the empty path and for the slow route.
pub open spec fn index_document() -> Seq<u8> {
    ascii("index.html"@)
}

/// The path of the document sent where nothing is found.
pub open spec fn error_document() -> Seq<u8> {
    ascii("404.html"@)
}

/// The status of a response and the path, below the document root, of the
/// file that is its body.
#[derive(Debug, PartialEq, Eq)]
pub struct Decision {
    pub status: Status,
    pub file: Vec<u8>,
}

/// A decision as a mathematical value.
pub struct DecisionView {
    pub status: Status,
    pub file: Seq<u8>,
}

impl View for Decision {
    type V = DecisionView;

    open spec fn view(&self) -> DecisionView {
        DecisionView { status: self.status, file: self.file@ }
    }
}

/// The file that a route would send if it exists; none for a route that is
/// not served.
pub open spec fn candidate(route: RouteView) -> Option<Seq<u8>> {
    match route {
        RouteView::Sleep => Some(index_document()),
        RouteView::File(path) => Some(
            if path.len() == 0 {
                index_document()
            } else {
                path
            },
        ),
        RouteView::Unsupported => None,
    }
}

/// The decision on a route, given whether its candidate file exists: the
/// candidate with the success status if there is one and it exists, else
/// the error document with the not-found status.
pub open spec fn decide(route: RouteView, present: bool) -> DecisionView {
    match candidate(route) {
        Some(file) => if present {
            DecisionView { status: Status::Success, file }
        } else {
            DecisionView { status: Status::NotFound, file: error_document() }
        },
        None => DecisionView { status: Status::NotFound, file: error_document() },
    }
}

/// The fixed documents are ASCII text.
pub proof fn lemma_documents()
    ensures
        vstd::utf8::is_ascii_chars("index.html"@),
        vstd::utf8::is_ascii_chars("404.html"@),
        index_document().len() == 10,
        error_document().len() == 8,
{
    reveal_strlit("index.html");
    reveal_strlit("404.html");
}

/// The path of the index document.
pub fn index_file() -> (file: Vec<u8>)
    ensures
        file@ == index_document(),
{
    proof {
        lemma_documents();
    }
    vstd::slice::slice_to_vec(ascii_bytes("index.html"))
}

/// The path of the error document.
pub fn error_file() -> (file: Vec<u8>)
    ensures
        file@ == error_document(),
{
    proof {
        lemma_documents();
    }
    vstd::slice::slice_to_vec(ascii_bytes("404.html"))
}

/// The file that `route` would send if it exists.
pub fn candidate_of(route: &Route) -> (file: Option<Vec<u8>>)
    ensures
        file.is_some() == candidate(route@).is_some(),
        file.is_some() ==> file.unwrap()@ == candidate(route@).unwrap(),
{
    match route {
        Route::Sleep => Some(index_file()),
        Route::File(path) => {
            if path.len() == 0 {
                Some(index_file())
            } else {
                Some(vstd::slice::slice_to_vec(path.as_slice()))
            }
        },
        Route::Unsupported => None,
    }
}

/// The decision on `route`, given whether its candidate file exists.
pub fn decision(route: &Route, present: bool) -> (decision: Decision)
    ensures
        decision@ == decide(route@, present),
{
    match candidate_of(route) {
        Some(file) if present => Decision { status: Status::Success, file },
        _ => Decision { status: Status::NotFound, file: error_file() },
    }
}

/// The head of the response for `decision`: the status line, the type of
/// the content, the notice that the connection closes, and a blank line.
pub open spec fn head(decision: DecisionView) -> Seq<u8> {
    ascii("HTTP/1.1 "@) + ascii(decision.status.text()) + ascii("\r\nContent-Type: "@) + ascii(
        content_type(extension(decision.file)),
    ) + ascii("\r\nConnection: close\r\n\r\n"@)
}

/// The fixed parts of a response's head are ASCII text.
pub proof fn lemma_head_parts()
    ensures
        vstd::utf8::is_ascii_chars("HTTP/1.1 "@),
        vstd::utf8::is_ascii_chars("\r\nContent-Type: "@),
        vstd::utf8::is_ascii_chars("\r\nConnection: close\r\n\r\n"@),
        vstd::utf8::is_ascii_chars(Status::Success.text()),
        vstd::utf8::is_ascii_chars(Status::NotFound.text()),
{
    reveal_strlit("HTTP/1.1 ");
    reveal_strlit("\r\nContent-Type: ");
    reveal_strlit("\r\nConnection: close\r\n\r\n");
    reveal_strlit("200 OK");
    reveal_strlit("404 NOT FOUND");
}

/// The head of the response for `decision`.
pub fn response_head(decision: &Decision) -> (bytes: Vec<u8>)
    ensures
        bytes@ == head(decision@),
{
    proof {
        lemma_head_parts();
        lemma_known_types();
    }
    let mut bytes: Vec<u8> = Vec::new();
    bytes.extend_from_slice(ascii_bytes("HTTP/1.1 "));
    bytes.extend_from_slice(ascii_bytes(decision.status.as_str()));
    bytes.extend_from_slice(ascii_bytes("\r\nContent-Type: "));
    bytes.extend_from_slice(ascii_bytes(content_type_of(extension_of(decision.file.as_slice()))));
    bytes.extend_from_slice(ascii_bytes("\r\nConnection: close\r\n\r\n"));
    bytes
}

/// The decision on a request with the header `header`, given whether the
/// candidate file of its route exists.
pub open spec fn answer(header: Seq<u8>, present: bool) -> DecisionView {
    decide(route_of(first_line(header)), present)
}

/// The request line of the slow route asks for the path `api/sleep`.
pub proof fn lemma_sleep_request()
    ensures
        sleep_request() == request_for(ascii("api/sleep"@)),
        is_path(ascii("api/sleep"@)),
{
    reveal_strlit("GET /");
    reveal_strlit(" HTTP/1.1");
    reveal_strlit("GET /api/sleep HTTP/1.1");
    reveal_strlit("api/sleep");
    assert(sleep_request() =~= request_for(ascii("api/sleep"@)));
}

/// A request for a path whose file exists is answered with the success
/// status and that file, whatever follows the request line; the empty path
/// stands for the index document. The path is made of path bytes and is not
/// that of the slow route.
pub proof fn lemma_existing_file_is_served(path: Seq<u8>, rest: Seq<u8>)
    requires
        is_path(path),
        path != ascii("api/sleep"@),
    ensures
        answer(request_for(path) + line_break() + rest, true) == (DecisionView {
            status: Status::Success,
            file: if path.len() == 0 {
                index_document()
            } else {
                path
            },
        }),
{
    lemma_first_line_of_request(path, rest);
    lemma_request_for_path(path);
    lemma_request_parts();
    lemma_sleep_request();
    let line = request_for(path);
    if line == sleep_request() {
        lemma_request_for_path(ascii("api/sleep"@));
        assert(path_in(line) == path_in(sleep_request()));
    }
}

/// The slow route is answered with the success status and the index
/// document if that document exists, whatever follows the request line.
pub proof fn lemma_sleep_is_served(rest: Seq<u8>)
    ensures
        answer(sleep_request() + line_break() + rest, true) == (DecisionView {
            status: Status::Success,
            file: index_document(),
        }),
{
    lemma_sleep_request();
    lemma_first_line_of_request(ascii("api/sleep"@), rest);
}

/// A request whose file does not exist is answered with the not-found
/// status and the error document, whatever its header; so is a request
/// whose first line is of neither form, whatever exists.
pub proof fn lemma_missing_is_not_found(header: Seq<u8>, present: bool)
    requires
        !present || (first_line(header) != sleep_request() && !asks_for_path(first_line(header))),
    ensures
        answer(header, present) == (DecisionView {
            status: Status::NotFound,
            file: error_document(),
        }),
{
}

} // verus!
