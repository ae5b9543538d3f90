//! The request line of a header and the route it asks for.
//!
//! Two forms of request line are served, both matched byte for byte:
//! `GET /<path> HTTP/1.1`, where the path may be empty and holds neither
//! blanks nor control characters, and `GET /api/sleep HTTP/1.1`.

use crate::ascii::{ascii, ascii_bytes, ends_with, same_bytes, starts_with};
use vstd::prelude::*;

verus! {

/// Whether CR LF starts at index `i` of `s`.
pub open spec fn line_break_at(s: Seq<u8>, i: int) -> bool {
    &&& 0 <= i
    &&& i + 2 <= s.len()
    &&& s[i] == 13u8
    &&& s[i + 1] == 10u8
}

/// Whether the first line of `s` ends before index `n`: at the first CR LF,
/// or at the end of `s` where it holds none.
pub open spec fn is_line_end(s: Seq<u8>, n: int) -> bool {
    &&& 0 <= n <= s.len()
    &&& n == s.len() || line_break_at(s, n)
    &&& forall|j: int| 0 <= j < n ==> !line_break_at(s, j)
}

/// The first line of `s`, without the CR LF that ends it.
pub open spec fn first_line(s: Seq<u8>) -> Seq<u8> {
    s.take(choose|n: int| is_line_end(s, n))
}

/// The first line ends in one place only.
pub proof fn lemma_line_end_unique(s: Seq<u8>, n: int, m: int)
    requires
        is_line_end(s, n),
        is_line_end(s, m),
    ensures
        n == m,
{
    if n < m {
        assert(line_break_at(s, n));
    } else if m < n {
        assert(line_break_at(s, m));
    }
}

/// The first line of `bytes`, without the CR LF that ends it.
pub fn request_line(bytes: &[u8]) -> (line: &[u8])
    ensures
        line@ == first_line(bytes@),
{
    let n: usize = bytes.len();
    let mut i: usize = 0;
    while i < n && !(bytes[i] == 13 && i + 1 < n && bytes[i + 1] == 10)
        invariant
            n == bytes@.len(),
            i <= n,
            forall|j: int| 0 <= j < i ==> !line_break_at(bytes@, j),
        decreases n - i,
    {
        i = i + 1;
    }
    proof {
        assert(is_line_end(bytes@, i as int));
        let chosen = choose|m: int| is_line_end(bytes@, m);
        lemma_line_end_unique(bytes@, i as int, chosen);
    }
    vstd::slice::slice_subrange(bytes, 0, i)
}

/// Whether `b` may occur in a path: it is neither a blank nor a control character.
pub open spec fn is_path_byte(b: u8) -> bool {
    0x20 < b && b != 0x7f
}

/// Whether `path` is made of bytes that may occur in a path. It may be empty.
pub open spec fn is_path(path: Seq<u8>) -> bool {
    forall|i: int| 0 <= i < path.len() ==> is_path_byte(#[trigger] path[i])
}

/// The request line that asks for `path`: `GET /<path> HTTP/1.1`.
pub open spec fn request_for(path: Seq<u8>) -> Seq<u8> {
    ascii("GET /"@) + path + ascii(" HTTP/1.1"@)
}

/// The request line of the slow route: `GET /api/sleep HTTP/1.1`.
pub open spec fn sleep_request() -> Seq<u8> {
    ascii("GET /api/sleep HTTP/1.1"@)
}

/// What lies between `GET /` and ` HTTP/1.1` in a line long enough to hold both.
pub open spec fn path_in(line: Seq<u8>) -> Seq<u8> {
    line.subrange(5, line.len() - 9)
}

/// Whether `line` is `GET /<path> HTTP/1.1` for some path.
pub open spec fn asks_for_path(line: Seq<u8>) -> bool {
    &&& line.len() >= 14
    &&& is_path(path_in(line))
    &&& line == request_for(path_in(line))
}

/// What a request line asks for.
#[derive(Debug, PartialEq, Eq)]
pub enum Route {
    /// The slow route.
    Sleep,
    /// The file at this path below the document root; the empty path stands
    /// for the index document.
    File(Vec<u8>),
    /// Nothing that is served.
    Unsupported,
}

/// What a request line asks for, as a mathematical value.
pub enum RouteView {
    Sleep,
    File(Seq<u8>),
    Unsupported,
}

impl View for Route {
    type V = RouteView;

    open spec fn view(&self) -> RouteView {
        match self {
            Route::Sleep => RouteView::Sleep,
            Route::File(path) => RouteView::File(path@),
            Route::Unsupported => RouteView::Unsupported,
        }
    }
}

/// The route that `line` asks for.
pub open spec fn route_of(line: Seq<u8>) -> RouteView {
    if line == sleep_request() {
        RouteView::Sleep
    } else if asks_for_path(line) {
        RouteView::File(path_in(line))
    } else {
        RouteView::Unsupported
    }
}

/// The lengths and first bytes of the fixed parts of a request line.
pub proof fn lemma_request_parts()
    ensures
        ascii("GET /"@).len() == 5,
        ascii(" HTTP/1.1"@).len() == 9,
        ascii(" HTTP/1.1"@)[0] == 0x20u8,
        vstd::utf8::is_ascii_chars("GET /"@),
        vstd::utf8::is_ascii_chars(" HTTP/1.1"@),
        vstd::utf8::is_ascii_chars("GET /api/sleep HTTP/1.1"@),
{
    reveal_strlit("GET /");
    reveal_strlit(" HTTP/1.1");
    reveal_strlit("GET /api/sleep HTTP/1.1");
}

/// A line that is made for a path asks for that path.
pub proof fn lemma_request_for_path(path: Seq<u8>)
    requires
        is_path(path),
    ensures
        asks_for_path(request_for(path)),
        path_in(request_for(path)) == path,
{
    lemma_request_parts();
    let line = request_for(path);
    assert(path_in(line) =~= path);
}

/// The bytes CR LF, which end a line.
pub open spec fn line_break() -> Seq<u8> {
    seq![13u8, 10u8]
}

/// The first line of a header that begins with the request line for a path
/// is that request line.
pub proof fn lemma_first_line_of_request(path: Seq<u8>, rest: Seq<u8>)
    requires
        is_path(path),
    ensures
        first_line(request_for(path) + line_break() + rest) == request_for(path),
{
    reveal_strlit("GET /");
    reveal_strlit(" HTTP/1.1");
    let line = request_for(path);
    let header = line + line_break() + rest;
    let n = line.len() as int;
    assert forall|j: int| 0 <= j < n implies line[j] != 13u8 by {
        if 5 <= j < 5 + path.len() {
            assert(is_path_byte(path[j - 5]));
        }
    }
    assert forall|j: int| 0 <= j < n implies !line_break_at(header, j) by {
        assert(header[j] == line[j]);
    }
    assert(line_break_at(header, n));
    assert(is_line_end(header, n));
    lemma_line_end_unique(header, n, choose|m: int| is_line_end(header, m));
    assert(header.take(n) =~= line);
}

/// The route that the request line `line` asks for.
pub fn route(line: &[u8]) -> (route: Route)
    ensures
        route@ == route_of(line@),
{
    proof {
        lemma_request_parts();
    }
    if same_bytes(line, ascii_bytes("GET /api/sleep HTTP/1.1")) {
        return Route::Sleep;
    }
    let head = ascii_bytes("GET /");
    let tail = ascii_bytes(" HTTP/1.1");
    let n: usize = line.len();
    if n < 14 || !starts_with(line, head) || !ends_with(line, tail) {
        proof {
            if asks_for_path(line@) {
                let path = path_in(line@);
                assert(head@ =~= line@.subrange(0, 5));
                assert(tail@ =~= line@.subrange(n - 9, n as int));
            }
        }
        return Route::Unsupported;
    }
    let middle = vstd::slice::slice_subrange(line, 5, n - 9);
    let mut i: usize = 0;
    while i < middle.len()
        invariant
            middle@ == path_in(line@),
            line@ != sleep_request(),
            i <= middle@.len(),
            forall|j: int| 0 <= j < i ==> is_path_byte(#[trigger] middle@[j]),
        decreases middle@.len() - i,
    {
        let b: u8 = middle[i];
        if b <= 0x20 || b == 0x7f {
            assert(!is_path_byte(middle@[i as int]));
            return Route::Unsupported;
        }
        i = i + 1;
    }
    assert(line@ =~= request_for(path_in(line@)));
    Route::File(vstd::slice::slice_to_vec(middle))
}

} // verus!
