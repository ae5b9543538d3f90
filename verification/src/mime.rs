//! From a file's extension to the type of its content.

use crate::ascii::{ascii, ascii_bytes, same_bytes};
use vstd::prelude::*;

verus! {

/// Whether the extension of `path` starts after index `dot`: a full stop
/// stands there, and neither a full stop nor a slash follows it.
pub open spec fn is_extension_dot(path: Seq<u8>, dot: int) -> bool {
    &&& 0 <= dot < path.len()
    &&& path[dot] == 0x2eu8
    &&& forall|j: int| dot < j < path.len() ==> path[j] != 0x2eu8 && path[j] != 0x2fu8
}

/// The extension of `path`: what follows the last full stop of its last
/// component. It is empty where that component holds no full stop.
pub open spec fn extension(path: Seq<u8>) -> Seq<u8> {
    if exists|dot: int| is_extension_dot(path, dot) {
        path.skip((choose|dot: int| is_extension_dot(path, dot)) + 1)
    } else {
        Seq::empty()
    }
}

/// The extension starts in one place only.
pub proof fn lemma_extension_dot_unique(path: Seq<u8>, a: int, b: int)
    requires
        is_extension_dot(path, a),
        is_extension_dot(path, b),
    ensures
        a == b,
{
}

/// The extension of `path`.
pub fn extension_of(path: &[u8]) -> (ext: &[u8])
    ensures
        ext@ == extension(path@),
{
    let n: usize = path.len();
    let mut i: usize = n;
    while i > 0 && path[i - 1] != 0x2e && path[i - 1] != 0x2f
        invariant
            n == path@.len(),
            i <= n,
            forall|j: int| i <= j < n ==> path@[j] != 0x2eu8 && path@[j] != 0x2fu8,
        decreases i,
    {
        i = i - 1;
    }
    if i > 0 && path[i - 1] == 0x2e {
        proof {
            assert(is_extension_dot(path@, i - 1));
            let chosen = choose|dot: int| is_extension_dot(path@, dot);
            lemma_extension_dot_unique(path@, i - 1, chosen);
        }
        vstd::slice::slice_subrange(path, i, n)
    } else {
        proof {
            assert forall|dot: int| !is_extension_dot(path@, dot) by {
                if is_extension_dot(path@, dot) {
                    if dot < i - 1 {
                        assert(path@[i - 1] != 0x2eu8 && path@[i - 1] != 0x2fu8);
                    }
                }
            }
        }
        vstd::slice::slice_subrange(path, n, n)
    }
}

/// The media type of files with the extension `ext`; empty where the
/// extension is not known.
pub open spec fn media_type(ext: Seq<u8>) -> Seq<char> {
    if ext == ascii("html"@) {
        "text/html"@
    } else if ext == ascii("png"@) {
        "image/png"@
    } else if ext == ascii("ico"@) {
        "image/vnd.microsoft.icon"@
    } else {
        ""@
    }
}

/// What a response declares as the type of a file with the extension `ext`:
/// its media type, and for `text/html` also the character set.
pub open spec fn content_type(ext: Seq<u8>) -> Seq<char> {
    if media_type(ext) == "text/html"@ {
        "text/html; charset=UTF-8"@
    } else {
        media_type(ext)
    }
}

/// The extensions known are ASCII text, as are the types they stand for,
/// and only `html` stands for `text/html`.
pub proof fn lemma_known_types()
    ensures
        vstd::utf8::is_ascii_chars("html"@),
        vstd::utf8::is_ascii_chars("png"@),
        vstd::utf8::is_ascii_chars("ico"@),
        "image/png"@ != "text/html"@,
        "image/vnd.microsoft.icon"@ != "text/html"@,
        ""@ != "text/html"@,
        forall|ext: Seq<u8>| vstd::utf8::is_ascii_chars(#[trigger] content_type(ext)),
{
    reveal_strlit("html");
    reveal_strlit("png");
    reveal_strlit("ico");
    reveal_strlit("text/html");
    reveal_strlit("image/png");
    reveal_strlit("image/vnd.microsoft.icon");
    reveal_strlit("");
    reveal_strlit("text/html; charset=UTF-8");
    assert("text/html"@[0] == 't' && "text/html"@.len() == 9);
    assert("image/png"@[0] == 'i');
    assert("image/vnd.microsoft.icon"@[0] == 'i');
}

/// The media type of files with the extension `ext`.
pub fn media_type_of(ext: &[u8]) -> (name: &'static str)
    ensures
        name@ == media_type(ext@),
{
    proof {
        lemma_known_types();
    }
    if same_bytes(ext, ascii_bytes("html")) {
        "text/html"
    } else if same_bytes(ext, ascii_bytes("png")) {
        "image/png"
    } else if same_bytes(ext, ascii_bytes("ico")) {
        "image/vnd.microsoft.icon"
    } else {
        ""
    }
}

/// What a response declares as the type of a file with the extension `ext`.
pub fn content_type_of(ext: &[u8]) -> (value: &'static str)
    ensures
        value@ == content_type(ext@),
{
    proof {
        lemma_known_types();
    }
    if same_bytes(ext, ascii_bytes("html")) {
        "text/html; charset=UTF-8"
    } else {
        media_type_of(ext)
    }
}

} // verus!
