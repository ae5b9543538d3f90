//! Incremental acquisition of a request header from a byte stream.
//!
//! Bytes arrive in small probes. They are accumulated until the blank line
//! that ends a header shows up, the peer closes the stream, or the bound on
//! the header's size is exceeded.

use vstd::prelude::*;

verus! {

/// Largest number of bytes a header may occupy.
pub const MAX_HEADER_LEN: usize = 2048;

/// Largest number of bytes taken from the stream by one read.
pub const PROBE_SIZE: usize = 14;

/// Whether the four bytes CR LF CR LF start at index `i` of `s`.
pub open spec fn delimiter_at(s: Seq<u8>, i: int) -> bool {
    &&& 0 <= i
    &&& i + 4 <= s.len()
    &&& s[i] == 13u8
    &&& s[i + 1] == 10u8
    &&& s[i + 2] == 13u8
    &&& s[i + 3] == 10u8
}

/// Whether CR LF CR LF occurs anywhere in `s`.
pub open spec fn has_delimiter(s: Seq<u8>) -> bool {
    exists|i: int| delimiter_at(s, i)
}

/// Whether CR LF CR LF starts at some index of `s` that is at least `from`.
pub open spec fn has_delimiter_from(s: Seq<u8>, from: int) -> bool {
    exists|i: int| from <= i && delimiter_at(s, i)
}

/// Searches `bytes` for CR LF CR LF, looking only at start positions from `from` on.
pub fn find_delimiter_from(bytes: &[u8], from: usize) -> (found: bool)
    ensures
        found == has_delimiter_from(bytes@, from as int),
{
    let n: usize = bytes.len();
    if n < 4 {
        return false;
    }
    let mut i: usize = from;
    while i <= n - 4
        invariant
            n == bytes@.len(),
            n >= 4,
            from <= i,
            forall|j: int| from <= j < i ==> !delimiter_at(bytes@, j),
        decreases n - i,
    {
        if bytes[i] == 13 && bytes[i + 1] == 10 && bytes[i + 2] == 13 && bytes[i + 3] == 10 {
            assert(delimiter_at(bytes@, i as int));
            return true;
        }
        i = i + 1;
    }
    false
}

/// Where the acquisition of a header stands.
#[derive(Clone, Copy, Debug, PartialEq, Eq, Structural)]
pub enum ReadState {
    /// More bytes are needed.
    Reading,
    /// The blank line that ends the header has been seen.
    Found,
    /// The bound on the header's size was exceeded before the blank line was seen.
    TooLong,
    /// The peer closed the stream before the blank line was seen.
    Closed,
}

/// What a reader holds: the bytes accumulated and the state reached.
pub struct Progress {
    pub bytes: Seq<u8>,
    pub state: ReadState,
}

/// The progress of a reader that has seen no bytes.
pub open spec fn start() -> Progress {
    Progress { bytes: Seq::empty(), state: ReadState::Reading }
}

/// The progress that follows `before` when one read delivers `chunk`. An
/// empty chunk stands for a closed stream. Nothing changes once a final
/// state is reached.
pub open spec fn after_chunk(before: Progress, chunk: Seq<u8>) -> Progress {
    if before.state != ReadState::Reading {
        before
    } else if chunk.len() == 0 {
        Progress { bytes: before.bytes, state: ReadState::Closed }
    } else if before.bytes.len() + chunk.len() > MAX_HEADER_LEN {
        Progress { bytes: before.bytes + chunk, state: ReadState::TooLong }
    } else if has_delimiter(before.bytes + chunk) {
        Progress { bytes: before.bytes + chunk, state: ReadState::Found }
    } else {
        Progress { bytes: before.bytes + chunk, state: ReadState::Reading }
    }
}

/// Whether the state fits the bytes: the blank line is present exactly in
/// `Found`, and the bound is exceeded exactly in `TooLong`.
pub open spec fn consistent(p: Progress) -> bool {
    match p.state {
        ReadState::Reading => p.bytes.len() <= MAX_HEADER_LEN && !has_delimiter(p.bytes),
        ReadState::Found => p.bytes.len() <= MAX_HEADER_LEN && has_delimiter(p.bytes),
        ReadState::TooLong => p.bytes.len() > MAX_HEADER_LEN,
        ReadState::Closed => p.bytes.len() <= MAX_HEADER_LEN && !has_delimiter(p.bytes),
    }
}

/// Start of the window that is searched after a read: `2 * PROBE_SIZE` bytes
/// before the end of `len` accumulated bytes, or the beginning.
pub open spec fn window_start(len: int) -> int {
    if len >= 2 * PROBE_SIZE {
        len - 2 * PROBE_SIZE
    } else {
        0
    }
}

/// A delimiter that a read of at most `PROBE_SIZE` bytes completes starts
/// within the search window, so searching the window alone misses nothing.
pub proof fn lemma_new_delimiter_is_recent(bytes: Seq<u8>, chunk: Seq<u8>)
    requires
        !has_delimiter(bytes),
        chunk.len() <= PROBE_SIZE,
    ensures
        has_delimiter(bytes + chunk) <==> has_delimiter_from(
            bytes + chunk,
            window_start((bytes + chunk).len() as int),
        ),
{
    let all = bytes + chunk;
    let from = window_start(all.len() as int);
    if has_delimiter(all) {
        let i = choose|i: int| delimiter_at(all, i);
        if i < from {
            assert(i + 4 <= bytes.len());
            assert(delimiter_at(bytes, i));
        }
        assert(from <= i && delimiter_at(all, i));
    }
}

/// Accumulates the bytes of one request header.
pub struct HeaderReader {
    buf: Vec<u8>,
    state: ReadState,
}

impl View for HeaderReader {
    type V = Progress;

    closed spec fn view(&self) -> Progress {
        Progress { bytes: self.buf@, state: self.state }
    }
}

impl HeaderReader {
    #[verifier::type_invariant]
    spec fn inv(self) -> bool {
        consistent(self@)
    }

    /// A reader that has seen no bytes.
    pub fn new() -> (reader: Self)
        ensures
            reader@ == start(),
    {
        HeaderReader { buf: Vec::new(), state: ReadState::Reading }
    }

    /// The state reached so far.
    pub fn state(&self) -> (state: ReadState)
        ensures
            state == self@.state,
            consistent(self@),
    {
        proof {
            use_type_invariant(self);
        }
        self.state
    }

    /// The bytes accumulated so far.
    pub fn bytes(&self) -> (bytes: &[u8])
        ensures
            bytes@ == self@.bytes,
            consistent(self@),
    {
        proof {
            use_type_invariant(self);
        }
        self.buf.as_slice()
    }

    /// Takes in the bytes that one read delivered and reports the state
    /// reached. An empty `chunk` reports that the peer closed the stream.
    pub fn feed(&mut self, chunk: &[u8]) -> (state: ReadState)
        requires
            chunk@.len() <= PROBE_SIZE,
        ensures
            final(self)@ == after_chunk(old(self)@, chunk@),
            state == final(self)@.state,
            consistent(final(self)@),
    {
        proof {
            use_type_invariant(&*self);
        }
        if self.state != ReadState::Reading {
            return self.state;
        }
        if chunk.len() == 0 {
            self.state = ReadState::Closed;
            return ReadState::Closed;
        }
        let ghost before = self.buf@;
        let mut buf: Vec<u8> = Vec::new();
        std::mem::swap(&mut buf, &mut self.buf);
        buf.extend_from_slice(chunk);
        assert(buf@ == before + chunk@);
        let n: usize = buf.len();
        let state = if n > MAX_HEADER_LEN {
            ReadState::TooLong
        } else {
            let from: usize = if n >= 2 * PROBE_SIZE { n - 2 * PROBE_SIZE } else { 0 };
            proof {
                lemma_new_delimiter_is_recent(before, chunk@);
            }
            if find_delimiter_from(buf.as_slice(), from) {
                ReadState::Found
            } else {
                ReadState::Reading
            }
        };
        *self = HeaderReader { buf, state };
        state
    }
}

/// The bytes of `chunks` joined in order.
pub open spec fn concat(chunks: Seq<Seq<u8>>) -> Seq<u8>
    decreases chunks.len(),
{
    if chunks.len() == 0 {
        Seq::empty()
    } else {
        concat(chunks.drop_last()) + chunks.last()
    }
}

/// The progress of a fresh reader after it was fed `chunks` in order.
pub open spec fn after_chunks(chunks: Seq<Seq<u8>>) -> Progress
    decreases chunks.len(),
{
    if chunks.len() == 0 {
        start()
    } else {
        after_chunk(after_chunks(chunks.drop_last()), chunks.last())
    }
}

/// Whether the first `k` chunks stay within the bound and hold the blank line.
pub open spec fn found_within(chunks: Seq<Seq<u8>>, k: int) -> bool {
    &&& 0 <= k <= chunks.len()
    &&& concat(chunks.take(k)).len() <= MAX_HEADER_LEN
    &&& has_delimiter(concat(chunks.take(k)))
}

/// The first `MAX_HEADER_LEN` bytes of `s`, or all of `s` if it is shorter.
pub open spec fn bounded_prefix(s: Seq<u8>) -> Seq<u8> {
    if s.len() <= MAX_HEADER_LEN {
        s
    } else {
        s.take(MAX_HEADER_LEN as int)
    }
}

/// Joining the first `k` chunks gives a prefix of the join of all chunks.
pub proof fn lemma_concat_take_is_prefix(chunks: Seq<Seq<u8>>, k: int)
    requires
        0 <= k <= chunks.len(),
    ensures
        concat(chunks.take(k)).len() <= concat(chunks).len(),
        concat(chunks.take(k)) == concat(chunks).take(concat(chunks.take(k)).len() as int),
    decreases chunks.len(),
{
    if k == chunks.len() {
        assert(chunks.take(k) == chunks);
    } else {
        let shorter = chunks.drop_last();
        assert(chunks.take(k) == shorter.take(k));
        lemma_concat_take_is_prefix(shorter, k);
    }
}

/// What a fresh reader holds after any sequence of non-empty reads: in
/// `Reading` all bytes delivered, in `Found` the bytes up to the end of the
/// read that completed the blank line, and in `TooLong` the bytes up to the
/// end of some read.
pub proof fn lemma_after_chunks(chunks: Seq<Seq<u8>>)
    requires
        forall|i: int| 0 <= i < chunks.len() ==> chunks[i].len() > 0,
    ensures
        consistent(after_chunks(chunks)),
        after_chunks(chunks).state != ReadState::Closed,
        after_chunks(chunks).state == ReadState::Found <==> exists|k: int| found_within(chunks, k),
        after_chunks(chunks).state == ReadState::TooLong <==> concat(chunks).len() > MAX_HEADER_LEN
            && !exists|k: int| found_within(chunks, k),
        after_chunks(chunks).state == ReadState::Reading ==> after_chunks(chunks).bytes == concat(
            chunks,
        ),
        after_chunks(chunks).state == ReadState::Found ==> exists|k: int|
            found_within(chunks, k) && after_chunks(chunks).bytes == concat(chunks.take(k)),
        after_chunks(chunks).state == ReadState::TooLong ==> exists|k: int|
            0 <= k <= chunks.len() && after_chunks(chunks).bytes == concat(chunks.take(k)),
    decreases chunks.len(),
{
    let n = chunks.len() as int;
    if n == 0 {
        assert forall|k: int| !found_within(chunks, k) by {
            if 0 <= k <= 0 {
                assert(chunks.take(k) == chunks);
                assert(!has_delimiter(concat(chunks)));
            }
        }
    } else {
        let shorter = chunks.drop_last();
        let last = chunks.last();
        lemma_after_chunks(shorter);
        let before = after_chunks(shorter);
        let after = after_chunks(chunks);
        assert(chunks.take(n) == chunks);
        assert forall|k: int| 0 <= k < n implies found_within(chunks, k) == found_within(
            shorter,
            k,
        ) by {
            assert(chunks.take(k) == shorter.take(k));
        }
        assert forall|k: int| found_within(shorter, k) implies found_within(chunks, k) by {
            assert(chunks.take(k) == shorter.take(k));
        }
        match before.state {
            ReadState::Found => {
                let k = choose|k: int|
                    found_within(shorter, k) && before.bytes == concat(shorter.take(k));
                assert(chunks.take(k) == shorter.take(k));
                assert(found_within(chunks, k));
            },
            ReadState::TooLong => {
                let k = choose|k: int|
                    0 <= k <= shorter.len() && before.bytes == concat(shorter.take(k));
                assert(chunks.take(k) == shorter.take(k));
                lemma_concat_take_is_prefix(chunks, k);
                assert(!found_within(chunks, n));
                assert forall|k: int| !found_within(chunks, k) by {
                    if 0 <= k < n {
                        assert(!found_within(shorter, k));
                    }
                }
            },
            ReadState::Closed => {},
            ReadState::Reading => {
                assert(concat(chunks) == before.bytes + last);
                if after.state == ReadState::Found {
                    assert(found_within(chunks, n));
                } else {
                    assert(!found_within(chunks, n));
                    assert forall|k: int| !found_within(chunks, k) by {
                        if 0 <= k < n {
                            assert(!found_within(shorter, k));
                        }
                    }
                }
            },
        }
    }
}

/// A stream read in non-empty pieces ends in `Found` if the blank line lies
/// within its first `MAX_HEADER_LEN` bytes, and in `TooLong` if it does not.
///
/// Two kinds of stream are left out. One is a stream that neither holds the
/// blank line nor runs past the bound: its reader is still `Reading`. The
/// other is a stream whose blank line lies within the bound while the read
/// that completes it also carries the accumulated bytes past the bound: its
/// reader ends in `TooLong`.
pub proof fn lemma_found_iff_delimiter_within_bound(chunks: Seq<Seq<u8>>)
    requires
        forall|i: int| 0 <= i < chunks.len() ==> chunks[i].len() > 0,
        !has_delimiter(bounded_prefix(concat(chunks))) ==> concat(chunks).len() > MAX_HEADER_LEN,
        has_delimiter(bounded_prefix(concat(chunks))) ==> exists|k: int| found_within(chunks, k),
    ensures
        after_chunks(chunks).state == ReadState::Found <==> has_delimiter(
            bounded_prefix(concat(chunks)),
        ),
        after_chunks(chunks).state == ReadState::TooLong <==> !has_delimiter(
            bounded_prefix(concat(chunks)),
        ),
{
    lemma_after_chunks(chunks);
    let total = concat(chunks);
    if !has_delimiter(bounded_prefix(total)) {
        assert forall|k: int| !found_within(chunks, k) by {
            if found_within(chunks, k) {
                lemma_found_within_bound(chunks, k);
            }
        }
    }
}

/// A blank line found within the bound after `k` reads lies within the first
/// `MAX_HEADER_LEN` bytes of the whole stream.
pub proof fn lemma_found_within_bound(chunks: Seq<Seq<u8>>, k: int)
    requires
        found_within(chunks, k),
    ensures
        has_delimiter(bounded_prefix(concat(chunks))),
{
    let total = concat(chunks);
    let part = concat(chunks.take(k));
    lemma_concat_take_is_prefix(chunks, k);
    let i = choose|i: int| delimiter_at(part, i);
    assert(part == total.take(part.len() as int));
    assert(delimiter_at(bounded_prefix(total), i));
}

/// Joined, reads of one byte each are as many bytes as there are reads.
proof fn lemma_concat_of_single_bytes(chunks: Seq<Seq<u8>>)
    requires
        forall|i: int| 0 <= i < chunks.len() ==> chunks[i].len() == 1,
    ensures
        concat(chunks).len() == chunks.len(),
    decreases chunks.len(),
{
    if chunks.len() > 0 {
        lemma_concat_of_single_bytes(chunks.drop_last());
    }
}

/// Read byte by byte, a stream that holds the blank line or runs past the
/// bound ends in `Found` if the blank line lies within its first
/// `MAX_HEADER_LEN` bytes, and in `TooLong` if it does not.
pub proof fn lemma_found_iff_delimiter_within_bound_bytewise(chunks: Seq<Seq<u8>>)
    requires
        forall|i: int| 0 <= i < chunks.len() ==> chunks[i].len() == 1,
        !has_delimiter(bounded_prefix(concat(chunks))) ==> concat(chunks).len() > MAX_HEADER_LEN,
    ensures
        after_chunks(chunks).state == ReadState::Found <==> has_delimiter(
            bounded_prefix(concat(chunks)),
        ),
        after_chunks(chunks).state == ReadState::TooLong <==> !has_delimiter(
            bounded_prefix(concat(chunks)),
        ),
{
    let total = concat(chunks);
    let within = bounded_prefix(total);
    lemma_concat_of_single_bytes(chunks);
    if has_delimiter(within) {
        let i = choose|i: int| delimiter_at(within, i);
        let k = i + 4;
        lemma_concat_of_single_bytes(chunks.take(k));
        lemma_concat_take_is_prefix(chunks, k);
        assert(delimiter_at(total.take(k), i));
        assert(found_within(chunks, k));
    }
    lemma_found_iff_delimiter_within_bound(chunks);
}

} // verus!
