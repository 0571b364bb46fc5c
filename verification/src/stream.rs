//! Incremental framing over an ordered byte source.
//!
//! Same semantics as the buffer-based scanner in [`crate::helpers`], except
//! that the input yields bytes one at a time and need not be buffered: a
//! line ends at a `\n` or at source exhaustion, and every line costs its
//! length plus one consumed bytes, so the caller can tell how much of the
//! underlying channel was used.

use vstd::prelude::*;
use vstd::utf8::valid_utf8;

use crate::error::{Error, INVALID_REQUEST, PARSE_ERROR};
use crate::helpers::{
    find_byte, is_content_length_key, lemma_find_byte, lemma_find_byte_is, lemma_find_byte_none,
    parse_usize, trim_bytes,
};

verus! {

/// A blocking, ordered, read-only byte source: the streaming parser's one
/// external interface. Its model is the sequence of bytes it has left.
pub trait ByteSource {
    /// The bytes the source will still yield, in order.
    spec fn remaining(&self) -> Seq<u8>;

    /// Yield the next byte, or nothing once the source is exhausted.
    fn next_byte(&mut self) -> (r: Option<u8>)
        ensures
            match r {
                Some(b) => old(self).remaining().len() > 0 && b == old(self).remaining()[0]
                    && final(self).remaining() == old(self).remaining().drop_first(),
                None => old(self).remaining().len() == 0 && final(self).remaining()
                    == old(self).remaining(),
            },
    ;
}

/// A byte source over an owned buffer.
pub struct SliceSource {
    data: Vec<u8>,
    pos: usize,
}

impl SliceSource {
    #[verifier::type_invariant]
    spec fn type_inv(self) -> bool {
        self.pos <= self.data@.len()
    }

    /// A source that yields exactly the given bytes.
    pub fn new(data: Vec<u8>) -> (s: SliceSource)
        ensures
            s.remaining() == data@,
    {
        let s = SliceSource { data, pos: 0 };
        proof {
            assert(s.remaining() =~= s.data@);
        }
        s
    }
}

impl ByteSource for SliceSource {
    closed spec fn remaining(&self) -> Seq<u8> {
        self.data@.skip(self.pos as int)
    }

    fn next_byte(&mut self) -> (r: Option<u8>) {
        proof {
            use_type_invariant(&*self);
        }
        if self.pos < self.data.len() {
            let b = self.data[self.pos];
            self.pos = self.pos + 1;
            proof {
                assert(final(self).remaining() =~= old(self).remaining().drop_first());
            }
            Some(b)
        } else {
            proof {
                assert(old(self).remaining().len() == 0);
            }
            None
        }
    }
}

// ---------------------------------------------------------------------------
// The streaming scan, as specification
// ---------------------------------------------------------------------------
/// One line of a byte source: the bytes before the first `\n` and the bytes
/// after it, or the whole source when it holds no `\n`.
pub open spec fn stream_line(s: Seq<u8>) -> (Seq<u8>, Seq<u8>) {
    match find_byte(s, 10) {
        Some(i) => (s.take(i), s.skip(i + 1)),
        None => (s, Seq::empty()),
    }
}

/// Scan lines for the first `content-length` key: the consumed byte count
/// (each line costs its length plus one), the declared length, and the
/// unread rest. `None` on a line with no `:` or a value that is no number.
pub open spec fn stream_scan_length(s: Seq<u8>) -> Option<(nat, nat, Seq<u8>)>
    decreases s.len(),
    via stream_scan_length_decreases
{
    let (line, rest) = stream_line(s);
    match find_byte(line, 58) {
        None => None,
        Some(c) => {
            let key = line.take(c);
            let val = line.skip(c + 1);
            if is_content_length_key(key) {
                match parse_usize(trim_bytes(val)) {
                    None => None,
                    Some(n) => Some(((line.len() + 1) as nat, n, rest)),
                }
            } else {
                match stream_scan_length(rest) {
                    None => None,
                    Some((m, n, r)) => Some(((line.len() + 1 + m) as nat, n, r)),
                }
            }
        },
    }
}

#[via_fn]
proof fn stream_scan_length_decreases(s: Seq<u8>) {
    lemma_find_byte(s, 10);
    let (line, rest) = stream_line(s);
    lemma_find_byte(line, 58);
}

/// Skip lines until one is empty after trimming: the consumed byte count
/// and the unread rest. Source exhaustion reads as an empty line, so the
/// scan always ends.
pub open spec fn stream_scan_blank(s: Seq<u8>) -> (nat, Seq<u8>)
    decreases s.len(),
    via stream_scan_blank_decreases
{
    let (line, rest) = stream_line(s);
    if trim_bytes(line).len() == 0 {
        ((line.len() + 1) as nat, rest)
    } else {
        let (m, r) = stream_scan_blank(rest);
        ((line.len() + 1 + m) as nat, r)
    }
}

#[via_fn]
proof fn stream_scan_blank_decreases(s: Seq<u8>) {
    lemma_find_byte(s, 10);
    assert(trim_bytes(Seq::<u8>::empty()).len() == 0);
}

/// The whole streaming framing step: total consumed byte count (header
/// lines plus the body), the body bytes, and what the source has left.
/// `None` when the header scan fails or the source exhausts before the
/// declared length is reached.
pub open spec fn stream_frame(s: Seq<u8>) -> Option<(nat, Seq<u8>, Seq<u8>)> {
    match stream_scan_length(s) {
        None => None,
        Some((c1, n, rest1)) => {
            let (c2, body_src) = stream_scan_blank(rest1);
            if n <= body_src.len() {
                Some(
                    (
                        (c1 + c2 + n) as nat,
                        body_src.take(n as int),
                        body_src.skip(n as int),
                    ),
                )
            } else {
                None
            }
        },
    }
}

/// The message text of a failed streaming framing step: a malformed header
/// block, or a source exhausted before the declared length was read.
pub open spec fn stream_err_msg(s: Seq<u8>) -> Seq<char> {
    match stream_scan_length(s) {
        None => "the provided request header is invalid"@,
        Some(_) => "the provided request is invalid"@,
    }
}

/// The header scan consumes at most one byte past the source: the phantom
/// line end appears only at exhaustion, where nothing is left.
proof fn lemma_stream_scan_length_bound(s: Seq<u8>)
    ensures
        match stream_scan_length(s) {
            Some((c, n, rest)) => c + rest.len() <= s.len() + 1 && (rest.len() > 0 ==> c
                + rest.len() <= s.len()),
            None => true,
        },
    decreases s.len(),
{
    lemma_find_byte(s, 10);
    let (line, rest) = stream_line(s);
    if stream_scan_length(s) is Some {
        lemma_stream_scan_length_bound(rest);
    }
}

/// The blank scan consumes at most two bytes past the source: a final line
/// without `\n`, then the phantom empty line at exhaustion.
proof fn lemma_stream_scan_blank_bound(s: Seq<u8>)
    ensures
        stream_scan_blank(s).0 + stream_scan_blank(s).1.len() <= s.len() + 2,
        stream_scan_blank(s).1.len() > 0 ==> stream_scan_blank(s).0 + stream_scan_blank(s).1.len()
            <= s.len(),
        s.len() == 0 ==> stream_scan_blank(s).0 == 1,
    decreases s.len(),
{
    lemma_find_byte(s, 10);
    assert(trim_bytes(Seq::<u8>::empty()).len() == 0);
    let (line, rest) = stream_line(s);
    if trim_bytes(line).len() != 0 {
        lemma_stream_scan_blank_bound(rest);
    }
}

/// Law, the round trip over a stream: reading the wire form of any payload
/// consumes exactly its byte length, yields exactly the payload, and leaves
/// exactly what followed it in the source.
pub proof fn lemma_stream_frame_round_trip(payload: Seq<u8>, rest: Seq<u8>)
    requires
        payload.len() <= usize::MAX,
    ensures
        stream_frame(crate::helpers::frame_bytes(payload) + rest) == Some(
            (crate::helpers::frame_bytes(payload).len(), payload, rest),
        ),
{
    crate::helpers::lemma_frame_pieces(payload, rest);
    let s = crate::helpers::frame_bytes(payload) + rest;
    let dd = crate::helpers::decimal_digits(payload.len());
    let line = crate::helpers::header_prefix() + dd + seq![13u8];
    let rest_a = seq![13u8, 10u8] + payload + rest;
    assert(stream_line(s) == (line, rest_a));
    assert(stream_scan_length(s) == Some(((line.len() + 1) as nat, payload.len(), rest_a)));
    let line_b = rest_a.take(1);
    assert(stream_line(rest_a) == (line_b, rest_a.skip(2)));
    assert(stream_scan_blank(rest_a) == (2nat, payload + rest));
    let body = payload + rest;
    assert(body.take(payload.len() as int) =~= payload);
    assert(body.skip(payload.len() as int) =~= rest);
    assert(line.len() + 1 + 2 + payload.len() == crate::helpers::frame_bytes(payload).len());
}

// ---------------------------------------------------------------------------
// The streaming scan, executable
// ---------------------------------------------------------------------------
/// Relies on `core::str::from_utf8`: it accepts exactly the byte sequences
/// that are valid UTF-8, as `vstd::utf8::valid_utf8` states them.
#[verifier::external_body]
fn utf8_ok(v: &[u8]) -> (r: bool)
    ensures
        r == valid_utf8(v@),
{
    core::str::from_utf8(v).is_ok()
}

/// Read one line: bytes up to a `\n` (consumed, not returned) or up to
/// source exhaustion.
fn read_line<S: ByteSource>(src: &mut S) -> (line: Vec<u8>)
    ensures
        line@ == stream_line(old(src).remaining()).0,
        final(src).remaining() == stream_line(old(src).remaining()).1,
{
    let mut line: Vec<u8> = Vec::new();
    loop
        invariant_except_break
            old(src).remaining() == line@ + src.remaining(),
        invariant
            forall|j: int| 0 <= j < line@.len() ==> line@[j] != 10,
        ensures
            line@ == stream_line(old(src).remaining()).0,
            src.remaining() == stream_line(old(src).remaining()).1,
        decreases src.remaining().len(),
    {
        match src.next_byte() {
            Some(b) => {
                if b == 10 {
                    proof {
                        assert(old(src).remaining()[line@.len() as int] == 10);
                        lemma_find_byte_is(old(src).remaining(), 10, line@.len() as int);
                        assert(old(src).remaining().take(line@.len() as int) =~= line@);
                        assert(old(src).remaining().skip(line@.len() as int + 1) =~= src.remaining());
                    }
                    break;
                }
                line.push(b);
                proof {
                    assert(old(src).remaining() =~= line@ + src.remaining());
                }
            },
            None => {
                proof {
                    assert(old(src).remaining() =~= line@);
                    lemma_find_byte_none(old(src).remaining(), 10);
                }
                break;
            },
        }
    }
    line
}

/// Read exactly `n` body bytes, or report that the source exhausted first.
fn read_exact<S: ByteSource>(src: &mut S, n: usize) -> (r: Option<Vec<u8>>)
    ensures
        match r {
            Some(v) => old(src).remaining().len() >= n && v@ == old(src).remaining().take(
                n as int,
            ) && final(src).remaining() == old(src).remaining().skip(n as int),
            None => old(src).remaining().len() < n,
        },
{
    let mut out: Vec<u8> = Vec::new();
    while out.len() < n
        invariant
            out@.len() <= n,
            old(src).remaining() == out@ + src.remaining(),
        decreases n - out@.len(),
    {
        match src.next_byte() {
            Some(b) => {
                out.push(b);
                proof {
                    assert(old(src).remaining() =~= out@ + src.remaining());
                }
            },
            None => {
                return None;
            },
        }
    }
    proof {
        assert(old(src).remaining().take(n as int) =~= out@);
        assert(old(src).remaining().skip(n as int) =~= src.remaining());
    }
    Some(out)
}

/// Scan header lines for the content length, mirroring
/// [`stream_scan_length`]: the consumed byte count and the declared length.
fn scan_length_stream<S: ByteSource>(src: &mut S) -> (r: Option<(usize, usize)>)
    requires
        old(src).remaining().len() + 1 <= usize::MAX,
    ensures
        match r {
            Some((c, n)) => (match stream_scan_length(old(src).remaining()) {
                Some((sc, sn, rest)) => c == sc && n == sn && final(src).remaining() == rest,
                None => false,
            }),
            None => stream_scan_length(old(src).remaining()) is None,
        },
    decreases old(src).remaining().len(),
{
    let ghost orig = old(src).remaining();
    let line = read_line(src);
    proof {
        lemma_find_byte(orig, 10);
        assert(line@.len() <= orig.len());
    }
    let colon = match crate::helpers::find_from(line.as_slice(), 0, line.len(), 58) {
        Some(c) => c,
        None => {
            proof {
                lemma_find_byte_none(line@, 58);
            }
            return None;
        },
    };
    proof {
        lemma_find_byte_is(line@, 58, colon as int);
        assert(line@.take(colon as int) =~= line@.subrange(0, colon as int));
        assert(line@.skip(colon + 1) =~= line@.subrange(colon + 1, line@.len() as int));
    }
    if crate::helpers::is_cl_key_range(line.as_slice(), 0, colon) {
        match crate::helpers::parse_usize_range(line.as_slice(), colon + 1, line.len()) {
            Some(n) => Some((line.len() + 1, n)),
            None => None,
        }
    } else {
        proof {
            lemma_find_byte(orig, 10);
            lemma_stream_scan_length_bound(src.remaining());
        }
        match scan_length_stream(src) {
            Some((c, n)) => Some((line.len() + 1 + c, n)),
            None => None,
        }
    }
}

/// Skip header lines until the terminating blank line, mirroring
/// [`stream_scan_blank`]: the consumed byte count.
fn scan_blank_stream<S: ByteSource>(src: &mut S) -> (c: usize)
    requires
        old(src).remaining().len() + 2 <= usize::MAX,
    ensures
        c == stream_scan_blank(old(src).remaining()).0,
        final(src).remaining() == stream_scan_blank(old(src).remaining()).1,
    decreases old(src).remaining().len(),
{
    let ghost orig = old(src).remaining();
    let line = read_line(src);
    proof {
        lemma_find_byte(orig, 10);
        assert(line@.len() <= orig.len());
    }
    let (ts, te) = crate::helpers::trim_range(line.as_slice(), 0, line.len());
    proof {
        assert(line@.subrange(0, line@.len() as int) =~= line@);
    }
    if te == ts {
        line.len() + 1
    } else {
        proof {
            lemma_find_byte(orig, 10);
            lemma_stream_scan_blank_bound(src.remaining());
        }
        let c = scan_blank_stream(src);
        line.len() + 1 + c
    }
}

/// Read one framed message from a byte source: scan the header block for
/// the content length and its blank-line terminator, then read exactly the
/// declared number of body bytes.
///
/// Returns the total number of consumed bytes (each header line costs its
/// length plus one, plus the body length) and the body. Fails with
/// [`INVALID_REQUEST`] exactly when the header block is malformed or the
/// source exhausts before the declared length is reached, and with
/// [`PARSE_ERROR`] exactly when the body bytes are not valid UTF-8 text.
pub fn get_content_from_reader<S: ByteSource>(src: &mut S) -> (r: Result<(usize, Vec<u8>), Error>)
    requires
        old(src).remaining().len() + 2 <= usize::MAX,
    ensures
        match r {
            Ok((n, body)) => (match stream_frame(old(src).remaining()) {
                Some((c, b, rest)) => n == c && body@ == b && valid_utf8(b)
                    && final(src).remaining() == rest,
                None => false,
            }),
            Err(e) => (match stream_frame(old(src).remaining()) {
                Some((c, b, rest)) => !valid_utf8(b) && e.code == PARSE_ERROR && e.message@
                    == "the provided request body is not valid UTF-8 text"@ && e.data is None,
                None => e.code == INVALID_REQUEST && e.message@ == stream_err_msg(
                    old(src).remaining(),
                ) && e.data is None,
            }),
        },
{
    let ghost orig = old(src).remaining();
    proof {
        lemma_stream_scan_length_bound(orig);
    }
    let (c1, n) = match scan_length_stream(src) {
        Some(x) => x,
        None => {
            return Err(
                Error {
                    code: INVALID_REQUEST,
                    message: "the provided request header is invalid".to_owned(),
                    data: None,
                },
            );
        },
    };
    proof {
        lemma_stream_scan_blank_bound(src.remaining());
    }
    let c2 = scan_blank_stream(src);
    let body = match read_exact(src, n) {
        Some(b) => b,
        None => {
            return Err(
                Error {
                    code: INVALID_REQUEST,
                    message: "the provided request is invalid".to_owned(),
                    data: None,
                },
            );
        },
    };
    if !utf8_ok(body.as_slice()) {
        return Err(
            Error {
                code: PARSE_ERROR,
                message: "the provided request body is not valid UTF-8 text".to_owned(),
                data: None,
            },
        );
    }
    Ok((c1 + c2 + n, body))
}

} // verus!
