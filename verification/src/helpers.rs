//! Header-block framing: scanning a `Content-Length` header block and
//! splitting the declared number of payload bytes off a buffer.
//!
//! The wire form is a sequence of `Key: Value` lines delimited by `\n`
//! (tolerant of a trailing `\r` per line), terminated by a line that is empty
//! after trimming, followed by exactly the declared number of payload bytes.

use vstd::prelude::*;

use crate::error::{Error, INVALID_REQUEST};

verus! {

// ---------------------------------------------------------------------------
// Byte classification and trimming
// ---------------------------------------------------------------------------
/// ASCII whitespace, as `char::is_whitespace` classifies the ASCII range:
/// tab through carriage return, and space.
pub open spec fn is_ws_byte(b: u8) -> bool {
    (9 <= b && b <= 13) || b == 32
}

/// ASCII lower-casing of one byte.
pub open spec fn lower_byte(b: u8) -> u8 {
    if 65 <= b && b <= 90 {
        (b + 32) as u8
    } else {
        b
    }
}

/// ASCII lower-casing of a byte sequence.
pub open spec fn lower_bytes(s: Seq<u8>) -> Seq<u8> {
    s.map_values(|b: u8| lower_byte(b))
}

/// Leading ASCII whitespace removed.
pub open spec fn trim_front(s: Seq<u8>) -> Seq<u8>
    decreases s.len(),
{
    if s.len() > 0 && is_ws_byte(s[0]) {
        trim_front(s.drop_first())
    } else {
        s
    }
}

/// Trailing ASCII whitespace removed.
pub open spec fn trim_back(s: Seq<u8>) -> Seq<u8>
    decreases s.len(),
{
    if s.len() > 0 && is_ws_byte(s[s.len() - 1]) {
        trim_back(s.drop_last())
    } else {
        s
    }
}

/// Surrounding ASCII whitespace removed.
pub open spec fn trim_bytes(s: Seq<u8>) -> Seq<u8> {
    trim_back(trim_front(s))
}

/// The bytes of the header key `content-length`.
pub open spec fn content_length_key() -> Seq<u8> {
    seq![99u8, 111u8, 110u8, 116u8, 101u8, 110u8, 116u8, 45u8, 108u8, 101u8, 110u8, 103u8, 116u8, 104u8]
}

/// A header key names the content length: matched case-insensitively with
/// surrounding whitespace trimmed.
pub open spec fn is_content_length_key(k: Seq<u8>) -> bool {
    lower_bytes(trim_bytes(k)) == content_length_key()
}

// ---------------------------------------------------------------------------
// Finding a byte
// ---------------------------------------------------------------------------
/// Index of the first occurrence of `b` in `s`, if any.
pub open spec fn find_byte(s: Seq<u8>, b: u8) -> Option<int>
    decreases s.len(),
{
    if s.len() == 0 {
        None
    } else if s[0] == b {
        Some(0)
    } else {
        match find_byte(s.drop_first(), b) {
            Some(i) => Some(i + 1),
            None => None,
        }
    }
}

/// What [`find_byte`] returns: the first index holding `b`, or nothing when
/// no index does.
pub proof fn lemma_find_byte(s: Seq<u8>, b: u8)
    ensures
        match find_byte(s, b) {
            Some(i) => 0 <= i < s.len() && s[i] == b && (forall|j: int| 0 <= j < i ==> s[j] != b),
            None => forall|j: int| 0 <= j < s.len() ==> s[j] != b,
        },
    decreases s.len(),
{
    if s.len() > 0 && s[0] != b {
        lemma_find_byte(s.drop_first(), b);
        assert(forall|j: int| 1 <= j < s.len() ==> s[j] == s.drop_first()[j - 1]);
    }
}

/// The converse: an index that holds `b` after none that does pins
/// [`find_byte`] down.
pub proof fn lemma_find_byte_is(s: Seq<u8>, b: u8, i: int)
    requires
        0 <= i < s.len(),
        s[i] == b,
        forall|j: int| 0 <= j < i ==> s[j] != b,
    ensures
        find_byte(s, b) == Some(i),
    decreases s.len(),
{
    if i > 0 {
        lemma_find_byte_is(s.drop_first(), b, i - 1);
    }
}

/// And when no index holds `b`, [`find_byte`] finds nothing.
pub proof fn lemma_find_byte_none(s: Seq<u8>, b: u8)
    requires
        forall|j: int| 0 <= j < s.len() ==> s[j] != b,
    ensures
        find_byte(s, b) is None,
    decreases s.len(),
{
    if s.len() > 0 {
        lemma_find_byte_none(s.drop_first(), b);
    }
}

// ---------------------------------------------------------------------------
// Decimal numbers
// ---------------------------------------------------------------------------
/// All bytes are ASCII digits.
pub open spec fn all_digits(s: Seq<u8>) -> bool {
    forall|i: int| 0 <= i < s.len() ==> 48 <= #[trigger] s[i] && s[i] <= 57
}

/// The number that a digit string denotes.
pub open spec fn digits_val(s: Seq<u8>) -> nat
    decreases s.len(),
{
    if s.len() == 0 {
        0
    } else {
        (digits_val(s.drop_last()) * 10 + (s[s.len() - 1] - 48)) as nat
    }
}

/// The number that a trimmed header value denotes, as `usize::from_str`
/// accepts it: an optional leading `+`, then one or more digits, the value
/// fitting a `usize`.
pub open spec fn parse_usize(s: Seq<u8>) -> Option<nat> {
    let d = if s.len() > 0 && s[0] == 43 {
        s.drop_first()
    } else {
        s
    };
    if d.len() > 0 && all_digits(d) && digits_val(d) <= usize::MAX {
        Some(digits_val(d))
    } else {
        None
    }
}

/// The decimal rendering of a number, most significant digit first.
pub open spec fn decimal_digits(n: nat) -> Seq<u8>
    decreases n,
{
    if n < 10 {
        seq![(n + 48) as u8]
    } else {
        decimal_digits(n / 10).push((n % 10 + 48) as u8)
    }
}

/// Decimal renderings are nonempty digit strings that denote the rendered
/// number.
pub proof fn lemma_decimal_digits(n: nat)
    ensures
        decimal_digits(n).len() >= 1,
        all_digits(decimal_digits(n)),
        digits_val(decimal_digits(n)) == n,
    decreases n,
{
    if n < 10 {
        let whole = seq![(n + 48) as u8];
        assert(whole.drop_last() =~= Seq::<u8>::empty());
        assert(digits_val(whole) == digits_val(whole.drop_last()) * 10 + (whole[0] - 48));
    } else {
        lemma_decimal_digits(n / 10);
        let d = decimal_digits(n / 10);
        let whole = d.push((n % 10 + 48) as u8);
        assert(whole.drop_last() =~= d);
        assert(digits_val(whole) == digits_val(d) * 10 + (n % 10));
        assert(n / 10 * 10 + n % 10 == n);
    }
}

/// Growing a digit string never shrinks the number it denotes.
pub proof fn lemma_digits_val_prefix(s: Seq<u8>, k: int)
    requires
        0 <= k <= s.len(),
        all_digits(s),
    ensures
        digits_val(s.take(k)) <= digits_val(s),
    decreases s.len() - k,
{
    if k < s.len() {
        lemma_digits_val_prefix(s, k + 1);
        assert(s.take(k + 1).drop_last() =~= s.take(k));
        assert(digits_val(s.take(k + 1)) == digits_val(s.take(k)) * 10 + (s[k] - 48));
        assert(digits_val(s.take(k)) <= digits_val(s.take(k)) * 10 + (s[k] - 48))
            by (nonlinear_arith)
            requires 48 <= s[k] <= 57
        ;
    } else {
        assert(s.take(k) =~= s);
    }
}

// ---------------------------------------------------------------------------
// Scanning the header block
// ---------------------------------------------------------------------------
/// Scan header lines for the first `content-length` key and the number it
/// declares. `None` on any malformed block: no `\n` before a line ends, a
/// line with no `:`, or a value that is no `usize` number.
pub open spec fn scan_length(s: Seq<u8>) -> Option<(nat, Seq<u8>)>
    decreases s.len(),
    via scan_length_decreases
{
    match find_byte(s, 10) {
        None => None,
        Some(nl) => {
            let line = s.take(nl);
            let rest = s.skip(nl + 1);
            match find_byte(line, 58) {
                None => None,
                Some(c) => {
                    let key = line.take(c);
                    let val = line.skip(c + 1);
                    if is_content_length_key(key) {
                        match parse_usize(trim_bytes(val)) {
                            None => None,
                            Some(n) => Some((n, rest)),
                        }
                    } else {
                        scan_length(rest)
                    }
                },
            }
        },
    }
}

#[via_fn]
proof fn scan_length_decreases(s: Seq<u8>) {
    lemma_find_byte(s, 10);
}

/// Skip header lines until one is empty after trimming; what follows that
/// terminator line. `None` when the block never ends.
pub open spec fn scan_blank(s: Seq<u8>) -> Option<Seq<u8>>
    decreases s.len(),
    via scan_blank_decreases
{
    match find_byte(s, 10) {
        None => None,
        Some(nl) => {
            let line = s.take(nl);
            let rest = s.skip(nl + 1);
            if trim_bytes(line).len() == 0 {
                Some(rest)
            } else {
                scan_blank(rest)
            }
        },
    }
}

#[via_fn]
proof fn scan_blank_decreases(s: Seq<u8>) {
    lemma_find_byte(s, 10);
}

/// The whole framing step on a buffer: the declared number of payload bytes
/// split off the bytes after the header terminator, and the remainder.
/// `None` on a malformed header block or when fewer than the declared
/// number of bytes follow.
pub open spec fn spec_frame(s: Seq<u8>) -> Option<(Seq<u8>, Seq<u8>)> {
    match scan_length(s) {
        None => None,
        Some((n, after)) => match scan_blank(after) {
            None => None,
            Some(body) => if n <= body.len() {
                Some((body.take(n as int), body.skip(n as int)))
            } else {
                None
            },
        },
    }
}

/// The unconsumed remainder at the point where [`scan_length`] fails: the
/// current suffix when no `\n` is left, and the bytes after the offending
/// line when it has no `:` or a value that is no number. Meaningful only
/// when the scan fails.
pub open spec fn scan_length_rem(s: Seq<u8>) -> Seq<u8>
    decreases s.len(),
    via scan_length_rem_decreases
{
    match find_byte(s, 10) {
        None => s,
        Some(nl) => {
            let line = s.take(nl);
            let rest = s.skip(nl + 1);
            match find_byte(line, 58) {
                None => rest,
                Some(c) => {
                    if is_content_length_key(line.take(c)) {
                        rest
                    } else {
                        scan_length_rem(rest)
                    }
                },
            }
        },
    }
}

#[via_fn]
proof fn scan_length_rem_decreases(s: Seq<u8>) {
    lemma_find_byte(s, 10);
}

/// The unconsumed remainder at the point where [`scan_blank`] fails: the
/// current suffix when no `\n` is left. Meaningful only when the scan fails.
pub open spec fn scan_blank_rem(s: Seq<u8>) -> Seq<u8>
    decreases s.len(),
    via scan_blank_rem_decreases
{
    match find_byte(s, 10) {
        None => s,
        Some(nl) => {
            let line = s.take(nl);
            let rest = s.skip(nl + 1);
            if trim_bytes(line).len() == 0 {
                rest
            } else {
                scan_blank_rem(rest)
            }
        },
    }
}

#[via_fn]
proof fn scan_blank_rem_decreases(s: Seq<u8>) {
    lemma_find_byte(s, 10);
}

/// The unconsumed remainder that a failed framing step carries as
/// diagnostic data: where the header scan stopped, or the bytes after the
/// terminator line when the body is shorter than declared.
pub open spec fn frame_err_rem(s: Seq<u8>) -> Seq<u8> {
    match scan_length(s) {
        None => scan_length_rem(s),
        Some((n, after)) => match scan_blank(after) {
            None => scan_blank_rem(after),
            Some(body) => body,
        },
    }
}

/// The message text of a failed framing step: a malformed or unterminated
/// header block, or a body shorter than declared.
pub open spec fn frame_err_msg(s: Seq<u8>) -> Seq<char> {
    match scan_length(s) {
        None => "the provided request header is invalid"@,
        Some((n, after)) => match scan_blank(after) {
            None => "the provided request header is invalid"@,
            Some(body) => "the provided request is invalid"@,
        },
    }
}

// ---------------------------------------------------------------------------
// Laws: case-insensitive key matching
// ---------------------------------------------------------------------------
proof fn lemma_lower_trim_front(s: Seq<u8>)
    ensures
        lower_bytes(trim_front(s)) == trim_front(lower_bytes(s)),
    decreases s.len(),
{
    if s.len() > 0 {
        assert(lower_bytes(s)[0] == lower_byte(s[0]));
        assert(is_ws_byte(lower_byte(s[0])) == is_ws_byte(s[0]));
        if is_ws_byte(s[0]) {
            lemma_lower_trim_front(s.drop_first());
            assert(lower_bytes(s).drop_first() =~= lower_bytes(s.drop_first()));
        }
    }
}

proof fn lemma_lower_trim_back(s: Seq<u8>)
    ensures
        lower_bytes(trim_back(s)) == trim_back(lower_bytes(s)),
    decreases s.len(),
{
    if s.len() > 0 {
        let last = s.len() - 1;
        assert(lower_bytes(s)[last] == lower_byte(s[last]));
        assert(is_ws_byte(lower_byte(s[last])) == is_ws_byte(s[last]));
        if is_ws_byte(s[last]) {
            lemma_lower_trim_back(s.drop_last());
            assert(lower_bytes(s).drop_last() =~= lower_bytes(s.drop_last()));
        }
    }
}

/// Header keys are matched case-insensitively: two keys that agree up to
/// ASCII case are recognized identically, whatever their casing.
pub proof fn lemma_key_case_insensitive(k1: Seq<u8>, k2: Seq<u8>)
    requires
        lower_bytes(k1) == lower_bytes(k2),
    ensures
        is_content_length_key(k1) == is_content_length_key(k2),
{
    lemma_lower_trim_front(k1);
    lemma_lower_trim_back(trim_front(k1));
    lemma_lower_trim_front(k2);
    lemma_lower_trim_back(trim_front(k2));
}

/// How the scan reads one leading `Key: Value` line: the line splits at its
/// first `:`, and the scan either takes the declared length or moves past
/// the line, depending only on the key's trimmed, lower-cased spelling.
proof fn lemma_scan_length_line(k: Seq<u8>, val: Seq<u8>, rest: Seq<u8>)
    requires
        forall|i: int| 0 <= i < k.len() ==> k[i] != 10 && #[trigger] k[i] != 58,
        forall|i: int| 0 <= i < val.len() ==> #[trigger] val[i] != 10,
    ensures
        scan_length(k + seq![58u8] + val + seq![10u8] + rest) == (if is_content_length_key(k) {
            match parse_usize(trim_bytes(val)) {
                None => None,
                Some(n) => Some((n, rest)),
            }
        } else {
            scan_length(rest)
        }),
{
    let s = k + seq![58u8] + val + seq![10u8] + rest;
    let nl = k.len() + val.len() + 1;
    assert(s[nl as int] == 10);
    assert forall|j: int| 0 <= j < nl implies s[j] != 10 by {
        if j < k.len() {
            assert(s[j] == k[j]);
        } else if j == k.len() {
            assert(s[j] == 58);
        } else {
            assert(s[j] == val[j - k.len() - 1]);
        }
    }
    lemma_find_byte_is(s, 10, nl as int);
    let line = s.take(nl as int);
    assert(line =~= k + seq![58u8] + val);
    assert(line[k.len() as int] == 58);
    assert forall|j: int| 0 <= j < k.len() implies line[j] != 58 by {
        assert(line[j] == k[j]);
    }
    lemma_find_byte_is(line, 58, k.len() as int);
    assert(line.take(k.len() as int) =~= k);
    assert(line.skip(k.len() as int + 1) =~= val);
    assert(s.skip(nl as int + 1) =~= rest);
}

/// The whole-buffer form of case-insensitive matching: two buffers that are
/// identical but for the spelling of their leading header key — equal once
/// trimmed and lower-cased — scan and frame identically, whatever follows.
pub proof fn lemma_frame_key_spelling(k1: Seq<u8>, k2: Seq<u8>, val: Seq<u8>, rest: Seq<u8>)
    requires
        lower_bytes(trim_bytes(k1)) == lower_bytes(trim_bytes(k2)),
        forall|i: int| 0 <= i < k1.len() ==> k1[i] != 10 && #[trigger] k1[i] != 58,
        forall|i: int| 0 <= i < k2.len() ==> k2[i] != 10 && #[trigger] k2[i] != 58,
        forall|i: int| 0 <= i < val.len() ==> #[trigger] val[i] != 10,
    ensures
        scan_length(k1 + seq![58u8] + val + seq![10u8] + rest) == scan_length(
            k2 + seq![58u8] + val + seq![10u8] + rest,
        ),
        spec_frame(k1 + seq![58u8] + val + seq![10u8] + rest) == spec_frame(
            k2 + seq![58u8] + val + seq![10u8] + rest,
        ),
{
    lemma_scan_length_line(k1, val, rest);
    lemma_scan_length_line(k2, val, rest);
    assert(is_content_length_key(k1) == is_content_length_key(k2));
}

// ---------------------------------------------------------------------------
// The wire form of a payload
// ---------------------------------------------------------------------------
/// The bytes of the header prefix `Content-Length: `.
pub open spec fn header_prefix() -> Seq<u8> {
    seq![67u8, 111u8, 110u8, 116u8, 101u8, 110u8, 116u8, 45u8, 76u8, 101u8, 110u8, 103u8, 116u8, 104u8, 58u8, 32u8]
}

/// The header block declaring `n` payload bytes:
/// `Content-Length: {n}\r\n\r\n`.
pub open spec fn header_bytes(n: nat) -> Seq<u8> {
    header_prefix() + decimal_digits(n) + seq![13u8, 10u8, 13u8, 10u8]
}

/// The full wire form of a payload: the header block declaring its exact
/// byte length, then the payload itself, with no trailing terminator.
pub open spec fn frame_bytes(payload: Seq<u8>) -> Seq<u8> {
    header_bytes(payload.len()) + payload
}

fn header_prefix_vec() -> (r: Vec<u8>)
    ensures
        r@ == header_prefix(),
{
    let mut v: Vec<u8> = Vec::new();
    v.push(67);
    v.push(111);
    v.push(110);
    v.push(116);
    v.push(101);
    v.push(110);
    v.push(116);
    v.push(45);
    v.push(76);
    v.push(101);
    v.push(110);
    v.push(103);
    v.push(116);
    v.push(104);
    v.push(58);
    v.push(32);
    proof {
        assert(v@ =~= header_prefix());
    }
    v
}

/// Append the decimal rendering of `n`.
fn push_decimal(out: &mut Vec<u8>, n: usize)
    ensures
        final(out)@ == old(out)@ + decimal_digits(n as nat),
    decreases n,
{
    if n >= 10 {
        push_decimal(out, n / 10);
        let d = (n % 10) as u8 + 48;
        out.push(d);
        proof {
            assert(out@ =~= old(out)@ + decimal_digits(n as nat));
        }
    } else {
        let d = n as u8 + 48;
        out.push(d);
        proof {
            assert(out@ =~= old(out)@ + decimal_digits(n as nat));
        }
    }
}

/// Render the wire form of a payload: `Content-Length: {n}\r\n\r\n` followed
/// by the `n` payload bytes.
pub fn frame_payload(payload: Vec<u8>) -> (r: Vec<u8>)
    ensures
        r@ == frame_bytes(payload@),
{
    let ghost p = payload@;
    let mut body = payload;
    let mut out: Vec<u8> = Vec::new();
    let mut prefix = header_prefix_vec();
    out.append(&mut prefix);
    push_decimal(&mut out, body.len());
    out.push(13);
    out.push(10);
    out.push(13);
    out.push(10);
    out.append(&mut body);
    proof {
        assert(out@ =~= frame_bytes(p));
    }
    out
}

// ---------------------------------------------------------------------------
// Executable primitives
// ---------------------------------------------------------------------------
/// First index in `[from, to)` holding `b`.
#[verifier::loop_isolation(false)]
pub(crate) fn find_from(s: &[u8], from: usize, to: usize, b: u8) -> (r: Option<usize>)
    requires
        from <= to <= s@.len(),
    ensures
        match r {
            Some(i) => from <= i < to && s@[i as int] == b && (forall|j: int|
                from <= j < i ==> s@[j] != b),
            None => forall|j: int| from <= j < to ==> s@[j] != b,
        },
{
    let mut i: usize = from;
    while i < to
        invariant
            from <= i <= to <= s@.len(),
            forall|j: int| from <= j < i ==> s@[j] != b,
        decreases to - i,
    {
        if s[i] == b {
            return Some(i);
        }
        i = i + 1;
    }
    None
}

/// ASCII whitespace test on one byte.
fn is_ws_exec(b: u8) -> (r: bool)
    ensures
        r == is_ws_byte(b),
{
    (9 <= b && b <= 13) || b == 32
}

/// ASCII lower-casing of one byte.
fn lower_byte_exec(b: u8) -> (r: u8)
    ensures
        r == lower_byte(b),
{
    if 65 <= b && b <= 90 {
        b + 32
    } else {
        b
    }
}

proof fn lemma_trim_front_unfold(s: Seq<u8>)
    ensures
        s.len() > 0 && is_ws_byte(s[0]) ==> trim_front(s) == trim_front(s.drop_first()),
        !(s.len() > 0 && is_ws_byte(s[0])) ==> trim_front(s) == s,
{
}

proof fn lemma_trim_back_unfold(s: Seq<u8>)
    ensures
        s.len() > 0 && is_ws_byte(s[s.len() - 1]) ==> trim_back(s) == trim_back(s.drop_last()),
        !(s.len() > 0 && is_ws_byte(s[s.len() - 1])) ==> trim_back(s) == s,
{
}

/// The bounds of `trim_bytes(s@.subrange(from, to))` inside `s`.
#[verifier::loop_isolation(false)]
pub(crate) fn trim_range(s: &[u8], from: usize, to: usize) -> (r: (usize, usize))
    requires
        from <= to <= s@.len(),
    ensures
        from <= r.0 <= r.1 <= to,
        trim_bytes(s@.subrange(from as int, to as int)) == s@.subrange(r.0 as int, r.1 as int),
{
    let mut ts: usize = from;
    while ts < to && is_ws_exec(s[ts])
        invariant
            from <= ts <= to <= s@.len(),
            trim_front(s@.subrange(from as int, to as int)) == trim_front(
                s@.subrange(ts as int, to as int),
            ),
        decreases to - ts,
    {
        proof {
            let cur = s@.subrange(ts as int, to as int);
            lemma_trim_front_unfold(cur);
            assert(cur.drop_first() =~= s@.subrange(ts + 1, to as int));
        }
        ts = ts + 1;
    }
    proof {
        lemma_trim_front_unfold(s@.subrange(ts as int, to as int));
    }
    let mut te: usize = to;
    while te > ts && is_ws_exec(s[te - 1])
        invariant
            from <= ts <= te <= to <= s@.len(),
            trim_front(s@.subrange(from as int, to as int)) == s@.subrange(ts as int, to as int),
            trim_back(s@.subrange(ts as int, to as int)) == trim_back(
                s@.subrange(ts as int, te as int),
            ),
        decreases te,
    {
        proof {
            let cur = s@.subrange(ts as int, te as int);
            lemma_trim_back_unfold(cur);
            assert(cur.drop_last() =~= s@.subrange(ts as int, te - 1));
        }
        te = te - 1;
    }
    proof {
        lemma_trim_back_unfold(s@.subrange(ts as int, te as int));
    }
    (ts, te)
}

/// The bytes of the header key `content-length`, as a vector.
fn content_length_key_vec() -> (r: Vec<u8>)
    ensures
        r@ == content_length_key(),
{
    let mut v: Vec<u8> = Vec::new();
    v.push(99);
    v.push(111);
    v.push(110);
    v.push(116);
    v.push(101);
    v.push(110);
    v.push(116);
    v.push(45);
    v.push(108);
    v.push(101);
    v.push(110);
    v.push(103);
    v.push(116);
    v.push(104);
    proof {
        assert(v@ =~= content_length_key());
    }
    v
}

/// Whether the header key `s[from..to]` names the content length.
#[verifier::loop_isolation(false)]
pub(crate) fn is_cl_key_range(s: &[u8], from: usize, to: usize) -> (r: bool)
    requires
        from <= to <= s@.len(),
    ensures
        r == is_content_length_key(s@.subrange(from as int, to as int)),
{
    let ghost whole = s@.subrange(from as int, to as int);
    let (ts, te) = trim_range(s, from, to);
    let ghost trimmed = s@.subrange(ts as int, te as int);
    proof {
        assert(lower_bytes(trimmed).len() == trimmed.len());
        assert(content_length_key().len() == 14);
    }
    if te - ts != 14 {
        return false;
    }
    let key = content_length_key_vec();
    let mut i: usize = 0;
    while i < 14
        invariant
            0 <= i <= 14,
            from <= ts <= te <= to <= s@.len(),
            te - ts == 14,
            trimmed == s@.subrange(ts as int, te as int),
            key@ == content_length_key(),
            forall|j: int| 0 <= j < i ==> lower_byte(trimmed[j]) == content_length_key()[j],
        decreases 14 - i,
    {
        if lower_byte_exec(s[ts + i]) != key[i] {
            proof {
                assert(trimmed[i as int] == s@[ts + i]);
                assert(lower_bytes(trimmed)[i as int] == lower_byte(trimmed[i as int]));
                assert(lower_bytes(trimmed) != content_length_key());
            }
            return false;
        }
        i = i + 1;
    }
    proof {
        assert(lower_bytes(trimmed) =~= content_length_key());
    }
    true
}

/// Parse the trimmed slice `s[from..to]` as a `usize`, as [`parse_usize`]
/// accepts it.
#[verifier::loop_isolation(false)]
pub(crate) fn parse_usize_range(s: &[u8], from: usize, to: usize) -> (r: Option<usize>)
    requires
        from <= to <= s@.len(),
    ensures
        match r {
            Some(n) => parse_usize(trim_bytes(s@.subrange(from as int, to as int))) == Some(
                n as nat,
            ),
            None => parse_usize(trim_bytes(s@.subrange(from as int, to as int))) is None,
        },
{
    let (ts, te) = trim_range(s, from, to);
    let ghost trimmed = s@.subrange(ts as int, te as int);
    let mut i: usize = ts;
    if i < te && s[i] == 43 {
        i = i + 1;
    }
    let ghost digits = s@.subrange(i as int, te as int);
    proof {
        if trimmed.len() > 0 && trimmed[0] == 43 {
            assert(trimmed.drop_first() =~= digits);
        } else {
            assert(trimmed =~= digits);
        }
    }
    if i == te {
        return None;
    }
    let ds = i;
    let mut n: usize = 0;
    while i < te
        invariant
            ts <= ds <= i <= te <= s@.len(),
            digits == s@.subrange(ds as int, te as int),
            digits.len() > 0,
            all_digits(s@.subrange(ds as int, i as int)),
            n as nat == digits_val(s@.subrange(ds as int, i as int)),
        decreases te - i,
    {
        let b = s[i];
        if b < 48 || b > 57 {
            proof {
                assert(digits[i - ds] == b);
                assert(!all_digits(digits));
            }
            return None;
        }
        let d = (b - 48) as usize;
        proof {
            assert(s@.subrange(ds as int, i + 1).drop_last() =~= s@.subrange(ds as int, i as int));
            assert(digits_val(s@.subrange(ds as int, i + 1)) == digits_val(
                s@.subrange(ds as int, i as int),
            ) * 10 + d);
        }
        if n > (usize::MAX - d) / 10 {
            proof {
                let pre = s@.subrange(ds as int, i + 1);
                assert((n as nat) * 10 + d > usize::MAX) by (nonlinear_arith)
                    requires
                        n > (usize::MAX - d) / 10,
                        d <= 9,
                ;
                if all_digits(digits) {
                    assert(pre =~= digits.take(i + 1 - ds));
                    lemma_digits_val_prefix(digits, i + 1 - ds);
                }
            }
            return None;
        }
        proof {
            assert(n * 10 + d <= usize::MAX) by (nonlinear_arith)
                requires
                    n <= (usize::MAX - d) / 10,
                    d <= 9,
            ;
        }
        n = n * 10 + d;
        i = i + 1;
    }
    proof {
        assert(s@.subrange(ds as int, i as int) =~= digits);
    }
    Some(n)
}

// ---------------------------------------------------------------------------
// The scanner
// ---------------------------------------------------------------------------
fn header_block_error(rem: &[u8]) -> (e: Error)
    ensures
        e.code == INVALID_REQUEST,
        e.message@ == "the provided request header is invalid"@,
        crate::json::data_echoes(e.data, rem@),
{
    Error {
        code: INVALID_REQUEST,
        message: "the provided request header is invalid".to_owned(),
        data: Some(crate::json::string_value(crate::json::lossy_text(rem))),
    }
}

/// Scan for the first `content-length` header starting at `pos`, mirroring
/// [`scan_length`]. Returns the declared length and the index after the
/// header line that carried it, or the index of the unconsumed remainder at
/// the point of failure.
fn scan_length_exec(s: &[u8], pos: usize) -> (r: Result<(usize, usize), usize>)
    requires
        pos <= s@.len(),
    ensures
        match r {
            Ok((n, after)) => pos <= after <= s@.len() && scan_length(s@.skip(pos as int))
                == Some((n as nat, s@.skip(after as int))),
            Err(ep) => pos <= ep <= s@.len() && scan_length(s@.skip(pos as int)) is None
                && scan_length_rem(s@.skip(pos as int)) == s@.skip(ep as int),
        },
    decreases s@.len() - pos,
{
    let ghost suffix = s@.skip(pos as int);
    let nl = match find_from(s, pos, s.len(), 10) {
        Some(i) => i,
        None => {
            proof {
                assert(forall|j: int| 0 <= j < suffix.len() ==> suffix[j] == s@[pos + j]);
                lemma_find_byte_none(suffix, 10);
            }
            return Err(pos);
        },
    };
    proof {
        assert(forall|j: int| 0 <= j < suffix.len() ==> suffix[j] == s@[pos + j]);
        lemma_find_byte_is(suffix, 10, nl - pos);
        assert(suffix.take(nl - pos) =~= s@.subrange(pos as int, nl as int));
        assert(suffix.skip(nl - pos + 1) =~= s@.skip(nl + 1));
    }
    let ghost line = s@.subrange(pos as int, nl as int);
    let colon = match find_from(s, pos, nl, 58) {
        Some(c) => c,
        None => {
            proof {
                assert(forall|j: int| 0 <= j < line.len() ==> line[j] == s@[pos + j]);
                lemma_find_byte_none(line, 58);
            }
            return Err(nl + 1);
        },
    };
    proof {
        assert(forall|j: int| 0 <= j < line.len() ==> line[j] == s@[pos + j]);
        lemma_find_byte_is(line, 58, colon - pos);
        assert(line.take(colon - pos) =~= s@.subrange(pos as int, colon as int));
        assert(line.skip(colon - pos + 1) =~= s@.subrange(colon + 1, nl as int));
    }
    if is_cl_key_range(s, pos, colon) {
        match parse_usize_range(s, colon + 1, nl) {
            Some(n) => Ok((n, nl + 1)),
            None => Err(nl + 1),
        }
    } else {
        scan_length_exec(s, nl + 1)
    }
}

/// Skip header lines from `pos` until the terminating blank line, mirroring
/// [`scan_blank`]. Returns the index of the first body byte, or the index of
/// the unconsumed remainder at the point of failure.
fn scan_blank_exec(s: &[u8], pos: usize) -> (r: Result<usize, usize>)
    requires
        pos <= s@.len(),
    ensures
        match r {
            Ok(after) => pos <= after <= s@.len() && scan_blank(s@.skip(pos as int)) == Some(
                s@.skip(after as int),
            ),
            Err(ep) => pos <= ep <= s@.len() && scan_blank(s@.skip(pos as int)) is None
                && scan_blank_rem(s@.skip(pos as int)) == s@.skip(ep as int),
        },
    decreases s@.len() - pos,
{
    let ghost suffix = s@.skip(pos as int);
    let nl = match find_from(s, pos, s.len(), 10) {
        Some(i) => i,
        None => {
            proof {
                assert(forall|j: int| 0 <= j < suffix.len() ==> suffix[j] == s@[pos + j]);
                lemma_find_byte_none(suffix, 10);
            }
            return Err(pos);
        },
    };
    proof {
        assert(forall|j: int| 0 <= j < suffix.len() ==> suffix[j] == s@[pos + j]);
        lemma_find_byte_is(suffix, 10, nl - pos);
        assert(suffix.take(nl - pos) =~= s@.subrange(pos as int, nl as int));
        assert(suffix.skip(nl - pos + 1) =~= s@.skip(nl + 1));
    }
    let (ts, te) = trim_range(s, pos, nl);
    if te == ts {
        Ok(nl + 1)
    } else {
        scan_blank_exec(s, nl + 1)
    }
}

/// Read the content length from the argument, returning the declared number
/// of payload bytes and the remainder after them.
///
/// Scans `Key: Value` header lines for the first whose trimmed, lower-cased
/// key is `content-length`, then for the blank line ending the block, then
/// splits the payload off at exactly the declared byte length. Fails with
/// [`INVALID_REQUEST`] exactly when the header block is malformed or the
/// body is truncated, that is, when [`spec_frame`] yields nothing; the
/// error's diagnostic data echoes the unconsumed remainder at the point of
/// failure.
pub fn get_content_length<'a>(s: &'a [u8]) -> (r: Result<(&'a [u8], &'a [u8]), Error>)
    ensures
        match r {
            Ok((payload, rest)) => spec_frame(s@) == Some((payload@, rest@)),
            Err(e) => {
                &&& spec_frame(s@) is None
                &&& e.code == INVALID_REQUEST
                &&& e.message@ == frame_err_msg(s@)
                &&& crate::json::data_echoes(e.data, frame_err_rem(s@))
            },
        },
{
    proof {
        assert(s@.skip(0) =~= s@);
    }
    let (n, after) = match scan_length_exec(s, 0) {
        Ok(x) => x,
        Err(ep) => {
            let rem = vstd::slice::slice_subrange(s, ep, s.len());
            return Err(header_block_error(rem));
        },
    };
    let body_start = match scan_blank_exec(s, after) {
        Ok(x) => x,
        Err(ep) => {
            let rem = vstd::slice::slice_subrange(s, ep, s.len());
            return Err(header_block_error(rem));
        },
    };
    let ghost body = s@.skip(body_start as int);
    if n > s.len() - body_start {
        let rem = vstd::slice::slice_subrange(s, body_start, s.len());
        return Err(Error {
            code: INVALID_REQUEST,
            message: "the provided request is invalid".to_owned(),
            data: Some(crate::json::string_value(crate::json::lossy_text(rem))),
        });
    }
    let payload = vstd::slice::slice_subrange(s, body_start, body_start + n);
    let rest = vstd::slice::slice_subrange(s, body_start + n, s.len());
    proof {
        assert(body.take(n as int) =~= s@.subrange(body_start as int, body_start + n));
        assert(body.skip(n as int) =~= s@.subrange(body_start + n, s@.len() as int));
    }
    Ok((payload, rest))
}

// ---------------------------------------------------------------------------
// Laws: the frame scans back
// ---------------------------------------------------------------------------
/// The pieces of the first line of a framed payload's header block, taken
/// alone: its key is `Content-Length` and its value parses to the payload's
/// length.
#[verifier::spinoff_prover]
proof fn lemma_cl_line_pieces(payload: Seq<u8>)
    requires
        payload.len() <= usize::MAX,
    ensures
        ({
            let dd = decimal_digits(payload.len());
            let line = header_prefix() + dd + seq![13u8];
            &&& find_byte(line, 58) == Some(14 as int)
            &&& line.take(14) == header_prefix().take(14)
            &&& is_content_length_key(line.take(14))
            &&& line.skip(15) == seq![32u8] + dd + seq![13u8]
            &&& parse_usize(trim_bytes(line.skip(15))) == Some(payload.len())
        }),
{
    let dd = decimal_digits(payload.len());
    let line = header_prefix() + dd + seq![13u8];
    lemma_decimal_digits(payload.len());
    assert(line[14] == 58);
    assert forall|j: int| 0 <= j < 14 implies line[j] != 58 by {
        assert(line[j] == header_prefix()[j]);
    }
    lemma_find_byte_is(line, 58, 14);
    let key = line.take(14);
    assert(key =~= header_prefix().take(14));
    assert(trim_front(key) == key);
    assert(trim_back(key) == key);
    assert(lower_bytes(key) =~= content_length_key());
    let val = line.skip(15);
    assert(val =~= seq![32u8] + dd + seq![13u8]);
    assert(is_ws_byte(val[0]));
    assert(val.drop_first() =~= dd + seq![13u8]);
    assert(48 <= dd[0] <= 57);
    assert(!is_ws_byte((dd + seq![13u8])[0]));
    assert(trim_front(val) == trim_front(val.drop_first()));
    assert(trim_front(dd + seq![13u8]) == dd + seq![13u8]);
    assert(trim_front(val) == dd + seq![13u8]);
    let t = dd + seq![13u8];
    assert(is_ws_byte(t[t.len() - 1]));
    assert(t.drop_last() =~= dd);
    assert(48 <= dd[dd.len() - 1] <= 57);
    assert(!is_ws_byte(dd[dd.len() - 1]));
    assert(trim_back(t) == trim_back(dd));
    assert(trim_back(dd) == dd);
    assert(trim_bytes(val) == dd);
    assert(dd[0] != 43);
    assert(parse_usize(dd) == Some(payload.len()));
}

/// How a framed payload splits into its first line, the blank line, and the
/// body: the first `\n` ends the `Content-Length` line, the next line is
/// the bare `\r` terminator, and the payload and remainder follow.
#[verifier::spinoff_prover]
proof fn lemma_frame_split(payload: Seq<u8>, rest: Seq<u8>)
    ensures
        ({
            let s = frame_bytes(payload) + rest;
            let dd = decimal_digits(payload.len());
            let line = header_prefix() + dd + seq![13u8];
            let rest_a = seq![13u8, 10u8] + payload + rest;
            &&& find_byte(s, 10) == Some(line.len() as int)
            &&& s.take(line.len() as int) == line
            &&& s.skip(line.len() as int + 1) == rest_a
            &&& find_byte(rest_a, 10) == Some(1 as int)
            &&& trim_bytes(rest_a.take(1)).len() == 0
            &&& rest_a.skip(2) == payload + rest
        }),
{
    let s = frame_bytes(payload) + rest;
    let dd = decimal_digits(payload.len());
    let line = header_prefix() + dd + seq![13u8];
    let rest_a = seq![13u8, 10u8] + payload + rest;
    lemma_decimal_digits(payload.len() as nat);
    let nl = line.len() as int;
    assert(s[nl] == 10);
    assert forall|j: int| 0 <= j < nl implies s[j] != 10 by {
        if j < 16 {
            assert(s[j] == header_prefix()[j]);
        } else if j < 16 + dd.len() {
            assert(s[j] == dd[j - 16]);
            assert(48 <= dd[j - 16] <= 57);
        } else {
            assert(s[j] == 13);
        }
    }
    lemma_find_byte_is(s, 10, nl);
    assert(s.take(nl) =~= line);
    assert(s.skip(nl + 1) =~= rest_a);
    assert(rest_a[1] == 10 && rest_a[0] == 13);
    lemma_find_byte_is(rest_a, 10, 1);
    let line_b = rest_a.take(1);
    assert(line_b =~= seq![13u8]);
    assert(is_ws_byte(line_b[0]));
    assert(line_b.drop_first() =~= Seq::<u8>::empty());
    assert(trim_front(line_b) == trim_front(line_b.drop_first()));
    assert(trim_front(Seq::<u8>::empty()) =~= Seq::<u8>::empty());
    assert(trim_front(line_b) =~= Seq::<u8>::empty());
    assert(trim_bytes(line_b).len() == 0);
    assert(rest_a.skip(2) =~= payload + rest);
}

/// The pieces of a framed payload's header block: the first line is
/// `Content-Length: {n}\r`, its key matches, its value parses to the
/// payload's length, and a blank line follows at once.
pub(crate) proof fn lemma_frame_pieces(payload: Seq<u8>, rest: Seq<u8>)
    requires
        payload.len() <= usize::MAX,
    ensures
        ({
            let s = frame_bytes(payload) + rest;
            let dd = decimal_digits(payload.len());
            let line = header_prefix() + dd + seq![13u8];
            let rest_a = seq![13u8, 10u8] + payload + rest;
            &&& find_byte(s, 10) == Some(line.len() as int)
            &&& s.take(line.len() as int) == line
            &&& s.skip(line.len() as int + 1) == rest_a
            &&& find_byte(line, 58) == Some(14 as int)
            &&& line.take(14) == header_prefix().take(14)
            &&& is_content_length_key(line.take(14))
            &&& line.skip(15) == seq![32u8] + dd + seq![13u8]
            &&& parse_usize(trim_bytes(line.skip(15))) == Some(payload.len())
            &&& find_byte(rest_a, 10) == Some(1 as int)
            &&& trim_bytes(rest_a.take(1)).len() == 0
            &&& rest_a.skip(2) == payload + rest
        }),
{
    lemma_cl_line_pieces(payload);
    lemma_frame_split(payload, rest);
}

/// Round trip of the framing layer: the wire form of any payload, followed
/// by anything, scans back to exactly that payload and that remainder. In
/// particular the wire forms of two messages laid back to back parse one
/// after the other.
pub proof fn lemma_frame_round_trip(payload: Seq<u8>, rest: Seq<u8>)
    requires
        payload.len() <= usize::MAX,
    ensures
        spec_frame(frame_bytes(payload) + rest) == Some((payload, rest)),
{
    lemma_frame_pieces(payload, rest);
    let s = frame_bytes(payload) + rest;
    let dd = decimal_digits(payload.len());
    let line = header_prefix() + dd + seq![13u8];
    let rest_a = seq![13u8, 10u8] + payload + rest;
    assert(scan_length(s) == Some((payload.len(), rest_a)));
    assert(scan_blank(rest_a) == Some(payload + rest));
    let body = payload + rest;
    assert(body.take(payload.len() as int) =~= payload);
    assert(body.skip(payload.len() as int) =~= rest);
}

} // verus!
