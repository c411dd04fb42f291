//! The HTTP/1.1 wire codec: requests out, responses in.
//!
//! `Http::encode` writes a request frame; `Http::decode` takes one response
//! frame off the front of a connection's buffer once all of it has arrived,
//! and leaves whatever follows for the next call.
use vstd::prelude::*;
use vstd::string::StringSliceAdditionalSpecFns;
use vstd::utf8::{encode_utf8, is_ascii_chars, is_ascii_chars_encode_utf8};
use bytes::BytesMut;
use crate::buffer::{buf_bytes, buf_contents, buf_limit};
use crate::decimal::{decimal_digits, decimal_value, parse_decimal, push_decimal};

verus! {

/// The most header lines a response head may carry.
pub const MAX_HEADERS: usize = 16;

/// The codec; it keeps no state of its own, the buffer is the caller's.
pub struct Http;

/// A request to send: method, path, header lines in order, and body.
pub struct Request {
    pub method: String,
    pub path: String,
    pub headers: Vec<(String, String)>,
    pub body: String,
}

/// What a decoded response frame means for the connection.
#[derive(Clone, Copy, Debug, PartialEq, Eq, Structural)]
pub enum Outcome {
    /// Status 200, and the peer keeps the connection open.
    Okay,
    /// Status 200, and the peer announced `Connection: close`.
    OkWithPeerClosing,
    /// Any other status.
    Failed,
}

/// Why a connection's bytes cannot be read as responses.
#[derive(Clone, Copy, Debug, PartialEq, Eq, Structural)]
pub enum DecodeError {
    /// The status line or the header section is malformed.
    Malformed,
    /// A `Content-Length` value is not a decimal number that fits a `usize`.
    InvalidContentLength,
}

/// A complete response head: its length in bytes, its status code, its header lines.
pub ghost struct HeadView {
    pub len: nat,
    pub code: Option<u16>,
    pub headers: Seq<(Seq<u8>, Seq<u8>)>,
}

/// A complete response head as the header parser reported it.
pub struct ResponseHead {
    pub len: usize,
    pub code: Option<u16>,
    pub fields: Vec<(Vec<u8>, Vec<u8>)>,
}

impl View for ResponseHead {
    type V = HeadView;

    open spec fn view(&self) -> HeadView {
        HeadView {
            len: self.len as nat,
            code: self.code,
            headers: self.fields@.map_values(|f: (Vec<u8>, Vec<u8>)| (f.0@, f.1@)),
        }
    }
}

/// What the header parser makes of the bytes `src` with room for `max_headers`
/// header lines: `Err` for a malformed head, `Ok(None)` for one that has not
/// fully arrived, and the head itself once it is complete.
pub uninterp spec fn parsed_head(src: Seq<u8>, max_headers: nat) -> Result<Option<HeadView>, ()>;

/// The view of a parse result.
pub open spec fn head_result_view(r: Result<Option<ResponseHead>, ()>) -> Result<Option<HeadView>, ()> {
    match r {
        Ok(Some(h)) => Ok(Some(h@)),
        Ok(None) => Ok(None),
        Err(_) => Err(()),
    }
}

/// Relies on `httparse::Response::parse`: reads the status line and header
/// lines at the front of `src`, with a table of `max_headers` header slots.
#[verifier::external_body]
fn parse_head(src: &[u8], max_headers: usize) -> (r: Result<Option<ResponseHead>, ()>)
    ensures
        head_result_view(r) == parsed_head(src@, max_headers as nat),
{
    let mut slots = vec![httparse::EMPTY_HEADER; max_headers];
    let mut resp = httparse::Response::new(&mut slots);
    match resp.parse(src) {
        Ok(httparse::Status::Complete(len)) => Ok(Some(ResponseHead {
            len,
            code: resp.code,
            fields: resp.headers.iter().map(|h| (h.name.as_bytes().to_vec(), h.value.to_vec())).collect(),
        })),
        Ok(httparse::Status::Partial) => Ok(None),
        Err(_) => Err(()),
    }
}

/// ASCII lower case of one byte.
pub open spec fn ascii_lower(b: u8) -> u8 {
    if 65 <= b <= 90 {
        (b + 32) as u8
    } else {
        b
    }
}

/// Whether a header name is `Content-Length`, in any letter case.
pub open spec fn names_content_length(name: Seq<u8>) -> bool {
    name.map_values(|b: u8| ascii_lower(b)) == "content-length".spec_bytes()
}

/// Whether a header line is exactly `Connection: close`.
pub open spec fn is_close_line(line: (Seq<u8>, Seq<u8>)) -> bool {
    line.0 == "Connection".spec_bytes() && line.1 == "close".spec_bytes()
}

/// Whether the peer announces that it closes the connection after this response.
pub open spec fn announces_close(headers: Seq<(Seq<u8>, Seq<u8>)>) -> bool {
    exists|i: int| 0 <= i < headers.len() && is_close_line(#[trigger] headers[i])
}

/// The body length that the header lines declare: the last `Content-Length`
/// counts, none means 0, and any value that is not a numeral fitting a `usize`
/// makes it `None`.
pub open spec fn body_length(headers: Seq<(Seq<u8>, Seq<u8>)>) -> Option<nat>
    decreases headers.len(),
{
    if headers.len() == 0 {
        Some(0)
    } else {
        match body_length(headers.drop_last()) {
            None => None,
            Some(n) => if names_content_length(headers.last().0) {
                match decimal_value(headers.last().1) {
                    Some(v) => if v <= usize::MAX {
                        Some(v)
                    } else {
                        None
                    },
                    None => None,
                }
            } else {
                Some(n)
            },
        }
    }
}

/// An invalid `Content-Length` among the first lines spoils the whole head.
proof fn lemma_invalid_length_stays(headers: Seq<(Seq<u8>, Seq<u8>)>, i: int)
    requires
        0 <= i <= headers.len(),
        body_length(headers.take(i)) is None,
    ensures
        body_length(headers) is None,
    decreases headers.len() - i,
{
    if i == headers.len() {
        assert(headers.take(i) == headers);
    } else {
        assert(headers.take(i + 1).drop_last() == headers.take(i));
        lemma_invalid_length_stays(headers, i + 1);
    }
}

/// The outcome for a status code and the peer's closing intent.
pub open spec fn outcome_of(code: Option<u16>, closing: bool) -> Outcome {
    if code == Some(200u16) {
        if closing {
            Outcome::OkWithPeerClosing
        } else {
            Outcome::Okay
        }
    } else {
        Outcome::Failed
    }
}

/// What one call of the decoder does with a buffer.
pub ghost enum DecodeStep {
    /// No frame yet: the buffer stays as it is.
    Awaiting,
    /// A frame with this outcome, taking this many bytes off the front.
    Frame(Outcome, nat),
    /// The bytes cannot be a response.
    Fail(DecodeError),
}

/// The decoder's step on the bytes `buf`.
pub open spec fn decode_step(buf: Seq<u8>) -> DecodeStep {
    if buf.len() == 0 {
        DecodeStep::Awaiting
    } else {
        match parsed_head(buf, MAX_HEADERS as nat) {
            Err(_) => DecodeStep::Fail(DecodeError::Malformed),
            Ok(None) => DecodeStep::Awaiting,
            Ok(Some(h)) => match body_length(h.headers) {
                None => DecodeStep::Fail(DecodeError::InvalidContentLength),
                Some(b) => if h.len + b > buf.len() {
                    DecodeStep::Awaiting
                } else {
                    DecodeStep::Frame(outcome_of(h.code, announces_close(h.headers)), h.len + b)
                },
            },
        }
    }
}

/// What the decoder returns for a step.
pub open spec fn step_result(s: DecodeStep) -> Result<Option<Outcome>, DecodeError> {
    match s {
        DecodeStep::Awaiting => Ok(None),
        DecodeStep::Frame(o, _) => Ok(Some(o)),
        DecodeStep::Fail(e) => Err(e),
    }
}

/// How many bytes a step takes off the front of the buffer.
pub open spec fn step_consumed(s: DecodeStep) -> nat {
    match s {
        DecodeStep::Frame(_, n) => n,
        _ => 0,
    }
}

/// The outcomes of decoding `buf` over and over until no frame is left, and
/// the bytes that stay behind.
pub open spec fn drain(buf: Seq<u8>) -> (Seq<Outcome>, Seq<u8>)
    decreases buf.len(),
{
    match decode_step(buf) {
        DecodeStep::Frame(o, n) => if 0 < n <= buf.len() {
            let (os, left) = drain(buf.skip(n as int));
            (seq![o] + os, left)
        } else {
            (Seq::empty(), buf)
        },
        _ => (Seq::empty(), buf),
    }
}

/// The outcomes when `chunks` arrive one after another behind `buf`, the buffer
/// being drained after each, and the bytes that stay behind.
pub open spec fn feed(buf: Seq<u8>, chunks: Seq<Seq<u8>>) -> (Seq<Outcome>, Seq<u8>)
    decreases chunks.len(),
{
    if chunks.len() == 0 {
        (Seq::empty(), buf)
    } else {
        let (os, left) = drain(buf + chunks[0]);
        let (more, last) = feed(left, chunks.drop_first());
        (os + more, last)
    }
}

/// `f` is one whole response frame with head `h`, as the head parser reads it:
/// the head is complete, and the same, whatever bytes follow it; every shorter
/// prefix of the head is incomplete; the declared body ends where `f` ends.
pub open spec fn frame_with_head(f: Seq<u8>, h: HeadView) -> bool {
    &&& 0 < h.len <= f.len()
    &&& forall|rest: Seq<u8>| #[trigger]
        parsed_head(f.take(h.len as int) + rest, MAX_HEADERS as nat) == Ok::<Option<HeadView>, ()>(
            Some(h),
        )
    &&& forall|k: int| 0 < k < h.len ==> #[trigger]
        parsed_head(f.take(k), MAX_HEADERS as nat) == Ok::<Option<HeadView>, ()>(None)
    &&& body_length(h.headers) == Some((f.len() - h.len) as nat)
}

/// The outcome of a frame with head `h`.
pub open spec fn frame_outcome(h: HeadView) -> Outcome {
    outcome_of(h.code, announces_close(h.headers))
}

/// A whole frame at the front of the buffer is decoded, and it alone is taken.
pub proof fn lemma_frame_at_front(f: Seq<u8>, h: HeadView, rest: Seq<u8>)
    requires
        frame_with_head(f, h),
    ensures
        decode_step(f + rest) == DecodeStep::Frame(frame_outcome(h), f.len()),
        (f + rest).skip(f.len() as int) == rest,
{
    let tail = f.skip(h.len as int) + rest;
    assert(f.take(h.len as int) + tail =~= f + rest);
    assert(parsed_head(f.take(h.len as int) + tail, MAX_HEADERS as nat) == Ok::<Option<HeadView>, ()>(
        Some(h),
    ));
    assert((f + rest).skip(f.len() as int) =~= rest);
}

/// While only a part of a frame has arrived, the decoder waits and takes nothing.
pub proof fn lemma_holdback(f: Seq<u8>, h: HeadView, k: int)
    requires
        frame_with_head(f, h),
        0 <= k < f.len(),
    ensures
        decode_step(f.take(k)) == DecodeStep::Awaiting,
        drain(f.take(k)) == (Seq::<Outcome>::empty(), f.take(k)),
{
    if 0 < k < h.len {
        assert(parsed_head(f.take(k), MAX_HEADERS as nat) == Ok::<Option<HeadView>, ()>(None));
    } else if k >= h.len {
        let tail = f.take(k).skip(h.len as int);
        assert(f.take(h.len as int) + tail =~= f.take(k));
        assert(parsed_head(f.take(h.len as int) + tail, MAX_HEADERS as nat) == Ok::<Option<HeadView>, ()>(
            Some(h),
        ));
    }
}

/// A whole frame alone in the buffer drains to its one outcome and an empty buffer.
proof fn lemma_drain_one(f: Seq<u8>, h: HeadView, rest: Seq<u8>)
    requires
        frame_with_head(f, h),
    ensures
        drain(f + rest) == (seq![frame_outcome(h)] + drain(rest).0, drain(rest).1),
{
    lemma_frame_at_front(f, h, rest);
}

/// Two whole frames that arrive together are decoded as two outcomes, in order,
/// each taking its own bytes, and nothing stays behind.
pub proof fn lemma_pipelined(f1: Seq<u8>, h1: HeadView, f2: Seq<u8>, h2: HeadView)
    requires
        frame_with_head(f1, h1),
        frame_with_head(f2, h2),
    ensures
        decode_step(f1 + f2) == DecodeStep::Frame(frame_outcome(h1), f1.len()),
        (f1 + f2).skip(f1.len() as int) == f2,
        decode_step(f2) == DecodeStep::Frame(frame_outcome(h2), f2.len()),
        drain(f1 + f2) == (seq![frame_outcome(h1), frame_outcome(h2)], Seq::<u8>::empty()),
{
    lemma_frame_at_front(f1, h1, f2);
    lemma_frame_at_front(f2, h2, Seq::empty());
    assert(f2 + Seq::<u8>::empty() == f2);
    lemma_drain_one(f1, h1, f2);
    lemma_drain_one(f2, h2, Seq::empty());
    assert(drain(Seq::<u8>::empty()) == (Seq::<Outcome>::empty(), Seq::<u8>::empty()));
    assert(seq![frame_outcome(h1)] + (seq![frame_outcome(h2)] + Seq::<Outcome>::empty()) =~= seq![
        frame_outcome(h1),
        frame_outcome(h2),
    ]);
}

/// Chunks that hold no bytes at all, behind an empty buffer, give nothing.
proof fn lemma_feed_nothing(chunks: Seq<Seq<u8>>)
    requires
        chunks.flatten() == Seq::<u8>::empty(),
    ensures
        feed(Seq::empty(), chunks) == (Seq::<Outcome>::empty(), Seq::<u8>::empty()),
    decreases chunks.len(),
{
    if chunks.len() > 0 {
        assert(chunks[0] + chunks.drop_first().flatten() == chunks.flatten());
        assert(chunks[0].len() == 0);
        assert(Seq::<u8>::empty() + chunks[0] =~= Seq::<u8>::empty());
        assert(drain(Seq::<u8>::empty()) == (Seq::<Outcome>::empty(), Seq::<u8>::empty()));
        lemma_feed_nothing(chunks.drop_first());
        assert(Seq::<Outcome>::empty() + Seq::<Outcome>::empty() =~= Seq::<Outcome>::empty());
    }
}

/// The rest of a frame, arriving in chunks behind its first `k` bytes, gives the
/// frame's one outcome and leaves an empty buffer.
proof fn lemma_feed_rest(f: Seq<u8>, h: HeadView, k: int, chunks: Seq<Seq<u8>>)
    requires
        frame_with_head(f, h),
        0 <= k < f.len(),
        chunks.flatten() == f.skip(k),
    ensures
        feed(f.take(k), chunks) == (seq![frame_outcome(h)], Seq::<u8>::empty()),
    decreases chunks.len(),
{
    if chunks.len() == 0 {
        assert(f.skip(k).len() > 0);
    } else {
        let c = chunks[0];
        let others = chunks.drop_first();
        assert(c + others.flatten() == f.skip(k));
        let k2 = k + c.len();
        assert(f.take(k) + c =~= f.take(k2)) by {
            assert forall|i: int| 0 <= i < c.len() implies c[i] == f[k + i] by {
                assert(c[i] == (c + others.flatten())[i]);
            }
        }
        if k2 < f.len() {
            lemma_holdback(f, h, k2);
            assert(others.flatten() =~= f.skip(k2)) by {
                assert forall|i: int| 0 <= i < others.flatten().len() implies others.flatten()[i] == f.skip(
                    k2,
                )[i] by {
                    assert(others.flatten()[i] == (c + others.flatten())[c.len() + i]);
                }
            }
            lemma_feed_rest(f, h, k2, others);
            assert(Seq::<Outcome>::empty() + seq![frame_outcome(h)] =~= seq![frame_outcome(h)]);
        } else {
            assert(f.take(k2) =~= f);
            assert(others.flatten().len() == 0);
            assert(others.flatten() =~= Seq::<u8>::empty());
            assert(f + Seq::<u8>::empty() =~= f);
            lemma_drain_one(f, h, Seq::empty());
            assert(drain(Seq::<u8>::empty()) == (Seq::<Outcome>::empty(), Seq::<u8>::empty()));
            assert(seq![frame_outcome(h)] + Seq::<Outcome>::empty() =~= seq![frame_outcome(h)]);
            lemma_feed_nothing(others);
            assert(seq![frame_outcome(h)] + Seq::<Outcome>::empty() =~= seq![frame_outcome(h)]);
        }
    }
}

/// However a frame is split into chunks, feeding them one by one to an empty
/// buffer gives exactly the frame's one outcome and leaves nothing behind.
pub proof fn lemma_split_invariant(f: Seq<u8>, h: HeadView, chunks: Seq<Seq<u8>>)
    requires
        frame_with_head(f, h),
        chunks.flatten() == f,
    ensures
        feed(Seq::empty(), chunks) == (seq![frame_outcome(h)], Seq::<u8>::empty()),
{
    assert(f.skip(0) =~= f);
    assert(f.take(0) =~= Seq::<u8>::empty());
    lemma_feed_rest(f, h, 0, chunks);
}

/// Whether `a` and `b` hold the same bytes.
pub(crate) fn bytes_equal(a: &[u8], b: &[u8]) -> (r: bool)
    ensures
        r == (a@ == b@),
{
    if a.len() != b.len() {
        return false;
    }
    let mut i: usize = 0;
    while i < a.len()
        invariant
            a@.len() == b@.len(),
            0 <= i <= a@.len(),
            forall|k: int| 0 <= k < i ==> a@[k] == b@[k],
        decreases a@.len() - i,
    {
        if a[i] != b[i] {
            return false;
        }
        i = i + 1;
    }
    assert(a@ =~= b@);
    true
}

/// Whether `name` equals `lower` once its ASCII letters are lower-cased.
fn lower_equals(name: &[u8], lower: &[u8]) -> (r: bool)
    ensures
        r == (name@.map_values(|b: u8| ascii_lower(b)) == lower@),
{
    let ghost mapped = name@.map_values(|b: u8| ascii_lower(b));
    if name.len() != lower.len() {
        return false;
    }
    let mut i: usize = 0;
    while i < name.len()
        invariant
            name@.len() == lower@.len(),
            mapped == name@.map_values(|b: u8| ascii_lower(b)),
            0 <= i <= name@.len(),
            forall|k: int| 0 <= k < i ==> mapped[k] == lower@[k],
        decreases name@.len() - i,
    {
        let b = name[i];
        let l = if 65 <= b && b <= 90 {
            b + 32
        } else {
            b
        };
        if l != lower[i] {
            assert(mapped[i as int] != lower@[i as int]);
            return false;
        }
        i = i + 1;
    }
    assert(mapped =~= lower@);
    true
}

/// The body length that `fields` declare (see `body_length`).
fn content_length(fields: &Vec<(Vec<u8>, Vec<u8>)>) -> (r: Option<usize>)
    ensures
        r matches Some(v) ==> body_length(fields@.map_values(|f: (Vec<u8>, Vec<u8>)| (f.0@, f.1@))) == Some(v as nat),
        r is None ==> body_length(fields@.map_values(|f: (Vec<u8>, Vec<u8>)| (f.0@, f.1@))) is None,
{
    let ghost hs = fields@.map_values(|f: (Vec<u8>, Vec<u8>)| (f.0@, f.1@));
    let mut len: usize = 0;
    let mut i: usize = 0;
    while i < fields.len()
        invariant
            hs == fields@.map_values(|f: (Vec<u8>, Vec<u8>)| (f.0@, f.1@)),
            0 <= i <= fields@.len(),
            body_length(hs.take(i as int)) == Some(len as nat),
        decreases fields@.len() - i,
    {
        assert(hs.take(i + 1).drop_last() == hs.take(i as int));
        let field = &fields[i];
        if lower_equals(field.0.as_slice(), "content-length".as_bytes()) {
            match parse_decimal(field.1.as_slice()) {
                Some(v) => {
                    len = v;
                },
                None => {
                    proof {
                        lemma_invalid_length_stays(hs, i + 1);
                    }
                    return None;
                },
            }
        }
        i = i + 1;
    }
    assert(hs.take(i as int) == hs);
    Some(len)
}

/// Whether one of `fields` is the line `Connection: close`.
fn closing_announced(fields: &Vec<(Vec<u8>, Vec<u8>)>) -> (r: bool)
    ensures
        r == announces_close(fields@.map_values(|f: (Vec<u8>, Vec<u8>)| (f.0@, f.1@))),
{
    let ghost hs = fields@.map_values(|f: (Vec<u8>, Vec<u8>)| (f.0@, f.1@));
    let mut i: usize = 0;
    while i < fields.len()
        invariant
            hs == fields@.map_values(|f: (Vec<u8>, Vec<u8>)| (f.0@, f.1@)),
            0 <= i <= fields@.len(),
            forall|k: int| 0 <= k < i ==> !is_close_line(#[trigger] hs[k]),
        decreases fields@.len() - i,
    {
        let field = &fields[i];
        if bytes_equal(field.0.as_slice(), "Connection".as_bytes()) && bytes_equal(
            field.1.as_slice(),
            "close".as_bytes(),
        ) {
            assert(is_close_line(hs[i as int]));
            return true;
        }
        i = i + 1;
    }
    false
}

/// The outcome for a status code and the peer's closing intent.
pub fn classify(code: Option<u16>, closing: bool) -> (r: Outcome)
    ensures
        r == outcome_of(code, closing),
{
    match code {
        Some(200) => if closing {
            Outcome::OkWithPeerClosing
        } else {
            Outcome::Okay
        },
        _ => Outcome::Failed,
    }
}

/// One header line as it goes on the wire: `<Name>: <Value>` and a line end.
pub open spec fn header_line(h: (String, String)) -> Seq<u8> {
    encode_utf8(h.0@) + ": ".spec_bytes() + encode_utf8(h.1@) + "\r\n".spec_bytes()
}

/// The header lines, in order.
pub open spec fn header_lines(headers: Seq<(String, String)>) -> Seq<u8>
    decreases headers.len(),
{
    if headers.len() == 0 {
        Seq::empty()
    } else {
        header_lines(headers.drop_last()) + header_line(headers.last())
    }
}

/// The request line and `Content-Length` line of a request.
pub open spec fn request_head_start(r: Request) -> Seq<u8> {
    encode_utf8(r.method@) + " ".spec_bytes() + encode_utf8(r.path@)
        + " HTTP/1.1\r\nContent-Length: ".spec_bytes() + decimal_digits(encode_utf8(r.body@).len())
        + "\r\n".spec_bytes()
}

/// The whole frame of a request: request line, `Content-Length` of the body,
/// the header lines, a blank line, and the body.
pub open spec fn request_bytes(r: Request) -> Seq<u8> {
    request_head_start(r) + header_lines(r.headers@) + "\r\n".spec_bytes() + encode_utf8(r.body@)
}

/// The lines of the first headers are never longer than those of all of them.
proof fn lemma_header_lines_grow(headers: Seq<(String, String)>, j: int)
    requires
        0 <= j <= headers.len(),
    ensures
        header_lines(headers.take(j)).len() <= header_lines(headers).len(),
    decreases headers.len() - j,
{
    if j == headers.len() {
        assert(headers.take(j) == headers);
    } else {
        assert(headers.take(j + 1).drop_last() == headers.take(j));
        lemma_header_lines_grow(headers, j + 1);
    }
}

/// Whether no byte of `s` at an index in `lo..hi` is a space.
pub open spec fn no_space_between(s: Seq<u8>, lo: int, hi: int) -> bool {
    forall|i: int| lo <= i < hi ==> s[i] != 32
}

/// Where the path starts in a request frame.
pub open spec fn path_start(r: Request) -> int {
    encode_utf8(r.method@).len() + 1int
}

/// Where the path ends in a request frame.
pub open spec fn path_end(r: Request) -> int {
    path_start(r) + encode_utf8(r.path@).len()
}

/// Where the `Content-Length` value starts in a request frame.
pub open spec fn length_value_start(r: Request) -> int {
    path_end(r) + " HTTP/1.1\r\nContent-Length: ".spec_bytes().len()
}

/// A request frame reads back as the request it was made from: the method is
/// what stands before the first space, the path what stands between the first
/// two spaces, the `Content-Length` value is the body's length, and the body is
/// that many bytes at the end of the frame.
pub proof fn lemma_request_round_trip(r: Request)
    requires
        is_ascii_chars(r.method@),
        is_ascii_chars(r.path@),
        !r.method@.contains(' '),
        !r.path@.contains(' '),
    ensures
        request_bytes(r).take(path_start(r) - 1) == encode_utf8(r.method@),
        no_space_between(request_bytes(r), 0, path_start(r) - 1),
        request_bytes(r)[path_start(r) - 1] == 32,
        request_bytes(r).subrange(path_start(r), path_end(r)) == encode_utf8(r.path@),
        no_space_between(request_bytes(r), path_start(r), path_end(r)),
        request_bytes(r)[path_end(r)] == 32,
        request_bytes(r).subrange(
            length_value_start(r),
            length_value_start(r) + decimal_digits(encode_utf8(r.body@).len()).len(),
        ) == decimal_digits(encode_utf8(r.body@).len()),
        decimal_value(decimal_digits(encode_utf8(r.body@).len())) == Some(encode_utf8(r.body@).len()),
        request_bytes(r).skip(request_bytes(r).len() - encode_utf8(r.body@).len()) == encode_utf8(r.body@),
{
    let m = encode_utf8(r.method@);
    let p = encode_utf8(r.path@);
    let b = encode_utf8(r.body@);
    let sp = " ".spec_bytes();
    let mid = " HTTP/1.1\r\nContent-Length: ".spec_bytes();
    let digits = decimal_digits(b.len());
    reveal_strlit(" ");
    reveal_strlit(" HTTP/1.1\r\nContent-Length: ");
    is_ascii_chars_encode_utf8(r.method@);
    is_ascii_chars_encode_utf8(r.path@);
    is_ascii_chars_encode_utf8(" "@);
    is_ascii_chars_encode_utf8(" HTTP/1.1\r\nContent-Length: "@);
    crate::decimal::lemma_decimal_round_trip(b.len());
    let bytes = request_bytes(r);
    let rest = digits + "\r\n".spec_bytes() + header_lines(r.headers@) + "\r\n".spec_bytes() + b;
    assert(bytes =~= m + sp + p + mid + rest);
    let ml = m.len() as int;
    let pl = p.len() as int;
    assert forall|i: int| 0 <= i < ml implies bytes[i] != 32 by {
        assert(bytes[i] == m[i]);
        assert(r.method@[i] != ' ');
    }
    assert(bytes[ml] == sp[0]);
    assert(bytes.take(ml) =~= m);
    assert forall|i: int| ml + 1 <= i < ml + 1 + pl implies bytes[i] != 32 by {
        assert(bytes[i] == p[i - ml - 1]);
        assert(r.path@[i - ml - 1] != ' ');
    }
    assert(bytes.subrange(ml + 1, ml + 1 + pl) =~= p);
    assert(bytes[ml + 1 + pl] == mid[0]);
    let start = length_value_start(r);
    assert(bytes.subrange(start, start + digits.len()) =~= digits);
    assert(bytes.skip(bytes.len() - b.len()) =~= b);
}

impl Http {
    /// Appends the frame of `item` to `dst`, leaving what `dst` held in front.
    pub fn encode(&mut self, item: Request, dst: &mut BytesMut)
        requires
            buf_contents(*old(dst)).len() + request_bytes(item).len() <= buf_limit(),
        ensures
            buf_contents(*final(dst)) == buf_contents(*old(dst)) + request_bytes(item),
    {
        let ghost start = buf_contents(*dst);
        let ghost hs = item.headers@;
        let mut digits: Vec<u8> = Vec::new();
        push_decimal(&mut digits, item.body.as_str().len());
        assert(digits@ == decimal_digits(encode_utf8(item.body@).len()));
        dst.extend_from_slice(item.method.as_str().as_bytes());
        dst.extend_from_slice(" ".as_bytes());
        dst.extend_from_slice(item.path.as_str().as_bytes());
        dst.extend_from_slice(" HTTP/1.1\r\nContent-Length: ".as_bytes());
        dst.extend_from_slice(digits.as_slice());
        dst.extend_from_slice("\r\n".as_bytes());
        assert(buf_contents(*dst) =~= start + request_head_start(item));
        let mut i: usize = 0;
        while i < item.headers.len()
            invariant
                hs == item.headers@,
                0 <= i <= hs.len(),
                start.len() + request_bytes(item).len() <= buf_limit(),
                buf_contents(*dst) == start + request_head_start(item) + header_lines(hs.take(i as int)),
            decreases hs.len() - i,
        {
            proof {
                assert(hs.take(i + 1).drop_last() == hs.take(i as int));
                lemma_header_lines_grow(hs, i + 1);
            }
            let line = &item.headers[i];
            dst.extend_from_slice(line.0.as_str().as_bytes());
            dst.extend_from_slice(": ".as_bytes());
            dst.extend_from_slice(line.1.as_str().as_bytes());
            dst.extend_from_slice("\r\n".as_bytes());
            assert(buf_contents(*dst) =~= start + request_head_start(item) + header_lines(hs.take(i + 1)));
            i = i + 1;
        }
        assert(hs.take(i as int) == hs);
        dst.extend_from_slice("\r\n".as_bytes());
        dst.extend_from_slice(item.body.as_str().as_bytes());
        assert(buf_contents(*dst) =~= start + request_bytes(item));
    }

    /// Takes the next complete response frame off the front of `src`.
    ///
    /// Returns `Ok(None)` while the buffer is empty, while the head has not fully
    /// arrived, and while fewer bytes are there than head and declared body
    /// together; the buffer is then left alone. Otherwise the frame's bytes, and
    /// only those, leave the buffer and its outcome is returned.
    pub fn decode(&mut self, src: &mut BytesMut) -> (r: Result<Option<Outcome>, DecodeError>)
        ensures
            r == step_result(decode_step(buf_contents(*old(src)))),
            buf_contents(*final(src)) == buf_contents(*old(src)).skip(
                step_consumed(decode_step(buf_contents(*old(src)))) as int,
            ),
    {
        let ghost before = buf_contents(*src);
        let n = src.len();
        if n == 0 {
            assert(before.skip(0) == before);
            return Ok(None);
        }
        let head = match parse_head(buf_bytes(src), MAX_HEADERS) {
            Err(_) => {
                assert(before.skip(0) == before);
                return Err(DecodeError::Malformed);
            },
            Ok(None) => {
                assert(before.skip(0) == before);
                return Ok(None);
            },
            Ok(Some(h)) => h,
        };
        let body_len = match content_length(&head.fields) {
            Some(b) => b,
            None => {
                assert(before.skip(0) == before);
                return Err(DecodeError::InvalidContentLength);
            },
        };
        let closing = closing_announced(&head.fields);
        if head.len > n || body_len > n - head.len {
            assert(before.skip(0) == before);
            return Ok(None);
        }
        let length = head.len + body_len;
        let outcome = classify(head.code, closing);
        let _ = src.split_to(length);
        Ok(Some(outcome))
    }
}

} // verus!
