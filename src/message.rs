//! Requests and responses, their builders, and their wire form.
use crate::definitions::{
    status_reason, status_value, H_CONTENT_LENGTH, H_TRANSFER_ENCODING, StatusCode,
};
use crate::header::{
    get_header, headers_view, lookup_header, put_header_in, put_header_spec, remove_header_in,
    remove_header_spec, unique_names, HeaderView, HttpHeader,
};
use crate::text::{
    ascii_text, bytes_of, decimal_string, push_all, push_radix, radix_text, text_of, text_spec,
};
use crate::parser::{framed_as_chunked, is_chunked};
use crate::url::{target_text, HttpUrl};
use vstd::prelude::*;
use vstd::utf8::*;

verus! {

/// The request methods.
#[derive(Debug, Clone, Copy, PartialEq, Eq, Structural)]
pub enum HttpMethod {
    Post,
    Get,
    Put,
    Trace,
    Head,
    Options,
    Patch,
    Delete,
    Connect,
}

/// The token that names a method on the wire (`GET`, `POST`, ...).
pub open spec fn method_bytes(m: HttpMethod) -> Seq<u8> {
    match m {
        HttpMethod::Post => seq![80u8, 79, 83, 84],
        HttpMethod::Get => seq![71u8, 69, 84],
        HttpMethod::Put => seq![80u8, 85, 84],
        HttpMethod::Trace => seq![84u8, 82, 65, 67, 69],
        HttpMethod::Head => seq![72u8, 69, 65, 68],
        HttpMethod::Options => seq![79u8, 80, 84, 73, 79, 78, 83],
        HttpMethod::Patch => seq![80u8, 65, 84, 67, 72],
        HttpMethod::Delete => seq![68u8, 69, 76, 69, 84, 69],
        HttpMethod::Connect => seq![67u8, 79, 78, 78, 69, 67, 84],
    }
}

/// The method whose token is exactly `b`.
pub open spec fn method_of(b: Seq<u8>) -> Option<HttpMethod> {
    if b == method_bytes(HttpMethod::Get) {
        Some(HttpMethod::Get)
    } else if b == method_bytes(HttpMethod::Post) {
        Some(HttpMethod::Post)
    } else if b == method_bytes(HttpMethod::Put) {
        Some(HttpMethod::Put)
    } else if b == method_bytes(HttpMethod::Head) {
        Some(HttpMethod::Head)
    } else if b == method_bytes(HttpMethod::Options) {
        Some(HttpMethod::Options)
    } else if b == method_bytes(HttpMethod::Delete) {
        Some(HttpMethod::Delete)
    } else if b == method_bytes(HttpMethod::Trace) {
        Some(HttpMethod::Trace)
    } else if b == method_bytes(HttpMethod::Patch) {
        Some(HttpMethod::Patch)
    } else if b == method_bytes(HttpMethod::Connect) {
        Some(HttpMethod::Connect)
    } else {
        None
    }
}

impl HttpMethod {
    /// The method's token (`GET`, `POST`, ...).
    pub fn to_bytes(&self) -> (r: Vec<u8>)
        ensures
            r@ == method_bytes(*self),
    {
        let r = match self {
            HttpMethod::Post => vec![80u8, 79, 83, 84],
            HttpMethod::Get => vec![71u8, 69, 84],
            HttpMethod::Put => vec![80u8, 85, 84],
            HttpMethod::Trace => vec![84u8, 82, 65, 67, 69],
            HttpMethod::Head => vec![72u8, 69, 65, 68],
            HttpMethod::Options => vec![79u8, 80, 84, 73, 79, 78, 83],
            HttpMethod::Patch => vec![80u8, 65, 84, 67, 72],
            HttpMethod::Delete => vec![68u8, 69, 76, 69, 84, 69],
            HttpMethod::Connect => vec![67u8, 79, 78, 78, 69, 67, 84],
        };
        assert(r@ == method_bytes(*self));
        r
    }
}

/// The protocol versions.
#[derive(PartialEq, Eq, Structural, Clone, Copy, Debug)]
pub enum HttpVersion {
    Http10,
    Http11,
    Http2,
    Http3,
}

/// The token that names a version on the wire (`HTTP/1.1`, ...).
pub open spec fn version_bytes(v: HttpVersion) -> Seq<u8> {
    match v {
        HttpVersion::Http10 => seq![72u8, 84, 84, 80, 47, 49, 46, 48],
        HttpVersion::Http11 => seq![72u8, 84, 84, 80, 47, 49, 46, 49],
        HttpVersion::Http2 => seq![72u8, 84, 84, 80, 47, 50],
        HttpVersion::Http3 => seq![72u8, 84, 84, 80, 47, 51],
    }
}

/// The version whose token is exactly `b`.
pub open spec fn version_of(b: Seq<u8>) -> Option<HttpVersion> {
    if b == version_bytes(HttpVersion::Http10) {
        Some(HttpVersion::Http10)
    } else if b == version_bytes(HttpVersion::Http11) {
        Some(HttpVersion::Http11)
    } else if b == version_bytes(HttpVersion::Http2) {
        Some(HttpVersion::Http2)
    } else if b == version_bytes(HttpVersion::Http3) {
        Some(HttpVersion::Http3)
    } else {
        None
    }
}

impl HttpVersion {
    /// The version's token (`HTTP/1.1`, ...).
    pub fn to_bytes(&self) -> (r: Vec<u8>)
        ensures
            r@ == version_bytes(*self),
    {
        let r = match self {
            HttpVersion::Http10 => vec![72u8, 84, 84, 80, 47, 49, 46, 48],
            HttpVersion::Http11 => vec![72u8, 84, 84, 80, 47, 49, 46, 49],
            HttpVersion::Http2 => vec![72u8, 84, 84, 80, 47, 50],
            HttpVersion::Http3 => vec![72u8, 84, 84, 80, 47, 51],
        };
        assert(r@ == version_bytes(*self));
        r
    }
}

/// A line end: `\r\n`.
pub open spec fn crlf() -> Seq<u8> {
    seq![13u8, 10]
}

/// One header on the wire: `name: value` and a line end.
pub open spec fn header_line(h: HeaderView) -> Seq<u8> {
    encode_utf8(h.0) + seq![58u8, 32] + encode_utf8(h.1) + crlf()
}

/// The header lines of a list, in order.
pub open spec fn headers_bytes(hs: Seq<HeaderView>) -> Seq<u8>
    decreases hs.len(),
{
    if hs.len() == 0 {
        Seq::empty()
    } else {
        headers_bytes(hs.drop_last()) + header_line(hs.last())
    }
}

/// A chunk-index entry that names a range of the body.
pub open spec fn chunk_in_body(c: (usize, usize), body_len: nat) -> bool {
    c.0 <= c.1 <= body_len
}

/// One chunk on the wire: its length in hexadecimal, a line end, its bytes, a
/// line end. An entry that names no range of the body writes nothing.
pub open spec fn chunk_bytes(c: (usize, usize), body: Seq<u8>) -> Seq<u8> {
    if chunk_in_body(c, body.len()) {
        radix_text((c.1 - c.0) as nat, 16) + crlf() + body.subrange(c.0 as int, c.1 as int)
            + crlf()
    } else {
        Seq::empty()
    }
}

/// The chunks of the index on the wire, in order; the `(0, 0)` entry that
/// closes the index writes the terminating `0` chunk.
pub open spec fn chunks_bytes(cs: Seq<(usize, usize)>, body: Seq<u8>) -> Seq<u8>
    decreases cs.len(),
{
    if cs.len() == 0 {
        Seq::empty()
    } else {
        chunks_bytes(cs.drop_last(), body) + chunk_bytes(cs.last(), body)
    }
}

/// The body on the wire: nothing when empty, the chunks when chunked, else the bytes.
pub open spec fn body_bytes(body: Seq<u8>, chunks: Seq<(usize, usize)>, chunked: bool) -> Seq<u8> {
    if body.len() == 0 {
        Seq::empty()
    } else if chunked {
        chunks_bytes(chunks, body)
    } else {
        body
    }
}

/// The chunk index after a chunk `(start, end)` is added: before the closing
/// `(0, 0)` entry when there is one.
pub open spec fn add_chunk(cs: Seq<(usize, usize)>, start: usize, end: usize) -> Seq<(usize, usize)> {
    if cs.len() > 0 && cs.last() == (0usize, 0usize) {
        cs.drop_last().push((start, end)).push((0usize, 0usize))
    } else {
        cs.push((start, end))
    }
}

/// The chunks as they are shown in text: as on the wire, with `tail` after
/// each empty chunk.
pub open spec fn shown_chunks_bytes(cs: Seq<(usize, usize)>, body: Seq<u8>, tail: Seq<u8>) -> Seq<
    u8,
>
    decreases cs.len(),
{
    if cs.len() == 0 {
        Seq::empty()
    } else {
        let c = cs.last();
        shown_chunks_bytes(cs.drop_last(), body, tail) + chunk_bytes(c, body) + if chunk_in_body(
            c,
            body.len(),
        ) && c.0 == c.1 {
            tail
        } else {
            Seq::empty()
        }
    }
}

/// The body as it is shown in text: the chunks when chunked, else the bytes.
pub open spec fn shown_body_bytes(
    body: Seq<u8>,
    chunks: Seq<(usize, usize)>,
    chunked: bool,
    tail: Seq<u8>,
) -> Seq<u8> {
    if chunked {
        shown_chunks_bytes(chunks, body, tail)
    } else {
        body
    }
}

/// What a request holds.
pub ghost struct RequestView {
    pub method: HttpMethod,
    pub target: Seq<char>,
    pub version: HttpVersion,
    pub headers: Seq<HeaderView>,
    pub body: Seq<u8>,
    pub chunks: Seq<(usize, usize)>,
    pub chunked: bool,
}

/// What a response holds.
pub ghost struct ResponseView {
    pub version: HttpVersion,
    pub status_code: usize,
    pub status_msg: Seq<char>,
    pub headers: Seq<HeaderView>,
    pub body: Seq<u8>,
    pub chunks: Seq<(usize, usize)>,
    pub chunked: bool,
}

/// A request on the wire: the request line, the header lines, a blank line, the body.
pub open spec fn request_bytes(r: RequestView) -> Seq<u8> {
    method_bytes(r.method) + seq![32u8] + encode_utf8(r.target) + seq![32u8] + version_bytes(
        r.version,
    ) + crlf() + headers_bytes(r.headers) + crlf() + body_bytes(r.body, r.chunks, r.chunked)
}

/// A response on the wire: the status line, the header lines, a blank line, the body.
pub open spec fn response_bytes(r: ResponseView) -> Seq<u8> {
    version_bytes(r.version) + seq![32u8] + radix_text(r.status_code as nat, 10) + seq![32u8]
        + encode_utf8(r.status_msg) + crlf() + headers_bytes(r.headers) + crlf() + body_bytes(
        r.body,
        r.chunks,
        r.chunked,
    )
}

/// A request shown as text: the request line, the header lines, a blank
/// line, and the body, with a blank line after each empty chunk.
pub open spec fn request_text(r: RequestView) -> Seq<char> {
    text_spec(
        method_bytes(r.method) + seq![32u8] + encode_utf8(r.target) + seq![32u8] + version_bytes(
            r.version,
        ) + crlf() + headers_bytes(r.headers) + crlf() + shown_body_bytes(
            r.body,
            r.chunks,
            r.chunked,
            crlf() + crlf(),
        ),
    )
}

/// A response shown as text: the status line, the header lines, a blank
/// line, and the body, with a line end after each empty chunk.
pub open spec fn response_text(r: ResponseView) -> Seq<char> {
    text_spec(
        version_bytes(r.version) + seq![32u8] + radix_text(r.status_code as nat, 10) + seq![32u8]
            + encode_utf8(r.status_msg) + crlf() + headers_bytes(r.headers) + crlf()
            + shown_body_bytes(r.body, r.chunks, r.chunked, crlf()),
    )
}

/// The value that `add_data` gives the length header.
pub open spec fn length_text(n: nat) -> Seq<char> {
    ascii_text(radix_text(n, 10))
}

/// An HTTP request: method, target, version, headers and body.
pub struct HttpRequest {
    pub(crate) method: HttpMethod,
    pub(crate) url: String,
    pub(crate) version: HttpVersion,
    pub(crate) headers: Vec<HttpHeader>,
    pub(crate) body: Vec<u8>,
    pub(crate) chunks: Vec<(usize, usize)>,
    pub(crate) chunked: bool,
}

impl View for HttpRequest {
    type V = RequestView;

    closed spec fn view(&self) -> RequestView {
        RequestView {
            method: self.method,
            target: self.url@,
            version: self.version,
            headers: headers_view(self.headers@),
            body: self.body@,
            chunks: self.chunks@,
            chunked: self.chunked,
        }
    }
}

/// An HTTP response: version, status code and reason phrase, headers and body.
pub struct HttpResponse {
    pub(crate) version: HttpVersion,
    pub(crate) status_code: usize,
    pub(crate) status_msg: String,
    pub(crate) headers: Vec<HttpHeader>,
    pub(crate) body: Vec<u8>,
    pub(crate) chunks: Vec<(usize, usize)>,
    pub(crate) chunked: bool,
}

impl View for HttpResponse {
    type V = ResponseView;

    closed spec fn view(&self) -> ResponseView {
        ResponseView {
            version: self.version,
            status_code: self.status_code,
            status_msg: self.status_msg@,
            headers: headers_view(self.headers@),
            body: self.body@,
            chunks: self.chunks@,
            chunked: self.chunked,
        }
    }
}

impl Default for HttpRequest {
    fn default() -> (r: HttpRequest)
        ensures
            r@.method == HttpMethod::Get,
            r@.target == seq!['\\'],
            r@.version == HttpVersion::Http11,
            r@.headers == Seq::<HeaderView>::empty(),
            r@.body == Seq::<u8>::empty(),
            r@.chunks == Seq::<(usize, usize)>::empty(),
            !r@.chunked,
            r.wf(),
    {
        HttpRequest::new()
    }
}

impl Default for HttpResponse {
    fn default() -> (r: HttpResponse)
        ensures
            r@.version == HttpVersion::Http11,
            r@.status_code == 200,
            r@.status_msg == seq!['O', 'k'],
            r@.headers == Seq::<HeaderView>::empty(),
            r@.body == Seq::<u8>::empty(),
            r@.chunks == Seq::<(usize, usize)>::empty(),
            !r@.chunked,
            r.wf(),
    {
        HttpResponse::new()
    }
}

impl Default for HttpRequestBuilder {
    fn default() -> (r: HttpRequestBuilder)
        ensures
            r@ == HttpRequestBuilder::initial(),
    {
        HttpRequestBuilder::new()
    }
}

impl Default for HttpResponseBuilder {
    fn default() -> (r: HttpResponseBuilder)
        ensures
            r@ == HttpResponseBuilder::initial(),
    {
        HttpResponseBuilder::new()
    }
}

/// Appends the header lines of `hs`.
fn push_headers(out: &mut Vec<u8>, hs: &Vec<HttpHeader>)
    ensures
        final(out)@ == old(out)@ + headers_bytes(headers_view(hs@)),
{
    let ghost v = headers_view(hs@);
    let mut i: usize = 0;
    while i < hs.len()
        invariant
            i <= hs@.len(),
            v == headers_view(hs@),
            out@ == old(out)@ + headers_bytes(v.subrange(0, i as int)),
        decreases hs@.len() - i,
    {
        let h = &hs[i];
        push_all(out, bytes_of(h.name().as_str()));
        out.push(58u8);
        out.push(32u8);
        push_all(out, bytes_of(h.value().as_str()));
        out.push(13u8);
        out.push(10u8);
        proof {
            let next = v.subrange(0, i + 1);
            assert(next.drop_last() == v.subrange(0, i as int));
            assert(next.last() == h@);
        }
        i += 1;
    }
    assert(v.subrange(0, i as int) == v);
}

/// Appends the chunks of the index.
#[verifier::rlimit(30)]
fn push_chunks(out: &mut Vec<u8>, chunks: &Vec<(usize, usize)>, body: &Vec<u8>)
    ensures
        final(out)@ == old(out)@ + chunks_bytes(chunks@, body@),
{
    let mut i: usize = 0;
    while i < chunks.len()
        invariant
            i <= chunks@.len(),
            out@ == old(out)@ + chunks_bytes(chunks@.subrange(0, i as int), body@),
        decreases chunks@.len() - i,
    {
        let (start, end) = chunks[i];
        if start <= end && end <= body.len() {
            push_radix(out, end - start, 16);
            out.push(13u8);
            out.push(10u8);
            push_all(out, &body.as_slice()[start..end]);
            out.push(13u8);
            out.push(10u8);
        }
        proof {
            let next = chunks@.subrange(0, i + 1);
            assert(next.drop_last() == chunks@.subrange(0, i as int));
            assert(next.last() == chunks@[i as int]);
        }
        i += 1;
    }
    assert(chunks@.subrange(0, i as int) == chunks@);
}

/// Appends the chunks as they are shown in text.
#[verifier::rlimit(30)]
fn push_shown_chunks(out: &mut Vec<u8>, chunks: &Vec<(usize, usize)>, body: &Vec<u8>, tail: &[u8])
    ensures
        final(out)@ == old(out)@ + shown_chunks_bytes(chunks@, body@, tail@),
{
    let mut i: usize = 0;
    while i < chunks.len()
        invariant
            i <= chunks@.len(),
            out@ == old(out)@ + shown_chunks_bytes(chunks@.subrange(0, i as int), body@, tail@),
        decreases chunks@.len() - i,
    {
        let (start, end) = chunks[i];
        if start <= end && end <= body.len() {
            push_radix(out, end - start, 16);
            out.push(13u8);
            out.push(10u8);
            push_all(out, &body.as_slice()[start..end]);
            out.push(13u8);
            out.push(10u8);
            if start == end {
                push_all(out, tail);
            }
        }
        proof {
            let next = chunks@.subrange(0, i + 1);
            assert(next.drop_last() == chunks@.subrange(0, i as int));
            assert(next.last() == chunks@[i as int]);
        }
        i += 1;
    }
    assert(chunks@.subrange(0, i as int) == chunks@);
}

/// Appends the body as it goes on the wire.
fn push_body(out: &mut Vec<u8>, body: &Vec<u8>, chunks: &Vec<(usize, usize)>, chunked: bool)
    ensures
        final(out)@ == old(out)@ + body_bytes(body@, chunks@, chunked),
{
    if body.len() == 0 {
        assert(out@ == old(out)@ + body_bytes(body@, chunks@, chunked));
    } else if chunked {
        push_chunks(out, chunks, body);
    } else {
        push_all(out, body.as_slice());
    }
}

/// Adds a chunk to an index, before its closing `(0, 0)` entry if it has one.
fn push_chunk(chunks: &mut Vec<(usize, usize)>, start: usize, end: usize)
    ensures
        final(chunks)@ == add_chunk(old(chunks)@, start, end),
{
    let n = chunks.len();
    if n > 0 && chunks[n - 1].0 == 0 && chunks[n - 1].1 == 0 {
        chunks.pop();
        chunks.push((start, end));
        chunks.push((0, 0));
    } else {
        chunks.push((start, end));
    }
}

impl HttpRequest {
    /// No two headers share a name (any case).
    pub open spec fn wf(&self) -> bool {
        unique_names(self@.headers)
    }

    pub(crate) fn from_parts(
        method: HttpMethod,
        url: String,
        version: HttpVersion,
        headers: Vec<HttpHeader>,
        body: Vec<u8>,
        chunks: Vec<(usize, usize)>,
        chunked: bool,
    ) -> (r: HttpRequest)
        ensures
            r@ == (RequestView {
                method,
                target: url@,
                version,
                headers: headers_view(headers@),
                body: body@,
                chunks: chunks@,
                chunked,
            }),
    {
        HttpRequest { method, url, version, headers, body, chunks, chunked }
    }

    /// A `GET` request for `\\` in HTTP/1.1, with no headers and no body.
    pub fn new() -> (r: HttpRequest)
        ensures
            r@.method == HttpMethod::Get,
            r@.target == seq!['\\'],
            r@.version == HttpVersion::Http11,
            r@.headers == Seq::<HeaderView>::empty(),
            r@.body == Seq::<u8>::empty(),
            r@.chunks == Seq::<(usize, usize)>::empty(),
            !r@.chunked,
            r.wf(),
    {
        let url = "\\".to_string();
        proof {
            reveal_strlit("\\");
        }
        let r = HttpRequest {
            method: HttpMethod::Get,
            url,
            version: HttpVersion::Http11,
            headers: Vec::new(),
            body: Vec::new(),
            chunks: Vec::new(),
            chunked: false,
        };
        assert(r@.headers == Seq::<HeaderView>::empty());
        r
    }

    /// Appends `data` to the body. A chunked request records the new bytes as
    /// a chunk and sets `Transfer-Encoding: chunked`; any other sets
    /// `Content-Length` to the new length of the body.
    pub fn add_data(&mut self, data: &[u8])
        ensures
            old(self).wf() ==> final(self).wf(),
            final(self)@.body == old(self)@.body + data@,
            final(self)@.method == old(self)@.method,
            final(self)@.target == old(self)@.target,
            final(self)@.version == old(self)@.version,
            final(self)@.chunked == old(self)@.chunked,
            old(self)@.chunked ==> final(self)@.chunks == add_chunk(
                old(self)@.chunks,
                old(self)@.body.len() as usize,
                final(self)@.body.len() as usize,
            ) && final(self)@.headers == put_header_spec(
                old(self)@.headers,
                H_TRANSFER_ENCODING@,
                "chunked"@,
            ),
            !old(self)@.chunked ==> final(self)@.chunks == old(self)@.chunks
                && final(self)@.headers == put_header_spec(
                old(self)@.headers,
                H_CONTENT_LENGTH@,
                length_text(final(self)@.body.len()),
            ),
    {
        let start = self.body.len();
        push_all(&mut self.body, data);
        let end = self.body.len();
        if self.chunked {
            push_chunk(&mut self.chunks, start, end);
            put_header_in(&mut self.headers, H_TRANSFER_ENCODING, "chunked".to_string());
        } else {
            put_header_in(&mut self.headers, H_CONTENT_LENGTH, decimal_string(end));
        }
    }

    /// The body.
    pub fn data(&self) -> (r: &Vec<u8>)
        ensures
            r@ == self@.body,
    {
        &self.body
    }

    /// The protocol version.
    pub fn version(&self) -> (r: HttpVersion)
        ensures
            r == self@.version,
    {
        self.version
    }

    /// Whether the body is chunked.
    pub fn chunked(&self) -> (r: bool)
        ensures
            r == self@.chunked,
    {
        self.chunked
    }

    /// The chunk index: the `(start, end)` range of each chunk in the body.
    pub fn chunks(&self) -> (r: &Vec<(usize, usize)>)
        ensures
            r@ == self@.chunks,
    {
        &self.chunks
    }

    /// The request target, as written on the request line.
    pub fn target(&self) -> (r: &String)
        ensures
            r@ == self@.target,
    {
        &self.url
    }

    /// The headers, in order.
    pub fn headers(&self) -> (r: Vec<&HttpHeader>)
        ensures
            r@.len() == self@.headers.len(),
            forall|i: int| 0 <= i < r@.len() ==> r@[i]@ == #[trigger] self@.headers[i],
    {
        let mut r: Vec<&HttpHeader> = Vec::new();
        let mut i: usize = 0;
        while i < self.headers.len()
            invariant
                i <= self.headers@.len(),
                r@.len() == i,
                forall|k: int| 0 <= k < i ==> r@[k]@ == #[trigger] self.headers@[k]@,
            decreases self.headers@.len() - i,
        {
            r.push(&self.headers[i]);
            i += 1;
        }
        r
    }

    /// The body runs to the end of the input: the headers frame it neither
    /// as chunks nor by `Content-Length`.
    pub fn reads_to_end(&self) -> (r: bool)
        ensures
            r == (!is_chunked(self@.headers) && lookup_header(self@.headers, H_CONTENT_LENGTH@)
                is None),
    {
        !framed_as_chunked(&self.headers) && get_header(&self.headers, H_CONTENT_LENGTH).is_none()
    }

    /// The first header named `name`, compared without regard to ASCII case.
    pub fn header(&self, name: &str) -> (r: Option<&HttpHeader>)
        ensures
            r matches Some(h) ==> lookup_header(self@.headers, name@) == Some(h@),
            r is None ==> lookup_header(self@.headers, name@) is None,
    {
        get_header(&self.headers, name)
    }

    /// Puts `value` under `name`: the first header of that name (any case)
    /// takes the value, or a new header is appended.
    pub fn put_header(&mut self, name: &str, value: &str)
        ensures
            final(self)@ == (RequestView {
                headers: put_header_spec(old(self)@.headers, name@, value@),
                ..old(self)@
            }),
            old(self).wf() ==> final(self).wf(),
    {
        put_header_in(&mut self.headers, name, value.to_string());
    }

    /// Removes every header named `name` (any case).
    pub fn remove_header(&mut self, name: &str)
        ensures
            old(self).wf() ==> final(self).wf(),
            final(self)@ == (RequestView {
                headers: remove_header_spec(old(self)@.headers, name@),
                ..old(self)@
            }),
    {
        remove_header_in(&mut self.headers, name);
    }

    /// The method.
    pub fn method(&self) -> (r: HttpMethod)
        ensures
            r == self@.method,
    {
        self.method
    }

    /// The request as it goes on the wire.
    pub fn into_bytes(&self) -> (r: Vec<u8>)
        ensures
            r@ == request_bytes(self@),
    {
        let mut out = self.method.to_bytes();
        out.push(32u8);
        push_all(&mut out, bytes_of(self.url.as_str()));
        out.push(32u8);
        push_all(&mut out, self.version.to_bytes().as_slice());
        out.push(13u8);
        out.push(10u8);
        push_headers(&mut out, &self.headers);
        out.push(13u8);
        out.push(10u8);
        push_body(&mut out, &self.body, &self.chunks, self.chunked);
        assert(out@ == request_bytes(self@));
        out
    }

    /// The request shown as text.
    pub fn to_string(&self) -> (r: String)
        ensures
            r@ == request_text(self@),
    {
        let mut out = self.method.to_bytes();
        out.push(32u8);
        push_all(&mut out, bytes_of(self.url.as_str()));
        out.push(32u8);
        push_all(&mut out, self.version.to_bytes().as_slice());
        out.push(13u8);
        out.push(10u8);
        push_headers(&mut out, &self.headers);
        out.push(13u8);
        out.push(10u8);
        if self.chunked {
            let tail: Vec<u8> = vec![13u8, 10, 13, 10];
            assert(tail@ == crlf() + crlf());
            push_shown_chunks(&mut out, &self.chunks, &self.body, tail.as_slice());
        } else {
            push_all(&mut out, self.body.as_slice());
        }
        assert(out@ =~= method_bytes(self@.method) + seq![32u8] + encode_utf8(self@.target) + seq![
            32u8,
        ] + version_bytes(self@.version) + crlf() + headers_bytes(self@.headers) + crlf()
            + shown_body_bytes(self@.body, self@.chunks, self@.chunked, crlf() + crlf()));
        text_of(out.as_slice())
    }

    /// A builder for a request.
    pub fn builder() -> (r: HttpRequestBuilder)
        ensures
            r@ == HttpRequestBuilder::initial(),
    {
        HttpRequestBuilder::new()
    }
}

impl HttpResponse {
    /// No two headers share a name (any case).
    pub open spec fn wf(&self) -> bool {
        unique_names(self@.headers)
    }

    pub(crate) fn from_parts(
        version: HttpVersion,
        status_code: usize,
        status_msg: String,
        headers: Vec<HttpHeader>,
        body: Vec<u8>,
        chunks: Vec<(usize, usize)>,
        chunked: bool,
    ) -> (r: HttpResponse)
        ensures
            r@ == (ResponseView {
                version,
                status_code,
                status_msg: status_msg@,
                headers: headers_view(headers@),
                body: body@,
                chunks: chunks@,
                chunked,
            }),
    {
        HttpResponse { version, status_code, status_msg, headers, body, chunks, chunked }
    }

    /// A `200 Ok` response in HTTP/1.1, with no headers and no body.
    pub fn new() -> (r: HttpResponse)
        ensures
            r@.version == HttpVersion::Http11,
            r@.status_code == 200,
            r@.status_msg == seq!['O', 'k'],
            r@.headers == Seq::<HeaderView>::empty(),
            r@.body == Seq::<u8>::empty(),
            r@.chunks == Seq::<(usize, usize)>::empty(),
            !r@.chunked,
            r.wf(),
    {
        let msg = "Ok".to_string();
        proof {
            reveal_strlit("Ok");
        }
        let r = HttpResponse {
            version: HttpVersion::Http11,
            status_code: 200,
            status_msg: msg,
            headers: Vec::new(),
            body: Vec::new(),
            chunks: Vec::new(),
            chunked: false,
        };
        assert(r@.headers == Seq::<HeaderView>::empty());
        r
    }

    /// Appends `data` to the body. A chunked response records the new bytes
    /// as a chunk and sets `Transfer-Encoding: chunked`; any other sets
    /// `Content-Length` to the new length of the body.
    pub fn add_data(&mut self, data: &[u8])
        ensures
            old(self).wf() ==> final(self).wf(),
            final(self)@.body == old(self)@.body + data@,
            final(self)@.version == old(self)@.version,
            final(self)@.status_code == old(self)@.status_code,
            final(self)@.status_msg == old(self)@.status_msg,
            final(self)@.chunked == old(self)@.chunked,
            old(self)@.chunked ==> final(self)@.chunks == add_chunk(
                old(self)@.chunks,
                old(self)@.body.len() as usize,
                final(self)@.body.len() as usize,
            ) && final(self)@.headers == put_header_spec(
                old(self)@.headers,
                H_TRANSFER_ENCODING@,
                "chunked"@,
            ),
            !old(self)@.chunked ==> final(self)@.chunks == old(self)@.chunks
                && final(self)@.headers == put_header_spec(
                old(self)@.headers,
                H_CONTENT_LENGTH@,
                length_text(final(self)@.body.len()),
            ),
    {
        let start = self.body.len();
        push_all(&mut self.body, data);
        let end = self.body.len();
        if self.chunked {
            push_chunk(&mut self.chunks, start, end);
            put_header_in(&mut self.headers, H_TRANSFER_ENCODING, "chunked".to_string());
        } else {
            put_header_in(&mut self.headers, H_CONTENT_LENGTH, decimal_string(end));
        }
    }

    /// The body.
    pub fn data(&self) -> (r: &Vec<u8>)
        ensures
            r@ == self@.body,
    {
        &self.body
    }

    /// The protocol version.
    pub fn version(&self) -> (r: HttpVersion)
        ensures
            r == self@.version,
    {
        self.version
    }

    /// Whether the body is chunked.
    pub fn chunked(&self) -> (r: bool)
        ensures
            r == self@.chunked,
    {
        self.chunked
    }

    /// The chunk index: the `(start, end)` range of each chunk in the body.
    pub fn chunks(&self) -> (r: &Vec<(usize, usize)>)
        ensures
            r@ == self@.chunks,
    {
        &self.chunks
    }

    /// The status code.
    pub fn status_code(&self) -> (r: usize)
        ensures
            r == self@.status_code,
    {
        self.status_code
    }

    /// The reason phrase.
    pub fn status_msg(&self) -> (r: String)
        ensures
            r@ == self@.status_msg,
    {
        self.status_msg.clone()
    }

    /// The body runs to the end of the input: the headers frame it neither
    /// as chunks nor by `Content-Length`.
    pub fn reads_to_end(&self) -> (r: bool)
        ensures
            r == (!is_chunked(self@.headers) && lookup_header(self@.headers, H_CONTENT_LENGTH@)
                is None),
    {
        !framed_as_chunked(&self.headers) && get_header(&self.headers, H_CONTENT_LENGTH).is_none()
    }

    /// The first header named `name`, compared without regard to ASCII case.
    pub fn header(&self, name: &str) -> (r: Option<&HttpHeader>)
        ensures
            r matches Some(h) ==> lookup_header(self@.headers, name@) == Some(h@),
            r is None ==> lookup_header(self@.headers, name@) is None,
    {
        get_header(&self.headers, name)
    }

    /// Puts `value` under `name`: the first header of that name (any case)
    /// takes the value, or a new header is appended.
    pub fn put_header(&mut self, name: &str, value: &str)
        ensures
            final(self)@ == (ResponseView {
                headers: put_header_spec(old(self)@.headers, name@, value@),
                ..old(self)@
            }),
            old(self).wf() ==> final(self).wf(),
    {
        put_header_in(&mut self.headers, name, value.to_string());
    }

    /// The headers, in order.
    pub fn headers(&self) -> (r: Vec<&HttpHeader>)
        ensures
            r@.len() == self@.headers.len(),
            forall|i: int| 0 <= i < r@.len() ==> r@[i]@ == #[trigger] self@.headers[i],
    {
        let mut r: Vec<&HttpHeader> = Vec::new();
        let mut i: usize = 0;
        while i < self.headers.len()
            invariant
                i <= self.headers@.len(),
                r@.len() == i,
                forall|k: int| 0 <= k < i ==> r@[k]@ == #[trigger] self.headers@[k]@,
            decreases self.headers@.len() - i,
        {
            r.push(&self.headers[i]);
            i += 1;
        }
        r
    }

    /// The response as it goes on the wire.
    pub fn into_bytes(&self) -> (r: Vec<u8>)
        ensures
            r@ == response_bytes(self@),
    {
        let mut out = self.version.to_bytes();
        out.push(32u8);
        push_radix(&mut out, self.status_code, 10);
        out.push(32u8);
        push_all(&mut out, bytes_of(self.status_msg.as_str()));
        out.push(13u8);
        out.push(10u8);
        push_headers(&mut out, &self.headers);
        out.push(13u8);
        out.push(10u8);
        push_body(&mut out, &self.body, &self.chunks, self.chunked);
        assert(out@ == response_bytes(self@));
        out
    }

    /// The response shown as text.
    pub fn to_string(&self) -> (r: String)
        ensures
            r@ == response_text(self@),
    {
        let mut out = self.version.to_bytes();
        out.push(32u8);
        push_radix(&mut out, self.status_code, 10);
        out.push(32u8);
        push_all(&mut out, bytes_of(self.status_msg.as_str()));
        out.push(13u8);
        out.push(10u8);
        push_headers(&mut out, &self.headers);
        out.push(13u8);
        out.push(10u8);
        if self.chunked {
            let tail: Vec<u8> = vec![13u8, 10];
            assert(tail@ == crlf());
            push_shown_chunks(&mut out, &self.chunks, &self.body, tail.as_slice());
        } else {
            push_all(&mut out, self.body.as_slice());
        }
        assert(out@ =~= version_bytes(self@.version) + seq![32u8] + radix_text(
            self@.status_code as nat,
            10,
        ) + seq![32u8] + encode_utf8(self@.status_msg) + crlf() + headers_bytes(self@.headers)
            + crlf() + shown_body_bytes(self@.body, self@.chunks, self@.chunked, crlf()));
        text_of(out.as_slice())
    }

    /// A builder for a response.
    pub fn builder() -> (r: HttpResponseBuilder)
        ensures
            r@ == HttpResponseBuilder::initial(),
    {
        HttpResponseBuilder::new()
    }
}

/// What a request builder holds.
pub ghost struct RequestBuilderView {
    pub method: HttpMethod,
    pub target: Seq<char>,
    pub version: HttpVersion,
    pub headers: Seq<HeaderView>,
    pub body: Seq<u8>,
}

/// Builds a request step by step.
pub struct HttpRequestBuilder {
    method: HttpMethod,
    url: String,
    version: HttpVersion,
    headers: Vec<HttpHeader>,
    data: Vec<u8>,
}

impl View for HttpRequestBuilder {
    type V = RequestBuilderView;

    closed spec fn view(&self) -> RequestBuilderView {
        RequestBuilderView {
            method: self.method,
            target: self.url@,
            version: self.version,
            headers: headers_view(self.headers@),
            body: self.data@,
        }
    }
}

impl HttpRequestBuilder {
    /// A fresh builder: `GET /` in HTTP/1.1, no headers, no body.
    pub open spec fn initial() -> RequestBuilderView {
        RequestBuilderView {
            method: HttpMethod::Get,
            target: seq!['/'],
            version: HttpVersion::Http11,
            headers: Seq::empty(),
            body: Seq::empty(),
        }
    }

    /// A fresh builder: `GET /` in HTTP/1.1, no headers, no body.
    pub fn new() -> (r: HttpRequestBuilder)
        ensures
            r@ == HttpRequestBuilder::initial(),
    {
        let url = "/".to_string();
        proof {
            reveal_strlit("/");
        }
        let r = HttpRequestBuilder {
            method: HttpMethod::Get,
            url,
            version: HttpVersion::Http11,
            headers: Vec::new(),
            data: Vec::new(),
        };
        assert(r@.headers =~= Seq::<HeaderView>::empty());
        assert(r@.body =~= Seq::<u8>::empty());
        assert(r@.target =~= seq!['/']);
        assert(r@ == HttpRequestBuilder::initial());
        r
    }

    /// Sets the method.
    pub fn method(self, method: HttpMethod) -> (r: HttpRequestBuilder)
        ensures
            r@ == (RequestBuilderView { method, ..self@ }),
    {
        let mut b = self;
        b.method = method;
        b
    }

    /// Puts a header: a header of the same name (any case) takes the value,
    /// else the header is appended.
    pub fn header(self, name: &str, value: &str) -> (r: HttpRequestBuilder)
        ensures
            r@ == (RequestBuilderView {
                headers: put_header_spec(self@.headers, name@, value@),
                ..self@
            }),
            unique_names(self@.headers) ==> unique_names(r@.headers),
    {
        let mut b = self;
        put_header_in(&mut b.headers, name, value.to_string());
        b
    }

    /// Appends bytes to the body.
    pub fn body(self, new_data: &[u8]) -> (r: HttpRequestBuilder)
        ensures
            r@ == (RequestBuilderView { body: self@.body + new_data@, ..self@ }),
    {
        let mut b = self;
        push_all(&mut b.data, new_data);
        b
    }

    /// Sets the request target.
    pub fn path(self, url: &str) -> (r: HttpRequestBuilder)
        ensures
            r@ == (RequestBuilderView { target: url@, ..self@ }),
    {
        let mut b = self;
        b.url = url.to_string();
        b
    }

    /// Sets the request target to the URL's target (path, parameters, fragment).
    pub fn url(self, url: &HttpUrl) -> (r: HttpRequestBuilder)
        ensures
            r@ == (RequestBuilderView { target: target_text(url@), ..self@ }),
    {
        let mut b = self;
        b.url = url.target();
        b
    }

    /// The request: not chunked, with an empty chunk index.
    pub fn build(self) -> (r: HttpRequest)
        ensures
            unique_names(self@.headers) ==> r.wf(),
            r@ == (RequestView {
                method: self@.method,
                target: self@.target,
                version: self@.version,
                headers: self@.headers,
                body: self@.body,
                chunks: Seq::empty(),
                chunked: false,
            }),
    {
        let r = HttpRequest {
            method: self.method,
            url: self.url,
            version: self.version,
            headers: self.headers,
            body: self.data,
            chunks: Vec::new(),
            chunked: false,
        };
        assert(r@.chunks == Seq::<(usize, usize)>::empty());
        r
    }
}

/// What a response builder holds.
pub ghost struct ResponseBuilderView {
    pub version: HttpVersion,
    pub status: StatusCode,
    pub headers: Seq<HeaderView>,
    pub body: Seq<u8>,
}

/// Builds a response step by step.
pub struct HttpResponseBuilder {
    version: HttpVersion,
    status_code: StatusCode,
    headers: Vec<HttpHeader>,
    data: Vec<u8>,
}

impl View for HttpResponseBuilder {
    type V = ResponseBuilderView;

    closed spec fn view(&self) -> ResponseBuilderView {
        ResponseBuilderView {
            version: self.version,
            status: self.status_code,
            headers: headers_view(self.headers@),
            body: self.data@,
        }
    }
}

impl HttpResponseBuilder {
    /// A fresh builder: HTTP/1.1, `200 OK`, no headers, no body.
    pub open spec fn initial() -> ResponseBuilderView {
        ResponseBuilderView {
            version: HttpVersion::Http11,
            status: StatusCode::OK,
            headers: Seq::empty(),
            body: Seq::empty(),
        }
    }

    /// A fresh builder: HTTP/1.1, `200 OK`, no headers, no body.
    pub fn new() -> (r: HttpResponseBuilder)
        ensures
            r@ == HttpResponseBuilder::initial(),
    {
        let r = HttpResponseBuilder {
            version: HttpVersion::Http11,
            status_code: StatusCode::OK,
            headers: Vec::new(),
            data: Vec::new(),
        };
        assert(r@.headers =~= Seq::<HeaderView>::empty());
        assert(r@.body =~= Seq::<u8>::empty());
        assert(r@ == HttpResponseBuilder::initial());
        r
    }

    /// Sets the status.
    pub fn status(self, code: StatusCode) -> (r: HttpResponseBuilder)
        ensures
            r@ == (ResponseBuilderView { status: code, ..self@ }),
    {
        let mut b = self;
        b.status_code = code;
        b
    }

    /// Puts a header: a header of the same name (any case) takes the value,
    /// else the header is appended.
    pub fn header(self, name: &str, value: &str) -> (r: HttpResponseBuilder)
        ensures
            r@ == (ResponseBuilderView {
                headers: put_header_spec(self@.headers, name@, value@),
                ..self@
            }),
            unique_names(self@.headers) ==> unique_names(r@.headers),
    {
        let mut b = self;
        put_header_in(&mut b.headers, name, value.to_string());
        b
    }

    /// Appends bytes to the body.
    pub fn body(self, new_data: &[u8]) -> (r: HttpResponseBuilder)
        ensures
            r@ == (ResponseBuilderView { body: self@.body + new_data@, ..self@ }),
    {
        let mut b = self;
        push_all(&mut b.data, new_data);
        b
    }

    /// The response, with the status's code and reason phrase; not chunked.
    pub fn build(self) -> (r: HttpResponse)
        ensures
            unique_names(self@.headers) ==> r.wf(),
            r@ == (ResponseView {
                version: self@.version,
                status_code: status_value(self@.status),
                status_msg: status_reason(self@.status),
                headers: self@.headers,
                body: self@.body,
                chunks: Seq::empty(),
                chunked: false,
            }),
    {
        let code = self.status_code.code();
        let msg = self.status_code.reason().to_string();
        let r = HttpResponse {
            version: self.version,
            status_code: code,
            status_msg: msg,
            headers: self.headers,
            body: self.data,
            chunks: Vec::new(),
            chunked: false,
        };
        assert(r@.chunks == Seq::<(usize, usize)>::empty());
        r
    }
}

} // verus!
