//! Reading requests and responses from wire bytes: the start line, the header
//! lines, and the body by its framing.
use crate::definitions::{H_CONTENT_LENGTH, H_TRANSFER_ENCODING};
use crate::header::{
    get_header, headers_view, lookup_header, put_header_in, put_header_spec, HeaderView, HttpHeader,
};
use crate::message::{
    method_of, version_of, HttpMethod, HttpRequest, HttpResponse, HttpVersion, RequestView,
    ResponseView,
};
use crate::text::{
    after, bytes_eq, bytes_of, contains_bytes, contains_slice, find_byte, find_from, parse_unsigned,
    push_all, text_of, text_spec, trim_bounds, trim_string, trim_text, trimmed, unsigned_value,
};
use vstd::prelude::*;
use vstd::utf8::*;

verus! {

/// Why a parse failed, with the text at fault.
#[derive(Debug)]
pub enum HttpParseError {
    Method(String),
    Version(String),
    Url(String),
    StatusCode(String),
    Header(String),
    Other(String),
}

/// A parse failure as a kind and a text.
pub ghost enum ParseErrorView {
    Method(Seq<char>),
    Version(Seq<char>),
    Url(Seq<char>),
    StatusCode(Seq<char>),
    Header(Seq<char>),
    Other(Seq<char>),
}

impl View for HttpParseError {
    type V = ParseErrorView;

    open spec fn view(&self) -> ParseErrorView {
        match self {
            HttpParseError::Method(s) => ParseErrorView::Method(s@),
            HttpParseError::Version(s) => ParseErrorView::Version(s@),
            HttpParseError::Url(s) => ParseErrorView::Url(s@),
            HttpParseError::StatusCode(s) => ParseErrorView::StatusCode(s@),
            HttpParseError::Header(s) => ParseErrorView::Header(s@),
            HttpParseError::Other(s) => ParseErrorView::Other(s@),
        }
    }
}

/// The error described in words.
pub open spec fn error_message(e: ParseErrorView) -> Seq<char> {
    match e {
        ParseErrorView::Method(t) => "Unsupported HTTP Method `"@ + t + "`"@,
        ParseErrorView::Version(t) => "Unsupported HTTP Version `"@ + t + "`"@,
        ParseErrorView::Url(t) => "Invalid HTTP URL `"@ + t + "`"@,
        ParseErrorView::StatusCode(t) => "Invalid HTTP Status Code `"@ + t + "`"@,
        ParseErrorView::Header(t) => "Error reading header `"@ + t + "`"@,
        ParseErrorView::Other(t) => "Read error: `"@ + t + "`"@,
    }
}

impl HttpParseError {
    /// The error described in words.
    pub fn message(&self) -> (r: String)
        ensures
            r@ == error_message(self@),
    {
        let (prefix, text) = match self {
            HttpParseError::Method(t) => ("Unsupported HTTP Method `", t),
            HttpParseError::Version(t) => ("Unsupported HTTP Version `", t),
            HttpParseError::Url(t) => ("Invalid HTTP URL `", t),
            HttpParseError::StatusCode(t) => ("Invalid HTTP Status Code `", t),
            HttpParseError::Header(t) => ("Error reading header `", t),
            HttpParseError::Other(t) => ("Read error: `", t),
        };
        let mut r = prefix.to_string();
        r.append(text.as_str());
        r.append("`");
        r
    }

    /// The input was malformed, rather than cut short or unreadable.
    pub fn is_invalid_data(&self) -> (r: bool)
        ensures
            r == !(self@ is Other),
    {
        match self {
            HttpParseError::Other(_) => false,
            _ => true,
        }
    }
}

/// The text of the error for input that ends too early.
pub open spec fn eof_text() -> Seq<char> {
    "unexpected end of data"@
}

/// `identity`, the transfer coding that leaves a body unframed.
pub open spec fn identity_bytes() -> Seq<u8> {
    seq![105u8, 100, 101, 110, 116, 105, 116, 121]
}

/// At `p` the input holds a blank line (`\r\n`), or nothing more.
pub open spec fn at_line_end(s: Seq<u8>, p: int) -> bool {
    p >= s.len() || (p + 1 < s.len() && s[p] == 13 && s[p + 1] == 10)
}

/// A byte that reads as whitespace (`char::is_whitespace` of the byte as a
/// character), apart from the line ends `\r` and `\n`.
pub open spec fn is_blank(b: u8) -> bool {
    b == 0x09 || b == 0x0b || b == 0x0c || b == 0x20 || b == 0x85 || b == 0xa0
}

/// First index at or after `from` that holds no such whitespace, or `s.len()`.
pub open spec fn skip_blanks(s: Seq<u8>, from: int) -> int
    decreases s.len() - from,
{
    if from < 0 || from >= s.len() {
        s.len() as int
    } else if is_blank(s[from]) {
        skip_blanks(s, from + 1)
    } else {
        from
    }
}

/// `line` without its final `\r`, if it has one, from index `from` on.
pub open spec fn line_end_of(line: Seq<u8>, from: int) -> int {
    if line.len() > from && line.last() == 13 {
        line.len() - 1
    } else {
        line.len() as int
    }
}

/// A header line (without its `\n`): the name before the first `:`, and the
/// value after it, without leading whitespace (line ends aside) or a final `\r`. A line
/// without `:` is a header error.
pub open spec fn header_of_line(line: Seq<u8>) -> Result<HeaderView, ParseErrorView> {
    let c = find_from(line, 0, 58);
    if c >= line.len() {
        Err(ParseErrorView::Header(text_spec(line.subrange(0, line_end_of(line, 0)))))
    } else {
        let v0 = skip_blanks(line, c + 1);
        let v1 = line_end_of(line, v0);
        Ok((text_spec(line.subrange(0, c)), text_spec(line.subrange(v0, v1))))
    }
}

/// One header line starting at `p`: the header and the position after the line.
pub open spec fn header_step(s: Seq<u8>, p: int) -> Result<(HeaderView, int), ParseErrorView> {
    let l = find_from(s, p, 10);
    match header_of_line(s.subrange(p, l)) {
        Err(e) => Err(e),
        Ok(h) => Ok((h, after(s, l))),
    }
}

/// The header lines from `p` up to a blank line (consumed) or the end of the
/// input, each put into `hs`; with the position after them.
pub open spec fn headers_from(s: Seq<u8>, p: int, hs: Seq<HeaderView>) -> Result<
    (Seq<HeaderView>, int),
    ParseErrorView,
>
    decreases s.len() - p,
{
    if p < 0 || at_line_end(s, p) {
        Ok((hs, if p + 2 <= s.len() { p + 2 } else { s.len() as int }))
    } else {
        match header_step(s, p) {
            Err(e) => Err(e),
            Ok((h, q)) => {
                let hs2 = put_header_spec(hs, h.0, h.1);
                if q > p {
                    headers_from(s, q, hs2)
                } else {
                    Ok((hs2, q))
                }
            },
        }
    }
}

/// The chunks from `p` on, added to `body` and `chunks`, up to the `0` chunk
/// and the line after it; with the position after them. Input that ends
/// before the `0` chunk is cut short.
#[verifier::opaque]
pub open spec fn chunks_from(s: Seq<u8>, p: int, body: Seq<u8>, chunks: Seq<(usize, usize)>) -> Result<
    (Seq<u8>, Seq<(usize, usize)>, int),
    ParseErrorView,
>
    decreases s.len() - p,
{
    if p < 0 || p >= s.len() {
        Err(ParseErrorView::Other(eof_text()))
    } else {
        let l = find_from(s, p, 10);
        let q = after(s, l);
        let size = trimmed(s.subrange(p, l));
        match unsigned_value(size, 16) {
            None => Err(ParseErrorView::Header(text_spec(size))),
            Some(n) => {
                if n == 0 {
                    Ok((body, chunks, after(s, find_from(s, q, 10))))
                } else if q + n > s.len() {
                    Err(ParseErrorView::Other(eof_text()))
                } else {
                    let body2 = body + s.subrange(q, q + n);
                    let chunks2 = chunks.push((body.len() as usize, body2.len() as usize));
                    let r = after(s, find_from(s, q + n, 10));
                    if r > p {
                        chunks_from(s, r, body2, chunks2)
                    } else {
                        Ok((body2, chunks2, r))
                    }
                }
            },
        }
    }
}

/// The body is chunked: `Transfer-Encoding` is present and does not name `identity`.
pub open spec fn is_chunked(hs: Seq<HeaderView>) -> bool {
    match lookup_header(hs, H_TRANSFER_ENCODING@) {
        Some(h) => !contains_bytes(encode_utf8(h.1), identity_bytes()),
        None => false,
    }
}

/// A header as `name: value`.
pub open spec fn header_text(h: HeaderView) -> Seq<char> {
    h.0 + seq![':', ' '] + h.1
}

/// The body from `p`, framed as the headers say: chunked, by
/// `Content-Length`, or up to the end of the input. Gives the body, the
/// chunk index (closed by `(0, 0)` when not empty), whether it is chunked,
/// and the position after it.
pub open spec fn body_from(s: Seq<u8>, p: int, hs: Seq<HeaderView>) -> Result<
    (Seq<u8>, Seq<(usize, usize)>, bool, int),
    ParseErrorView,
> {
    if is_chunked(hs) {
        match chunks_from(s, p, Seq::empty(), Seq::empty()) {
            Err(e) => Err(e),
            Ok((b, cs, q)) => {
                if cs.len() > 0 {
                    Ok((b, cs.push((0usize, 0usize)), true, q))
                } else {
                    Ok((b, cs, false, q))
                }
            },
        }
    } else {
        match lookup_header(hs, H_CONTENT_LENGTH@) {
            Some(h) => match unsigned_value(encode_utf8(h.1), 10) {
                None => Err(ParseErrorView::Header(header_text(h))),
                Some(n) => {
                    if p + n > s.len() {
                        Err(ParseErrorView::Other(eof_text()))
                    } else {
                        Ok((s.subrange(p, p + n), Seq::empty(), false, p + n))
                    }
                },
            },
            None => Ok((s.subrange(p, s.len() as int), Seq::empty(), false, s.len() as int)),
        }
    }
}

/// A request read from `s` at `p`: the request line, the headers, and (with
/// `include_body`) the body; with the position after what was read.
pub open spec fn request_from(s: Seq<u8>, p: int, include_body: bool) -> Result<
    (RequestView, int),
    ParseErrorView,
> {
    let i1 = find_from(s, p, 32);
    let tok1 = s.subrange(p, i1);
    let p1 = after(s, i1);
    let i2 = find_from(s, p1, 32);
    let p2 = after(s, i2);
    let i3 = find_from(s, p2, 10);
    let tok3 = trimmed(s.subrange(p2, i3));
    let p3 = after(s, i3);
    match method_of(trimmed(tok1)) {
        None => Err(ParseErrorView::Method(text_spec(tok1))),
        Some(m) => match version_of(tok3) {
            None => Err(ParseErrorView::Version(text_spec(tok3))),
            Some(v) => match headers_from(s, p3, Seq::empty()) {
                Err(e) => Err(e),
                Ok((hs, p4)) => {
                    let head = RequestView {
                        method: m,
                        target: text_spec(s.subrange(p1, i2)),
                        version: v,
                        headers: hs,
                        body: Seq::empty(),
                        chunks: Seq::empty(),
                        chunked: false,
                    };
                    if !include_body {
                        Ok((head, p4))
                    } else {
                        match body_from(s, p4, hs) {
                            Err(e) => Err(e),
                            Ok((b, cs, ch, p5)) => Ok(
                                (RequestView { body: b, chunks: cs, chunked: ch, ..head }, p5),
                            ),
                        }
                    }
                },
            },
        },
    }
}

/// A response read from `s` at `p`: the status line, the headers, and (with
/// `include_body`) the body; with the position after what was read.
pub open spec fn response_from(s: Seq<u8>, p: int, include_body: bool) -> Result<
    (ResponseView, int),
    ParseErrorView,
> {
    let i1 = find_from(s, p, 32);
    let tok1 = trimmed(s.subrange(p, i1));
    let p1 = after(s, i1);
    let i2 = find_from(s, p1, 32);
    let tok2 = s.subrange(p1, i2);
    let p2 = after(s, i2);
    let i3 = find_from(s, p2, 10);
    let p3 = after(s, i3);
    match version_of(tok1) {
        None => Err(ParseErrorView::Version(text_spec(tok1))),
        Some(v) => match unsigned_value(encode_utf8(trim_text(text_spec(tok2))), 10) {
            None => Err(ParseErrorView::StatusCode(text_spec(tok2))),
            Some(code) => match headers_from(s, p3, Seq::empty()) {
                Err(e) => Err(e),
                Ok((hs, p4)) => {
                    let head = ResponseView {
                        version: v,
                        status_code: code,
                        status_msg: trim_text(text_spec(s.subrange(p2, i3))),
                        headers: hs,
                        body: Seq::empty(),
                        chunks: Seq::empty(),
                        chunked: false,
                    };
                    if !include_body {
                        Ok((head, p4))
                    } else {
                        match body_from(s, p4, hs) {
                            Err(e) => Err(e),
                            Ok((b, cs, ch, p5)) => Ok(
                                (ResponseView { body: b, chunks: cs, chunked: ch, ..head }, p5),
                            ),
                        }
                    }
                },
            },
        },
    }
}

/// Reads requests and responses from a buffer of wire bytes, front to back.
pub struct HttpParser {
    data: Vec<u8>,
    pos: usize,
}

/// A blank line: the end of a head.
pub open spec fn blank_line_bytes() -> Seq<u8> {
    seq![13u8, 10, 13, 10]
}

impl HttpParser {
    /// Whether `bytes` hold a line end followed by a blank line, so that a
    /// head that starts there has arrived in full.
    pub fn has_complete_head(bytes: &[u8]) -> (r: bool)
        ensures
            r == contains_bytes(bytes@, blank_line_bytes()),
    {
        let blank: Vec<u8> = vec![13u8, 10, 13, 10];
        assert(blank@ == blank_line_bytes());
        contains_slice(bytes, blank.as_slice())
    }

    /// The bytes the parser reads.
    pub closed spec fn input(&self) -> Seq<u8> {
        self.data@
    }

    /// How many bytes have been read.
    pub closed spec fn position(&self) -> int {
        self.pos as int
    }

    /// The position lies within the input.
    pub closed spec fn wf(&self) -> bool {
        self.pos <= self.data@.len()
    }

    /// A parser at the start of `bytes`.
    pub fn from_bytes(bytes: &[u8]) -> (r: HttpParser)
        ensures
            r.wf(),
            r.input() == bytes@,
            r.position() == 0,
    {
        let mut data: Vec<u8> = Vec::new();
        push_all(&mut data, bytes);
        HttpParser { data, pos: 0 }
    }

    /// A response: status line, headers and body.
    pub fn response(&mut self) -> (r: Result<HttpResponse, HttpParseError>)
        requires
            old(self).wf(),
        ensures
            final(self).wf(),
            final(self).input() == old(self).input(),
            match response_from(old(self).input(), old(self).position(), true) {
                Ok((v, q)) => r matches Ok(resp) && resp@ == v && final(self).position() == q,
                Err(e) => r matches Err(err) && err@ == e,
            },
            r matches Ok(resp) ==> resp.wf(),
    {
        proof {
            crate::round_trip::lemma_response_headers_unique(self.data@, self.pos as int, true);
        }
        self.parse_response(true)
    }

    /// A response's status line and headers; the body is left unread.
    pub fn response_head_only(&mut self) -> (r: Result<HttpResponse, HttpParseError>)
        requires
            old(self).wf(),
        ensures
            final(self).wf(),
            final(self).input() == old(self).input(),
            match response_from(old(self).input(), old(self).position(), false) {
                Ok((v, q)) => r matches Ok(resp) && resp@ == v && final(self).position() == q,
                Err(e) => r matches Err(err) && err@ == e,
            },
            r matches Ok(resp) ==> resp.wf(),
    {
        proof {
            crate::round_trip::lemma_response_headers_unique(self.data@, self.pos as int, false);
        }
        self.parse_response(false)
    }

    /// A request: request line, headers and body.
    pub fn request(&mut self) -> (r: Result<HttpRequest, HttpParseError>)
        requires
            old(self).wf(),
        ensures
            final(self).wf(),
            final(self).input() == old(self).input(),
            match request_from(old(self).input(), old(self).position(), true) {
                Ok((v, q)) => r matches Ok(req) && req@ == v && final(self).position() == q,
                Err(e) => r matches Err(err) && err@ == e,
            },
            r matches Ok(req) ==> req.wf(),
    {
        proof {
            crate::round_trip::lemma_request_headers_unique(self.data@, self.pos as int, true);
        }
        self.parse_request(true)
    }

    /// A request's request line and headers; the body is left unread.
    pub fn request_head_only(&mut self) -> (r: Result<HttpRequest, HttpParseError>)
        requires
            old(self).wf(),
        ensures
            final(self).wf(),
            final(self).input() == old(self).input(),
            match request_from(old(self).input(), old(self).position(), false) {
                Ok((v, q)) => r matches Ok(req) && req@ == v && final(self).position() == q,
                Err(e) => r matches Err(err) && err@ == e,
            },
            r matches Ok(req) ==> req.wf(),
    {
        proof {
            crate::round_trip::lemma_request_headers_unique(self.data@, self.pos as int, false);
        }
        self.parse_request(false)
    }
}

/// Position after index `i` of an input of length `len`.
fn after_index(len: usize, i: usize) -> (r: usize)
    requires
        i <= len,
    ensures
        r as int == if i < len { i + 1 } else { len as int },
{
    if i < len {
        i + 1
    } else {
        len
    }
}

/// The method whose token is exactly `token`.
fn parse_method(token: &[u8]) -> (r: Option<HttpMethod>)
    ensures
        r == method_of(token@),
{
    if bytes_eq(token, HttpMethod::Get.to_bytes().as_slice()) {
        Some(HttpMethod::Get)
    } else if bytes_eq(token, HttpMethod::Post.to_bytes().as_slice()) {
        Some(HttpMethod::Post)
    } else if bytes_eq(token, HttpMethod::Put.to_bytes().as_slice()) {
        Some(HttpMethod::Put)
    } else if bytes_eq(token, HttpMethod::Head.to_bytes().as_slice()) {
        Some(HttpMethod::Head)
    } else if bytes_eq(token, HttpMethod::Options.to_bytes().as_slice()) {
        Some(HttpMethod::Options)
    } else if bytes_eq(token, HttpMethod::Delete.to_bytes().as_slice()) {
        Some(HttpMethod::Delete)
    } else if bytes_eq(token, HttpMethod::Trace.to_bytes().as_slice()) {
        Some(HttpMethod::Trace)
    } else if bytes_eq(token, HttpMethod::Patch.to_bytes().as_slice()) {
        Some(HttpMethod::Patch)
    } else if bytes_eq(token, HttpMethod::Connect.to_bytes().as_slice()) {
        Some(HttpMethod::Connect)
    } else {
        None
    }
}

/// The version whose token is exactly `token`.
fn parse_version(token: &[u8]) -> (r: Option<HttpVersion>)
    ensures
        r == version_of(token@),
{
    if bytes_eq(token, HttpVersion::Http10.to_bytes().as_slice()) {
        Some(HttpVersion::Http10)
    } else if bytes_eq(token, HttpVersion::Http11.to_bytes().as_slice()) {
        Some(HttpVersion::Http11)
    } else if bytes_eq(token, HttpVersion::Http2.to_bytes().as_slice()) {
        Some(HttpVersion::Http2)
    } else if bytes_eq(token, HttpVersion::Http3.to_bytes().as_slice()) {
        Some(HttpVersion::Http3)
    } else {
        None
    }
}

/// Whether the headers frame the body as chunks.
pub(crate) fn framed_as_chunked(headers: &Vec<HttpHeader>) -> (r: bool)
    ensures
        r == is_chunked(headers_view(headers@)),
{
    let identity: Vec<u8> = vec![105u8, 100, 101, 110, 116, 105, 116, 121];
    assert(identity@ == identity_bytes());
    match get_header(headers, H_TRANSFER_ENCODING) {
        Some(h) => !contains_slice(bytes_of(h.value().as_str()), identity.as_slice()),
        None => false,
    }
}

/// The status code that `token` writes in decimal, read as text with
/// whitespace trimmed from both ends.
fn parse_status_code(token: &[u8]) -> (r: Result<usize, HttpParseError>)
    ensures
        match unsigned_value(encode_utf8(trim_text(text_spec(token@))), 10) {
            Some(n) => r == Ok::<usize, HttpParseError>(n),
            None => r matches Err(e) && e@ == ParseErrorView::StatusCode(text_spec(token@)),
        },
{
    let text = text_of(token);
    let code = trim_string(text.as_str());
    match parse_unsigned(bytes_of(code.as_str()), 10) {
        Some(n) => Ok(n),
        None => Err(HttpParseError::StatusCode(text_of(token))),
    }
}

/// First index at or after `from` that holds no whitespace other than a
/// line end.
fn skip_matching(line: &[u8], from: usize) -> (r: usize)
    requires
        from <= line@.len(),
    ensures
        r == skip_blanks(line@, from as int),
        from <= r <= line@.len(),
{
    let mut i = from;
    while i < line.len() && is_blank_byte(line[i])
        invariant
            from <= i <= line@.len(),
            skip_blanks(line@, i as int) == skip_blanks(line@, from as int),
        decreases line@.len() - i,
    {
        i += 1;
    }
    i
}

/// Whether `b` is whitespace other than a line end.
fn is_blank_byte(b: u8) -> (r: bool)
    ensures
        r == is_blank(b),
{
    b == 0x09 || b == 0x0b || b == 0x0c || b == 0x20 || b == 0x85 || b == 0xa0
}

/// End of the line's content: before a final `\r`.
fn line_end_index(line: &[u8], from: usize) -> (r: usize)
    requires
        from <= line@.len(),
    ensures
        r == line_end_of(line@, from as int),
        from <= r <= line@.len(),
{
    if line.len() > from && line[line.len() - 1] == 13 {
        line.len() - 1
    } else {
        line.len()
    }
}

/// The header that a line (without its `\n`) holds.
fn parse_header_line(line: &[u8]) -> (r: Result<HttpHeader, HttpParseError>)
    ensures
        match header_of_line(line@) {
            Ok(h) => r matches Ok(x) && x@ == h,
            Err(e) => r matches Err(x) && x@ == e,
        },
{
    let c = find_byte(line, 0, 58);
    if c >= line.len() {
        let e = line_end_index(line, 0);
        return Err(HttpParseError::Header(text_of(&line[0..e])));
    }
    let v0 = skip_matching(line, c + 1);
    let v1 = line_end_index(line, v0);
    Ok(HttpHeader::from_parts(text_of(&line[0..c]), text_of(&line[v0..v1])))
}

/// The text of the error for input that ends too early.
fn eof_error() -> (r: HttpParseError)
    ensures
        r@ == ParseErrorView::Other(eof_text()),
{
    HttpParseError::Other("unexpected end of data".to_string())
}

/// A header as `name: value`.
fn header_string(h: &HttpHeader) -> (r: String)
    ensures
        r@ == header_text(h@),
{
    let mut t = h.name().clone();
    t.append(": ");
    t.append(h.value().as_str());
    proof {
        reveal_strlit(": ");
    }
    t
}

impl HttpParser {
    /// At the current position the input holds a blank line, or nothing more.
    fn is_line_end(&self) -> (r: bool)
        requires
            self.wf(),
        ensures
            r == at_line_end(self.data@, self.pos as int),
    {
        let len = self.data.len();
        if self.pos >= len {
            true
        } else {
            self.pos + 1 < len && self.data[self.pos] == 13 && self.data[self.pos + 1] == 10
        }
    }

    /// Steps over a blank line, or to the end of the input.
    fn skip_next_line(&mut self)
        requires
            old(self).wf(),
        ensures
            final(self).wf(),
            final(self).data == old(self).data,
            final(self).pos as int == if old(self).pos + 2 <= old(self).data@.len() {
                old(self).pos + 2
            } else {
                old(self).data@.len() as int
            },
    {
        if self.data.len() >= 2 && self.pos <= self.data.len() - 2 {
            self.pos = self.pos + 2;
        } else {
            self.pos = self.data.len();
        }
    }

    /// Reads header lines up to a blank line (consumed) or the end of the
    /// input, putting each into `headers`.
    fn parse_headers(&mut self, headers: &mut Vec<HttpHeader>) -> (r: Result<(), HttpParseError>)
        requires
            old(self).wf(),
        ensures
            final(self).wf(),
            final(self).data == old(self).data,
            match headers_from(old(self).data@, old(self).pos as int, headers_view(old(headers)@)) {
                Ok((hs, q)) => r is Ok && headers_view(final(headers)@) == hs && final(self).pos
                    == q,
                Err(e) => r matches Err(x) && x@ == e,
            },
    {
        let ghost s = self.data@;
        let ghost goal = headers_from(s, self.pos as int, headers_view(headers@));
        while !self.is_line_end()
            invariant
                self.wf(),
                self.data == old(self).data,
                s == self.data@,
                goal == headers_from(old(self).data@, old(self).pos as int, headers_view(old(headers)@)),
                headers_from(s, self.pos as int, headers_view(headers@)) == goal,
            decreases s.len() - self.pos,
        {
            let p = self.pos;
            let len = self.data.len();
            let data = self.data.as_slice();
            let l = find_byte(data, p, 10);
            let line = &data[p..l];
            match parse_header_line(line) {
                Err(e) => {
                    return Err(e);
                },
                Ok(h) => {
                    self.pos = after_index(len, l);
                    put_header_in(headers, h.name().as_str(), h.value().clone());
                },
            }
        }
        self.skip_next_line();
        Ok(())
    }

    /// Reads chunks up to the `0` chunk (and the line after it) or the end of
    /// the input, appending their bytes to `body` and their ranges to `chunks`.
    fn read_chunked_body(
        &mut self,
        body: &mut Vec<u8>,
        chunks: &mut Vec<(usize, usize)>,
    ) -> (r: Result<(), HttpParseError>)
        requires
            old(self).wf(),
        ensures
            final(self).wf(),
            final(self).data == old(self).data,
            match chunks_from(old(self).data@, old(self).pos as int, old(body)@, old(chunks)@) {
                Ok((b, cs, q)) => r is Ok && final(body)@ == b && final(chunks)@ == (if cs.len()
                    > 0 {
                    cs.push((0usize, 0usize))
                } else {
                    cs
                }) && final(self).pos == q,
                Err(e) => r matches Err(x) && x@ == e,
            },
    {
        reveal(chunks_from);
        let ghost s = self.data@;
        let ghost goal = chunks_from(s, self.pos as int, body@, chunks@);
        let len = self.data.len();
        while self.pos < len
            invariant
                self.wf(),
                self.data == old(self).data,
                s == self.data@,
                len == s.len(),
                goal == chunks_from(old(self).data@, old(self).pos as int, old(body)@, old(chunks)@),
                chunks_from(s, self.pos as int, body@, chunks@) == goal,
            decreases s.len() - self.pos,
        {
            proof {
                reveal(chunks_from);
            }
            let p = self.pos;
            let data = self.data.as_slice();
            let l = find_byte(data, p, 10);
            let q = after_index(len, l);
            let (a, b) = trim_bounds(data, p, l);
            let size = &data[a..b];
            match parse_unsigned(size, 16) {
                None => {
                    return Err(HttpParseError::Header(text_of(size)));
                },
                Some(n) => {
                    if n == 0 {
                        let l2 = find_byte(data, q, 10);
                        self.pos = after_index(len, l2);
                        if chunks.len() > 0 {
                            chunks.push((0, 0));
                        }
                        return Ok(());
                    }
                    if n > len - q {
                        return Err(eof_error());
                    }
                    let start = body.len();
                    push_all(body, &data[q..q + n]);
                    chunks.push((start, body.len()));
                    let l3 = find_byte(data, q + n, 10);
                    self.pos = after_index(len, l3);
                },
            }
        }
        Err(eof_error())
    }

    /// Reads the body as the headers frame it: chunked, by `Content-Length`,
    /// or up to the end of the input.
    fn extract_body_data(&mut self, headers: &Vec<HttpHeader>) -> (r: Result<
        (Vec<u8>, Vec<(usize, usize)>, bool),
        HttpParseError,
    >)
        requires
            old(self).wf(),
        ensures
            final(self).wf(),
            final(self).data == old(self).data,
            match body_from(old(self).data@, old(self).pos as int, headers_view(headers@)) {
                Ok((b, cs, ch, q)) => r matches Ok(x) && x.0@ == b && x.1@ == cs && x.2 == ch
                    && final(self).pos == q,
                Err(e) => r matches Err(x) && x@ == e && (!is_chunked(headers_view(headers@))
                    ==> final(self).pos == old(self).pos),
            },
    {
        if framed_as_chunked(headers) {
            let mut body: Vec<u8> = Vec::new();
            let mut chunks: Vec<(usize, usize)> = Vec::new();
            match self.read_chunked_body(&mut body, &mut chunks) {
                Err(e) => {
                    return Err(e);
                },
                Ok(()) => {},
            }
            let recorded = chunks.len() > 0;
            return Ok((body, chunks, recorded));
        }
        let len = self.data.len();
        let p = self.pos;
        match get_header(headers, H_CONTENT_LENGTH) {
            Some(h) => match parse_unsigned(bytes_of(h.value().as_str()), 10) {
                None => Err(HttpParseError::Header(header_string(h))),
                Some(n) => {
                    if n > len - p {
                        Err(eof_error())
                    } else {
                        let mut body: Vec<u8> = Vec::new();
                        push_all(&mut body, &self.data.as_slice()[p..p + n]);
                        self.pos = p + n;
                        Ok((body, Vec::new(), false))
                    }
                },
            },
            None => {
                let mut body: Vec<u8> = Vec::new();
                push_all(&mut body, &self.data.as_slice()[p..len]);
                self.pos = len;
                Ok((body, Vec::new(), false))
            },
        }
    }

    fn parse_response(&mut self, include_data: bool) -> (r: Result<HttpResponse, HttpParseError>)
        requires
            old(self).wf(),
        ensures
            final(self).wf(),
            final(self).data == old(self).data,
            match response_from(old(self).data@, old(self).pos as int, include_data) {
                Ok((v, q)) => r matches Ok(resp) && resp@ == v && final(self).pos == q,
                Err(e) => r matches Err(err) && err@ == e,
            },
    {
        let p = self.pos;
        let data = self.data.as_slice();
        let len = data.len();
        let i1 = find_byte(data, p, 32);
        let p1 = after_index(len, i1);
        let i2 = find_byte(data, p1, 32);
        let p2 = after_index(len, i2);
        let i3 = find_byte(data, p2, 10);
        let p3 = after_index(len, i3);
        let (a1, b1) = trim_bounds(data, p, i1);
        let version = match parse_version(&data[a1..b1]) {
            None => {
                return Err(HttpParseError::Version(text_of(&data[a1..b1])));
            },
            Some(v) => v,
        };
        let status_code = match parse_status_code(&data[p1..i2]) {
            Err(e) => {
                return Err(e);
            },
            Ok(c) => c,
        };
        let status_msg = trim_string(text_of(&data[p2..i3]).as_str());
        self.pos = p3;
        let mut headers: Vec<HttpHeader> = Vec::new();
        assert(headers_view(headers@) == Seq::<HeaderView>::empty());
        match self.parse_headers(&mut headers) {
            Err(e) => {
                return Err(e);
            },
            Ok(()) => {},
        }
        if !include_data {
            let response = HttpResponse::from_parts(
                version,
                status_code,
                status_msg,
                headers,
                Vec::new(),
                Vec::new(),
                false,
            );
            assert(response@.body =~= Seq::<u8>::empty());
            assert(response@.chunks =~= Seq::<(usize, usize)>::empty());
            return Ok(response);
        }
        let (body, chunks, chunked) = match self.extract_body_data(&headers) {
            Err(e) => {
                return Err(e);
            },
            Ok(x) => x,
        };
        let response = HttpResponse::from_parts(
            version,
            status_code,
            status_msg,
            headers,
            body,
            chunks,
            chunked,
        );
        Ok(response)
    }

    /// A request, with its body when `include_data` holds.
    pub fn parse_request(&mut self, include_data: bool) -> (r: Result<HttpRequest, HttpParseError>)
        requires
            old(self).wf(),
        ensures
            final(self).wf(),
            final(self).input() == old(self).input(),
            match request_from(old(self).input(), old(self).position(), include_data) {
                Ok((v, q)) => r matches Ok(req) && req@ == v && final(self).position() == q,
                Err(e) => r matches Err(err) && err@ == e,
            },
    {
        let p = self.pos;
        let data = self.data.as_slice();
        let len = data.len();
        let i1 = find_byte(data, p, 32);
        let p1 = after_index(len, i1);
        let i2 = find_byte(data, p1, 32);
        let p2 = after_index(len, i2);
        let i3 = find_byte(data, p2, 10);
        let p3 = after_index(len, i3);
        let (a1, b1) = trim_bounds(data, p, i1);
        let method = match parse_method(&data[a1..b1]) {
            None => {
                return Err(HttpParseError::Method(text_of(&data[p..i1])));
            },
            Some(m) => m,
        };
        let (a3, b3) = trim_bounds(data, p2, i3);
        let version = match parse_version(&data[a3..b3]) {
            None => {
                return Err(HttpParseError::Version(text_of(&data[a3..b3])));
            },
            Some(v) => v,
        };
        let url = text_of(&data[p1..i2]);
        self.pos = p3;
        let mut headers: Vec<HttpHeader> = Vec::new();
        assert(headers_view(headers@) == Seq::<HeaderView>::empty());
        match self.parse_headers(&mut headers) {
            Err(e) => {
                return Err(e);
            },
            Ok(()) => {},
        }
        if !include_data {
            let request = HttpRequest::from_parts(
                method,
                url,
                version,
                headers,
                Vec::new(),
                Vec::new(),
                false,
            );
            assert(request@.body =~= Seq::<u8>::empty());
            assert(request@.chunks =~= Seq::<(usize, usize)>::empty());
            return Ok(request);
        }
        let (body, chunks, chunked) = match self.extract_body_data(&headers) {
            Err(e) => {
                return Err(e);
            },
            Ok(x) => x,
        };
        let request = HttpRequest::from_parts(method, url, version, headers, body, chunks, chunked);
        Ok(request)
    }
}

} // verus!
