//! What reading and writing guarantee together: what the serializer writes,
//! the parser reads back as the same message, from all of the bytes; a head
//! is read from its own bytes alone; and read headers have distinct names.
use crate::definitions::H_CONTENT_LENGTH;
use crate::header::{
    lemma_header_index_from_is, lemma_put_keeps_unique, lookup_header, put_header_spec,
    unique_names, HeaderView,
};
use crate::message::{
    body_bytes, chunk_bytes, chunk_in_body, chunks_bytes, crlf, header_line, headers_bytes,
    method_bytes, method_of, request_bytes, response_bytes, version_bytes, version_of, HttpMethod,
    HttpVersion, RequestView, ResponseView,
};
use crate::parser::{
    at_line_end, body_from, chunks_from, header_of_line, header_step, headers_from, is_blank,
    is_chunked, line_end_of, request_from, response_from, skip_blanks,
};
use crate::text::{
    after, digit_value, find_from, is_space, lemma_find_from_is, lemma_radix_text_unsigned,
    lemma_radix_text_value, lemma_text_of_encoded, lemma_trimmed_cr, lemma_trimmed_plain,
    radix_text, text_spec, trim_text, trimmed, unsigned_value,
};
use vstd::prelude::*;
use vstd::utf8::*;

verus! {

/// `x` holds no byte `b`.
pub open spec fn free_of(x: Seq<u8>, b: u8) -> bool {
    forall|i: int| 0 <= i < x.len() ==> x[i] != b
}

/// A header that reads back as itself: its name holds no `:` or `\n` and
/// does not start with `\r`; its value holds no `\n` and does not start with
/// whitespace.
pub open spec fn header_on_wire(h: HeaderView) -> bool {
    let n = encode_utf8(h.0);
    let v = encode_utf8(h.1);
    &&& free_of(n, 58)
    &&& free_of(n, 10)
    &&& (n.len() == 0 || n[0] != 13)
    &&& free_of(v, 10)
    &&& (v.len() == 0 || !is_blank(v[0]))
}

/// Headers that read back as themselves, with distinct names.
pub open spec fn headers_on_wire(hs: Seq<HeaderView>) -> bool {
    unique_names(hs) && forall|i: int| 0 <= i < hs.len() ==> header_on_wire(#[trigger] hs[i])
}

/// `(start, end)` entries of positive length that tile the body in order,
/// closed by `(0, 0)`: the index that reading a chunked body builds.
pub open spec fn chunk_layout(cs: Seq<(usize, usize)>, body_len: nat) -> bool {
    &&& cs.len() >= 2
    &&& cs.last() == (0usize, 0usize)
    &&& cs[0].0 == 0
    &&& forall|k: int| 0 <= k < cs.len() - 1 ==> (#[trigger] cs[k]).0 < cs[k].1
    &&& forall|k: int| 0 < k < cs.len() - 1 ==> (#[trigger] cs[k]).0 == cs[k - 1].1
    &&& forall|k: int| 0 <= k < cs.len() - 1 ==> (#[trigger] cs[k]).1 <= body_len
    &&& cs[cs.len() - 2].1 == body_len
}

/// The body's framing agrees with the headers: a chunked body has
/// `Transfer-Encoding` without `identity` and a chunk layout; any other has
/// no such header, no chunk index, and a `Content-Length`, if there is one,
/// that gives its length.
pub open spec fn body_on_wire(
    hs: Seq<HeaderView>,
    body: Seq<u8>,
    chunks: Seq<(usize, usize)>,
    chunked: bool,
) -> bool {
    if chunked {
        is_chunked(hs) && chunk_layout(chunks, body.len())
    } else {
        &&& !is_chunked(hs)
        &&& chunks.len() == 0
        &&& match lookup_header(hs, H_CONTENT_LENGTH@) {
            Some(h) => unsigned_value(encode_utf8(h.1), 10) matches Some(n) && n == body.len(),
            None => true,
        }
    }
}

/// A response that reads back as itself: a reason phrase on one line
/// without whitespace at its ends, headers on the wire, and a framed body.
pub open spec fn response_on_wire(v: ResponseView) -> bool {
    let m = encode_utf8(v.status_msg);
    &&& free_of(m, 10)
    &&& trim_text(v.status_msg) == v.status_msg
    &&& headers_on_wire(v.headers)
    &&& body_on_wire(v.headers, v.body, v.chunks, v.chunked)
}

/// A request that reads back as itself: a target without spaces, headers
/// on the wire, and a framed body.
pub open spec fn request_on_wire(v: RequestView) -> bool {
    let t = encode_utf8(v.target);
    &&& free_of(t, 32)
    &&& headers_on_wire(v.headers)
    &&& body_on_wire(v.headers, v.body, v.chunks, v.chunked)
}

proof fn lemma_find_at(s: Seq<u8>, p: int, k: int, d: u8)
    requires
        0 <= p,
        0 <= k,
        p + k < s.len(),
        free_of(s.subrange(p, p + k), d),
        s[p + k] == d,
    ensures
        find_from(s, p, d) == p + k,
{
    assert forall|j: int| p <= j < p + k implies s[j] != d by {
        assert(s.subrange(p, p + k)[j - p] == s[j]);
    }
    lemma_find_from_is(s, p, d, p + k);
}

/// A header line at `p` reads back as its header, and ends where the line does.
proof fn lemma_header_line_reads(s: Seq<u8>, p: int, h: HeaderView)
    requires
        0 <= p,
        p + header_line(h).len() <= s.len(),
        s.subrange(p, p + header_line(h).len()) == header_line(h),
        header_on_wire(h),
    ensures
        !at_line_end(s, p),
        header_step(s, p) == Ok::<(HeaderView, int), crate::parser::ParseErrorView>(
            (h, p + header_line(h).len()),
        ),
{
    let n = encode_utf8(h.0);
    let v = encode_utf8(h.1);
    let line_all = header_line(h);
    let len = line_all.len() as int;
    assert(line_all == n + seq![58u8, 32] + v + seq![13u8, 10]);
    assert(len == n.len() + v.len() + 4);
    assert(s[p] == line_all[0]);
    assert forall|j: int| 0 <= j < len - 1 implies line_all[j] != 10 by {
        if j < n.len() {
            assert(line_all[j] == n[j]);
        } else if j >= n.len() + 2 && j < n.len() + 2 + v.len() {
            assert(line_all[j] == v[j - n.len() - 2]);
        }
    }
    assert(s.subrange(p, p + len - 1) == line_all.subrange(0, len - 1));
    assert(s[p + len - 1] == s.subrange(p, p + len)[len - 1]);
    assert(line_all[len - 1] == 10);
    lemma_find_at(s, p, len - 1, 10);
    let l = p + len - 1;
    let line = s.subrange(p, l);
    assert(line == n + seq![58u8, 32] + v + seq![13u8]);
    assert(line.subrange(0, n.len() as int) == n);
    lemma_find_at(line, 0, n.len() as int, 58);
    let c = n.len() as int;
    assert(line[c + 1] == 32);
    assert(!is_blank(line[c + 2])) by {
        if v.len() > 0 {
            assert(line[c + 2] == v[0]);
        }
    }
    assert(skip_blanks(line, c + 2) == c + 2);
    assert(skip_blanks(line, c + 1) == c + 2);
    assert(line_end_of(line, c + 2) == line.len() - 1);
    assert(line.subrange(0, c) == n);
    assert(line.subrange(c + 2, line.len() - 1) == v);
    lemma_text_of_encoded(h.0);
    lemma_text_of_encoded(h.1);
    assert(header_of_line(line) == Ok::<HeaderView, crate::parser::ParseErrorView>(h));
}

proof fn lemma_headers_bytes_prefix(hs: Seq<HeaderView>, k: int)
    requires
        0 <= k <= hs.len(),
    ensures
        headers_bytes(hs.subrange(0, k)).len() <= headers_bytes(hs).len(),
        headers_bytes(hs).subrange(0, headers_bytes(hs.subrange(0, k)).len() as int)
            == headers_bytes(hs.subrange(0, k)),
    decreases hs.len(),
{
    if k == hs.len() {
        assert(hs.subrange(0, k) == hs);
        assert(headers_bytes(hs).subrange(0, headers_bytes(hs).len() as int) == headers_bytes(hs));
    } else {
        lemma_headers_bytes_prefix(hs.drop_last(), k);
        assert(hs.drop_last().subrange(0, k) == hs.subrange(0, k));
        let a = headers_bytes(hs.drop_last());
        let b = headers_bytes(hs.subrange(0, k));
        assert(headers_bytes(hs) == a + header_line(hs.last()));
        assert((a + header_line(hs.last())).subrange(0, b.len() as int) == a.subrange(
            0,
            b.len() as int,
        ));
    }
}

/// Header lines followed by a blank line read back as the headers, in order.
proof fn lemma_headers_read(s: Seq<u8>, p0: int, hs: Seq<HeaderView>, k: int)
    requires
        0 <= p0,
        0 <= k <= hs.len(),
        headers_on_wire(hs),
        p0 + headers_bytes(hs).len() + 2 <= s.len(),
        s.subrange(p0, p0 + headers_bytes(hs).len() + 2) == headers_bytes(hs) + crlf(),
    ensures
        headers_from(s, p0 + headers_bytes(hs.subrange(0, k)).len(), hs.subrange(0, k)) == Ok::<
            (Seq<HeaderView>, int),
            crate::parser::ParseErrorView,
        >((hs, p0 + headers_bytes(hs).len() + 2)),
    decreases hs.len() - k,
{
    let hb = headers_bytes(hs);
    let x = hb + crlf();
    let pre = hs.subrange(0, k);
    let pk = p0 + headers_bytes(pre).len();
    lemma_headers_bytes_prefix(hs, k);
    if k == hs.len() {
        assert(pre == hs);
        assert(s[pk] == s.subrange(p0, p0 + hb.len() + 2)[hb.len() as int]);
        assert(s[pk + 1] == s.subrange(p0, p0 + hb.len() + 2)[hb.len() + 1int]);
        assert(at_line_end(s, pk));
    } else {
        let next = hs.subrange(0, k + 1);
        let h = hs[k];
        assert(next.drop_last() == pre);
        assert(next.last() == h);
        let line = header_line(h);
        assert(headers_bytes(next) == headers_bytes(pre) + line);
        lemma_headers_bytes_prefix(hs, k + 1);
        let pl = headers_bytes(pre).len() as int;
        assert forall|j: int| 0 <= j < line.len() implies #[trigger] s.subrange(
            pk,
            pk + line.len(),
        )[j] == line[j] by {
            assert(s.subrange(pk, pk + line.len())[j] == s[pk + j]);
            assert(s[pk + j] == s.subrange(p0, p0 + hb.len() + 2)[pl + j]);
            assert(x[pl + j] == hb[pl + j]);
            assert(hb[pl + j] == hb.subrange(0, headers_bytes(next).len() as int)[pl + j]);
            assert(headers_bytes(next)[pl + j] == line[j]);
        }
        assert(s.subrange(pk, pk + line.len()) =~= line);
        assert(header_on_wire(hs[k]));
        lemma_header_line_reads(s, pk, h);
        assert forall|j: int| 0 <= j < k implies !crate::text::same_name(
            #[trigger] pre[j].0,
            h.0,
        ) by {
            assert(pre[j] == hs[j]);
        }
        lemma_header_index_from_is(pre, h.0, 0, k);
        assert(put_header_spec(pre, h.0, h.1) == next);
        lemma_headers_read(s, p0, hs, k + 1);
    }
}

proof fn lemma_chunks_bytes_prefix(cs: Seq<(usize, usize)>, body: Seq<u8>, k: int)
    requires
        0 <= k <= cs.len(),
    ensures
        chunks_bytes(cs.subrange(0, k), body).len() <= chunks_bytes(cs, body).len(),
        chunks_bytes(cs, body).subrange(0, chunks_bytes(cs.subrange(0, k), body).len() as int)
            == chunks_bytes(cs.subrange(0, k), body),
    decreases cs.len(),
{
    if k == cs.len() {
        assert(cs.subrange(0, k) == cs);
        assert(chunks_bytes(cs, body).subrange(0, chunks_bytes(cs, body).len() as int)
            == chunks_bytes(cs, body));
    } else {
        lemma_chunks_bytes_prefix(cs.drop_last(), body, k);
        assert(cs.drop_last().subrange(0, k) == cs.subrange(0, k));
        let a = chunks_bytes(cs.drop_last(), body);
        let b = chunks_bytes(cs.subrange(0, k), body);
        assert(chunks_bytes(cs, body) == a + chunk_bytes(cs.last(), body));
        assert((a + chunk_bytes(cs.last(), body)).subrange(0, b.len() as int) == a.subrange(
            0,
            b.len() as int,
        ));
    }
}

/// The closing `0` chunk and the blank line after it end the chunks.
proof fn lemma_zero_chunk_reads(
    s: Seq<u8>,
    pk: int,
    body: Seq<u8>,
    chunks: Seq<(usize, usize)>,
)
    requires
        0 <= pk,
        pk + 5 <= s.len(),
        s.subrange(pk, pk + 5) == seq![48u8, 13, 10, 13, 10],
    ensures
        chunks_from(s, pk, body, chunks) == Ok::<
            (Seq<u8>, Seq<(usize, usize)>, int),
            crate::parser::ParseErrorView,
        >((body, chunks, pk + 5)),
{
    reveal(chunks_from);
    let cb = seq![48u8, 13, 10, 13, 10];
    assert(s[pk] == cb[0]);
    assert(s[pk + 1] == cb[1]);
    assert(s[pk + 2] == cb[2]);
    assert(s[pk + 3] == cb[3]);
    assert(s[pk + 4] == cb[4]);
    assert(s.subrange(pk, pk + 2) =~= seq![48u8, 13]);
    assert(s.subrange(pk + 3, pk + 4) =~= seq![13u8]);
    lemma_find_at(s, pk, 2, 10);
    lemma_find_at(s, pk + 3, 1, 10);
    lemma_radix_text_unsigned(0, 16);
    assert(radix_text(0, 16) == seq![48u8]);
    lemma_trimmed_cr(seq![48u8]);
    assert(seq![48u8].push(13) =~= seq![48u8, 13]);
}

/// A chunk with data: its size line, its bytes and the line end after them.
proof fn lemma_data_chunk_reads(
    s: Seq<u8>,
    pk: int,
    body: Seq<u8>,
    data: Seq<u8>,
    chunks: Seq<(usize, usize)>,
)
    requires
        0 < data.len() <= usize::MAX,
        body.len() + data.len() <= usize::MAX,
        0 <= pk,
        pk + (radix_text(data.len(), 16) + crlf() + data + crlf()).len() <= s.len(),
        s.subrange(pk, pk + (radix_text(data.len(), 16) + crlf() + data + crlf()).len())
            == radix_text(data.len(), 16) + crlf() + data + crlf(),
    ensures
        chunks_from(s, pk, body, chunks) == chunks_from(
            s,
            pk + (radix_text(data.len(), 16) + crlf() + data + crlf()).len(),
            body + data,
            chunks.push((body.len() as usize, (body.len() + data.len()) as usize)),
        ),
{
    reveal(chunks_from);
    let n = data.len() as int;
    let hex = radix_text(data.len(), 16);
    let hl = hex.len() as int;
    let cb = hex + crlf() + data + crlf();
    lemma_radix_text_value(data.len(), 16);
    lemma_radix_text_unsigned(data.len() as usize, 16);
    assert forall|j: int| 0 <= j < hl + 1 implies #[trigger] s.subrange(pk, pk + hl + 1)[j]
        != 10 by {
        assert(s.subrange(pk, pk + hl + 1)[j] == s.subrange(pk, pk + cb.len())[j]);
        if j < hl {
            assert(cb[j] == hex[j]);
        }
    }
    assert(s[pk + hl + 1] == s.subrange(pk, pk + cb.len())[hl + 1]);
    lemma_find_at(s, pk, hl + 1, 10);
    let l = pk + hl + 1;
    let q = l + 1;
    assert(s.subrange(pk, l) =~= hex.push(13)) by {
        assert forall|j: int| 0 <= j < hl + 1 implies #[trigger] s.subrange(pk, l)[j] == hex.push(
            13,
        )[j] by {
            assert(s.subrange(pk, l)[j] == s.subrange(pk, pk + cb.len())[j]);
        }
    }
    lemma_trimmed_cr(hex);
    assert(s.subrange(q, q + n) =~= data) by {
        assert forall|j: int| 0 <= j < n implies #[trigger] s.subrange(q, q + n)[j] == data[j] by {
            assert(s.subrange(q, q + n)[j] == s.subrange(pk, pk + cb.len())[hl + 2 + j]);
        }
    }
    assert(s[q + n] == s.subrange(pk, pk + cb.len())[hl + 2 + n]);
    assert(s[q + n + 1] == s.subrange(pk, pk + cb.len())[hl + 3 + n]);
    assert(s.subrange(q + n, q + n + 1) =~= seq![13u8]);
    lemma_find_at(s, q + n, 1, 10);
}

/// The `k`-th chunk stands in `s` right after the chunks before it.
proof fn lemma_chunk_at(s: Seq<u8>, p0: int, body: Seq<u8>, cs: Seq<(usize, usize)>, k: int)
    requires
        0 <= p0,
        0 <= k < cs.len(),
        p0 + chunks_bytes(cs, body).len() <= s.len(),
        s.subrange(p0, p0 + chunks_bytes(cs, body).len()) == chunks_bytes(cs, body),
    ensures
        ({
            let pk = p0 + chunks_bytes(cs.subrange(0, k), body).len();
            let cb = chunk_bytes(cs[k], body);
            &&& pk + cb.len() == p0 + chunks_bytes(cs.subrange(0, k + 1), body).len()
            &&& pk + cb.len() <= s.len()
            &&& s.subrange(pk, pk + cb.len()) == cb
        }),
{
    let all = chunks_bytes(cs, body);
    let pre = cs.subrange(0, k);
    let pl = chunks_bytes(pre, body).len() as int;
    let pk = p0 + pl;
    let next = cs.subrange(0, k + 1);
    let c = cs[k];
    assert(next.drop_last() == pre);
    assert(next.last() == c);
    let cb = chunk_bytes(c, body);
    assert(chunks_bytes(next, body) == chunks_bytes(pre, body) + cb);
    lemma_chunks_bytes_prefix(cs, body, k + 1);
    assert forall|j: int| 0 <= j < cb.len() implies #[trigger] s.subrange(pk, pk + cb.len())[j]
        == cb[j] by {
        assert(s.subrange(pk, pk + cb.len())[j] == s[pk + j]);
        assert(s[pk + j] == s.subrange(p0, p0 + all.len())[pl + j]);
        assert(all[pl + j] == all.subrange(0, chunks_bytes(next, body).len() as int)[pl + j]);
        assert(chunks_bytes(next, body)[pl + j] == cb[j]);
    }
    assert(s.subrange(pk, pk + cb.len()) =~= cb);
}

/// Where the `k`-th chunk of a layout starts in the body.
pub open spec fn chunk_start(cs: Seq<(usize, usize)>, k: int) -> int {
    if k == 0 {
        0
    } else {
        cs[k - 1].1 as int
    }
}

/// The chunks of a layout, written out, read back as the body and the index
/// without its closing entry.
#[verifier::rlimit(40)]
proof fn lemma_chunks_read(s: Seq<u8>, p0: int, body: Seq<u8>, cs: Seq<(usize, usize)>, k: int)
    requires
        0 <= p0,
        chunk_layout(cs, body.len()),
        0 <= k < cs.len(),
        p0 + chunks_bytes(cs, body).len() <= s.len(),
        s.subrange(p0, p0 + chunks_bytes(cs, body).len()) == chunks_bytes(cs, body),
    ensures
        chunks_from(
            s,
            p0 + chunks_bytes(cs.subrange(0, k), body).len(),
            body.subrange(0, chunk_start(cs, k)),
            cs.subrange(0, k),
        ) == Ok::<(Seq<u8>, Seq<(usize, usize)>, int), crate::parser::ParseErrorView>(
            (body, cs.subrange(0, cs.len() - 1), p0 + chunks_bytes(cs, body).len()),
        ),
    decreases cs.len() - k,
{
    let pre = cs.subrange(0, k);
    let pk = p0 + chunks_bytes(pre, body).len();
    let next = cs.subrange(0, k + 1);
    let c = cs[k];
    let cb = chunk_bytes(c, body);
    lemma_chunk_at(s, p0, body, cs, k);
    let start = chunk_start(cs, k);
    if k == cs.len() - 1 {
        assert(c == (0usize, 0usize));
        lemma_radix_text_unsigned(0, 16);
        assert(radix_text(0, 16) == seq![48u8]);
        assert(cb =~= seq![48u8, 13, 10, 13, 10]);
        lemma_zero_chunk_reads(s, pk, body.subrange(0, start), pre);
        assert(cs.subrange(0, cs.len() - 1) == pre);
        assert(next == cs);
        assert(start == body.len());
        assert(body.subrange(0, start) == body);
    } else {
        assert(c.0 == start);
        assert(chunk_in_body(c, body.len()));
        let data = body.subrange(c.0 as int, c.1 as int);
        assert(cb == radix_text(data.len(), 16) + crlf() + data + crlf());
        lemma_data_chunk_reads(s, pk, body.subrange(0, start), data, pre);
        assert(body.subrange(0, start) + data =~= body.subrange(0, c.1 as int));
        assert(chunk_start(cs, k + 1) == c.1);
        assert(pre.push(((body.subrange(0, start).len()) as usize, (body.subrange(0, start).len()
            + data.len()) as usize)) == next);
        lemma_chunks_read(s, p0, body, cs, k + 1);
    }
}

/// A version token: no spaces or line ends, and it names its version.
proof fn lemma_version_token(v: HttpVersion)
    ensures
        ({
            let b = version_bytes(v);
            &&& b.len() > 0
            &&& free_of(b, 32)
            &&& free_of(b, 10)
            &&& trimmed(b) == b
            &&& trimmed(b.push(13)) == b
            &&& version_of(b) == Some(v)
        }),
{
    let b = version_bytes(v);
    assert(version_bytes(HttpVersion::Http11)[7] != version_bytes(HttpVersion::Http10)[7]);
    assert(version_bytes(HttpVersion::Http3)[5] != version_bytes(HttpVersion::Http2)[5]);
    assert(b[0] == 72);
    assert(!is_space(b.last()));
    lemma_trimmed_plain(b);
    lemma_trimmed_cr(b);
}

/// A method token: no spaces or line ends, and it names its method.
proof fn lemma_method_token(m: HttpMethod)
    ensures
        ({
            let b = method_bytes(m);
            &&& b.len() > 0
            &&& free_of(b, 32)
            &&& trimmed(b) == b
            &&& method_of(b) == Some(m)
        }),
{
    let b = method_bytes(m);
    assert(method_bytes(HttpMethod::Put)[0] != method_bytes(HttpMethod::Get)[0]);
    assert(method_bytes(HttpMethod::Head)[0] != method_bytes(HttpMethod::Post)[0]);
    assert(method_bytes(HttpMethod::Patch)[0] != method_bytes(HttpMethod::Trace)[0]);
    assert(method_bytes(HttpMethod::Connect)[0] != method_bytes(HttpMethod::Options)[0]);
    assert(!is_space(b[0]));
    assert(!is_space(b.last()));
    lemma_trimmed_plain(b);
}

/// A body written out reads back, framed as its headers say, to the end of the input.
proof fn lemma_body_reads(
    s: Seq<u8>,
    p: int,
    hs: Seq<HeaderView>,
    body: Seq<u8>,
    chunks: Seq<(usize, usize)>,
    chunked: bool,
)
    requires
        0 <= p <= s.len(),
        body_on_wire(hs, body, chunks, chunked),
        s.subrange(p, s.len() as int) == body_bytes(body, chunks, chunked),
    ensures
        body_from(s, p, hs) == Ok::<
            (Seq<u8>, Seq<(usize, usize)>, bool, int),
            crate::parser::ParseErrorView,
        >((body, chunks, chunked, s.len() as int)),
{
    if chunked {
        let cs = chunks;
        assert(cs[cs.len() - 2].0 < cs[cs.len() - 2].1);
        assert(body.len() > 0);
        assert(p + chunks_bytes(cs, body).len() == s.len());
        lemma_chunks_read(s, p, body, cs, 0);
        assert(cs.subrange(0, 0) == Seq::<(usize, usize)>::empty());
        assert(chunks_bytes(Seq::<(usize, usize)>::empty(), body) == Seq::<u8>::empty());
        assert(body.subrange(0, chunk_start(cs, 0)) == Seq::<u8>::empty());
        assert(cs.subrange(0, cs.len() - 1).push((0usize, 0usize)) == cs);
        assert(is_chunked(hs));
        assert(chunks_from(s, p, Seq::empty(), Seq::empty()) == Ok::<
            (Seq<u8>, Seq<(usize, usize)>, int),
            crate::parser::ParseErrorView,
        >((body, cs.subrange(0, cs.len() - 1), s.len() as int)));
    } else {
        assert(chunks == Seq::<(usize, usize)>::empty());
        assert(s.len() - p == body.len());
        assert(s.subrange(p, s.len() as int) == body);
        assert(s.subrange(p, p + body.len()) == body);
    }
}

/// A status code written in decimal reads back as itself.
proof fn lemma_status_text(code: usize)
    ensures
        unsigned_value(encode_utf8(trim_text(text_spec(radix_text(code as nat, 10)))), 10) == Some(
            code,
        ),
{
    let d = radix_text(code as nat, 10);
    lemma_radix_text_value(code as nat, 10);
    lemma_radix_text_unsigned(code, 10);
    crate::text::lemma_radix_text_ascii(code as nat, 10);
    crate::text::lemma_ascii_utf8(d);
    let t = crate::text::ascii_text(d);
    assert(t[0] as u32 == d[0] as u32);
    assert(t.last() as u32 == d.last() as u32);
    assert(!is_space(d[0]));
    assert(!is_space(d.last()));
    assert(digit_value(d[0], 10) is Some);
    assert(digit_value(d.last(), 10) is Some);
    crate::text::lemma_trim_text_plain(t);
}

/// A reason phrase followed by `\r` reads back, trimmed, as itself.
proof fn lemma_reason_text(msg: Seq<char>)
    requires
        trim_text(msg) == msg,
    ensures
        trim_text(text_spec(encode_utf8(msg).push(13))) == msg,
{
    let cr = seq!['\r'];
    assert(is_ascii_chars(cr));
    is_ascii_chars_encode_utf8(cr);
    assert(encode_utf8(cr) =~= seq![13u8]);
    crate::text::lemma_encode_concat(msg, cr);
    assert(msg + cr =~= msg.push('\r'));
    assert(encode_utf8(msg).push(13) =~= encode_utf8(msg) + encode_utf8(cr));
    lemma_text_of_encoded(msg.push('\r'));
    if msg.len() > 0 {
        crate::text::lemma_trim_text_ends(msg);
    }
    crate::text::lemma_trim_text_cr(msg);
}

/// The serializer's bytes for a response that reads back as itself parse to
/// that response, using all of them; so writing out what was read gives the
/// bytes back.
#[verifier::rlimit(60)]
pub proof fn lemma_response_round_trip(bytes: Seq<u8>, v: ResponseView)
    requires
        response_on_wire(v),
        bytes == response_bytes(v),
    ensures
        response_from(bytes, 0, true) == Ok::<(ResponseView, int), crate::parser::ParseErrorView>(
            (v, bytes.len() as int),
        ),
        response_from(bytes, 0, true) matches Ok((w, q)) && q == bytes.len() && response_bytes(w)
            == bytes,
{
    let s = bytes;
    let vb = version_bytes(v.version);
    let digits = radix_text(v.status_code as nat, 10);
    let m = encode_utf8(v.status_msg);
    let hb = headers_bytes(v.headers);
    let bb = body_bytes(v.body, v.chunks, v.chunked);
    lemma_version_token(v.version);
    lemma_radix_text_value(v.status_code as nat, 10);
    lemma_radix_text_unsigned(v.status_code, 10);
    let p1: int = vb.len() + 1int;
    let p2: int = p1 + digits.len() + 1;
    let i3: int = p2 + m.len() + 1;
    let p3: int = i3 + 1;
    let p4: int = p3 + hb.len() + 2;
    assert(s =~= vb + seq![32u8] + digits + seq![32u8] + m + crlf() + hb + crlf() + bb);
    assert(s.subrange(0, vb.len() as int) =~= vb);
    assert(s[vb.len() as int] == 32);
    lemma_find_at(s, 0, vb.len() as int, 32);
    assert(s.subrange(p1, p1 + digits.len()) =~= digits);
    assert forall|j: int| 0 <= j < digits.len() implies digits[j] != 32 by {
        assert(!is_space(digits[j]));
    }
    assert(s[p1 + digits.len()] == 32);
    lemma_find_at(s, p1, digits.len() as int, 32);
    assert(s.subrange(p2, p2 + m.len()) =~= m);
    assert(s[p2 + m.len()] == 13);
    assert(s.subrange(p2, p2 + m.len() + 1) =~= m.push(13));
    assert(free_of(m.push(13), 10));
    assert(s[i3] == 10);
    lemma_find_at(s, p2, m.len() + 1int, 10);
    lemma_status_text(v.status_code);
    lemma_reason_text(v.status_msg);
    assert(s.subrange(p3, p3 + hb.len() + 2) =~= hb + crlf());
    lemma_headers_read(s, p3, v.headers, 0);
    assert(v.headers.subrange(0, 0) == Seq::<HeaderView>::empty());
    assert(headers_bytes(Seq::<HeaderView>::empty()) == Seq::<u8>::empty());
    assert(s.subrange(p4, s.len() as int) =~= bb);
    lemma_body_reads(s, p4, v.headers, v.body, v.chunks, v.chunked);
}

/// The serializer's bytes for a request that reads back as itself parse to
/// that request, using all of them; so writing out what was read gives the
/// bytes back.
#[verifier::rlimit(60)]
pub proof fn lemma_request_round_trip(bytes: Seq<u8>, v: RequestView)
    requires
        request_on_wire(v),
        bytes == request_bytes(v),
    ensures
        request_from(bytes, 0, true) == Ok::<(RequestView, int), crate::parser::ParseErrorView>(
            (v, bytes.len() as int),
        ),
        request_from(bytes, 0, true) matches Ok((w, q)) && q == bytes.len() && request_bytes(w)
            == bytes,
{
    let s = bytes;
    let mb = method_bytes(v.method);
    let tb = encode_utf8(v.target);
    let vb = version_bytes(v.version);
    let hb = headers_bytes(v.headers);
    let bb = body_bytes(v.body, v.chunks, v.chunked);
    lemma_method_token(v.method);
    lemma_version_token(v.version);
    let p1: int = mb.len() + 1int;
    let p2: int = p1 + tb.len() + 1;
    let i3: int = p2 + vb.len() + 1;
    let p3: int = i3 + 1;
    let p4: int = p3 + hb.len() + 2;
    assert(s =~= mb + seq![32u8] + tb + seq![32u8] + vb + crlf() + hb + crlf() + bb);
    assert(s.subrange(0, mb.len() as int) =~= mb);
    assert(s[mb.len() as int] == 32);
    lemma_find_at(s, 0, mb.len() as int, 32);
    assert(s.subrange(p1, p1 + tb.len()) =~= tb);
    assert(s[p1 + tb.len()] == 32);
    lemma_find_at(s, p1, tb.len() as int, 32);
    lemma_text_of_encoded(v.target);
    assert(s.subrange(p2, p2 + vb.len() + 1) =~= vb.push(13));
    assert(free_of(vb.push(13), 10));
    assert(s[i3] == 10);
    lemma_find_at(s, p2, vb.len() + 1int, 10);
    assert(s.subrange(p3, p3 + hb.len() + 2) =~= hb + crlf());
    lemma_headers_read(s, p3, v.headers, 0);
    assert(v.headers.subrange(0, 0) == Seq::<HeaderView>::empty());
    assert(headers_bytes(Seq::<HeaderView>::empty()) == Seq::<u8>::empty());
    assert(s.subrange(p4, s.len() as int) =~= bb);
    lemma_body_reads(s, p4, v.headers, v.body, v.chunks, v.chunked);
}

/// A delimiter found inside a prefix is found there in the prefix alone.
proof fn lemma_find_in_prefix(s: Seq<u8>, rest: Seq<u8>, p: int, d: u8)
    requires
        0 <= p <= (s + rest).len(),
        find_from(s + rest, p, d) < s.len(),
    ensures
        find_from(s, p, d) == find_from(s + rest, p, d),
{
    let t = s + rest;
    crate::text::lemma_find_from(t, p, d);
    let r = find_from(t, p, d);
    assert forall|j: int| p <= j < r implies s[j] != d by {
        assert(t[j] == s[j]);
    }
    assert(t[r] == s[r]);
    lemma_find_from_is(s, p, d, r);
}

/// Reading headers never moves back.
proof fn lemma_headers_from_advances(t: Seq<u8>, p: int, hs: Seq<HeaderView>)
    requires
        0 <= p <= t.len(),
    ensures
        headers_from(t, p, hs) matches Ok((_, q)) ==> p <= q <= t.len(),
    decreases t.len() - p,
{
    if !at_line_end(t, p) {
        crate::text::lemma_find_from(t, p, 10);
        if let Ok((h, q1)) = header_step(t, p) {
            if q1 > p {
                lemma_headers_from_advances(t, q1, put_header_spec(hs, h.0, h.1));
            }
        }
    }
}

/// Header lines that end within a prefix read the same from the prefix alone.
proof fn lemma_headers_in_prefix(s: Seq<u8>, rest: Seq<u8>, p: int, hs: Seq<HeaderView>)
    requires
        rest.len() > 0,
        0 <= p <= (s + rest).len(),
        headers_from(s + rest, p, hs) matches Ok((_, q)) && q <= s.len(),
    ensures
        headers_from(s, p, hs) == headers_from(s + rest, p, hs),
    decreases (s + rest).len() - p,
{
    let t = s + rest;
    lemma_headers_from_advances(t, p, hs);
    if at_line_end(t, p) {
        assert(p + 2 <= s.len());
        assert(t[p] == s[p]);
        assert(t[p + 1] == s[p + 1]);
    } else {
        crate::text::lemma_find_from(t, p, 10);
        let l = find_from(t, p, 10);
        if let Ok((h, q1)) = header_step(t, p) {
            let hs2 = put_header_spec(hs, h.0, h.1);
            if q1 > p {
                lemma_headers_from_advances(t, q1, hs2);
                lemma_headers_in_prefix(s, rest, q1, hs2);
            }
            assert(l < s.len());
            lemma_find_in_prefix(s, rest, p, 10);
            assert(s.subrange(p, l) =~= t.subrange(p, l));
            assert(p < s.len());
            if p + 1 < s.len() {
                assert(t[p] == s[p]);
                assert(t[p + 1] == s[p + 1]);
            }
            assert(!at_line_end(s, p));
        }
    }
}

/// A response head is read from its own bytes: when the head ends within
/// `s`, bytes after it (a body not yet arrived) change nothing, so reading
/// the head alone never waits for them.
pub proof fn lemma_response_head_needs_no_body(s: Seq<u8>, rest: Seq<u8>)
    requires
        response_from(s + rest, 0, false) matches Ok((_, q)) && q <= s.len(),
    ensures
        response_from(s, 0, false) == response_from(s + rest, 0, false),
        response_from(s, 0, false) matches Ok((v, _)) && v.body.len() == 0,
{
    let t = s + rest;
    if rest.len() == 0 {
        assert(t =~= s);
    } else {
        let i1 = find_from(t, 0, 32);
        crate::text::lemma_find_from(t, 0, 32);
        let p1 = after(t, i1);
        let i2 = find_from(t, p1, 32);
        crate::text::lemma_find_from(t, p1, 32);
        let p2 = after(t, i2);
        let i3 = find_from(t, p2, 10);
        crate::text::lemma_find_from(t, p2, 10);
        let p3 = after(t, i3);
        lemma_headers_from_advances(t, p3, Seq::empty());
        lemma_headers_in_prefix(s, rest, p3, Seq::empty());
        lemma_find_in_prefix(s, rest, 0, 32);
        lemma_find_in_prefix(s, rest, p1, 32);
        lemma_find_in_prefix(s, rest, p2, 10);
        assert(s.subrange(0, i1) =~= t.subrange(0, i1));
        assert(s.subrange(p1, i2) =~= t.subrange(p1, i2));
        assert(s.subrange(p2, i3) =~= t.subrange(p2, i3));
    }
}

/// A request head is read from its own bytes: when the head ends within
/// `s`, bytes after it (a body not yet arrived) change nothing, so reading
/// the head alone never waits for them.
pub proof fn lemma_request_head_needs_no_body(s: Seq<u8>, rest: Seq<u8>)
    requires
        request_from(s + rest, 0, false) matches Ok((_, q)) && q <= s.len(),
    ensures
        request_from(s, 0, false) == request_from(s + rest, 0, false),
        request_from(s, 0, false) matches Ok((v, _)) && v.body.len() == 0,
{
    let t = s + rest;
    if rest.len() == 0 {
        assert(t =~= s);
    } else {
        let i1 = find_from(t, 0, 32);
        crate::text::lemma_find_from(t, 0, 32);
        let p1 = after(t, i1);
        let i2 = find_from(t, p1, 32);
        crate::text::lemma_find_from(t, p1, 32);
        let p2 = after(t, i2);
        let i3 = find_from(t, p2, 10);
        crate::text::lemma_find_from(t, p2, 10);
        let p3 = after(t, i3);
        lemma_headers_from_advances(t, p3, Seq::empty());
        lemma_headers_in_prefix(s, rest, p3, Seq::empty());
        lemma_find_in_prefix(s, rest, 0, 32);
        lemma_find_in_prefix(s, rest, p1, 32);
        lemma_find_in_prefix(s, rest, p2, 10);
        assert(s.subrange(0, i1) =~= t.subrange(0, i1));
        assert(s.subrange(p1, i2) =~= t.subrange(p1, i2));
        assert(s.subrange(p2, i3) =~= t.subrange(p2, i3));
    }
}

/// Reading header lines keeps names distinct: a repeated name overwrites.
proof fn lemma_headers_from_unique(s: Seq<u8>, p: int, hs: Seq<HeaderView>)
    requires
        unique_names(hs),
        0 <= p <= s.len(),
    ensures
        headers_from(s, p, hs) matches Ok((hs2, _)) ==> unique_names(hs2),
    decreases s.len() - p,
{
    if !at_line_end(s, p) {
        crate::text::lemma_find_from(s, p, 10);
        if let Ok((h, q)) = header_step(s, p) {
            lemma_put_keeps_unique(hs, h.0, h.1);
            if q > p {
                lemma_headers_from_unique(s, q, put_header_spec(hs, h.0, h.1));
            }
        }
    }
}

/// A response that was read has at most one header of each name.
pub proof fn lemma_response_headers_unique(s: Seq<u8>, p: int, include_body: bool)
    requires
        0 <= p <= s.len(),
    ensures
        response_from(s, p, include_body) matches Ok((v, _)) ==> unique_names(v.headers),
{
    let i1 = find_from(s, p, 32);
    crate::text::lemma_find_from(s, p, 32);
    let p1 = after(s, i1);
    crate::text::lemma_find_from(s, p1, 32);
    let p2 = after(s, find_from(s, p1, 32));
    crate::text::lemma_find_from(s, p2, 10);
    let p3 = after(s, find_from(s, p2, 10));
    lemma_headers_from_unique(s, p3, Seq::empty());
}

/// A request that was read has at most one header of each name.
pub proof fn lemma_request_headers_unique(s: Seq<u8>, p: int, include_body: bool)
    requires
        0 <= p <= s.len(),
    ensures
        request_from(s, p, include_body) matches Ok((v, _)) ==> unique_names(v.headers),
{
    let i1 = find_from(s, p, 32);
    crate::text::lemma_find_from(s, p, 32);
    let p1 = after(s, i1);
    crate::text::lemma_find_from(s, p1, 32);
    let p2 = after(s, find_from(s, p1, 32));
    crate::text::lemma_find_from(s, p2, 10);
    let p3 = after(s, find_from(s, p2, 10));
    lemma_headers_from_unique(s, p3, Seq::empty());
}

} // verus!
