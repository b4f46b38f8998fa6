//! URLs: scheme, host, port, path, query parameters and fragment, read from
//! text and written back.
use crate::definitions::{DEFAULT_HTTPS_PORT, DEFAULT_HTTP_PORT};
use crate::text::{
    after, ascii_text, bytes_eq, bytes_of, decimal_string, find_byte, find_from, parse_unsigned,
    push_all, radix_text, text_of, text_spec, unsigned_value,
};
use vstd::prelude::*;
use vstd::string::*;
use vstd::utf8::*;

verus! {

/// Query parameters as keys and values, each key once.
pub type QueryView = Seq<(Seq<char>, Seq<char>)>;

/// What a URL holds.
pub ghost struct UrlView {
    pub scheme: Seq<char>,
    pub host: Seq<char>,
    pub port: Option<u16>,
    pub path: Seq<char>,
    pub query: QueryView,
    pub fragment: Option<Seq<char>>,
}

/// Index of the parameter with key `key` at or after `from`, or `ps.len()`.
pub open spec fn param_index_from(ps: QueryView, key: Seq<char>, from: int) -> int
    decreases ps.len() - from,
{
    if from < 0 || from >= ps.len() {
        ps.len() as int
    } else if ps[from].0 == key {
        from
    } else {
        param_index_from(ps, key, from + 1)
    }
}

/// The value of the parameter `key`.
pub open spec fn query_value(ps: QueryView, key: Seq<char>) -> Option<Seq<char>> {
    let i = param_index_from(ps, key, 0);
    if i < ps.len() {
        Some(ps[i].1)
    } else {
        None
    }
}

/// The parameters after `key` is set to `value`: in place when the key is
/// there, else appended.
pub open spec fn put_param(ps: QueryView, key: Seq<char>, value: Seq<char>) -> QueryView {
    let i = param_index_from(ps, key, 0);
    if i < ps.len() {
        ps.update(i, (key, value))
    } else {
        ps.push((key, value))
    }
}

/// No two parameters share a key.
pub open spec fn unique_keys(ps: QueryView) -> bool {
    forall|i: int, j: int| 0 <= i < j < ps.len() ==> (#[trigger] ps[i]).0 != (#[trigger] ps[j]).0
}

/// `param_index_from` lies in range, skips only other keys, and lands on the key.
pub proof fn lemma_param_index_from(ps: QueryView, key: Seq<char>, from: int)
    requires
        0 <= from <= ps.len(),
    ensures
        from <= param_index_from(ps, key, from) <= ps.len(),
        forall|j: int| from <= j < param_index_from(ps, key, from) ==> (#[trigger] ps[j]).0 != key,
        param_index_from(ps, key, from) < ps.len() ==> ps[param_index_from(ps, key, from)].0 == key,
    decreases ps.len() - from,
{
    if from < ps.len() && ps[from].0 != key {
        lemma_param_index_from(ps, key, from + 1);
    }
}

/// Setting a parameter keeps keys unique.
pub proof fn lemma_put_param_unique(ps: QueryView, key: Seq<char>, value: Seq<char>)
    requires
        unique_keys(ps),
    ensures
        unique_keys(put_param(ps, key, value)),
{
    lemma_param_index_from(ps, key, 0);
    let ps2 = put_param(ps, key, value);
    assert forall|i: int, j: int| 0 <= i < j < ps2.len() implies (#[trigger] ps2[i]).0 != (
    #[trigger] ps2[j]).0 by {
        if j == ps.len() {
            assert(ps2[i] == ps[i]);
        }
    }
}

/// Reading query parameters keeps keys unique.
pub proof fn lemma_query_pairs_unique(q: Seq<u8>, from: int, acc: QueryView)
    requires
        unique_keys(acc),
    ensures
        unique_keys(query_pairs(q, from, acc)),
    decreases q.len() - from,
{
    if !(from < 0 || from > q.len()) {
        crate::text::lemma_find_from(q, from, 38);
        let a = find_from(q, from, 38);
        let piece = q.subrange(from, a);
        let e = find_from(piece, 0, 61);
        let value = if e < piece.len() {
            piece.subrange(e + 1, piece.len() as int)
        } else {
            Seq::empty()
        };
        let acc2 = put_param(acc, text_spec(piece.subrange(0, e)), text_spec(value));
        lemma_put_param_unique(acc, text_spec(piece.subrange(0, e)), text_spec(value));
        if a < q.len() {
            lemma_query_pairs_unique(q, a + 1, acc2);
        }
    }
}

/// `key=value` pairs joined by `&`.
pub open spec fn query_text(ps: QueryView) -> Seq<char>
    decreases ps.len(),
{
    if ps.len() == 0 {
        Seq::empty()
    } else if ps.len() == 1 {
        ps[0].0 + seq!['='] + ps[0].1
    } else {
        query_text(ps.drop_last()) + seq!['&'] + ps.last().0 + seq!['='] + ps.last().1
    }
}

/// The path, then `?` and the parameters when there are any, then `#` and
/// the fragment when there is one.
pub open spec fn target_text(u: UrlView) -> Seq<char> {
    u.path + (if u.query.len() > 0 {
        seq!['?'] + query_text(u.query)
    } else {
        Seq::empty()
    }) + match u.fragment {
        Some(f) => seq!['#'] + f,
        None => Seq::empty(),
    }
}

/// The URL written out: `scheme://host`, `:port` when there is one, the path
/// (after a `/` unless it starts with one), then the parameters and the
/// fragment.
pub open spec fn url_text(u: UrlView) -> Seq<char> {
    u.scheme + seq![':', '/', '/'] + u.host + match u.port {
        Some(p) => seq![':'] + ascii_text(radix_text(p as nat, 10)),
        None => Seq::empty(),
    } + (if u.path.len() == 0 {
        Seq::empty()
    } else if u.path[0] == '/' {
        u.path
    } else {
        seq!['/'] + u.path
    }) + (if u.query.len() > 0 {
        seq!['?'] + query_text(u.query)
    } else {
        Seq::empty()
    }) + match u.fragment {
        Some(f) => seq!['#'] + f,
        None => Seq::empty(),
    }
}

/// First index at or after `from` where `pat` starts, or `b.len()`.
pub open spec fn find_pattern(b: Seq<u8>, pat: Seq<u8>, from: int) -> int
    decreases b.len() - from,
{
    if from < 0 || from >= b.len() || from + pat.len() > b.len() {
        b.len() as int
    } else if b.subrange(from, from + pat.len()) == pat {
        from
    } else {
        find_pattern(b, pat, from + 1)
    }
}

/// `find_pattern` lies in range and, when it finds the pattern, lands on it.
pub proof fn lemma_find_pattern(b: Seq<u8>, pat: Seq<u8>, from: int)
    requires
        0 <= from,
    ensures
        find_pattern(b, pat, from) <= b.len(),
        find_pattern(b, pat, from) < b.len() ==> from <= find_pattern(b, pat, from)
            && find_pattern(b, pat, from) + pat.len() <= b.len() && b.subrange(
            find_pattern(b, pat, from),
            find_pattern(b, pat, from) + pat.len(),
        ) == pat,
    decreases b.len() - from,
{
    if !(from >= b.len() || from + pat.len() > b.len()) && b.subrange(from, from + pat.len())
        != pat {
        lemma_find_pattern(b, pat, from + 1);
    }
}

#[via_fn]
proof fn query_pairs_decreases(q: Seq<u8>, from: int, acc: QueryView) {
    if !(from < 0 || from > q.len()) {
        crate::text::lemma_find_from(q, from, 38);
    }
}

/// The query parameters of `q` from `from` on: pieces split at `&`, each a
/// key and, after its first `=`, a value; put into `acc` in order.
pub open spec fn query_pairs(q: Seq<u8>, from: int, acc: QueryView) -> QueryView
    decreases q.len() - from via query_pairs_decreases
{
    if from < 0 || from > q.len() {
        acc
    } else {
        let a = find_from(q, from, 38);
        let piece = q.subrange(from, a);
        let e = find_from(piece, 0, 61);
        let value = if e < piece.len() {
            piece.subrange(e + 1, piece.len() as int)
        } else {
            Seq::empty()
        };
        let acc2 = put_param(acc, text_spec(piece.subrange(0, e)), text_spec(value));
        if a < q.len() {
            query_pairs(q, a + 1, acc2)
        } else {
            acc2
        }
    }
}

/// `://`, which ends a scheme.
pub open spec fn scheme_sep() -> Seq<u8> {
    seq![58u8, 47, 47]
}

/// `http`.
pub open spec fn http_bytes() -> Seq<u8> {
    seq![104u8, 116, 116, 112]
}

/// `https`.
pub open spec fn https_bytes() -> Seq<u8> {
    seq![104u8, 116, 116, 112, 115]
}

/// Why a URL with a scheme other than `http` or `https` could not be read.
pub open spec fn scheme_error() -> Seq<char> {
    "Invalid scheme provided, supported only `HTTP` and `HTTPS`"@
}

/// Why a URL with a bad port could not be read.
pub open spec fn port_error() -> Seq<char> {
    "Invalid port"@
}

/// The URL that the bytes `b` write. Without `://` the scheme is `http`;
/// with it, the scheme must be `http` or `https`. The host (and `:port`)
/// runs to the first `/`. What follows is `/` and all after that slash: its
/// fragment follows its first `#`, its parameters follow the first `?`
/// before that, and the path is what stands before both.
pub open spec fn parse_url(b: Seq<u8>) -> Result<UrlView, Seq<char>> {
    let k = find_pattern(b, scheme_sep(), 0);
    let found = k < b.len();
    let scheme = b.subrange(0, k);
    let start = if found { k + 3 } else { 0 };
    let slash = find_from(b, start, 47);
    let host_port = b.subrange(start, slash);
    let path = seq![47u8] + b.subrange(after(b, slash), b.len() as int);
    let colon = find_from(host_port, 0, 58);
    let port_text = host_port.subrange(after(host_port, colon), host_port.len() as int);
    let hash = find_from(path, 0, 35);
    let before_hash = path.subrange(0, hash);
    let question = find_from(before_hash, 0, 63);
    if found && scheme != http_bytes() && scheme != https_bytes() {
        Err(scheme_error())
    } else if colon < host_port.len() && (unsigned_value(port_text, 10) is None || unsigned_value(
        port_text,
        10,
    )->0 > 65535) {
        Err(port_error())
    } else {
        Ok(
            UrlView {
                scheme: if found {
                    text_spec(scheme)
                } else {
                    "http"@
                },
                host: text_spec(host_port.subrange(0, colon)),
                port: if colon < host_port.len() {
                    Some(unsigned_value(port_text, 10)->0 as u16)
                } else {
                    None
                },
                path: text_spec(before_hash.subrange(0, question)),
                query: if question < before_hash.len() {
                    query_pairs(
                        before_hash.subrange(question + 1, before_hash.len() as int),
                        0,
                        Seq::empty(),
                    )
                } else {
                    Seq::empty()
                },
                fragment: if hash < path.len() {
                    Some(text_spec(path.subrange(hash + 1, path.len() as int)))
                } else {
                    None
                },
            },
        )
    }
}

/// Index just after the last `/` of `b`, or 0.
pub open spec fn last_segment_start(b: Seq<u8>) -> int
    decreases b.len(),
{
    if b.len() == 0 {
        0
    } else if b.last() == 47 {
        b.len() as int
    } else {
        last_segment_start(b.drop_last())
    }
}

/// Index of the first `?` or `#` of `b` at or after `from`, or `b.len()`.
pub open spec fn marker_index(b: Seq<u8>, from: int) -> int
    decreases b.len() - from,
{
    if from < 0 || from >= b.len() {
        b.len() as int
    } else if b[from] == 63 || b[from] == 35 {
        from
    } else {
        marker_index(b, from + 1)
    }
}

/// The file that a path names: none when the path ends in `/` or holds no
/// `.`; else its last segment, up to a `?` or `#`.
pub open spec fn file_of(b: Seq<u8>) -> Option<Seq<char>> {
    if (b.len() > 0 && b.last() == 47) || !b.contains(46) {
        None
    } else {
        let s = last_segment_start(b);
        Some(text_spec(b.subrange(s, marker_index(b, s))))
    }
}

/// A URL.
#[derive(Debug, Clone)]
pub struct HttpUrl {
    scheme: String,
    host: String,
    port: Option<u16>,
    path: String,
    query: Vec<(String, String)>,
    fragment: Option<String>,
}

/// The view of an optional string.
pub open spec fn option_view(o: Option<String>) -> Option<Seq<char>> {
    match o {
        Some(s) => Some(s@),
        None => None,
    }
}

/// The views of query parameters.
pub open spec fn query_view(q: Seq<(String, String)>) -> QueryView {
    q.map_values(|p: (String, String)| (p.0@, p.1@))
}

impl View for HttpUrl {
    type V = UrlView;

    closed spec fn view(&self) -> UrlView {
        UrlView {
            scheme: self.scheme@,
            host: self.host@,
            port: self.port,
            path: self.path@,
            query: query_view(self.query@),
            fragment: option_view(self.fragment),
        }
    }
}

/// Index of the parameter with key `key`, or `ps.len()`.
fn find_param(ps: &Vec<(String, String)>, key: &str) -> (r: usize)
    ensures
        r == param_index_from(query_view(ps@), key@, 0),
{
    let ghost v = query_view(ps@);
    let k = key.to_string();
    let mut i: usize = 0;
    while i < ps.len()
        invariant
            i <= ps@.len(),
            k@ == key@,
            v == query_view(ps@),
            param_index_from(v, key@, i as int) == param_index_from(v, key@, 0),
        decreases ps@.len() - i,
    {
        assert(v[i as int] == (ps@[i as int].0@, ps@[i as int].1@));
        if ps[i].0 == k {
            return i;
        }
        i += 1;
    }
    i
}

/// Sets parameter `key` to `value`, in place or appended.
fn set_param(ps: &mut Vec<(String, String)>, key: String, value: String)
    ensures
        query_view(final(ps)@) == put_param(query_view(old(ps)@), key@, value@),
{
    let i = find_param(ps, key.as_str());
    if i < ps.len() {
        ps.set(i, (key, value));
    } else {
        ps.push((key, value));
    }
    assert(query_view(ps@) == put_param(query_view(old(ps)@), key@, value@));
}

/// Index of the first `?` or `#` at or after `from`, or `b.len()`.
fn find_marker(b: &[u8], from: usize) -> (r: usize)
    requires
        from <= b@.len(),
    ensures
        r == marker_index(b@, from as int),
        from <= r <= b@.len(),
{
    let mut i = from;
    while i < b.len() && b[i] != 63 && b[i] != 35
        invariant
            from <= i <= b@.len(),
            marker_index(b@, i as int) == marker_index(b@, from as int),
        decreases b@.len() - i,
    {
        i += 1;
    }
    i
}

/// First index at or after `from` where `pat` starts, or `b.len()`.
fn find_slice(b: &[u8], pat: &[u8], from: usize) -> (r: usize)
    requires
        from <= b@.len(),
    ensures
        r == find_pattern(b@, pat@, from as int),
        r <= b@.len(),
{
    let mut i = from;
    while i < b.len() && pat.len() <= b.len() - i
        invariant
            from <= i <= b@.len(),
            find_pattern(b@, pat@, i as int) == find_pattern(b@, pat@, from as int),
        decreases b@.len() - i,
    {
        if bytes_eq(&b[i..i + pat.len()], pat) {
            return i;
        }
        i += 1;
    }
    b.len()
}

/// Appends the parameters of `q`, from `0`, to `acc`.
fn read_query(q: &[u8], acc: &mut Vec<(String, String)>)
    ensures
        query_view(final(acc)@) == query_pairs(q@, 0, query_view(old(acc)@)),
{
    let ghost goal = query_pairs(q@, 0, query_view(acc@));
    let mut from: usize = 0;
    loop
        invariant
            from <= q@.len(),
            goal == query_pairs(q@, 0, query_view(old(acc)@)),
            query_pairs(q@, from as int, query_view(acc@)) == goal,
        decreases q@.len() - from,
    {
        let a = find_byte(q, from, 38);
        let piece = &q[from..a];
        let e = find_byte(piece, 0, 61);
        let key = text_of(&piece[0..e]);
        let value = if e < piece.len() {
            text_of(&piece[e + 1..piece.len()])
        } else {
            text_of(&piece[0..0])
        };
        proof {
            assert(piece@.subrange(0, 0) == Seq::<u8>::empty());
        }
        set_param(acc, key, value);
        if a >= q.len() {
            return;
        }
        from = a + 1;
    }
}

impl HttpUrl {
    /// The scheme.
    pub fn scheme(&self) -> (r: &str)
        ensures
            r@ == self@.scheme,
    {
        self.scheme.as_str()
    }

    /// The host.
    pub fn host(&self) -> (r: &str)
        ensures
            r@ == self@.host,
    {
        self.host.as_str()
    }

    /// The port, if one was given.
    pub fn port(&self) -> (r: Option<u16>)
        ensures
            r == self@.port,
    {
        self.port
    }

    /// The path.
    pub fn path(&self) -> (r: &str)
        ensures
            r@ == self@.path,
    {
        self.path.as_str()
    }

    /// `host:port` to connect to: the given port, else 443 for `https` and 80
    /// for any other scheme.
    pub fn address(&self) -> (r: String)
        ensures
            r@ == self@.host + seq![':'] + ascii_text(
                radix_text(
                    match self@.port {
                        Some(p) => p as nat,
                        None => if self@.scheme == "https"@ {
                            443
                        } else {
                            80
                        },
                    },
                    10,
                ),
            ),
    {
        let port = match self.port {
            Some(p) => p,
            None => {
                if self.scheme == "https".to_string() {
                    DEFAULT_HTTPS_PORT
                } else {
                    DEFAULT_HTTP_PORT
                }
            },
        };
        let mut r = self.host.clone();
        r.append(":");
        r.append(decimal_string(port as usize).as_str());
        proof {
            reveal_strlit(":");
        }
        r
    }

    /// The value of query parameter `key`.
    pub fn query(&self, key: &str) -> (r: Option<&String>)
        ensures
            r matches Some(v) ==> query_value(self@.query, key@) == Some(v@),
            r is None ==> query_value(self@.query, key@) is None,
    {
        let i = find_param(&self.query, key);
        if i < self.query.len() {
            Some(&self.query[i].1)
        } else {
            None
        }
    }

    /// The fragment, if there is one.
    pub fn fragment(&self) -> (r: Option<&String>)
        ensures
            r matches Some(f) ==> self@.fragment == Some(f@),
            r is None ==> self@.fragment is None,
    {
        match &self.fragment {
            Some(f) => Some(f),
            None => None,
        }
    }

    /// The file that the path names: its last segment, up to a `?` or `#`;
    /// none when the path ends in `/` or holds no `.`.
    pub fn file(&self) -> (r: Option<String>)
        ensures
            r matches Some(f) ==> file_of(encode_utf8(self@.path)) == Some(f@),
            r is None ==> file_of(encode_utf8(self@.path)) is None,
    {
        let b = bytes_of(self.path.as_str());
        let n = b.len();
        if n > 0 && b[n - 1] == 47 {
            return None;
        }
        let mut has_dot = false;
        let mut i: usize = 0;
        while i < n
            invariant
                n == b@.len(),
                i <= n,
                has_dot == exists|k: int| 0 <= k < i && b@[k] == 46,
            decreases n - i,
        {
            if b[i] == 46 {
                has_dot = true;
            }
            i += 1;
        }
        if !has_dot {
            return None;
        }
        let mut s = n;
        assert(b@.subrange(0, n as int) == b@);
        while s > 0 && b[s - 1] != 47
            invariant
                s <= n,
                n == b@.len(),
                last_segment_start(b@.subrange(0, s as int)) == last_segment_start(b@),
            decreases s,
        {
            assert(b@.subrange(0, s as int).drop_last() == b@.subrange(0, s - 1));
            s -= 1;
        }
        assert(b@.subrange(0, n as int) == b@);
        let m = find_marker(b, s);
        Some(text_of(&b[s..m]))
    }

    /// The path, then `?` and the parameters, then `#` and the fragment.
    pub fn target(&self) -> (r: String)
        ensures
            r@ == target_text(self@),
    {
        let mut r = self.path.clone();
        self.push_query_and_fragment(&mut r);
        r
    }

    fn push_query_and_fragment(&self, r: &mut String)
        ensures
            final(r)@ == old(r)@ + (if self@.query.len() > 0 {
                seq!['?'] + query_text(self@.query)
            } else {
                Seq::empty()
            }) + match self@.fragment {
                Some(f) => seq!['#'] + f,
                None => Seq::empty(),
            },
    {
        let ghost start = r@;
        proof {
            reveal_strlit("?");
            reveal_strlit("&");
            reveal_strlit("=");
            reveal_strlit("#");
        }
        let ghost q = query_view(self.query@);
        if self.query.len() > 0 {
            r.append("?");
            let mut i: usize = 0;
            assert(r@ =~= start + seq!['?'] + query_text(q.subrange(0, 0)));
            while i < self.query.len()
                invariant
                    i <= self.query@.len(),
                    q == query_view(self.query@),
                    q.len() > 0,
                    r@ == start + seq!['?'] + query_text(q.subrange(0, i as int)),
                decreases self.query@.len() - i,
            {
                proof {
                    reveal_strlit("&");
                    reveal_strlit("=");
                }
                assert(q[i as int] == (self.query@[i as int].0@, self.query@[i as int].1@));
                if i > 0 {
                    r.append("&");
                }
                r.append(self.query[i].0.as_str());
                r.append("=");
                r.append(self.query[i].1.as_str());
                proof {
                    let next = q.subrange(0, i + 1);
                    assert(next.drop_last() =~= q.subrange(0, i as int));
                    assert(next.last() == q[i as int]);
                    if i == 0 {
                        assert(next.len() == 1);
                        assert(next[0] == q[0]);
                        assert(q.subrange(0, 0) =~= Seq::<(Seq<char>, Seq<char>)>::empty());
                    }
                    assert(r@ =~= start + seq!['?'] + query_text(next));
                }
                i += 1;
            }
            assert(q.subrange(0, i as int) == q);
        }
        let ghost mid = r@;
        match &self.fragment {
            Some(f) => {
                r.append("#");
                r.append(f.as_str());
            },
            None => {},
        }
        assert(r@ == start + (if q.len() > 0 {
            seq!['?'] + query_text(q)
        } else {
            Seq::empty()
        }) + match self@.fragment {
            Some(f) => seq!['#'] + f,
            None => Seq::empty(),
        });
    }

    /// The URL written out.
    pub fn to_string(&self) -> (r: String)
        ensures
            r@ == url_text(self@),
    {
        proof {
            reveal_strlit("://");
            reveal_strlit(":");
            reveal_strlit("/");
        }
        let mut r = self.scheme.clone();
        r.append("://");
        r.append(self.host.as_str());
        match self.port {
            Some(p) => {
                r.append(":");
                r.append(decimal_string(p as usize).as_str());
            },
            None => {},
        }
        if !self.path.as_str().is_empty() {
            if self.path.as_str().get_char(0) != '/' {
                r.append("/");
            }
            r.append(self.path.as_str());
        }
        self.push_query_and_fragment(&mut r);
        r
    }

    /// A builder for a URL.
    pub fn builder() -> (r: HttpUrlBuilder)
        ensures
            r@ == HttpUrlBuilder::initial(),
    {
        HttpUrlBuilder::new()
    }

    /// Reads a URL from text.
    pub fn parse(url: &str) -> (r: Result<HttpUrl, &'static str>)
        ensures
            match parse_url(encode_utf8(url@)) {
                Ok(u) => r matches Ok(x) && x@ == u,
                Err(e) => r matches Err(x) && x@ == e,
            },
            r matches Ok(x) ==> unique_keys(x@.query),
    {
        let b = bytes_of(url);
        let len = b.len();
        let sep: Vec<u8> = vec![58u8, 47, 47];
        let http: Vec<u8> = vec![104u8, 116, 116, 112];
        let https: Vec<u8> = vec![104u8, 116, 116, 112, 115];
        assert(sep@ == scheme_sep());
        assert(http@ == http_bytes());
        assert(https@ == https_bytes());
        let k = find_slice(b, sep.as_slice(), 0);
        proof {
            lemma_find_pattern(b@, sep@, 0);
        }
        let found = k < len;
        if found && !bytes_eq(&b[0..k], http.as_slice()) && !bytes_eq(&b[0..k], https.as_slice()) {
            return Err("Invalid scheme provided, supported only `HTTP` and `HTTPS`");
        }
        let start = if found {
            k + 3
        } else {
            0
        };
        let slash = find_byte(b, start, 47);
        let host_port = &b[start..slash];
        let mut path_bytes: Vec<u8> = vec![47u8];
        let rest_start = if slash < len {
            slash + 1
        } else {
            len
        };
        assert(path_bytes@ == seq![47u8]);
        push_all(&mut path_bytes, &b[rest_start..len]);
        let colon = find_byte(host_port, 0, 58);
        let port = if colon < host_port.len() {
            match parse_unsigned(&host_port[colon + 1..host_port.len()], 10) {
                Some(n) => {
                    if n > 65535 {
                        return Err("Invalid port");
                    }
                    Some(n as u16)
                },
                None => {
                    return Err("Invalid port");
                },
            }
        } else {
            None
        };
        let path = path_bytes.as_slice();
        let hash = find_byte(path, 0, 35);
        let fragment = if hash < path.len() {
            Some(text_of(&path[hash + 1..path.len()]))
        } else {
            None
        };
        let before_hash = &path[0..hash];
        let question = find_byte(before_hash, 0, 63);
        let mut query: Vec<(String, String)> = Vec::new();
        assert(query_view(query@) =~= Seq::<(Seq<char>, Seq<char>)>::empty());
        if question < before_hash.len() {
            let q = &before_hash[question + 1..before_hash.len()];
            read_query(q, &mut query);
            proof {
                lemma_query_pairs_unique(q@, 0, Seq::empty());
            }
        }
        let scheme = if found {
            text_of(&b[0..k])
        } else {
            "http".to_string()
        };
        let u = HttpUrl {
            scheme,
            host: text_of(&host_port[0..colon]),
            port,
            path: text_of(&before_hash[0..question]),
            query,
            fragment,
        };
        proof {
            let su = parse_url(b@)->Ok_0;
            assert(u@.scheme == su.scheme);
            assert(u@.host == su.host);
            assert(u@.port == su.port);
            assert(u@.path == su.path);
            assert(u@.query == su.query);
            assert(u@.fragment == su.fragment);
        }
        Ok(u)
    }
}

/// Builds a URL step by step.
#[derive(Debug)]
pub struct HttpUrlBuilder {
    scheme: String,
    host: String,
    port: Option<u16>,
    path: String,
    query: Vec<(String, String)>,
    fragment: Option<String>,
}

impl View for HttpUrlBuilder {
    type V = UrlView;

    closed spec fn view(&self) -> UrlView {
        UrlView {
            scheme: self.scheme@,
            host: self.host@,
            port: self.port,
            path: self.path@,
            query: query_view(self.query@),
            fragment: option_view(self.fragment),
        }
    }
}

impl Default for HttpUrlBuilder {
    fn default() -> (r: HttpUrlBuilder)
        ensures
            r@ == HttpUrlBuilder::initial(),
    {
        HttpUrlBuilder::new()
    }
}

impl HttpUrlBuilder {
    /// A fresh builder: scheme `http`, everything else empty.
    pub open spec fn initial() -> UrlView {
        UrlView {
            scheme: "http"@,
            host: Seq::empty(),
            port: None,
            path: Seq::empty(),
            query: Seq::empty(),
            fragment: None,
        }
    }

    /// A fresh builder: scheme `http`, everything else empty.
    pub fn new() -> (r: HttpUrlBuilder)
        ensures
            r@ == HttpUrlBuilder::initial(),
    {
        let r = HttpUrlBuilder {
            scheme: "http".to_string(),
            host: String::new(),
            port: None,
            path: String::new(),
            query: Vec::new(),
            fragment: None,
        };
        assert(r@.query =~= Seq::<(Seq<char>, Seq<char>)>::empty());
        r
    }

    /// Sets the scheme.
    pub fn scheme(self, scheme: &str) -> (r: HttpUrlBuilder)
        ensures
            r@ == (UrlView { scheme: scheme@, ..self@ }),
    {
        let mut b = self;
        b.scheme = scheme.to_string();
        b
    }

    /// Sets the host.
    pub fn host(self, host: &str) -> (r: HttpUrlBuilder)
        ensures
            r@ == (UrlView { host: host@, ..self@ }),
    {
        let mut b = self;
        b.host = host.to_string();
        b
    }

    /// Sets the port.
    pub fn port(self, port: u16) -> (r: HttpUrlBuilder)
        ensures
            r@ == (UrlView { port: Some(port), ..self@ }),
    {
        let mut b = self;
        b.port = Some(port);
        b
    }

    /// Sets the path.
    pub fn path(self, path: &str) -> (r: HttpUrlBuilder)
        ensures
            r@ == (UrlView { path: path@, ..self@ }),
    {
        let mut b = self;
        b.path = path.to_string();
        b
    }

    /// Sets the fragment.
    pub fn fragment(self, fragment: &str) -> (r: HttpUrlBuilder)
        ensures
            r@ == (UrlView { fragment: Some(fragment@), ..self@ }),
    {
        let mut b = self;
        b.fragment = Some(fragment.to_string());
        b
    }

    /// Sets query parameter `key` to `value`: in place when the key is there,
    /// else appended.
    pub fn param(self, key: &str, value: &str) -> (r: HttpUrlBuilder)
        ensures
            r@ == (UrlView { query: put_param(self@.query, key@, value@), ..self@ }),
            unique_keys(self@.query) ==> unique_keys(r@.query),
    {
        proof {
            if unique_keys(self@.query) {
                lemma_put_param_unique(self@.query, key@, value@);
            }
        }
        let mut b = self;
        set_param(&mut b.query, key.to_string(), value.to_string());
        b
    }

    /// The URL.
    pub fn build(self) -> (r: HttpUrl)
        ensures
            r@ == self@,
    {
        HttpUrl {
            scheme: self.scheme,
            host: self.host,
            port: self.port,
            path: self.path,
            query: self.query,
            fragment: self.fragment,
        }
    }
}

} // verus!
