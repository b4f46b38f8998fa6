//! Byte-level scanning, trimming, number reading and writing, and the
//! conversions between wire bytes and `String`.
use vstd::prelude::*;
use vstd::string::*;
use vstd::utf8::*;

verus! {

/// Whitespace as `u8::is_ascii_whitespace` understands it.
pub open spec fn is_space(b: u8) -> bool {
    b == 0x20 || b == 0x09 || b == 0x0a || b == 0x0c || b == 0x0d
}

/// Index of the first `d` in `s` at or after `from`, or `s.len()` when there is none.
pub open spec fn find_from(s: Seq<u8>, from: int, d: u8) -> int
    decreases s.len() - from,
{
    if from < 0 || from >= s.len() {
        s.len() as int
    } else if s[from] == d {
        from
    } else {
        find_from(s, from + 1, d)
    }
}

/// `find_from` lies in range, skips only other bytes, and lands on `d`.
pub proof fn lemma_find_from(s: Seq<u8>, from: int, d: u8)
    requires
        0 <= from <= s.len(),
    ensures
        from <= find_from(s, from, d) <= s.len(),
        forall|j: int| from <= j < find_from(s, from, d) ==> s[j] != d,
        find_from(s, from, d) < s.len() ==> s[find_from(s, from, d)] == d,
    decreases s.len() - from,
{
    if from < s.len() && s[from] != d {
        lemma_find_from(s, from + 1, d);
    }
}

/// `find_from` is the only index that has its three properties.
pub proof fn lemma_find_from_is(s: Seq<u8>, from: int, d: u8, r: int)
    requires
        0 <= from <= r <= s.len(),
        forall|j: int| from <= j < r ==> s[j] != d,
        r < s.len() ==> s[r] == d,
    ensures
        find_from(s, from, d) == r,
    decreases s.len() - from,
{
    if from < r {
        lemma_find_from_is(s, from + 1, d, r);
    }
}

/// Position after the delimiter found by `find_from`, or the end of `s`.
pub open spec fn after(s: Seq<u8>, i: int) -> int {
    if i < s.len() {
        i + 1
    } else {
        s.len() as int
    }
}

/// The bytes of `s` with leading and trailing ASCII whitespace removed.
pub open spec fn trimmed(s: Seq<u8>) -> Seq<u8>
    decreases s.len(),
{
    if s.len() == 0 {
        s
    } else if is_space(s[0]) {
        trimmed(s.drop_first())
    } else if is_space(s.last()) {
        trimmed(s.drop_last())
    } else {
        s
    }
}

/// Text without whitespace at its ends is its own trimming.
pub proof fn lemma_trimmed_plain(s: Seq<u8>)
    requires
        s.len() == 0 || (!is_space(s[0]) && !is_space(s.last())),
    ensures
        trimmed(s) == s,
{
}

/// Value of `b` as a digit in base `radix` (10 or 16, either case of letter).
pub open spec fn digit_value(b: u8, radix: nat) -> Option<nat> {
    if 0x30 <= b <= 0x39 {
        Some((b - 0x30) as nat)
    } else if radix == 16 && 0x41 <= b <= 0x46 {
        Some((b - 0x41 + 10) as nat)
    } else if radix == 16 && 0x61 <= b <= 0x66 {
        Some((b - 0x61 + 10) as nat)
    } else {
        None
    }
}

/// Every byte of `s` is a digit in base `radix`.
pub open spec fn all_digits(s: Seq<u8>, radix: nat) -> bool {
    forall|i: int| 0 <= i < s.len() ==> (#[trigger] digit_value(s[i], radix)) is Some
}

/// The number that the digits `s` write in base `radix`.
pub open spec fn digits_value(s: Seq<u8>, radix: nat) -> nat
    decreases s.len(),
{
    if s.len() == 0 {
        0
    } else {
        digits_value(s.drop_last(), radix) * radix + digit_value(s.last(), radix).unwrap_or(0)
    }
}

/// The digits of `s` after an optional `+`.
pub open spec fn unsigned_digits(s: Seq<u8>) -> Seq<u8> {
    if s.len() > 0 && s[0] == 0x2b {
        s.drop_first()
    } else {
        s
    }
}

/// An unsigned number written in base `radix`, as `usize::from_str_radix` reads it:
/// an optional `+`, at least one digit, and a value that fits in `usize`.
pub open spec fn unsigned_value(s: Seq<u8>, radix: nat) -> Option<usize> {
    let d = unsigned_digits(s);
    if d.len() > 0 && all_digits(d, radix) && digits_value(d, radix) <= usize::MAX {
        Some(digits_value(d, radix) as usize)
    } else {
        None
    }
}

/// The digit that writes `v` (below 16), with upper-case letters.
pub open spec fn digit_byte(v: nat) -> u8 {
    if v < 10 {
        (0x30 + v) as u8
    } else {
        (0x41 + v - 10) as u8
    }
}

/// `n` written in base `radix` without leading zeros (`0` for zero), as
/// `{}` and `{:X}` format it.
pub open spec fn radix_text(n: nat, radix: nat) -> Seq<u8>
    decreases n via radix_text_decreases
{
    if radix < 2 || n < radix {
        seq![digit_byte(n)]
    } else {
        radix_text(n / radix, radix).push(digit_byte(n % radix))
    }
}

#[via_fn]
proof fn radix_text_decreases(n: nat, radix: nat) {
    if !(radix < 2 || n < radix) {
        assert(n / radix < n) by (nonlinear_arith)
            requires
                radix >= 2,
                n >= radix,
        ;
    }
}

/// ASCII upper-case letters folded to lower case.
pub open spec fn lower_byte(b: u8) -> u8 {
    if 0x41 <= b <= 0x5a {
        (b + 32) as u8
    } else {
        b
    }
}

/// Byte sequences that are equal once ASCII letters are folded to one case.
pub open spec fn same_bytes_ignore_case(a: Seq<u8>, b: Seq<u8>) -> bool {
    a.len() == b.len() && forall|i: int| 0 <= i < a.len() ==> lower_byte(a[i]) == lower_byte(b[i])
}

/// Texts equal up to the case of ASCII letters, as header names compare.
pub open spec fn same_name(a: Seq<char>, b: Seq<char>) -> bool {
    same_bytes_ignore_case(encode_utf8(a), encode_utf8(b))
}

/// `needle` stands somewhere in `hay`.
pub open spec fn contains_bytes(hay: Seq<u8>, needle: Seq<u8>) -> bool {
    exists|i: int|
        0 <= i && i + needle.len() <= hay.len() && #[trigger] hay.subrange(i, i + needle.len())
            == needle
}

/// The characters of ASCII bytes.
pub open spec fn ascii_text(b: Seq<u8>) -> Seq<char> {
    b.map_values(|x: u8| x as char)
}

/// Every byte of `b` is ASCII.
pub open spec fn all_ascii(b: Seq<u8>) -> bool {
    forall|i: int| 0 <= i < b.len() ==> #[trigger] b[i] < 128
}

/// ASCII bytes are valid UTF-8 and decode one character per byte.
pub proof fn lemma_ascii_utf8(b: Seq<u8>)
    requires
        all_ascii(b),
    ensures
        valid_utf8(b),
        decode_utf8(b) == ascii_text(b),
        encode_utf8(ascii_text(b)) == b,
{
    let c = ascii_text(b);
    assert(is_ascii_chars(c));
    is_ascii_chars_encode_utf8(c);
    assert(encode_utf8(c) =~= b);
    encode_utf8_valid_utf8(c);
    encode_utf8_decode_utf8(c);
}

/// Numbers are written in ASCII, with at least one digit.
pub proof fn lemma_radix_text_ascii(n: nat, radix: nat)
    requires
        radix == 10 || radix == 16,
    ensures
        all_ascii(radix_text(n, radix)),
        radix_text(n, radix).len() >= 1,
    decreases n,
{
    if n >= radix {
        assert(n / radix < n) by (nonlinear_arith)
            requires
                radix >= 2,
                n >= radix,
        ;
        lemma_radix_text_ascii(n / radix, radix);
        assert(n % radix < 16) by (nonlinear_arith)
            requires
                radix == 10 || radix == 16,
        ;
    }
}

/// The digits that `radix_text` writes read back as the number.
pub proof fn lemma_radix_text_value(n: nat, radix: nat)
    requires
        radix == 10 || radix == 16,
    ensures
        radix_text(n, radix).len() >= 1,
        all_digits(radix_text(n, radix), radix),
        digits_value(radix_text(n, radix), radix) == n,
        forall|i: int|
            0 <= i < radix_text(n, radix).len() ==> !is_space(#[trigger] radix_text(n, radix)[i])
                && radix_text(n, radix)[i] != 0x2b,
    decreases n,
{
    let t = radix_text(n, radix);
    if n >= radix {
        assert(n / radix < n) by (nonlinear_arith)
            requires
                radix >= 2,
                n >= radix,
        ;
        lemma_radix_text_value(n / radix, radix);
        let d = n % radix;
        assert(d < radix) by (nonlinear_arith)
            requires
                radix >= 2,
                d == n % radix,
        ;
        assert((n / radix) * radix + d == n) by (nonlinear_arith)
            requires
                radix >= 2,
                d == n % radix,
        ;
        let u = radix_text(n / radix, radix);
        assert(t == u.push(digit_byte(d)));
        assert(t.drop_last() == u);
        assert(digit_value(digit_byte(d), radix) == Some(d));
        assert(digits_value(t, radix) == digits_value(u, radix) * radix + d);
        assert(digits_value(u, radix) == n / radix);
        assert(digits_value(t, radix) == n);
        assert forall|i: int| 0 <= i < t.len() implies (#[trigger] digit_value(t[i], radix)) is Some by {
            if i < u.len() {
                assert(t[i] == u[i]);
            }
        }
    } else {
        assert(t.drop_last() =~= Seq::<u8>::empty());
        assert(digit_value(digit_byte(n), radix) == Some(n));
        assert(t.last() == digit_byte(n));
        assert(digits_value(t.drop_last(), radix) == 0);
        assert(digits_value(t, radix) == 0 * radix + n);
    }
}

/// A number written by `radix_text` reads back as itself.
pub proof fn lemma_radix_text_unsigned(n: usize, radix: nat)
    requires
        radix == 10 || radix == 16,
    ensures
        unsigned_value(radix_text(n as nat, radix), radix) == Some(n),
        trimmed(radix_text(n as nat, radix)) == radix_text(n as nat, radix),
{
    lemma_radix_text_value(n as nat, radix);
    let t = radix_text(n as nat, radix);
    assert(!is_space(t.last()));
    lemma_trimmed_plain(t);
}

/// Trimming never lengthens.
pub proof fn lemma_trimmed_len(s: Seq<u8>)
    ensures
        trimmed(s).len() <= s.len(),
    decreases s.len(),
{
    if s.len() > 0 {
        lemma_trimmed_len(s.drop_first());
        lemma_trimmed_len(s.drop_last());
    }
}

/// Text that trimming leaves alone has no whitespace at its ends.
pub proof fn lemma_trimmed_ends(s: Seq<u8>)
    requires
        trimmed(s) == s,
        s.len() > 0,
    ensures
        !is_space(s[0]),
        !is_space(s.last()),
{
    lemma_trimmed_len(s.drop_first());
    lemma_trimmed_len(s.drop_last());
}

/// A line end after text that does not start with whitespace is trimmed away.
pub proof fn lemma_trimmed_cr(x: Seq<u8>)
    requires
        x.len() == 0 || !is_space(x[0]),
    ensures
        trimmed(x.push(13)) == trimmed(x),
{
    let y = x.push(13);
    if x.len() == 0 {
        assert(y.drop_first() =~= x);
    } else {
        assert(y[0] == x[0]);
        assert(y.drop_last() =~= x);
    }
}

/// `n` in decimal, as a `String`.
pub fn decimal_string(n: usize) -> (r: String)
    ensures
        r@ == ascii_text(radix_text(n as nat, 10)),
{
    let mut digits: Vec<u8> = Vec::new();
    push_radix(&mut digits, n, 10);
    proof {
        assert(digits@ == radix_text(n as nat, 10));
        lemma_radix_text_ascii(n as nat, 10);
        lemma_ascii_utf8(digits@);
    }
    text_of(digits.as_slice())
}

/// Whether two byte strings are equal.
pub fn bytes_eq(a: &[u8], b: &[u8]) -> (r: bool)
    ensures
        r == (a@ == b@),
{
    if a.len() != b.len() {
        return false;
    }
    let mut i: usize = 0;
    while i < a.len()
        invariant
            a@.len() == b@.len(),
            i <= a@.len(),
            forall|k: int| 0 <= k < i ==> a@[k] == b@[k],
        decreases a@.len() - i,
    {
        if a[i] != b[i] {
            return false;
        }
        i += 1;
    }
    assert(a@ == b@);
    true
}

/// Whitespace as `char::is_whitespace` understands it (the Unicode
/// `White_Space` property).
pub open spec fn is_white(c: char) -> bool {
    let u = c as u32;
    (0x09 <= u <= 0x0d) || u == 0x20 || u == 0x85 || u == 0xa0 || u == 0x1680 || (0x2000 <= u
        <= 0x200a) || u == 0x2028 || u == 0x2029 || u == 0x202f || u == 0x205f || u == 0x3000
}

/// The text with leading and trailing whitespace removed, as `str::trim` does.
pub open spec fn trim_text(t: Seq<char>) -> Seq<char>
    decreases t.len(),
{
    if t.len() == 0 {
        t
    } else if is_white(t[0]) {
        trim_text(t.drop_first())
    } else if is_white(t.last()) {
        trim_text(t.drop_last())
    } else {
        t
    }
}

/// Whether `c` is whitespace.
pub fn is_white_char(c: char) -> (r: bool)
    ensures
        r == is_white(c),
{
    let u = c as u32;
    (0x09 <= u && u <= 0x0d) || u == 0x20 || u == 0x85 || u == 0xa0 || u == 0x1680 || (0x2000 <= u
        && u <= 0x200a) || u == 0x2028 || u == 0x2029 || u == 0x202f || u == 0x205f || u == 0x3000
}

/// The text with leading and trailing whitespace removed.
pub fn trim_string(t: &str) -> (r: String)
    ensures
        r@ == trim_text(t@),
{
    let n = t.unicode_len();
    let mut i: usize = 0;
    assert(t@.subrange(0, n as int) == t@);
    while i < n && is_white_char(t.get_char(i))
        invariant
            n == t@.len(),
            i <= n,
            trim_text(t@.subrange(i as int, n as int)) == trim_text(t@),
        decreases n - i,
    {
        assert(t@.subrange(i as int, n as int).drop_first() == t@.subrange(i + 1, n as int));
        i += 1;
    }
    let mut j = n;
    while j > i && is_white_char(t.get_char(j - 1))
        invariant
            n == t@.len(),
            i <= j <= n,
            i < j ==> !is_white(t@[i as int]),
            trim_text(t@.subrange(i as int, j as int)) == trim_text(t@),
        decreases j - i,
    {
        assert(t@.subrange(i as int, j as int).drop_last() == t@.subrange(i as int, j - 1));
        j -= 1;
    }
    t.substring_char(i, j).to_string()
}

/// Trimming text never lengthens it.
pub proof fn lemma_trim_text_len(t: Seq<char>)
    ensures
        trim_text(t).len() <= t.len(),
    decreases t.len(),
{
    if t.len() > 0 {
        lemma_trim_text_len(t.drop_first());
        lemma_trim_text_len(t.drop_last());
    }
}

/// Text that trimming leaves alone has no whitespace at its ends.
pub proof fn lemma_trim_text_ends(t: Seq<char>)
    requires
        trim_text(t) == t,
        t.len() > 0,
    ensures
        !is_white(t[0]),
        !is_white(t.last()),
{
    lemma_trim_text_len(t.drop_first());
    lemma_trim_text_len(t.drop_last());
}

/// A final `\r` after text that does not start with whitespace is trimmed away.
pub proof fn lemma_trim_text_cr(t: Seq<char>)
    requires
        t.len() == 0 || !is_white(t[0]),
    ensures
        trim_text(t.push('\r')) == trim_text(t),
{
    let y = t.push('\r');
    if t.len() == 0 {
        assert(y.drop_first() =~= t);
    } else {
        assert(y[0] == t[0]);
        assert(y.drop_last() =~= t);
    }
}

/// Text without whitespace at its ends is its own trimming.
pub proof fn lemma_trim_text_plain(t: Seq<char>)
    requires
        t.len() == 0 || (!is_white(t[0]) && !is_white(t.last())),
    ensures
        trim_text(t) == t,
{
}

/// Encoding a concatenation encodes each part.
pub proof fn lemma_encode_concat(a: Seq<char>, b: Seq<char>)
    ensures
        encode_utf8(a + b) == encode_utf8(a) + encode_utf8(b),
    decreases a.len(),
{
    if a.len() == 0 {
        assert(a + b =~= b);
    } else {
        assert((a + b)[0] == a[0]);
        assert((a + b).drop_first() =~= a.drop_first() + b);
        lemma_encode_concat(a.drop_first(), b);
        assert(encode_utf8(a + b) =~= encode_utf8(a) + encode_utf8(b));
    }
}

/// What `String::from_utf8_lossy` makes of bytes that are not valid UTF-8.
pub uninterp spec fn lossy_text(b: Seq<u8>) -> Seq<char>;

/// The text that bytes stand for: what they encode when they are valid
/// UTF-8, else their lossy reading.
pub open spec fn text_spec(b: Seq<u8>) -> Seq<char> {
    if valid_utf8(b) {
        decode_utf8(b)
    } else {
        lossy_text(b)
    }
}

/// Relies on `String::from_utf8`: it succeeds exactly on valid UTF-8, with
/// the text that the bytes encode.
#[verifier::external_body]
fn utf8_string(b: &[u8]) -> (r: Option<String>)
    ensures
        r is Some <==> valid_utf8(b@),
        r matches Some(s) ==> s@ == decode_utf8(b@),
{
    String::from_utf8(b.to_vec()).ok()
}

/// Relies on `String::from_utf8_lossy`: its result depends on the bytes alone.
#[verifier::external_body]
fn lossy_string(b: &[u8]) -> (r: String)
    ensures
        r@ == lossy_text(b@),
{
    String::from_utf8_lossy(b).into_owned()
}

/// The text that bytes stand for.
pub fn text_of(b: &[u8]) -> (r: String)
    ensures
        r@ == text_spec(b@),
{
    match utf8_string(b) {
        Some(s) => s,
        None => lossy_string(b),
    }
}

/// Text written as UTF-8 reads back as itself.
pub proof fn lemma_text_of_encoded(t: Seq<char>)
    ensures
        text_spec(encode_utf8(t)) == t,
{
    encode_utf8_valid_utf8(t);
    encode_utf8_decode_utf8(t);
}

/// The UTF-8 bytes of a string.
pub fn bytes_of(s: &str) -> (r: &[u8])
    ensures
        r@ == encode_utf8(s@),
{
    s.as_bytes()
}

/// Appends `src` to `out`.
pub fn push_all(out: &mut Vec<u8>, src: &[u8])
    ensures
        final(out)@ == old(out)@ + src@,
{
    let mut i: usize = 0;
    while i < src.len()
        invariant
            i <= src@.len(),
            out@ == old(out)@ + src@.subrange(0, i as int),
        decreases src@.len() - i,
    {
        out.push(src[i]);
        i += 1;
        assert(src@.subrange(0, i as int) == src@.subrange(0, i - 1).push(src@[i - 1]));
    }
    assert(src@.subrange(0, src@.len() as int) == src@);
}

/// Index of the first `d` in `s` at or after `from`, or `s.len()`.
pub fn find_byte(s: &[u8], from: usize, d: u8) -> (r: usize)
    requires
        from <= s@.len(),
    ensures
        r == find_from(s@, from as int, d),
        from <= r <= s@.len(),
{
    proof {
        lemma_find_from(s@, from as int, d);
    }
    let mut i = from;
    while i < s.len()
        invariant
            from <= i <= s@.len(),
            find_from(s@, i as int, d) == find_from(s@, from as int, d),
        decreases s@.len() - i,
    {
        if s[i] == d {
            return i;
        }
        i += 1;
    }
    i
}

/// Bounds of `s[from..to]` with ASCII whitespace trimmed from both ends.
pub fn trim_bounds(s: &[u8], from: usize, to: usize) -> (r: (usize, usize))
    requires
        from <= to <= s@.len(),
    ensures
        from <= r.0 <= r.1 <= to,
        s@.subrange(r.0 as int, r.1 as int) == trimmed(s@.subrange(from as int, to as int)),
{
    let mut i = from;
    while i < to && is_space_byte(s[i])
        invariant
            from <= i <= to <= s@.len(),
            trimmed(s@.subrange(i as int, to as int)) == trimmed(s@.subrange(from as int, to as int)),
        decreases to - i,
    {
        assert(s@.subrange(i as int, to as int).drop_first() == s@.subrange(i + 1, to as int));
        i += 1;
    }
    let mut j = to;
    while j > i && is_space_byte(s[j - 1])
        invariant
            from <= i <= j <= to <= s@.len(),
            i < j ==> !is_space(s@[i as int]),
            trimmed(s@.subrange(i as int, j as int)) == trimmed(s@.subrange(from as int, to as int)),
        decreases j - i,
    {
        assert(s@.subrange(i as int, j as int).drop_last() == s@.subrange(i as int, j - 1));
        j -= 1;
    }
    (i, j)
}

/// Whether `b` is ASCII whitespace.
pub fn is_space_byte(b: u8) -> (r: bool)
    ensures
        r == is_space(b),
{
    b == 0x20 || b == 0x09 || b == 0x0a || b == 0x0c || b == 0x0d
}

fn digit_of(b: u8, radix: u8) -> (r: Option<u8>)
    requires
        radix == 10 || radix == 16,
    ensures
        r is Some <==> digit_value(b, radix as nat) is Some,
        r is Some ==> r->0 as nat == digit_value(b, radix as nat)->0 && r->0 < radix,
{
    if 0x30 <= b && b <= 0x39 {
        Some(b - 0x30)
    } else if radix == 16 && 0x41 <= b && b <= 0x46 {
        Some(b - 0x41 + 10)
    } else if radix == 16 && 0x61 <= b && b <= 0x66 {
        Some(b - 0x61 + 10)
    } else {
        None
    }
}

proof fn lemma_digits_value_grows(s: Seq<u8>, radix: nat, k: int)
    requires
        radix >= 1,
        0 <= k <= s.len(),
    ensures
        digits_value(s.subrange(0, k), radix) <= digits_value(s, radix),
    decreases s.len(),
{
    if k < s.len() {
        assert(s.drop_last() == s.subrange(0, s.len() - 1));
        lemma_digits_value_grows(s.drop_last(), radix, k);
        assert(s.drop_last().subrange(0, k) == s.subrange(0, k));
        let v = digits_value(s.drop_last(), radix);
        assert(v * radix >= v) by (nonlinear_arith)
            requires
                radix >= 1,
        ;
    } else {
        assert(s.subrange(0, k) == s);
    }
}

/// Reads `s` as an unsigned number in base `radix` (10 or 16), as
/// `usize::from_str_radix` does.
pub fn parse_unsigned(s: &[u8], radix: u8) -> (r: Option<usize>)
    requires
        radix == 10 || radix == 16,
    ensures
        r == unsigned_value(s@, radix as nat),
{
    let ghost rad = radix as nat;
    let start: usize = if s.len() > 0 && s[0] == 0x2b {
        1
    } else {
        0
    };
    let ghost d = unsigned_digits(s@);
    assert(d == s@.subrange(start as int, s@.len() as int));
    if start == s.len() {
        return None;
    }
    let mut acc: usize = 0;
    let mut i = start;
    while i < s.len()
        invariant
            start <= i <= s@.len(),
            d == s@.subrange(start as int, s@.len() as int),
            d == unsigned_digits(s@),
            rad == radix as nat,
            radix == 10 || radix == 16,
            all_digits(d.subrange(0, i - start), rad),
            acc as nat == digits_value(d.subrange(0, i - start), rad),
        decreases s@.len() - i,
    {
        let ghost pre = d.subrange(0, i - start);
        let ghost next = d.subrange(0, i - start + 1);
        assert(next.drop_last() == pre);
        assert(next.last() == s@[i as int]);
        match digit_of(s[i], radix) {
            None => {
                assert(d[i - start] == s@[i as int]);
                assert(digit_value(d[i - start], rad) is None);
                assert(!all_digits(d, rad));
                assert(unsigned_value(s@, rad) is None);
                return None;
            },
            Some(v) => {
                assert(d[i - start] == s@[i as int]);
                assert(digits_value(next, rad) == acc * rad + v);
                if acc > (usize::MAX - v as usize) / radix as usize {
                    proof {
                        assert(acc * radix + v > usize::MAX) by (nonlinear_arith)
                            requires
                                acc > (usize::MAX - v) / (radix as int),
                                radix == 10 || radix == 16,
                                v < radix,
                        ;
                        lemma_digits_value_grows(d, rad, i - start + 1);
                        assert(digits_value(d, rad) > usize::MAX);
                        assert(unsigned_value(s@, rad) is None);
                    }
                    return None;
                }
                assert(acc * radix + v <= usize::MAX) by (nonlinear_arith)
                    requires
                        acc <= (usize::MAX - v) / (radix as int),
                        radix == 10 || radix == 16,
                        v < radix,
                ;
                acc = acc * radix as usize + v as usize;
                i += 1;
                assert forall|k: int| 0 <= k < next.len() implies (#[trigger] digit_value(
                    next[k],
                    rad,
                )) is Some by {
                    if k < pre.len() {
                        assert(next[k] == pre[k]);
                    }
                }
            },
        }
    }
    assert(d.subrange(0, i - start) == d);
    Some(acc)
}

/// Appends `n` written in base `radix` (10 or 16, upper-case letters).
pub fn push_radix(out: &mut Vec<u8>, n: usize, radix: u8)
    requires
        radix == 10 || radix == 16,
    ensures
        final(out)@ == old(out)@ + radix_text(n as nat, radix as nat),
    decreases n,
{
    let r = radix as usize;
    if n >= r {
        push_radix(out, n / r, radix);
    }
    let v = (n % r) as u8;
    let b = if v < 10 {
        0x30 + v
    } else {
        0x41 + v - 10
    };
    out.push(b);
    proof {
        assert(b == digit_byte((n % r) as nat));
        if n < r {
            assert(n % r == n) by (nonlinear_arith)
                requires
                    n < r,
            ;
        }
        if n >= r {
            assert(old(out)@ + radix_text(n as nat, radix as nat) == old(out)@ + radix_text(
                (n / r) as nat,
                radix as nat,
            ) + seq![b]);
        } else {
            assert(old(out)@ + radix_text(n as nat, radix as nat) == old(out)@ + seq![b]);
        }
    }
}

/// ASCII letters folded to lower case.
pub fn lower_of(b: u8) -> (r: u8)
    ensures
        r == lower_byte(b),
{
    if 0x41 <= b && b <= 0x5a {
        b + 32
    } else {
        b
    }
}

/// Whether two texts are equal up to the case of ASCII letters.
pub fn eq_ignore_case(a: &str, b: &str) -> (r: bool)
    ensures
        r == same_name(a@, b@),
{
    let x = bytes_of(a);
    let y = bytes_of(b);
    if x.len() != y.len() {
        return false;
    }
    let mut i: usize = 0;
    while i < x.len()
        invariant
            x@.len() == y@.len(),
            i <= x@.len(),
            x@ == encode_utf8(a@),
            y@ == encode_utf8(b@),
            forall|k: int| 0 <= k < i ==> lower_byte(x@[k]) == lower_byte(y@[k]),
        decreases x@.len() - i,
    {
        if lower_of(x[i]) != lower_of(y[i]) {
            return false;
        }
        i += 1;
    }
    true
}

/// Whether `needle` stands somewhere in `hay`.
pub fn contains_slice(hay: &[u8], needle: &[u8]) -> (r: bool)
    ensures
        r == contains_bytes(hay@, needle@),
{
    if needle.len() > hay.len() {
        return false;
    }
    let hay_len = hay.len();
    let last = hay_len - needle.len();
    let mut i: usize = 0;
    loop
        invariant
            i <= last,
            hay_len == hay@.len(),
            last == hay@.len() - needle@.len(),
            forall|k: int|
                0 <= k < i ==> #[trigger] hay@.subrange(k, k + needle@.len()) != needle@,
        decreases last + 1 - i,
    {
        let mut j: usize = 0;
        let mut same = true;
        while same && j < needle.len()
            invariant
                i <= last,
                last == hay@.len() - needle@.len(),
                i + needle@.len() <= hay@.len(),
                hay_len == hay@.len(),
                j <= needle@.len(),
                forall|k: int| 0 <= k < j ==> hay@[i + k] == needle@[k],
                !same ==> j < needle@.len() && hay@[i + j] != needle@[j as int],
            decreases needle@.len() - j + (if same { 1int } else { 0int }),
        {
            if hay[i + j] == needle[j] {
                j += 1;
            } else {
                same = false;
            }
        }
        if !same {
            assert(hay@.subrange(i as int, i + needle@.len())[j as int] != needle@[j as int]);
        }
        if same {
            assert(hay@.subrange(i as int, i + needle@.len()) == needle@);
            return true;
        }
        if i == last {
            return false;
        }
        i += 1;
    }
}

} // verus!
