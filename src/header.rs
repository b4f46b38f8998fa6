//! Headers and the ordered, case-insensitive header list.
use crate::text::{eq_ignore_case, same_name};
use vstd::prelude::*;

verus! {

/// A header as a name and a value.
pub type HeaderView = (Seq<char>, Seq<char>);

/// A single HTTP header: a name, compared without regard to ASCII case, and a value.
#[derive(Clone, Debug)]
pub struct HttpHeader {
    pub(crate) name: String,
    pub(crate) value: String,
}

impl View for HttpHeader {
    type V = HeaderView;

    closed spec fn view(&self) -> HeaderView {
        (self.name@, self.value@)
    }
}

impl HttpHeader {
    /// A header with the given name and value.
    pub fn new(name: &str, value: &str) -> (r: HttpHeader)
        ensures
            r@ == (name@, value@),
    {
        HttpHeader { name: name.to_string(), value: value.to_string() }
    }

    pub(crate) fn from_parts(name: String, value: String) -> (r: HttpHeader)
        ensures
            r@ == (name@, value@),
    {
        HttpHeader { name, value }
    }

    /// A copy of this header.
    pub fn copy(&self) -> (r: HttpHeader)
        ensures
            r@ == self@,
    {
        HttpHeader { name: self.name.clone(), value: self.value.clone() }
    }

    /// The header's name, as it was given.
    pub fn name(&self) -> (r: &String)
        ensures
            r@ == self@.0,
    {
        &self.name
    }

    /// The header's value.
    pub fn value(&self) -> (r: &String)
        ensures
            r@ == self@.1,
    {
        &self.value
    }
}

/// Two headers are equal when their names match without regard to case and
/// their values are identical.
pub open spec fn same_header(a: HeaderView, b: HeaderView) -> bool {
    same_name(a.0, b.0) && a.1 == b.1
}

impl PartialEq for HttpHeader {
    fn eq(&self, other: &HttpHeader) -> (r: bool) {
        eq_ignore_case(self.name.as_str(), other.name.as_str()) && self.value == other.value
    }
}

impl vstd::std_specs::cmp::PartialEqSpecImpl for HttpHeader {
    open spec fn obeys_eq_spec() -> bool {
        true
    }

    open spec fn eq_spec(&self, other: &HttpHeader) -> bool {
        same_header(self@, other@)
    }
}

/// The views of a list of headers.
pub open spec fn headers_view(hs: Seq<HttpHeader>) -> Seq<HeaderView> {
    hs.map_values(|h: HttpHeader| h@)
}

/// Index of the first header named `name` (any case) at or after `from`, or `hs.len()`.
pub open spec fn header_index_from(hs: Seq<HeaderView>, name: Seq<char>, from: int) -> int
    decreases hs.len() - from,
{
    if from < 0 || from >= hs.len() {
        hs.len() as int
    } else if same_name(hs[from].0, name) {
        from
    } else {
        header_index_from(hs, name, from + 1)
    }
}

/// Index of the first header named `name` (any case), or `hs.len()`.
pub open spec fn header_index(hs: Seq<HeaderView>, name: Seq<char>) -> int {
    header_index_from(hs, name, 0)
}

/// The first header named `name` (any case).
pub open spec fn lookup_header(hs: Seq<HeaderView>, name: Seq<char>) -> Option<HeaderView> {
    let i = header_index(hs, name);
    if i < hs.len() {
        Some(hs[i])
    } else {
        None
    }
}

/// The list after putting `value` under `name`: the first header of that
/// name (any case) keeps its name and takes the value; without one, the
/// header is appended.
pub open spec fn put_header_spec(hs: Seq<HeaderView>, name: Seq<char>, value: Seq<char>) -> Seq<
    HeaderView,
> {
    let i = header_index(hs, name);
    if i < hs.len() {
        hs.update(i, (hs[i].0, value))
    } else {
        hs.push((name, value))
    }
}

/// The list without the headers named `name` (any case), in order.
pub open spec fn remove_header_spec(hs: Seq<HeaderView>, name: Seq<char>) -> Seq<HeaderView>
    decreases hs.len(),
{
    if hs.len() == 0 {
        hs
    } else {
        let rest = remove_header_spec(hs.drop_last(), name);
        if same_name(hs.last().0, name) {
            rest
        } else {
            rest.push(hs.last())
        }
    }
}

/// No two headers of the list share a name (any case).
pub open spec fn unique_names(hs: Seq<HeaderView>) -> bool {
    forall|i: int, j: int|
        0 <= i < j < hs.len() ==> !same_name(#[trigger] hs[i].0, #[trigger] hs[j].0)
}

/// `header_index_from` lies in range, skips only other names, and lands on a match.
pub proof fn lemma_header_index_from(hs: Seq<HeaderView>, name: Seq<char>, from: int)
    requires
        0 <= from <= hs.len(),
    ensures
        from <= header_index_from(hs, name, from) <= hs.len(),
        forall|j: int| from <= j < header_index_from(hs, name, from) ==> !same_name(#[trigger] hs[j].0, name),
        header_index_from(hs, name, from) < hs.len() ==> same_name(
            hs[header_index_from(hs, name, from)].0,
            name,
        ),
    decreases hs.len() - from,
{
    if from < hs.len() && !same_name(hs[from].0, name) {
        lemma_header_index_from(hs, name, from + 1);
    }
}

/// `header_index_from` is the only index that has its properties.
pub proof fn lemma_header_index_from_is(hs: Seq<HeaderView>, name: Seq<char>, from: int, r: int)
    requires
        0 <= from <= r <= hs.len(),
        forall|j: int| from <= j < r ==> !same_name(#[trigger] hs[j].0, name),
        r < hs.len() ==> same_name(hs[r].0, name),
    ensures
        header_index_from(hs, name, from) == r,
    decreases hs.len() - from,
{
    if from < r {
        lemma_header_index_from_is(hs, name, from + 1, r);
    }
}

/// Matching names without regard to case is an equivalence.
pub proof fn lemma_same_name_equiv(a: Seq<char>, b: Seq<char>, c: Seq<char>)
    ensures
        same_name(a, a),
        same_name(a, b) ==> same_name(b, a),
        same_name(a, b) && same_name(b, c) ==> same_name(a, c),
        same_name(a, b) ==> (same_name(a, c) <==> same_name(b, c)),
{
}

/// After `value` is put under `name`, a lookup of any name that matches
/// `name` without regard to case finds that value.
pub proof fn lemma_put_then_lookup(
    hs: Seq<HeaderView>,
    name: Seq<char>,
    value: Seq<char>,
    other: Seq<char>,
)
    requires
        same_name(name, other),
    ensures
        lookup_header(put_header_spec(hs, name, value), other) matches Some(h) && h.1 == value
            && same_name(h.0, name),
{
    let i = header_index(hs, name);
    lemma_header_index_from(hs, name, 0);
    let hs2 = put_header_spec(hs, name, value);
    assert forall|j: int| 0 <= j < i implies !same_name(#[trigger] hs2[j].0, other) by {
        lemma_same_name_equiv(name, other, hs[j].0);
        lemma_same_name_equiv(hs[j].0, name, other);
    }
    lemma_same_name_equiv(hs2[i].0, name, other);
    lemma_same_name_equiv(name, hs2[i].0, other);
    lemma_same_name_equiv(name, name, name);
    lemma_header_index_from_is(hs2, other, 0, i);
}

/// Putting a header keeps the names of the list distinct.
pub proof fn lemma_put_keeps_unique(hs: Seq<HeaderView>, name: Seq<char>, value: Seq<char>)
    requires
        unique_names(hs),
    ensures
        unique_names(put_header_spec(hs, name, value)),
{
    let i = header_index(hs, name);
    lemma_header_index_from(hs, name, 0);
    let hs2 = put_header_spec(hs, name, value);
    assert forall|a: int, b: int| 0 <= a < b < hs2.len() implies !same_name(
        #[trigger] hs2[a].0,
        #[trigger] hs2[b].0,
    ) by {
        if b == hs.len() {
            lemma_same_name_equiv(hs[a].0, name, name);
        }
    }
}

/// Putting the same name twice, in two spellings, leaves one header of that
/// name, with the second value, and no more headers than the first put left.
pub proof fn lemma_put_twice(
    hs: Seq<HeaderView>,
    n1: Seq<char>,
    v1: Seq<char>,
    n2: Seq<char>,
    v2: Seq<char>,
)
    requires
        unique_names(hs),
        same_name(n1, n2),
    ensures
        ({
            let once = put_header_spec(hs, n1, v1);
            let twice = put_header_spec(once, n2, v2);
            &&& twice.len() == once.len()
            &&& unique_names(twice)
            &&& exists|i: int|
                0 <= i < twice.len() && same_name(#[trigger] twice[i].0, n1) && twice[i].1 == v2
                    && forall|j: int|
                    0 <= j < twice.len() && same_name(#[trigger] twice[j].0, n1) ==> j == i
        }),
{
    let once = put_header_spec(hs, n1, v1);
    let twice = put_header_spec(once, n2, v2);
    lemma_put_keeps_unique(hs, n1, v1);
    lemma_put_keeps_unique(once, n2, v2);
    lemma_put_then_lookup(hs, n1, v1, n2);
    let i = header_index(once, n2);
    lemma_header_index_from(once, n2, 0);
    assert(i < once.len());
    assert(same_name(twice[i].0, n1)) by {
        lemma_same_name_equiv(twice[i].0, n2, n1);
        lemma_same_name_equiv(n1, n2, n1);
    }
    assert forall|j: int| 0 <= j < twice.len() && same_name(#[trigger] twice[j].0, n1) implies j
        == i by {
        if j != i {
            lemma_same_name_equiv(twice[j].0, n1, twice[i].0);
            lemma_same_name_equiv(twice[i].0, n1, n1);
            lemma_same_name_equiv(n1, twice[i].0, twice[j].0);
            if j < i {
                assert(!same_name(twice[j].0, twice[i].0));
            } else {
                assert(!same_name(twice[i].0, twice[j].0));
            }
        }
    }
}

/// Removing headers keeps the names of the list distinct; every header left
/// was in the list.
pub proof fn lemma_remove_keeps_unique(hs: Seq<HeaderView>, name: Seq<char>)
    requires
        unique_names(hs),
    ensures
        unique_names(remove_header_spec(hs, name)),
        forall|i: int|
            0 <= i < remove_header_spec(hs, name).len() ==> exists|j: int|
                0 <= j < hs.len() && #[trigger] remove_header_spec(hs, name)[i] == hs[j],
    decreases hs.len(),
{
    if hs.len() > 0 {
        let d = hs.drop_last();
        assert forall|i: int, j: int| 0 <= i < j < d.len() implies !same_name(
            #[trigger] d[i].0,
            #[trigger] d[j].0,
        ) by {
            assert(d[i] == hs[i]);
            assert(d[j] == hs[j]);
        }
        lemma_remove_keeps_unique(d, name);
        let rest = remove_header_spec(d, name);
        let r = remove_header_spec(hs, name);
        assert forall|i: int| 0 <= i < r.len() implies exists|j: int|
            0 <= j < hs.len() && #[trigger] r[i] == hs[j] by {
            if i < rest.len() {
                let j = choose|j: int| 0 <= j < d.len() && #[trigger] rest[i] == d[j];
                assert(r[i] == hs[j]);
            } else {
                assert(r[i] == hs[hs.len() - 1]);
            }
        }
        if !same_name(hs.last().0, name) {
            assert forall|a: int, b: int| 0 <= a < b < r.len() implies !same_name(
                #[trigger] r[a].0,
                #[trigger] r[b].0,
            ) by {
                if b == rest.len() {
                    let j = choose|j: int| 0 <= j < d.len() && #[trigger] rest[a] == d[j];
                    assert(r[a] == hs[j]);
                    assert(r[b] == hs[hs.len() - 1]);
                } else {
                    assert(r[a] == rest[a]);
                    assert(r[b] == rest[b]);
                }
            }
        }
    }
}

/// Index of the first header named `name` (any case), or `hs.len()`.
pub(crate) fn find_header(hs: &Vec<HttpHeader>, name: &str) -> (r: usize)
    ensures
        r == header_index(headers_view(hs@), name@),
{
    let ghost v = headers_view(hs@);
    let mut i: usize = 0;
    while i < hs.len()
        invariant
            i <= hs@.len(),
            v == headers_view(hs@),
            header_index_from(v, name@, i as int) == header_index(v, name@),
        decreases hs@.len() - i,
    {
        assert(v[i as int] == hs@[i as int]@);
        if eq_ignore_case(hs[i].name.as_str(), name) {
            return i;
        }
        i += 1;
    }
    i
}

/// The first header named `name` (any case).
pub(crate) fn get_header<'a>(hs: &'a Vec<HttpHeader>, name: &str) -> (r: Option<&'a HttpHeader>)
    ensures
        r matches Some(h) ==> lookup_header(headers_view(hs@), name@) == Some(h@),
        r is None ==> lookup_header(headers_view(hs@), name@) is None,
{
    let i = find_header(hs, name);
    if i < hs.len() {
        Some(&hs[i])
    } else {
        None
    }
}

/// Puts `value` under `name`: overwrites the first header of that name (any
/// case), or appends a new one.
pub(crate) fn put_header_in(hs: &mut Vec<HttpHeader>, name: &str, value: String)
    ensures
        headers_view(final(hs)@) == put_header_spec(headers_view(old(hs)@), name@, value@),
        unique_names(headers_view(old(hs)@)) ==> unique_names(headers_view(final(hs)@)),
{
    proof {
        if unique_names(headers_view(hs@)) {
            lemma_put_keeps_unique(headers_view(hs@), name@, value@);
        }
    }
    let i = find_header(hs, name);
    if i < hs.len() {
        let old_name = hs[i].name.clone();
        let h = HttpHeader::from_parts(old_name, value);
        hs.set(i, h);
        assert(headers_view(hs@) == put_header_spec(headers_view(old(hs)@), name@, value@));
    } else {
        hs.push(HttpHeader::from_parts(name.to_string(), value));
        assert(headers_view(hs@) == put_header_spec(headers_view(old(hs)@), name@, value@));
    }
}

/// Removes every header named `name` (any case), keeping the others in order.
pub(crate) fn remove_header_in(hs: &mut Vec<HttpHeader>, name: &str)
    ensures
        headers_view(final(hs)@) == remove_header_spec(headers_view(old(hs)@), name@),
        unique_names(headers_view(old(hs)@)) ==> unique_names(headers_view(final(hs)@)),
{
    proof {
        if unique_names(headers_view(hs@)) {
            lemma_remove_keeps_unique(headers_view(hs@), name@);
        }
    }
    let mut kept: Vec<HttpHeader> = Vec::new();
    let mut i: usize = 0;
    while i < hs.len()
        invariant
            i <= hs@.len(),
            hs@ == old(hs)@,
            headers_view(kept@) == remove_header_spec(
                headers_view(hs@.subrange(0, i as int)),
                name@,
            ),
        decreases hs@.len() - i,
    {
        let ghost pre = hs@.subrange(0, i as int);
        let ghost next = hs@.subrange(0, i + 1);
        assert(headers_view(next).drop_last() == headers_view(pre));
        assert(headers_view(next).last() == hs@[i as int]@);
        if !eq_ignore_case(hs[i].name.as_str(), name) {
            kept.push(hs[i].copy());
        }
        i += 1;
        assert(headers_view(kept@) == remove_header_spec(headers_view(next), name@));
    }
    assert(hs@.subrange(0, i as int) == hs@);
    *hs = kept;
}

} // verus!
