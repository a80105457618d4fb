use vstd::prelude::*;

verus! {

/// A header as the library sees it: its name and its value, both as bytes,
/// and whether the value is marked sensitive.
pub type Header = (Seq<u8>, Seq<u8>, bool);

/// One header of an outgoing request.
#[derive(Debug)]
pub struct HeaderEntry {
    pub name: Vec<u8>,
    pub value: Vec<u8>,
    /// The value must not be compressed into shared tables or logged.
    pub sensitive: bool,
}

impl View for HeaderEntry {
    type V = Header;

    open spec fn view(&self) -> Header {
        (self.name@, self.value@, self.sensitive)
    }
}

impl HeaderEntry {
    /// A header from its name and value bytes and its sensitivity.
    pub fn new(name: Vec<u8>, value: Vec<u8>, sensitive: bool) -> (r: HeaderEntry)
        ensures
            r@ == (name@, value@, sensitive),
    {
        HeaderEntry { name, value, sensitive }
    }

    /// A copy of this header.
    pub fn duplicate(&self) -> (r: HeaderEntry)
        ensures
            r@ == self@,
    {
        let name = self.name.clone();
        let value = self.value.clone();
        assert(name@ =~= self.name@);
        assert(value@ =~= self.value@);
        HeaderEntry { name, value, sensitive: self.sensitive }
    }
}

/// The headers of a list of entries, in order.
pub open spec fn headers_view(h: Seq<HeaderEntry>) -> Seq<Header> {
    h.map_values(|e: HeaderEntry| e@)
}

/// The names of an ordering list.
pub open spec fn names_view(order: Seq<Vec<u8>>) -> Seq<Seq<u8>> {
    order.map_values(|n: Vec<u8>| n@)
}

/// An ASCII byte folded to lower case.
pub open spec fn lower_byte(b: u8) -> u8 {
    if 65 <= b && b <= 90 {
        (b + 32) as u8
    } else {
        b
    }
}

/// A header name folded to lower case, as the map stores it.
pub open spec fn lower_name(n: Seq<u8>) -> Seq<u8> {
    n.map_values(|b: u8| lower_byte(b))
}

/// Every header name is in lower case.
pub open spec fn lower_case_names(s: Seq<Header>) -> bool {
    forall|i: int| 0 <= i < s.len() ==> lower_name(#[trigger] s[i].0) == s[i].0
}

/// The headers of each name stand together.
pub open spec fn grouped(s: Seq<Header>) -> bool {
    forall|i: int, j: int, k: int|
        0 <= i < j < k < s.len() && #[trigger] s[i].0 == #[trigger] s[k].0 ==> #[trigger] s[j].0 == s[i].0
}

/// Two header names are the same name, ignoring ASCII case.
pub open spec fn same_name(a: Seq<u8>, b: Seq<u8>) -> bool {
    a.len() == b.len() && forall|i: int| 0 <= i < a.len() ==> lower_byte(a[i]) == lower_byte(b[i])
}

/// Holds of the headers called `n`.
pub open spec fn named(n: Seq<u8>) -> spec_fn(Header) -> bool {
    |e: Header| same_name(e.0, n)
}

/// Holds of the headers not called `n`.
pub open spec fn not_named(n: Seq<u8>) -> spec_fn(Header) -> bool {
    |e: Header| !same_name(e.0, n)
}

/// `n` is one of the names of the ordering list.
pub open spec fn listed(order: Seq<Seq<u8>>, n: Seq<u8>) -> bool {
    exists|i: int| 0 <= i < order.len() && same_name(order[i], n)
}

/// Holds of the headers whose name the ordering list does not hold.
pub open spec fn unlisted(order: Seq<Seq<u8>>) -> spec_fn(Header) -> bool {
    |e: Header| !listed(order, e.0)
}

/// The headers in canonical order: for each name of the ordering list in turn,
/// every header of that name that is still left, in its original relative
/// order; then the headers that no name of the list took, in their original
/// relative order.
pub open spec fn reorder(h: Seq<Header>, order: Seq<Seq<u8>>) -> Seq<Header>
    decreases order.len(),
{
    if order.len() == 0 {
        h
    } else {
        h.filter(named(order[0])) + reorder(h.filter(not_named(order[0])), order.drop_first())
    }
}

/// The part of the canonical order that the names of the list take.
pub open spec fn listed_part(h: Seq<Header>, order: Seq<Seq<u8>>) -> Seq<Header>
    decreases order.len(),
{
    if order.len() == 0 {
        Seq::empty()
    } else {
        h.filter(named(order[0])) + listed_part(h.filter(not_named(order[0])), order.drop_first())
    }
}

/// The name `content-length`.
pub open spec fn content_length_name() -> Seq<u8> {
    seq![99u8, 111u8, 110u8, 116u8, 101u8, 110u8, 116u8, 45u8, 108u8, 101u8, 110u8, 103u8, 116u8, 104u8]
}

/// Some header of `h` is called `n`.
pub open spec fn has_header(h: Seq<Header>, n: Seq<u8>) -> bool {
    exists|i: int| 0 <= i < h.len() && same_name(h[i].0, n)
}

/// The decimal digits of `n`, most significant first, without leading zeros.
pub open spec fn decimal(n: nat) -> Seq<u8>
    decreases n,
{
    if n < 10 {
        seq![(48 + n) as u8]
    } else {
        decimal(n / 10).push((48 + n % 10) as u8)
    }
}

/// The headers after a `content-length` header, not sensitive, has been
/// added for a body of known exact length, unless one is already there.
pub open spec fn with_content_length(h: Seq<Header>, exact_len: Option<u64>) -> Seq<Header> {
    match exact_len {
        Some(n) => if has_header(h, content_length_name()) {
            h
        } else {
            h.push((content_length_name(), decimal(n as nat), false))
        },
        None => h,
    }
}

/// The headers of a request once they are finalized with an ordering list.
pub open spec fn finalized(h: Seq<Header>, exact_len: Option<u64>, order: Seq<Seq<u8>>) -> Seq<Header> {
    reorder(with_content_length(h, exact_len), order)
}

/// Whether two names are the same, ignoring ASCII case.
pub fn names_match(a: &Vec<u8>, b: &Vec<u8>) -> (r: bool)
    ensures
        r == same_name(a@, b@),
{
    if a.len() != b.len() {
        return false;
    }
    let mut i: usize = 0;
    while i < a.len()
        invariant
            a@.len() == b@.len(),
            i <= a@.len(),
            forall|k: int| 0 <= k < i ==> lower_byte(a@[k]) == lower_byte(b@[k]),
        decreases a@.len() - i,
    {
        let x = a[i];
        let y = b[i];
        let lx: u8 = if 65 <= x && x <= 90 { x + 32 } else { x };
        let ly: u8 = if 65 <= y && y <= 90 { y + 32 } else { y };
        if lx != ly {
            return false;
        }
        i += 1;
    }
    true
}

/// The decimal digits of a number, as a header value holds them.
pub fn decimal_bytes(n: u64) -> (r: Vec<u8>)
    ensures
        r@ == decimal(n as nat),
    decreases n,
{
    if n < 10 {
        let d: u8 = (48 + n) as u8;
        vec![d]
    } else {
        let mut v = decimal_bytes(n / 10);
        let d: u8 = (48 + n % 10) as u8;
        v.push(d);
        v
    }
}

/// The bytes of `content-length`.
pub fn content_length_bytes() -> (r: Vec<u8>)
    ensures
        r@ == content_length_name(),
{
    let r = vec![99u8, 111u8, 110u8, 116u8, 101u8, 110u8, 116u8, 45u8, 108u8, 101u8, 110u8, 103u8, 116u8, 104u8];
    assert(r@ =~= content_length_name());
    r
}

/// Whether some header of the list is called `name`.
pub fn contains_header(headers: &Vec<HeaderEntry>, name: &Vec<u8>) -> (r: bool)
    ensures
        r == has_header(headers_view(headers@), name@),
{
    let mut i: usize = 0;
    while i < headers.len()
        invariant
            i <= headers@.len(),
            forall|k: int| 0 <= k < i ==> !same_name(#[trigger] headers@[k].name@, name@),
        decreases headers@.len() - i,
    {
        if names_match(&headers[i].name, name) {
            assert(same_name(headers_view(headers@)[i as int].0, name@));
            return true;
        }
        i += 1;
    }
    assert forall|k: int| 0 <= k < headers_view(headers@).len() implies !same_name(headers_view(headers@)[k].0, name@) by {
        assert(headers_view(headers@)[k].0 == headers@[k].name@);
    }
    false
}

/// Adds a `content-length` header carrying the body's exact length, when that
/// length is known and the request has no such header yet. A header that the
/// caller set is never overwritten.
pub fn add_content_length_header(exact_len: Option<u64>, headers: &mut Vec<HeaderEntry>)
    ensures
        headers_view(final(headers)@) == with_content_length(headers_view(old(headers)@), exact_len),
{
    if let Some(len) = exact_len {
        let name = content_length_bytes();
        if !contains_header(headers, &name) {
            let value = decimal_bytes(len);
            let ghost before = headers@;
            headers.push(HeaderEntry { name, value, sensitive: false });
            assert(headers_view(headers@) =~= headers_view(before).push((content_length_name(), decimal(len as nat), false)));
        }
    }
}

/// Splits the headers into those called `name` and the others, each part in
/// the original relative order.
pub fn partition_by_name(headers: &Vec<HeaderEntry>, name: &Vec<u8>) -> (r: (Vec<HeaderEntry>, Vec<HeaderEntry>))
    ensures
        headers_view(r.0@) == headers_view(headers@).filter(named(name@)),
        headers_view(r.1@) == headers_view(headers@).filter(not_named(name@)),
{
    let mut taken: Vec<HeaderEntry> = Vec::new();
    let mut others: Vec<HeaderEntry> = Vec::new();
    let ghost s = headers_view(headers@);
    let mut j: usize = 0;
    while j < headers.len()
        invariant
            s == headers_view(headers@),
            j <= headers@.len(),
            headers_view(taken@) == s.subrange(0, j as int).filter(named(name@)),
            headers_view(others@) == s.subrange(0, j as int).filter(not_named(name@)),
        decreases headers@.len() - j,
    {
        let e = headers[j].duplicate();
        proof {
            reveal(Seq::filter);
            assert(s.subrange(0, j + 1).drop_last() =~= s.subrange(0, j as int));
            assert(s.subrange(0, j + 1).last() == e@);
        }
        let ghost t0 = taken@;
        let ghost o0 = others@;
        if names_match(&e.name, name) {
            taken.push(e);
            assert(headers_view(taken@) =~= headers_view(t0).push(e@));
        } else {
            others.push(e);
            assert(headers_view(others@) =~= headers_view(o0).push(e@));
        }
        j += 1;
    }
    assert(s.subrange(0, headers@.len() as int) =~= s);
    (taken, others)
}

/// Puts the headers in canonical order: the headers named by the ordering
/// list first, in the list's order, each name's headers together and in their
/// original relative order; then every other header, in its original relative
/// order.
pub fn sort_headers(headers: &mut Vec<HeaderEntry>, order: &Vec<Vec<u8>>)
    ensures
        headers_view(final(headers)@) == reorder(headers_view(old(headers)@), names_view(order@)),
{
    let ghost target = reorder(headers_view(headers@), names_view(order@));
    let mut rest: Vec<HeaderEntry> = Vec::new();
    std::mem::swap(headers, &mut rest);
    let mut out: Vec<HeaderEntry> = Vec::new();
    let mut i: usize = 0;
    proof {
        assert(names_view(order@).subrange(0, order@.len() as int) =~= names_view(order@));
        let r = reorder(headers_view(rest@), names_view(order@));
        assert(headers_view(out@) + r =~= r);
    }
    while i < order.len()
        invariant
            i <= order@.len(),
            headers_view(out@) + reorder(headers_view(rest@), names_view(order@).subrange(i as int, order@.len() as int)) == target,
        decreases order@.len() - i,
    {
        let (mut taken, others) = partition_by_name(&rest, &order[i]);
        proof {
            let o = names_view(order@).subrange(i as int, order@.len() as int);
            assert(o[0] == order@[i as int]@);
            assert(o.drop_first() =~= names_view(order@).subrange(i + 1, order@.len() as int));
            let r = reorder(headers_view(others@), o.drop_first());
            assert(headers_view(out@) + (headers_view(taken@) + r) =~= headers_view(out@) + headers_view(taken@) + r);
        }
        let ghost out0 = out@;
        let ghost taken0 = taken@;
        out.append(&mut taken);
        assert(headers_view(out@) =~= headers_view(out0) + headers_view(taken0));
        rest = others;
        i += 1;
    }
    assert(names_view(order@).subrange(order@.len() as int, order@.len() as int) =~= Seq::<Seq<u8>>::empty());
    let ghost out0 = out@;
    let ghost rest0 = rest@;
    out.append(&mut rest);
    assert(headers_view(out@) =~= headers_view(out0) + headers_view(rest0));
    *headers = out;
}

/// Finalizes the headers of a request: adds `content-length` where the body's
/// exact length is known and none was set, then puts the headers in canonical
/// order.
pub fn finalize_headers(headers: &mut Vec<HeaderEntry>, exact_len: Option<u64>, order: &Vec<Vec<u8>>)
    ensures
        headers_view(final(headers)@) == finalized(headers_view(old(headers)@), exact_len, names_view(order@)),
{
    add_content_length_header(exact_len, headers);
    sort_headers(headers, order);
}

proof fn lemma_filter_all(s: Seq<Header>, p: spec_fn(Header) -> bool)
    requires
        forall|i: int| 0 <= i < s.len() ==> p(s[i]),
    ensures
        s.filter(p) == s,
    decreases s.len(),
{
    reveal(Seq::filter);
    if s.len() > 0 {
        lemma_filter_all(s.drop_last(), p);
        assert(s.drop_last().push(s.last()) =~= s);
    }
}

proof fn lemma_filter_none(s: Seq<Header>, p: spec_fn(Header) -> bool)
    requires
        forall|i: int| 0 <= i < s.len() ==> !p(s[i]),
    ensures
        s.filter(p) == Seq::<Header>::empty(),
    decreases s.len(),
{
    reveal(Seq::filter);
    if s.len() > 0 {
        lemma_filter_none(s.drop_last(), p);
    } else {
        assert(s =~= Seq::<Header>::empty());
    }
}

proof fn lemma_filter_filter(s: Seq<Header>, p: spec_fn(Header) -> bool, q: spec_fn(Header) -> bool)
    ensures
        s.filter(p).filter(q) == s.filter(|e: Header| p(e) && q(e)),
    decreases s.len(),
{
    reveal(Seq::filter);
    if s.len() > 0 {
        lemma_filter_filter(s.drop_last(), p, q);
        let a = s.drop_last().filter(p);
        assert(a.push(s.last()).drop_last() =~= a);
    }
}

/// Canonical ordering keeps exactly the headers it was given.
pub proof fn lemma_reorder_same_headers(h: Seq<Header>, order: Seq<Seq<u8>>)
    ensures
        forall|e: Header| h.contains(e) <==> #[trigger] reorder(h, order).contains(e),
        reorder(h, order).len() == h.len(),
    decreases order.len(),
{
    if order.len() > 0 {
        let p = named(order[0]);
        let np = not_named(order[0]);
        let g = h.filter(p);
        let r = h.filter(np);
        lemma_reorder_same_headers(r, order.drop_first());
        let x = reorder(r, order.drop_first());
        lemma_filter_split_len(h, order[0]);
        assert forall|e: Header| h.contains(e) <==> #[trigger] (g + x).contains(e) by {
            if h.contains(e) {
                let i = choose|i: int| 0 <= i < h.len() && h[i] == e;
                if p(e) {
                    h.lemma_filter_contains(p, i);
                    let k = choose|k: int| 0 <= k < g.len() && g[k] == e;
                    assert((g + x)[k] == e);
                } else {
                    h.lemma_filter_contains(np, i);
                    assert(r.contains(e));
                    assert(x.contains(e));
                    let k = choose|k: int| 0 <= k < x.len() && x[k] == e;
                    assert((g + x)[g.len() + k] == e);
                }
            }
            if (g + x).contains(e) {
                let k = choose|k: int| 0 <= k < (g + x).len() && (g + x)[k] == e;
                if k < g.len() {
                    assert(g.contains(e));
                    h.lemma_filter_contains_rev(p, e);
                } else {
                    assert(x[k - g.len()] == e);
                    assert(x.contains(e));
                    assert(r.contains(e));
                    h.lemma_filter_contains_rev(np, e);
                }
            }
        }
    }
}

proof fn lemma_filter_split_len(h: Seq<Header>, n: Seq<u8>)
    ensures
        h.filter(named(n)).len() + h.filter(not_named(n)).len() == h.len(),
    decreases h.len(),
{
    reveal(Seq::filter);
    if h.len() > 0 {
        lemma_filter_split_len(h.drop_last(), n);
    }
}

/// Putting headers in canonical order a second time changes nothing.
pub proof fn lemma_reorder_idempotent(h: Seq<Header>, order: Seq<Seq<u8>>)
    ensures
        reorder(reorder(h, order), order) == reorder(h, order),
    decreases order.len(),
{
    broadcast use vstd::seq_lib::group_filter_ensures;

    if order.len() > 0 {
        let p = named(order[0]);
        let np = not_named(order[0]);
        let g = h.filter(p);
        let r = h.filter(np);
        let rest = order.drop_first();
        let x = reorder(r, rest);
        lemma_reorder_same_headers(r, rest);
        assert forall|i: int| 0 <= i < x.len() implies !p(x[i]) by {
            assert(x.contains(x[i]));
            assert(r.contains(x[i]));
            let k = choose|k: int| 0 <= k < r.len() && r[k] == x[i];
        }
        Seq::filter_distributes_over_add(g, x, p);
        Seq::filter_distributes_over_add(g, x, np);
        lemma_filter_all(g, p);
        lemma_filter_none(x, p);
        lemma_filter_none(g, np);
        lemma_filter_all(x, np);
        assert((g + x).filter(p) =~= g);
        assert((g + x).filter(np) =~= x);
        lemma_reorder_idempotent(r, rest);
    }
}

/// The canonical order puts the headers that the ordering list names first, in
/// the list's order, and then every other header in its original relative order.
pub proof fn lemma_reorder_placement(h: Seq<Header>, order: Seq<Seq<u8>>)
    ensures
        reorder(h, order) == listed_part(h, order) + h.filter(unlisted(order)),
        forall|i: int| 0 <= i < listed_part(h, order).len() ==> listed(order, #[trigger] listed_part(h, order)[i].0),
    decreases order.len(),
{
    broadcast use vstd::seq_lib::group_filter_ensures;

    if order.len() == 0 {
        assert forall|i: int| 0 <= i < h.len() implies unlisted(order)(h[i]) by {}
        lemma_filter_all(h, unlisted(order));
        assert(reorder(h, order) =~= listed_part(h, order) + h.filter(unlisted(order)));
    } else {
        let n = order[0];
        let rest = order.drop_first();
        let g = h.filter(named(n));
        let r = h.filter(not_named(n));
        lemma_reorder_placement(r, rest);
        lemma_filter_filter(h, not_named(n), unlisted(rest));
        assert forall|e: Header| #[trigger] unlisted(order)(e) == (not_named(n)(e) && unlisted(rest)(e)) by {
            if listed(order, e.0) {
                let i = choose|i: int| 0 <= i < order.len() && same_name(order[i], e.0);
                if i > 0 {
                    assert(rest[i - 1] == order[i]);
                } else {
                    assert forall|k: int| 0 <= k < e.0.len() implies lower_byte(e.0[k]) == lower_byte(n[k]) by {}
                }
            }
            if listed(rest, e.0) {
                let i = choose|i: int| 0 <= i < rest.len() && same_name(rest[i], e.0);
                assert(order[i + 1] == rest[i]);
            }
            if same_name(e.0, n) {
                assert forall|k: int| 0 <= k < n.len() implies lower_byte(n[k]) == lower_byte(e.0[k]) by {}
                assert(same_name(order[0], e.0));
            }
        }
        assert((|e: Header| not_named(n)(e) && unlisted(rest)(e)) =~= unlisted(order));
        assert(g + (listed_part(r, rest) + h.filter(unlisted(order))) =~= g + listed_part(r, rest) + h.filter(unlisted(order)));
        let lp = listed_part(h, order);
        assert forall|i: int| 0 <= i < lp.len() implies listed(order, #[trigger] lp[i].0) by {
            if i < g.len() {
                assert(same_name(g[i].0, n));
                assert forall|k: int| 0 <= k < n.len() implies lower_byte(n[k]) == lower_byte(g[i].0[k]) by {}
                assert(same_name(order[0], lp[i].0));
            } else {
                let lr = listed_part(r, rest);
                assert(lp[i] == lr[i - g.len()]);
                assert(listed(rest, lr[i - g.len()].0));
                let j = choose|j: int| 0 <= j < rest.len() && same_name(rest[j], lr[i - g.len()].0);
                assert(order[j + 1] == rest[j]);
            }
        }
    }
}

/// A list in which a name's headers stand together, each name in lower case:
/// the shape of the headers of an `http` header map.
pub open spec fn well_formed_headers(s: Seq<Header>) -> bool {
    grouped(s) && lower_case_names(s)
}

proof fn lemma_lower_same_name_eq(x: Seq<u8>, y: Seq<u8>, n: Seq<u8>)
    requires
        lower_name(x) == x,
        lower_name(y) == y,
        same_name(x, n),
        same_name(y, n),
    ensures
        x == y,
{
    assert forall|i: int| 0 <= i < x.len() implies x[i] == y[i] by {
        assert(lower_name(x)[i] == lower_byte(x[i]));
        assert(lower_name(y)[i] == lower_byte(y[i]));
    }
    assert(x =~= y);
}

proof fn lemma_same_name_refl(x: Seq<u8>)
    ensures
        same_name(x, x),
{
}

proof fn lemma_grouped_push(s: Seq<Header>, e: Header)
    ensures
        grouped(s.push(e)) <==> grouped(s) && (has_name(s, e.0) ==> s.last().0 == e.0),
{
    let t = s.push(e);
    if grouped(t) {
        assert forall|i: int, j: int, k: int|
            0 <= i < j < k < s.len() && #[trigger] s[i].0 == #[trigger] s[k].0 implies #[trigger] s[j].0 == s[i].0 by {
            assert(t[i] == s[i] && t[j] == s[j] && t[k] == s[k]);
        }
        if has_name(s, e.0) {
            let i = choose|i: int| 0 <= i < s.len() && s[i].0 == e.0;
            if i < s.len() - 1 {
                assert(t[i].0 == t[s.len() as int].0);
                assert(t[s.len() - 1].0 == t[i].0);
            }
        }
    }
    if grouped(s) && (has_name(s, e.0) ==> s.last().0 == e.0) {
        assert forall|i: int, j: int, k: int|
            0 <= i < j < k < t.len() && #[trigger] t[i].0 == #[trigger] t[k].0 implies #[trigger] t[j].0 == t[i].0 by {
            if k < s.len() {
                assert(t[i] == s[i] && t[j] == s[j] && t[k] == s[k]);
            } else {
                assert(t[i] == s[i] && has_name(s, e.0));
                if j < s.len() - 1 {
                    assert(s[s.len() - 1].0 == s[i].0);
                    assert(s[j].0 == s[i].0);
                }
            }
        }
    }
}

/// Some header of `s` has exactly the name `n`.
pub open spec fn has_name(s: Seq<Header>, n: Seq<u8>) -> bool {
    exists|i: int| 0 <= i < s.len() && s[i].0 == n
}

/// A predicate that looks at the header's name only.
pub open spec fn by_name(p: spec_fn(Header) -> bool) -> bool {
    forall|x: Header, y: Header| x.0 == y.0 ==> p(x) == p(y)
}

proof fn lemma_filter_grouped(s: Seq<Header>, p: spec_fn(Header) -> bool)
    requires
        grouped(s),
        by_name(p),
    ensures
        grouped(s.filter(p)),
    decreases s.len(),
{
    reveal(Seq::filter);
    if s.len() > 0 {
        let t = s.drop_last();
        let e = s.last();
        assert(t.push(e) =~= s);
        lemma_grouped_push(t, e);
        lemma_filter_grouped(t, p);
        let f = t.filter(p);
        if p(e) {
            if has_name(f, e.0) {
                let i = choose|i: int| 0 <= i < f.len() && f[i].0 == e.0;
                assert(f.contains(f[i]));
                t.lemma_filter_contains_rev(p, f[i]);
                let k = choose|k: int| 0 <= k < t.len() && t[k] == f[i];
                assert(has_name(t, e.0));
                assert(t.last().0 == e.0);
                assert(p(t.last()));
                assert(t.drop_last().push(t.last()) =~= t);
                assert(f == t.drop_last().filter(p).push(t.last()));
            }
            lemma_grouped_push(f, e);
        }
    }
}

proof fn lemma_concat_grouped(a: Seq<Header>, b: Seq<Header>)
    requires
        grouped(a),
        grouped(b),
        forall|i: int, j: int| 0 <= i < a.len() && 0 <= j < b.len() ==> a[i].0 != b[j].0,
    ensures
        grouped(a + b),
{
    let c = a + b;
    assert forall|i: int, j: int, k: int|
        0 <= i < j < k < c.len() && #[trigger] c[i].0 == #[trigger] c[k].0 implies #[trigger] c[j].0 == c[i].0 by {
        if k < a.len() {
            assert(c[i] == a[i] && c[j] == a[j] && c[k] == a[k]);
        } else if i >= a.len() {
            assert(c[i] == b[i - a.len()] && c[j] == b[j - a.len()] && c[k] == b[k - a.len()]);
        } else {
            assert(c[i] == a[i] && c[k] == b[k - a.len()]);
        }
    }
}

proof fn lemma_members_lower_case(s: Seq<Header>, t: Seq<Header>)
    requires
        lower_case_names(s),
        forall|e: Header| t.contains(e) ==> s.contains(e),
    ensures
        lower_case_names(t),
{
    assert forall|i: int| 0 <= i < t.len() implies lower_name(#[trigger] t[i].0) == t[i].0 by {
        assert(t.contains(t[i]));
        let k = choose|k: int| 0 <= k < s.len() && s[k] == t[i];
    }
}

/// Canonical ordering keeps a list well formed: a name's headers still stand
/// together, and names stay in lower case.
pub proof fn lemma_reorder_well_formed(h: Seq<Header>, order: Seq<Seq<u8>>)
    requires
        well_formed_headers(h),
    ensures
        well_formed_headers(reorder(h, order)),
    decreases order.len(),
{
    broadcast use vstd::seq_lib::group_filter_ensures;

    lemma_reorder_same_headers(h, order);
    lemma_members_lower_case(h, reorder(h, order));
    if order.len() > 0 {
        let n = order[0];
        let g = h.filter(named(n));
        let r = h.filter(not_named(n));
        let x = reorder(r, order.drop_first());
        assert forall|e: Header| g.contains(e) implies h.contains(e) by {
            h.lemma_filter_contains_rev(named(n), e);
        }
        assert forall|e: Header| r.contains(e) implies h.contains(e) by {
            h.lemma_filter_contains_rev(not_named(n), e);
        }
        lemma_members_lower_case(h, g);
        lemma_members_lower_case(h, r);
        assert(by_name(not_named(n)));
        lemma_filter_grouped(h, not_named(n));
        lemma_reorder_well_formed(r, order.drop_first());
        lemma_reorder_same_headers(r, order.drop_first());
        assert forall|i: int, j: int, k: int|
            0 <= i < j < k < g.len() && #[trigger] g[i].0 == #[trigger] g[k].0 implies #[trigger] g[j].0 == g[i].0 by {
            lemma_lower_same_name_eq(g[j].0, g[i].0, n);
        }
        assert forall|i: int, j: int| 0 <= i < g.len() && 0 <= j < x.len() implies g[i].0 != x[j].0 by {
            assert(x.contains(x[j]));
            assert(r.contains(x[j]));
            assert(!same_name(x[j].0, n));
        }
        lemma_concat_grouped(g, x);
    }
}

/// Finalizing keeps a list well formed; the `content-length` header that may
/// be added is a new name at the end.
pub proof fn lemma_finalized_well_formed(h: Seq<Header>, exact_len: Option<u64>, order: Seq<Seq<u8>>)
    requires
        well_formed_headers(h),
    ensures
        well_formed_headers(finalized(h, exact_len, order)),
{
    let w = with_content_length(h, exact_len);
    if w != h {
        let n = exact_len->Some_0;
        let e = (content_length_name(), decimal(n as nat), false);
        assert(w == h.push(e));
        if has_name(h, e.0) {
            let i = choose|i: int| 0 <= i < h.len() && h[i].0 == e.0;
            lemma_same_name_refl(e.0);
            assert(has_header(h, content_length_name()));
        }
        lemma_grouped_push(h, e);
        assert(lower_name(content_length_name()) =~= content_length_name());
        assert forall|i: int| 0 <= i < w.len() implies lower_name(#[trigger] w[i].0) == w[i].0 by {
            if i < h.len() {
                assert(w[i] == h[i]);
            }
        }
    }
    lemma_reorder_well_formed(w, order);
}

proof fn lemma_same_name_trans(a: Seq<u8>, b: Seq<u8>, c: Seq<u8>)
    ensures
        same_name(a, b) && same_name(b, c) ==> same_name(a, c),
        same_name(a, b) ==> same_name(b, a),
{
}

proof fn lemma_filter_ext(s: Seq<Header>, p: spec_fn(Header) -> bool, q: spec_fn(Header) -> bool)
    requires
        forall|e: Header| #[trigger] p(e) == q(e),
    ensures
        s.filter(p) == s.filter(q),
{
    assert(p =~= q);
}

/// Canonical ordering keeps the headers of each name, in their order.
pub proof fn lemma_reorder_keeps_name(h: Seq<Header>, order: Seq<Seq<u8>>, n: Seq<u8>)
    ensures
        reorder(h, order).filter(named(n)) == h.filter(named(n)),
    decreases order.len(),
{
    broadcast use vstd::seq_lib::group_filter_ensures;

    if order.len() > 0 {
        let o = order[0];
        let g = h.filter(named(o));
        let r = h.filter(not_named(o));
        let x = reorder(r, order.drop_first());
        lemma_reorder_keeps_name(r, order.drop_first(), n);
        Seq::filter_distributes_over_add(g, x, named(n));
        lemma_filter_filter(h, not_named(o), named(n));
        lemma_filter_filter(h, named(o), named(n));
        assert forall|e: Header| #[trigger] same_name(e.0, o) implies (same_name(e.0, n) <==> same_name(o, n)) by {
            lemma_same_name_trans(e.0, o, n);
            lemma_same_name_trans(o, e.0, n);
            lemma_same_name_trans(e.0, n, o);
            lemma_same_name_trans(n, o, e.0);
        }
        if same_name(o, n) {
            lemma_filter_ext(h, |e: Header| named(o)(e) && named(n)(e), named(o));
            lemma_filter_ext(h, |e: Header| not_named(o)(e) && named(n)(e), |e: Header| false);
            lemma_filter_none(h, |e: Header| false);
            lemma_filter_ext(h, named(n), named(o));
            assert(g.filter(named(n)) + x.filter(named(n)) =~= g);
        } else {
            lemma_filter_ext(h, |e: Header| named(o)(e) && named(n)(e), |e: Header| false);
            lemma_filter_none(h, |e: Header| false);
            lemma_filter_ext(h, |e: Header| not_named(o)(e) && named(n)(e), named(n));
            assert(g.filter(named(n)) + x.filter(named(n)) =~= x.filter(named(n)));
        }
    }
}

/// For a body of known exact length, the finalized headers hold exactly one
/// `content-length` header, with that length, when the caller set none; when
/// the caller set one, its headers of that name come out exactly as given.
pub proof fn lemma_content_length_exact(h: Seq<Header>, len: u64, order: Seq<Seq<u8>>)
    ensures
        !has_header(h, content_length_name()) ==> finalized(h, Some(len), order).filter(named(content_length_name()))
            == seq![(content_length_name(), decimal(len as nat), false)],
        has_header(h, content_length_name()) ==> finalized(h, Some(len), order).filter(named(content_length_name()))
            == h.filter(named(content_length_name())),
{
    let cl = content_length_name();
    let w = with_content_length(h, Some(len));
    lemma_reorder_keeps_name(w, order, cl);
    if !has_header(h, cl) {
        let e = (cl, decimal(len as nat), false);
        assert forall|i: int| 0 <= i < h.len() implies !named(cl)(h[i]) by {}
        lemma_filter_none(h, named(cl));
        reveal(Seq::filter);
        assert(w.drop_last() =~= h);
        lemma_same_name_refl(cl);
        assert(w.filter(named(cl)) =~= seq![e]);
    }
}

/// The position of the first name of the ordering list that `n` matches.
pub open spec fn first_index(order: Seq<Seq<u8>>, n: Seq<u8>) -> nat
    decreases order.len(),
{
    if order.len() == 0 || same_name(order[0], n) {
        0
    } else {
        1 + first_index(order.drop_first(), n)
    }
}

proof fn lemma_listed_part_index(h: Seq<Header>, order: Seq<Seq<u8>>)
    ensures
        forall|i: int, j: int|
            0 <= i < j < listed_part(h, order).len() ==> first_index(order, #[trigger] listed_part(h, order)[i].0)
                <= first_index(order, #[trigger] listed_part(h, order)[j].0),
        forall|e: Header| #[trigger] listed_part(h, order).contains(e) ==> h.contains(e),
    decreases order.len(),
{
    broadcast use vstd::seq_lib::group_filter_ensures;

    if order.len() > 0 {
        let o = order[0];
        let rest = order.drop_first();
        let g = h.filter(named(o));
        let r = h.filter(not_named(o));
        let lr = listed_part(r, rest);
        let lp = listed_part(h, order);
        lemma_listed_part_index(r, rest);
        assert forall|e: Header| #[trigger] lp.contains(e) implies h.contains(e) by {
            let k = choose|k: int| 0 <= k < lp.len() && lp[k] == e;
            if k < g.len() {
                assert(g.contains(e));
                h.lemma_filter_contains_rev(named(o), e);
            } else {
                assert(lr[k - g.len()] == e);
                assert(lr.contains(e));
                h.lemma_filter_contains_rev(not_named(o), e);
            }
        }
        assert forall|i: int, j: int|
            0 <= i < j < lp.len() implies first_index(order, #[trigger] lp[i].0) <= first_index(order, #[trigger] lp[j].0) by {
            if j < g.len() {
                lemma_same_name_trans(g[i].0, o, o);
                lemma_same_name_trans(g[j].0, o, o);
                assert(same_name(o, lp[i].0) && same_name(o, lp[j].0));
            } else if i < g.len() {
                lemma_same_name_trans(g[i].0, o, o);
                assert(same_name(o, lp[i].0));
            } else {
                assert(lp[i] == lr[i - g.len()] && lp[j] == lr[j - g.len()]);
                assert(lr.contains(lr[i - g.len()]) && lr.contains(lr[j - g.len()]));
                assert(r.contains(lp[i]) && r.contains(lp[j]));
                lemma_same_name_trans(lp[i].0, o, o);
                lemma_same_name_trans(o, lp[i].0, o);
                lemma_same_name_trans(lp[j].0, o, o);
                lemma_same_name_trans(o, lp[j].0, o);
            }
        }
    }
}

/// In the canonical order, of two headers whose names the ordering list
/// holds, the earlier one's name comes no later in the list than the later
/// one's.
pub proof fn lemma_reorder_follows_list(h: Seq<Header>, order: Seq<Seq<u8>>)
    ensures
        forall|i: int, j: int|
            0 <= i < j < reorder(h, order).len() && listed(order, reorder(h, order)[i].0) && listed(
                order,
                reorder(h, order)[j].0,
            ) ==> first_index(order, #[trigger] reorder(h, order)[i].0) <= first_index(
                order,
                #[trigger] reorder(h, order)[j].0,
            ),
{
    broadcast use vstd::seq_lib::group_filter_ensures;

    lemma_reorder_placement(h, order);
    lemma_listed_part_index(h, order);
    let lp = listed_part(h, order);
    let u = h.filter(unlisted(order));
    let s = reorder(h, order);
    assert forall|i: int, j: int|
        0 <= i < j < s.len() && listed(order, s[i].0) && listed(order, s[j].0) implies first_index(
            order,
            #[trigger] s[i].0,
        ) <= first_index(order, #[trigger] s[j].0) by {
        if j >= lp.len() {
            assert(s[j] == u[j - lp.len()]);
            assert(unlisted(order)(u[j - lp.len()]));
        }
        assert(s[i] == lp[i] && s[j] == lp[j]);
    }
}

} // verus!
