use vstd::prelude::*;

use crate::headers::{
    content_length_name, decimal, finalize_headers, finalized, grouped, headers_view, lemma_finalized_well_formed,
    lemma_reorder_same_headers, lower_case_names, names_view, well_formed_headers, with_content_length, Header,
    HeaderEntry,
};

verus! {

#[verifier::external_type_specification]
#[verifier::external_body]
pub struct ExHeaderValue(http::HeaderValue);

#[verifier::external_type_specification]
#[verifier::external_body]
#[verifier::reject_recursive_types(T)]
pub struct ExHeaderMap<T>(http::HeaderMap<T>);

/// The headers of an `http` header map, in the order its iterator yields them,
/// each with the sensitivity of its value.
pub uninterp spec fn header_map_entries(m: http::HeaderMap) -> Seq<Header>;

/// A byte that may stand in a lower-case header name: a lower-case token
/// character, or `"`.
pub open spec fn header_name_byte(b: u8) -> bool {
    (33 <= b && b <= 39) || b == 42 || b == 43 || b == 45 || b == 46 || (48 <= b && b <= 57) || (94 <= b && b
        <= 122) || b == 124 || b == 126
}

/// A lower-case name that a header map accepts, and that every name a map
/// holds is.
pub open spec fn valid_header_name(n: Seq<u8>) -> bool {
    0 < n.len() <= 65535 && forall|i: int| 0 <= i < n.len() ==> header_name_byte(#[trigger] n[i])
}

/// A value that a header map accepts: tab, or a byte from 32 up other than 127.
pub open spec fn valid_header_value(v: Seq<u8>) -> bool {
    forall|i: int| 0 <= i < v.len() ==> (#[trigger] v[i] == 9 || (32 <= v[i] && v[i] != 127))
}

/// Every header of the list has a name that a header map accepts.
pub open spec fn valid_names(s: Seq<Header>) -> bool {
    forall|i: int| #![trigger s[i]] 0 <= i < s.len() ==> valid_header_name(s[i].0)
}

/// Every header of the list has a value that a header map accepts.
pub open spec fn valid_values(s: Seq<Header>) -> bool {
    forall|i: int| #![trigger s[i]] 0 <= i < s.len() ==> valid_header_value(s[i].1)
}

/// The most headers a map may hold for a further one to be appended surely.
pub open spec fn header_map_room() -> nat {
    6552
}

/// The headers after one more is appended to a map: it goes right after the
/// last header of the same name, or last when the map has no such header.
pub open spec fn appended(s: Seq<Header>, e: Header) -> Seq<Header> {
    if exists|i: int| 0 <= i < s.len() && s[i].0 == e.0 {
        let k = choose|k: int|
            0 <= k < s.len() && s[k].0 == e.0 && forall|j: int| k < j < s.len() ==> s[j].0 != e.0;
        s.insert(k + 1, e)
    } else {
        s.push(e)
    }
}

/// The headers of a new map after each of `v` was appended in turn.
pub open spec fn appended_all(v: Seq<Header>) -> Seq<Header>
    decreases v.len(),
{
    if v.len() == 0 {
        Seq::empty()
    } else {
        appended(appended_all(v.drop_last()), v.last())
    }
}

/// Relies on `http::HeaderMap::new`: a new map holds no header.
#[verifier::external_body]
pub(crate) fn empty_header_map() -> (r: http::HeaderMap)
    ensures
        header_map_entries(r) == Seq::<Header>::empty(),
{
    http::HeaderMap::new()
}

/// Relies on `http::HeaderMap::iter`, which yields every header in the map's
/// order, each name's values together; names are taken by `HeaderName::as_str`
/// (lower case, and only bytes that `HeaderName::from_lowercase` admits),
/// values by `HeaderValue::as_bytes` and `HeaderValue::is_sensitive`.
#[verifier::external_body]
fn header_map_iter(m: &http::HeaderMap) -> (r: Vec<HeaderEntry>)
    ensures
        headers_view(r@) == header_map_entries(*m),
        grouped(headers_view(r@)),
        lower_case_names(headers_view(r@)),
        valid_names(headers_view(r@)),
{
    m.iter().map(|(k, v)| HeaderEntry::new(k.as_str().as_bytes().to_vec(), v.as_bytes().to_vec(), v.is_sensitive())).collect()
}

/// Relies on `http::HeaderMap::try_append`, after `HeaderName::from_lowercase`
/// (which keeps the name as given) and `HeaderValue::from_bytes` (which keeps
/// the bytes) with `HeaderValue::set_sensitive`: on success the value joins
/// the end of its name's values, or the name is added last; an invalid name
/// or value, or a full map, leaves its headers as they were. A valid name and
/// value always go into a map that holds fewer than 6552 names
/// (`try_reserve_one` only fails once the index table would outgrow `MAX_SIZE`).
#[verifier::external_body]
fn try_append_header(m: &mut http::HeaderMap, name: &Vec<u8>, value: &Vec<u8>, sensitive: bool) -> (r: bool)
    ensures
        valid_header_name(name@) && valid_header_value(value@) && header_map_entries(*old(m)).len() < header_map_room()
            ==> r,
        r ==> header_map_entries(*final(m)) == appended(header_map_entries(*old(m)), (name@, value@, sensitive)),
        !r ==> header_map_entries(*final(m)) == header_map_entries(*old(m)),
{
    let (Ok(n), Ok(mut v)) = (http::HeaderName::from_lowercase(name), http::HeaderValue::from_bytes(value)) else {
        return false;
    };
    v.set_sensitive(sensitive);
    m.try_append(n, v).is_ok()
}

/// Finalizes the headers of an `http` map in place: adds `content-length`
/// for a body of known exact length unless the map has one, and puts the
/// headers in canonical order, each value with its sensitivity. Returns
/// `false`, with the map unchanged, when the map refused a header, which
/// cannot happen to a map of fewer than 6552 headers whose values are all
/// valid.
pub fn finalize_header_map(map: &mut http::HeaderMap, exact_len: Option<u64>, order: &Vec<Vec<u8>>) -> (r: bool)
    ensures
        valid_values(header_map_entries(*old(map))) && header_map_entries(*old(map)).len() < header_map_room() ==> r,
        r ==> header_map_entries(*final(map)) == finalized(header_map_entries(*old(map)), exact_len, names_view(order@)),
        !r ==> *final(map) == *old(map),
{
    let mut entries = header_map_iter(map);
    let ghost source = headers_view(entries@);
    finalize_headers(&mut entries, exact_len, order);
    let ghost target = headers_view(entries@);
    proof {
        lemma_finalized_well_formed(source, exact_len, names_view(order@));
        lemma_finalized_valid(source, exact_len, names_view(order@));
    }
    let mut out = empty_header_map();
    let mut i: usize = 0;
    assert(target.subrange(0, 0) =~= Seq::<Header>::empty());
    while i < entries.len()
        invariant
            target == headers_view(entries@),
            target == finalized(source, exact_len, names_view(order@)),
            target.len() <= source.len() + 1,
            source == header_map_entries(*old(map)),
            well_formed_headers(target),
            valid_names(target),
            valid_values(source) ==> valid_values(target),
            i <= entries@.len(),
            header_map_entries(out) == target.subrange(0, i as int),
        decreases entries@.len() - i,
    {
        assert(target[i as int] == entries@[i as int]@);
        if !try_append_header(&mut out, &entries[i].name, &entries[i].value, entries[i].sensitive) {
            return false;
        }
        proof {
            lemma_prefix_appended(target, i as int);
        }
        i += 1;
    }
    assert(target.subrange(0, entries@.len() as int) =~= target);
    *map = out;
    true
}

proof fn lemma_prefix_appended(t: Seq<Header>, i: int)
    requires
        grouped(t),
        0 <= i < t.len(),
    ensures
        appended(t.subrange(0, i), t[i]) == t.subrange(0, i + 1),
{
    let p = t.subrange(0, i + 1);
    assert(p.drop_last() =~= t.subrange(0, i));
    assert(p.last() == t[i]);
    assert forall|a: int, b: int, c: int|
        0 <= a < b < c < p.len() && #[trigger] p[a].0 == #[trigger] p[c].0 implies #[trigger] p[b].0 == p[a].0 by {
        assert(p[a] == t[a] && p[b] == t[b] && p[c] == t[c]);
    }
    lemma_appended_all_grouped(p);
    lemma_appended_all_grouped(p.drop_last());
}

proof fn lemma_decimal_valid(n: nat)
    ensures
        valid_header_value(decimal(n)),
    decreases n,
{
    if n >= 10 {
        lemma_decimal_valid(n / 10);
    }
}

/// Finalizing keeps names and values that a map accepts, and adds at most
/// one header.
proof fn lemma_finalized_valid(h: Seq<Header>, exact_len: Option<u64>, order: Seq<Seq<u8>>)
    requires
        valid_names(h),
    ensures
        valid_names(finalized(h, exact_len, order)),
        valid_values(h) ==> valid_values(finalized(h, exact_len, order)),
        finalized(h, exact_len, order).len() <= h.len() + 1,
{
    let w = with_content_length(h, exact_len);
    if w != h {
        lemma_decimal_valid(exact_len->Some_0 as nat);
        assert(valid_header_name(content_length_name()));
    }
    assert forall|i: int| #![trigger w[i]] 0 <= i < w.len() implies valid_header_name(w[i].0) && (valid_values(h)
        ==> valid_header_value(w[i].1)) by {
        if i < h.len() {
            assert(w[i] == h[i]);
        }
    }
    lemma_reorder_same_headers(w, order);
    let f = finalized(h, exact_len, order);
    assert forall|i: int| #![trigger f[i]] 0 <= i < f.len() implies valid_header_name(f[i].0) && (valid_values(h)
        ==> valid_header_value(f[i].1)) by {
        assert(f.contains(f[i]));
        let k = choose|k: int| 0 <= k < w.len() && w[k] == f[i];
    }
}

/// Headers that stand grouped by name come out of a new map in the order in
/// which they were appended.
#[verifier::rlimit(60)]
pub proof fn lemma_appended_all_grouped(s: Seq<Header>)
    requires
        grouped(s),
    ensures
        appended_all(s) == s,
    decreases s.len(),
{
    if s.len() == 0 {
        assert(appended_all(s) =~= s);
    } else {
        let init = s.drop_last();
        let e = s.last();
        let n = init.len() as int;
        assert forall|i: int, j: int, k: int|
            0 <= i < j < k < init.len() && #[trigger] init[i].0 == #[trigger] init[k].0 implies #[trigger] init[j].0 == init[i].0 by {
            assert(s[i] == init[i] && s[j] == init[j] && s[k] == init[k]);
        }
        lemma_appended_all_grouped(init);
        if exists|i: int| 0 <= i < init.len() && init[i].0 == e.0 {
            let i = choose|i: int| 0 <= i < init.len() && init[i].0 == e.0;
            if i < n - 1 {
                assert(s[i].0 == s[n].0);
                assert(s[n - 1].0 == s[i].0);
            }
            assert(init[n - 1].0 == e.0);
            let k = choose|k: int|
                0 <= k < init.len() && init[k].0 == e.0 && forall|j: int| k < j < init.len() ==> init[j].0 != e.0;
            assert(0 <= n - 1 < init.len() && init[n - 1].0 == e.0 && forall|j: int| n - 1 < j < init.len() ==> init[j].0 != e.0);
            assert(k == n - 1);
            assert(init.insert(n, e) =~= s);
        } else {
            assert(init.push(e) =~= s);
        }
    }
}

} // verus!
