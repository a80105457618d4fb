use rquest::alpn::{HttpVersion, HttpVersionPref};
use rquest::headers::{
    add_content_length_header, decimal_bytes, names_match, sort_headers, HeaderEntry,
};
use rquest::request::{InnerRequest, NetworkScheme};

fn entry(name: &str, value: &str) -> HeaderEntry {
    HeaderEntry::new(name.as_bytes().to_vec(), value.as_bytes().to_vec(), false)
}

fn map(pairs: &[(&'static str, &'static str)]) -> http::HeaderMap {
    let mut m = http::HeaderMap::new();
    for (n, v) in pairs {
        m.append(*n, http::HeaderValue::from_static(v));
    }
    m
}

fn map_pairs(m: &http::HeaderMap) -> Vec<(String, String)> {
    m.iter()
        .map(|(k, v)| (k.as_str().to_string(), v.to_str().unwrap().to_string()))
        .collect()
}

fn order(names: &[&str]) -> Vec<Vec<u8>> {
    names.iter().map(|n| n.as_bytes().to_vec()).collect()
}

fn pairs(h: &[HeaderEntry]) -> Vec<(String, String)> {
    h.iter()
        .map(|e| {
            (
                String::from_utf8(e.name.clone()).unwrap(),
                String::from_utf8(e.value.clone()).unwrap(),
            )
        })
        .collect()
}

fn p(n: &str, v: &str) -> (String, String) {
    (n.to_string(), v.to_string())
}

#[test]
fn http2_profile_request_is_ordered_with_length() {
    let headers = map(&[("accept", "*/*"), ("x-custom", "1"), ("host", "example.com")]);
    let req = InnerRequest::<Vec<u8>>::builder()
        .method(http::Method::POST)
        .version(Some(HttpVersion::Http2))
        .headers(headers)
        .headers_order(Some(order(&["host", "user-agent", "accept"])))
        .body(vec![0u8; 10], Some(10));
    let (parts, _scheme, pref) = req.pieces();
    assert_eq!(pref, Some(HttpVersionPref::Http2));
    assert_eq!(
        map_pairs(&parts.headers),
        vec![p("host", "example.com"), p("accept", "*/*"), p("x-custom", "1"), p("content-length", "10")]
    );
    assert_eq!(parts.body.len(), 10);
    assert_eq!(parts.method, Some(http::Method::POST));
}

#[test]
fn without_order_headers_stay_untouched() {
    let req = InnerRequest::<Vec<u8>>::builder()
        .headers(map(&[("b", "2"), ("a", "1")]))
        .body(vec![1u8, 2, 3], Some(3));
    let (parts, _, pref) = req.pieces();
    assert_eq!(pref, None);
    assert_eq!(map_pairs(&parts.headers), vec![p("b", "2"), p("a", "1")]);
}

#[test]
fn repeated_names_stay_together_and_sensitivity_is_kept() {
    let mut headers = map(&[("x", "1"), ("y", "2"), ("x", "3")]);
    let mut secret = http::HeaderValue::from_static("t");
    secret.set_sensitive(true);
    headers.insert("authorization", secret);
    let req = InnerRequest::<()>::builder()
        .headers(headers)
        .headers_order(Some(order(&["authorization"])))
        .body((), Some(0));
    let (parts, _, _) = req.pieces();
    assert_eq!(
        map_pairs(&parts.headers),
        vec![p("authorization", "t"), p("x", "1"), p("x", "3"), p("y", "2"), p("content-length", "0")]
    );
    assert!(parts.headers.get("authorization").unwrap().is_sensitive());
    assert!(!parts.headers.get("x").unwrap().is_sensitive());
}

#[test]
fn content_length_set_by_caller_is_kept() {
    let mut h = vec![entry("Content-Length", "99"), entry("host", "x")];
    add_content_length_header(Some(10), &mut h);
    assert_eq!(pairs(&h), vec![p("Content-Length", "99"), p("host", "x")]);
}

#[test]
fn content_length_added_for_exact_body() {
    let mut h = vec![entry("host", "x")];
    add_content_length_header(Some(1234), &mut h);
    assert_eq!(pairs(&h), vec![p("host", "x"), p("content-length", "1234")]);
}

#[test]
fn content_length_absent_for_unknown_size() {
    let mut h = vec![entry("host", "x")];
    add_content_length_header(None, &mut h);
    assert_eq!(pairs(&h), vec![p("host", "x")]);
}

#[test]
fn content_length_of_empty_body_is_zero() {
    let mut h = Vec::new();
    add_content_length_header(Some(0), &mut h);
    assert_eq!(pairs(&h), vec![p("content-length", "0")]);
}

#[test]
fn decimal_digits() {
    assert_eq!(decimal_bytes(0), b"0".to_vec());
    assert_eq!(decimal_bytes(10), b"10".to_vec());
    assert_eq!(decimal_bytes(u64::MAX), b"18446744073709551615".to_vec());
}

#[test]
fn listed_headers_first_then_the_rest_in_original_order() {
    let mut h = vec![
        entry("z", "1"),
        entry("cookie", "a"),
        entry("y", "2"),
        entry("accept", "x"),
        entry("cookie", "b"),
        entry("host", "h"),
    ];
    sort_headers(&mut h, &order(&["host", "cookie", "accept"]));
    assert_eq!(
        pairs(&h),
        vec![p("host", "h"), p("cookie", "a"), p("cookie", "b"), p("accept", "x"), p("z", "1"), p("y", "2")]
    );
}

#[test]
fn ordering_twice_changes_nothing() {
    let mut h = vec![entry("x", "1"), entry("accept", "a"), entry("host", "h"), entry("y", "2")];
    let o = order(&["host", "accept"]);
    sort_headers(&mut h, &o);
    let once = pairs(&h);
    sort_headers(&mut h, &o);
    assert_eq!(pairs(&h), once);
}

#[test]
fn ordering_ignores_ascii_case() {
    let mut h = vec![entry("accept", "a"), entry("HOST", "h")];
    sort_headers(&mut h, &order(&["Host", "accept"]));
    assert_eq!(pairs(&h), vec![p("HOST", "h"), p("accept", "a")]);
    assert!(names_match(&b"User-Agent".to_vec(), &b"user-agent".to_vec()));
    assert!(!names_match(&b"user-agent".to_vec(), &b"user-agents".to_vec()));
}

#[test]
fn repeated_name_in_order_list_is_harmless() {
    let mut h = vec![entry("b", "1"), entry("a", "2")];
    sort_headers(&mut h, &order(&["a", "a", "b"]));
    assert_eq!(pairs(&h), vec![p("a", "2"), p("b", "1")]);
}

#[test]
fn empty_order_and_empty_headers() {
    let mut h = vec![entry("b", "1"), entry("a", "2")];
    sort_headers(&mut h, &Vec::new());
    assert_eq!(pairs(&h), vec![p("b", "1"), p("a", "2")]);
    let mut e: Vec<HeaderEntry> = Vec::new();
    sort_headers(&mut e, &order(&["a"]));
    assert!(e.is_empty());
}

#[test]
fn builder_carries_scheme_and_version() {
    let scheme = NetworkScheme {
        interface: Some("eth0".to_string()),
        local_address: None,
        proxy: Some("http://proxy:8080".to_string()),
    };
    let req = InnerRequest::<()>::builder()
        .uri(http::Uri::from_static("https://example.com/"))
        .version(Some(HttpVersion::Http11))
        .version(None)
        .network_scheme(scheme)
        .headers_order(Some(order(&["host"])))
        .body((), None);
    let (parts, scheme, pref) = req.pieces();
    assert_eq!(pref, Some(HttpVersionPref::Http1));
    assert_eq!(parts.version, Some(HttpVersion::Http11));
    assert_eq!(scheme.interface.as_deref(), Some("eth0"));
    assert_eq!(scheme.proxy.as_deref(), Some("http://proxy:8080"));
    assert!(parts.headers.is_empty());
    assert_eq!(parts.uri, Some(http::Uri::from_static("https://example.com/")));
}
