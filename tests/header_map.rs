use http::{HeaderMap, HeaderValue};
use rquest::header_map::finalize_header_map;

fn order(names: &[&str]) -> Vec<Vec<u8>> {
    names.iter().map(|n| n.as_bytes().to_vec()).collect()
}

fn listing(map: &HeaderMap) -> Vec<(String, String)> {
    map.iter()
        .map(|(k, v)| (k.as_str().to_string(), v.to_str().unwrap().to_string()))
        .collect()
}

fn p(n: &str, v: &str) -> (String, String) {
    (n.to_string(), v.to_string())
}

#[test]
fn header_map_scenario_http2_profile() {
    let mut map = HeaderMap::new();
    map.insert("accept", HeaderValue::from_static("*/*"));
    map.insert("x-custom", HeaderValue::from_static("1"));
    map.insert("host", HeaderValue::from_static("example.com"));
    assert!(finalize_header_map(&mut map, Some(10), &order(&["host", "user-agent", "accept"])));
    assert_eq!(
        listing(&map),
        vec![p("host", "example.com"), p("accept", "*/*"), p("x-custom", "1"), p("content-length", "10")]
    );
}

#[test]
fn header_map_keeps_repeated_values_together() {
    let mut map = HeaderMap::new();
    map.append("cookie", HeaderValue::from_static("a=1"));
    map.append("user-agent", HeaderValue::from_static("ua"));
    map.append("cookie", HeaderValue::from_static("b=2"));
    map.insert("content-length", HeaderValue::from_static("7"));
    assert!(finalize_header_map(&mut map, Some(10), &order(&["User-Agent", "cookie"])));
    assert_eq!(
        listing(&map),
        vec![p("user-agent", "ua"), p("cookie", "a=1"), p("cookie", "b=2"), p("content-length", "7")]
    );
}

#[test]
fn header_map_reorder_is_idempotent() {
    let mut map = HeaderMap::new();
    map.insert("b", HeaderValue::from_static("2"));
    map.insert("a", HeaderValue::from_static("1"));
    let o = order(&["a"]);
    assert!(finalize_header_map(&mut map, None, &o));
    let once = listing(&map);
    assert!(finalize_header_map(&mut map, None, &o));
    assert_eq!(listing(&map), once);
    assert_eq!(once, vec![p("a", "1"), p("b", "2")]);
}

#[test]
fn header_map_accepts_every_name_a_map_holds() {
    let mut map = HeaderMap::new();
    map.insert(http::HeaderName::from_static("x\"y"), HeaderValue::from_static("1"));
    let mut secret = HeaderValue::from_static("s");
    secret.set_sensitive(true);
    map.insert("cookie", secret);
    assert!(finalize_header_map(&mut map, None, &order(&["cookie"])));
    assert_eq!(listing(&map), vec![p("cookie", "s"), p("x\"y", "1")]);
    assert!(map.get("cookie").unwrap().is_sensitive());
}
