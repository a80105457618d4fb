use rquest::alpn::{alpn_protos, application_settings_protocol, map_version_to_pref, HttpVersion, HttpVersionPref};

#[test]
fn alpn_http1_only() {
    assert_eq!(alpn_protos(HttpVersionPref::Http1), b"\x08http/1.1".to_vec());
}

#[test]
fn alpn_http2_only() {
    assert_eq!(alpn_protos(HttpVersionPref::Http2), b"\x02h2".to_vec());
}

#[test]
fn alpn_both_puts_h2_first() {
    let wire = alpn_protos(HttpVersionPref::All);
    assert_eq!(wire, b"\x02h2\x08http/1.1".to_vec());
    assert_eq!(&wire[0..3], b"\x02h2");
}

#[test]
fn version_maps_to_preference() {
    assert_eq!(map_version_to_pref(HttpVersion::Http09), HttpVersionPref::Http1);
    assert_eq!(map_version_to_pref(HttpVersion::Http10), HttpVersionPref::Http1);
    assert_eq!(map_version_to_pref(HttpVersion::Http11), HttpVersionPref::Http1);
    assert_eq!(map_version_to_pref(HttpVersion::Http2), HttpVersionPref::Http2);
    assert_eq!(map_version_to_pref(HttpVersion::Http3), HttpVersionPref::All);
}

#[test]
fn application_settings_protocol_ids() {
    assert_eq!(application_settings_protocol(HttpVersionPref::Http1), b"http/1.1".to_vec());
    assert_eq!(application_settings_protocol(HttpVersionPref::Http2), b"h2".to_vec());
    assert_eq!(application_settings_protocol(HttpVersionPref::All), b"h2".to_vec());
}
