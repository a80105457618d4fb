use rquest::alpn::HttpVersionPref;
use rquest::tls::{
    configure_connect_attempt, configure_connector, CertCompressionAlgorithm, CertStore,
    ConnectAttempt, ConnectorTemplate, TlsConfigError, TlsProfile, TlsVersion, VerifyMode,
    VerifyStore,
};

fn profile() -> TlsProfile {
    TlsProfile {
        certs_verification: true,
        alpn: HttpVersionPref::All,
        min_tls_version: None,
        max_tls_version: None,
        cert_compression_algorithms: vec![CertCompressionAlgorithm::Brotli],
        permute_extensions: None,
        enable_ech_grease: false,
        application_settings: false,
    }
}

#[test]
fn unbounded_profile_keeps_engine_version_range() {
    let t = configure_connector(&profile(), None, None).unwrap();
    assert_eq!(t.min_version, None);
    assert_eq!(t.max_version, None);
    assert_eq!(t.verify_mode, Some(VerifyMode::Peer));
    assert_eq!(t.alpn_protos, Some(b"\x02h2\x08http/1.1".to_vec()));
    assert_eq!(t.cert_compression_algs, vec![2u16]);
    assert_eq!(t.permute_extensions, None);
    assert!(matches!(t.verify_store, VerifyStore::EngineDefault));
}

#[test]
fn version_steps_without_bound_are_no_ops() {
    let t = ConnectorTemplate::new();
    let t = t.configure_min_tls_version(None).unwrap();
    let t = t.configure_max_tls_version(None).unwrap();
    assert_eq!(t.min_version, None);
    assert_eq!(t.max_version, None);
}

#[test]
fn version_bounds_map_to_engine_ids() {
    let mut p = profile();
    p.min_tls_version = Some(TlsVersion::Tls1_0);
    p.max_tls_version = Some(TlsVersion::Tls1_3);
    let t = configure_connector(&p, None, None).unwrap();
    assert_eq!(t.min_version, Some(0x0301));
    assert_eq!(t.max_version, Some(0x0304));
    let t = ConnectorTemplate::new().configure_min_tls_version(Some(TlsVersion::Tls1_1)).unwrap();
    let t = t.configure_max_tls_version(Some(TlsVersion::Tls1_2)).unwrap();
    assert_eq!(t.min_version, Some(0x0302));
    assert_eq!(t.max_version, Some(0x0303));
}

#[test]
fn duplicate_compression_algorithm_is_rejected() {
    let mut p = profile();
    p.cert_compression_algorithms = vec![
        CertCompressionAlgorithm::Brotli,
        CertCompressionAlgorithm::Zlib,
        CertCompressionAlgorithm::Brotli,
    ];
    let r = configure_connector(&p, None, None);
    assert_eq!(r.err(), Some(TlsConfigError::DuplicateCompressionAlgorithm(2)));
}

#[test]
fn compression_algorithms_registered_in_order() {
    let mut p = profile();
    p.cert_compression_algorithms = vec![
        CertCompressionAlgorithm::Zstd,
        CertCompressionAlgorithm::Zlib,
        CertCompressionAlgorithm::Brotli,
    ];
    let t = configure_connector(&p, None, None).unwrap();
    assert_eq!(t.cert_compression_algs, vec![3u16, 1, 2]);
}

#[test]
fn verification_can_be_disabled() {
    let t = ConnectorTemplate::new().configure_cert_verification(false).unwrap();
    assert_eq!(t.verify_mode, Some(VerifyMode::Disabled));
}

#[test]
fn permutation_is_two_level() {
    let t = ConnectorTemplate::new().configure_permute_extensions(false, true).unwrap();
    assert_eq!(t.permute_extensions, None);
    let t = t.configure_permute_extensions(true, false).unwrap();
    assert_eq!(t.permute_extensions, Some(false));
    let mut p = profile();
    p.permute_extensions = Some(true);
    let t = configure_connector(&p, None, None).unwrap();
    assert_eq!(t.permute_extensions, Some(true));
}

#[test]
fn corrupt_native_bundle_falls_back_to_default_paths() {
    let parsed = vec![false, false, false];
    let t = configure_connector(&profile(), None, Some(&parsed)).unwrap();
    match t.verify_store {
        VerifyStore::Native { trusted, valid, invalid, default_paths } => {
            assert_eq!(trusted, vec![false, false, false]);
            assert_eq!(valid, 0);
            assert_eq!(invalid, 3);
            assert!(default_paths);
        }
        other => panic!("unexpected store {:?}", other),
    }
}

#[test]
fn valid_native_bundle_needs_no_fallback() {
    let parsed = vec![true; 5];
    let t = ConnectorTemplate::new().configure_set_verify_cert_store(&parsed).unwrap();
    match t.verify_store {
        VerifyStore::Native { trusted, valid, invalid, default_paths } => {
            assert_eq!(trusted, vec![true; 5]);
            assert_eq!(valid, 5);
            assert_eq!(invalid, 0);
            assert!(!default_paths);
        }
        other => panic!("unexpected store {:?}", other),
    }
}

#[test]
fn empty_native_bundle_needs_no_fallback() {
    let t = ConnectorTemplate::new().configure_set_verify_cert_store(&Vec::new()).unwrap();
    match t.verify_store {
        VerifyStore::Native { trusted, valid, invalid, default_paths } => {
            assert!(trusted.is_empty());
            assert_eq!((valid, invalid, default_paths), (0, 0, false));
        }
        other => panic!("unexpected store {:?}", other),
    }
}

#[test]
fn custom_store_wins_over_native() {
    let store = CertStore { certificates: vec![vec![0x30, 0x82]] };
    let parsed = vec![true];
    let t = configure_connector(&profile(), Some(store), Some(&parsed)).unwrap();
    match t.verify_store {
        VerifyStore::Custom(s) => assert_eq!(s.certificates, vec![vec![0x30u8, 0x82]]),
        other => panic!("unexpected store {:?}", other),
    }
}

#[test]
fn attempt_settings_follow_profile_flags() {
    let a = configure_connect_attempt(&profile()).unwrap();
    assert_eq!(a.ech_grease, None);
    assert!(a.application_settings.is_empty());
    let mut p = profile();
    p.enable_ech_grease = true;
    p.application_settings = true;
    p.alpn = HttpVersionPref::Http2;
    let a = configure_connect_attempt(&p).unwrap();
    assert_eq!(a.ech_grease, Some(true));
    assert_eq!(a.application_settings, vec![b"h2".to_vec()]);
}

#[test]
fn application_settings_for_http1_profile() {
    let mut a = ConnectAttempt::new();
    a.configure_add_application_settings(true, HttpVersionPref::Http1).unwrap();
    a.configure_add_application_settings(false, HttpVersionPref::Http2).unwrap();
    a.configure_enable_ech_grease(false, true).unwrap();
    assert_eq!(a.application_settings, vec![b"http/1.1".to_vec()]);
    assert_eq!(a.ech_grease, None);
    a.configure_enable_ech_grease(true, false).unwrap();
    assert_eq!(a.ech_grease, Some(false));
}
