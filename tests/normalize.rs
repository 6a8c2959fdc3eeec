use local_http_proxy::source::{
    normalize_source_key, parse_source_raw_key, validate_source_label, EMPTY_LABEL_ERROR,
    EMPTY_SEGMENT_ERROR, EMPTY_SOURCE_ERROR, INVALID_SOURCE_RULES,
};
use local_http_proxy::target::{
    canonical_target, normalize_target, target_with_scheme, ParsedUri, TLS_TARGET_ERROR,
    UNSUPPORTED_SCHEME_ERROR,
};

#[test]
fn normalize_source_accepts_path_and_host_forms() {
    assert_eq!(normalize_source_key("/Svc").unwrap(), "svc");
    assert_eq!(normalize_source_key("API.localhost").unwrap(), "api");
    assert_eq!(normalize_source_key("api.localhost:8080").unwrap(), "api");
    assert_eq!(normalize_source_key("my-app").unwrap(), "my-app");
    // dotted host inputs normalize to the first label
    assert_eq!(normalize_source_key("has.dot").unwrap(), "has");
}

#[test]
fn normalize_source_rejects_invalid() {
    assert!(normalize_source_key("").is_err());
    assert!(normalize_source_key("-bad").is_err());
    assert!(normalize_source_key("bad-").is_err());
    assert!(normalize_source_key("has/slash").is_err());
    // 64-char label rejected
    let sixty_four = "a".repeat(64);
    assert!(normalize_source_key(&sixty_four).is_err());
    // 63-char label accepted
    let sixty_three = "a".repeat(63);
    assert_eq!(normalize_source_key(&sixty_three).unwrap(), sixty_three);
}

#[test]
fn normalize_target_supports_port_and_hostport() {
    assert_eq!(normalize_target("3000").unwrap(), "http://localhost:3000");
    assert_eq!(normalize_target(":3000").unwrap(), "http://localhost:3000");
    assert_eq!(
        normalize_target("localhost:3000").unwrap(),
        "http://localhost:3000"
    );
    assert_eq!(
        normalize_target("127.0.0.1:8080").unwrap(),
        "http://127.0.0.1:8080"
    );
    assert_eq!(normalize_target("[::1]:8080").unwrap(), "http://[::1]:8080");
    assert_eq!(
        normalize_target("http://svc:8080/").unwrap(),
        "http://svc:8080"
    );
}

#[test]
fn normalize_target_rejects_https_and_bad_scheme() {
    assert!(normalize_target("https://host").is_err());
    assert!(normalize_target("ftp://host").is_err());
}

#[test]
fn source_key_forms_of_a_key_agree() {
    for k in ["a", "svc", "my-app", "x1-2-3", "0"] {
        assert_eq!(normalize_source_key(k).unwrap(), k);
        assert_eq!(normalize_source_key(&format!("/{}", k)).unwrap(), k);
        assert_eq!(normalize_source_key(&format!("{}.localhost", k)).unwrap(), k);
    }
}

#[test]
fn source_key_renormalizes_unchanged() {
    for s in ["/Svc/x", "  API.localhost:80 ", "my-app"] {
        let k = normalize_source_key(s).unwrap();
        assert_eq!(normalize_source_key(&k).unwrap(), k);
    }
}

#[test]
fn source_key_trims_and_skips_empty_segments() {
    assert_eq!(normalize_source_key("  //Api//v1 ").unwrap(), "api");
    assert_eq!(normalize_source_key("\u{3000}svc\t").unwrap(), "svc");
}

#[test]
fn source_key_rejections() {
    assert!(normalize_source_key("   ").is_err());
    assert!(normalize_source_key("/").is_err());
    assert!(normalize_source_key("...").is_err());
    assert!(normalize_source_key("-x.localhost").is_err());
    assert!(normalize_source_key("a_b").is_err());
    assert!(normalize_source_key("x/y.z").is_err());
    assert!(normalize_source_key("caf\u{e9}").is_err());
}

#[test]
fn source_raw_key_and_label_check() {
    assert_eq!(parse_source_raw_key("/Svc/x").unwrap(), "Svc");
    assert_eq!(parse_source_raw_key("a.b:80").unwrap(), "a");
    assert_eq!(parse_source_raw_key("plain").unwrap(), "plain");
    assert!(parse_source_raw_key("///").is_err());
    assert!(parse_source_raw_key(".:80").is_err());
    assert!(validate_source_label("ok-1").is_ok());
    assert!(validate_source_label("Upper").is_err());
    let err = validate_source_label("bad-").unwrap_err();
    assert!(err.starts_with("Invalid source name: \"bad-\"."));
}

#[test]
fn target_scheme_step() {
    assert_eq!(target_with_scheme("3000").unwrap(), "http://localhost:3000");
    assert_eq!(target_with_scheme(":8080").unwrap(), "http://localhost:8080");
    assert_eq!(target_with_scheme("svc:1").unwrap(), "http://svc:1");
    assert_eq!(target_with_scheme("http://a").unwrap(), "http://a");
    assert!(target_with_scheme(":80x").is_err());
    assert_eq!(target_with_scheme("https://h").unwrap_err(), TLS_TARGET_ERROR);
    assert!(target_with_scheme("ws://h").is_err());
}

#[test]
fn target_canonical_step() {
    let p = |scheme: Option<&str>, auth: bool, text: &str| ParsedUri {
        scheme: scheme.map(String::from),
        has_authority: auth,
        text: text.to_string(),
    };
    assert_eq!(canonical_target(Some(p(Some("http"), true, "http://h:1///"))).unwrap(), "http://h:1");
    assert!(canonical_target(Some(p(Some("https"), true, "https://h/"))).is_err());
    assert!(canonical_target(Some(p(None, false, "/x"))).is_err());
    assert!(canonical_target(Some(p(Some("http"), false, "http:///"))).is_err());
    assert!(canonical_target(None).is_err());
}

#[test]
fn target_errors_and_idempotence() {
    assert!(normalize_target("").is_err());
    assert!(normalize_target("   ").is_err());
    assert_eq!(normalize_target("https://host").unwrap_err(), TLS_TARGET_ERROR);
    assert!(normalize_target(":abc").is_err());
    assert!(normalize_target("bad host").is_err());
    assert_eq!(normalize_target("  svc:9000/  ").unwrap(), "http://svc:9000");
    for t in ["http://localhost:3000", "http://[::1]:8080", "http://svc"] {
        assert_eq!(normalize_target(t).unwrap(), t);
    }
}

#[test]
fn dotted_source_takes_first_label_after_dropping_port() {
    assert_eq!(parse_source_raw_key(".api").unwrap_err(), EMPTY_LABEL_ERROR);
    assert!(normalize_source_key(".api").is_err());
    assert!(normalize_source_key("..web.local").is_err());
    assert!(normalize_source_key("api:3000.x").is_err());
    assert_eq!(parse_source_raw_key("api:3000.x").unwrap(), "api:3000");
    assert_eq!(parse_source_raw_key("web.local:8080").unwrap(), "web");
    assert_eq!(parse_source_raw_key("web.local:").unwrap(), "web");
}

#[test]
fn source_error_messages() {
    assert_eq!(normalize_source_key("  ").unwrap_err(), EMPTY_SOURCE_ERROR);
    assert_eq!(normalize_source_key("//").unwrap_err(), EMPTY_SEGMENT_ERROR);
    let expected = format!("Invalid source name: \"bad_x\".\n\n  {}", INVALID_SOURCE_RULES);
    assert_eq!(normalize_source_key("Bad_X").unwrap_err(), expected);
    assert_eq!(validate_source_label("bad_x").unwrap_err(), expected);
    assert!(INVALID_SOURCE_RULES.contains("63"));
}

#[test]
fn other_schemes_get_their_own_error() {
    assert_eq!(normalize_target("ftp://host").unwrap_err(), UNSUPPORTED_SCHEME_ERROR);
    assert_ne!(UNSUPPORTED_SCHEME_ERROR, TLS_TARGET_ERROR);
}
