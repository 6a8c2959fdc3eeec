use hyper::header::HOST;
use hyper::Request;
use local_http_proxy::config::ProxyMode;
use local_http_proxy::extract::{extract_key, get_destination, HostAndPath, RequestHead};
use local_http_proxy::proxy::{build_upstream_uri, keep_header, plan_request, ProxyError};
use local_http_proxy::routes::RouteTable;

fn head<B>(req: &Request<B>) -> RequestHead {
    RequestHead {
        path_and_query: req.uri().path_and_query().map(|pq| pq.as_str().to_string()),
        host: req
            .headers()
            .get(HOST)
            .and_then(|v| v.to_str().ok())
            .map(String::from),
    }
}

fn mapping(pairs: &[(&str, &str)]) -> RouteTable {
    let mut t = RouteTable::new();
    for (k, v) in pairs {
        t.insert(k.to_string(), v.to_string());
    }
    t
}

#[test]
fn host_mode_key_dot_localdomain_ok() {
    let req = Request::builder()
        .uri("/v1/users?limit=10")
        .header(HOST, "api.localhost:8080")
        .body(())
        .unwrap();

    let map = mapping(&[("api", "http://upstream-api")]);
    let got = get_destination(&head(&req), &ProxyMode::Domain, &map).unwrap();

    assert_eq!(
        got,
        HostAndPath {
            host: "http://upstream-api".into(),
            path: "/v1/users?limit=10".into()
        }
    );
}

#[test]
fn host_mode_hyphen_edges_invalid() {
    for h in ["-api.local", "api-.local"] {
        let req = Request::builder()
            .uri("/")
            .header(HOST, h)
            .body(())
            .unwrap();
        let map = mapping(&[("api", "http://x")]);
        assert!(get_destination(&head(&req), &ProxyMode::Domain, &map).is_none());
    }
}

#[test]
fn host_mode_requires_dot_between_key_and_localdomain() {
    let req = Request::builder()
        .uri("/health")
        .header(HOST, "api")
        .body(())
        .unwrap();

    let map = mapping(&[("api", "http://upstream")]);
    assert!(get_destination(&head(&req), &ProxyMode::Domain, &map).is_none());
}

#[test]
fn host_mode_ipv6_literal_rejected() {
    let req = Request::builder()
        .uri("/ping?x=1")
        .header(HOST, "[::1]:3000")
        .body(())
        .unwrap();

    let map = mapping(&[("::1", "http://local-ipv6")]);
    assert!(get_destination(&head(&req), &ProxyMode::Domain, &map).is_none());
}

#[test]
fn path_mode_basic_with_query() {
    let req = Request::builder().uri("/svc/status?x=1").body(()).unwrap();

    let map = mapping(&[("svc", "http://upstream-svc")]);
    let got = get_destination(&head(&req), &ProxyMode::Path, &map).unwrap();
    assert_eq!(
        got,
        HostAndPath {
            host: "http://upstream-svc".into(),
            path: "/status?x=1".into()
        }
    );
}

#[test]
fn path_mode_only_prefix_becomes_root() {
    let req = Request::builder().uri("/svc").body(()).unwrap();

    let map = mapping(&[("svc", "http://upstream-svc")]);
    let got = get_destination(&head(&req), &ProxyMode::Path, &map).unwrap();
    assert_eq!(
        got,
        HostAndPath {
            host: "http://upstream-svc".into(),
            path: "/".into()
        }
    );
}

#[test]
fn path_mode_root_is_none() {
    let req = Request::builder().uri("/").body(()).unwrap();
    let map = mapping(&[("svc", "http://upstream-svc")]);
    assert!(get_destination(&head(&req), &ProxyMode::Path, &map).is_none());
}

#[test]
fn path_mode_invalid_key_rejected() {
    let req = Request::builder().uri("/-bad/users").body(()).unwrap();
    let map = mapping(&[("-bad", "http://x")]);
    assert!(get_destination(&head(&req), &ProxyMode::Path, &map).is_none());
}

fn plain(pq: Option<&str>, host: Option<&str>) -> RequestHead {
    RequestHead {
        path_and_query: pq.map(String::from),
        host: host.map(String::from),
    }
}

#[test]
fn path_mode_key_grammar_cases() {
    let m = ProxyMode::Path;
    let kp = extract_key(&plain(Some("/Svc?q=1"), None), &m).unwrap();
    assert_eq!((kp.key.as_str(), kp.path.as_str()), ("svc", "?q=1"));
    let kp = extract_key(&plain(Some("/a-b/c/d"), None), &m).unwrap();
    assert_eq!((kp.key.as_str(), kp.path.as_str()), ("a-b", "/c/d"));
    assert!(extract_key(&plain(Some("/bad-/x"), None), &m).is_none());
    assert!(extract_key(&plain(Some("/a_b/x"), None), &m).is_none());
    assert!(extract_key(&plain(Some("/a.b/x"), None), &m).is_none());
    assert!(extract_key(&plain(Some("/a?x\ny"), None), &m).is_none());
    assert!(extract_key(&plain(Some("/a/x\ny"), None), &m).is_some());
    assert!(extract_key(&plain(None, None), &m).is_none());
}

#[test]
fn host_mode_grammar_cases() {
    let m = ProxyMode::Domain;
    let kp = extract_key(&plain(None, Some("  API.Local  ")), &m).unwrap();
    assert_eq!((kp.key.as_str(), kp.path.as_str()), ("api", "/"));
    let kp = extract_key(&plain(Some("/x"), Some("a-1.b.c:80")), &m).unwrap();
    assert_eq!((kp.key.as_str(), kp.path.as_str()), ("a-1", "/x"));
    assert!(extract_key(&plain(Some("/"), Some("api.:80")), &m).is_none());
    assert!(extract_key(&plain(Some("/"), Some("api.local:")), &m).is_none());
    assert!(extract_key(&plain(Some("/"), Some("api.local:8x")), &m).is_none());
    assert!(extract_key(&plain(Some("/"), Some("api.a:1:2")), &m).is_none());
    assert!(extract_key(&plain(Some("/"), Some("")), &m).is_none());
    assert!(extract_key(&plain(Some("/"), None), &m).is_none());
}

#[test]
fn unknown_key_is_not_routed() {
    let map = mapping(&[("svc", "http://upstream-svc")]);
    assert!(get_destination(&plain(Some("/other/x"), None), &ProxyMode::Path, &map).is_none());
}

#[test]
fn plan_answers_not_found_and_bad_gateway() {
    let map = mapping(&[("svc", "http://upstream-svc"), ("broken", "http://bad host")]);
    let r = plan_request(&plain(Some("/none"), None), &ProxyMode::Path, &map);
    assert_eq!(r, Err(ProxyError::NotFound));
    assert_eq!(ProxyError::NotFound.status(), 404);
    let r = plan_request(&plain(Some("/broken/x"), None), &ProxyMode::Path, &map);
    assert_eq!(r, Err(ProxyError::BadGateway));
    assert_eq!(ProxyError::BadGateway.status(), 502);
    assert_eq!(ProxyError::InternalError.status(), 500);
    let r = plan_request(&plain(Some("/svc/a?b=1"), None), &ProxyMode::Path, &map);
    assert_eq!(r.unwrap(), "http://upstream-svc/a?b=1");
    assert_eq!(ProxyError::NotFound.body(), "Local Http Proxy: Route Not Found");
    assert_eq!(ProxyError::BadGateway.body(), "Local Http Proxy: Bad Gateway");
    assert_eq!(ProxyError::InternalError.body(), "Local Http Proxy: Internal Error");
}

#[test]
fn upstream_uri_joins_and_checks() {
    assert_eq!(build_upstream_uri("http://h:1", "/p?q").unwrap(), "http://h:1/p?q");
    assert!(build_upstream_uri("http://h", "/a b").is_none());
}

#[test]
fn only_host_header_is_dropped() {
    assert!(!keep_header("host"));
    assert!(keep_header("hosts"));
    assert!(keep_header("accept"));
    assert!(keep_header(""));
}

#[test]
fn route_table_last_write_wins() {
    let mut t = RouteTable::new();
    assert_eq!(t.insert("a".into(), "http://1".into()), None);
    assert_eq!(t.insert("b".into(), "http://2".into()), None);
    assert_eq!(t.insert("a".into(), "http://3".into()), Some("http://1".to_string()));
    assert_eq!(t.len(), 2);
    assert_eq!(t.get("a").unwrap(), "http://3");
    assert_eq!(t.remove("a"), Some("http://3".to_string()));
    assert_eq!(t.remove("a"), None);
    assert!(t.get("a").is_none());
    assert_eq!(t.len(), 1);
    assert_eq!(t.entries()[0].0, "b");
}

#[test]
fn route_table_lists_by_key() {
    let t = mapping(&[("web", "http://3"), ("api", "http://1"), ("api-v2", "http://2"), ("a", "http://0")]);
    let keys: Vec<String> = t.sorted_entries().into_iter().map(|e| e.0).collect();
    assert_eq!(keys, vec!["a", "api", "api-v2", "web"]);
    assert_eq!(t.sorted_entries()[1].1, "http://1");
    assert!(RouteTable::new().sorted_entries().is_empty());
}

#[test]
fn keys_longer_than_63_are_not_routed() {
    let long = "a".repeat(64);
    let ok = "a".repeat(63);
    let map = mapping(&[(long.as_str(), "http://long"), (ok.as_str(), "http://ok")]);
    assert!(get_destination(&plain(Some(&format!("/{}/x", long)), None), &ProxyMode::Path, &map).is_none());
    let host = format!("{}.localhost", long);
    assert!(get_destination(&plain(Some("/"), Some(&host)), &ProxyMode::Domain, &map).is_none());
    let got = get_destination(&plain(Some(&format!("/{}/x", ok)), None), &ProxyMode::Path, &map).unwrap();
    assert_eq!(got.host, "http://ok");
    let host = format!("{}.localhost", ok);
    let got = get_destination(&plain(Some("/"), Some(&host)), &ProxyMode::Domain, &map).unwrap();
    assert_eq!(got.path, "/");
}
