use muzn_dm::request::{Cookie, RequestExtras};

/// A request carrying exactly the pairs `sent_headers` lists, in order.
fn apply(x: &RequestExtras, rb: reqwest::RequestBuilder) -> reqwest::RequestBuilder {
    let mut rb = rb;
    for (k, v) in x.sent_headers() {
        rb = rb.header(k.as_str(), v.as_str());
    }
    rb
}

#[test]
fn applies_headers_and_joins_cookies() {
    let x = RequestExtras {
        headers: vec![("Referer".into(), "https://a/".into())],
        cookies: vec![
            Cookie {
                name: "s".into(),
                value: "1".into(),
            },
            Cookie {
                name: "t".into(),
                value: "2".into(),
            },
        ],
    };
    let client = reqwest::Client::new();
    let req = apply(&x, client.get("https://example.invalid/"))
        .build()
        .unwrap();
    assert_eq!(req.headers().get("referer").unwrap(), "https://a/");
    assert_eq!(req.headers().get("cookie").unwrap(), "s=1; t=2");
}

#[test]
fn no_cookies_means_no_cookie_header() {
    let client = reqwest::Client::new();
    let req = apply(&RequestExtras::default(), client.get("https://example.invalid/"))
        .build()
        .unwrap();
    assert!(req.headers().get("cookie").is_none());
}

#[test]
fn without_credentials_strips_cookies_and_auth_headers() {
    let x = RequestExtras {
        headers: vec![
            ("Referer".into(), "https://a/".into()),
            ("authorization".into(), "Bearer t".into()),
            ("Proxy-Authorization".into(), "Basic p".into()),
            ("Cookie".into(), "raw=1".into()),
        ],
        cookies: vec![Cookie {
            name: "s".into(),
            value: "1".into(),
        }],
    };
    let y = x.without_credentials();
    assert_eq!(
        y.headers,
        vec![("Referer".to_string(), "https://a/".to_string())]
    );
    assert!(y.cookies.is_empty());
}

#[test]
fn apply_never_sends_engine_owned_headers() {
    let x = RequestExtras {
        headers: vec![
            ("Range".into(), "bytes=0-1".into()),
            ("host".into(), "evil".into()),
            ("Content-Length".into(), "5".into()),
        ],
        cookies: vec![],
    };
    let req = apply(&x, reqwest::Client::new().get("https://example.invalid/"))
        .build()
        .unwrap();
    assert!(req.headers().get("range").is_none());
    assert!(req.headers().get("content-length").is_none());
    assert_ne!(
        req.headers().get("host").map(|v| v.to_str().unwrap()),
        Some("evil")
    );
}

#[test]
fn sent_headers_lists_what_apply_sends() {
    let x = RequestExtras {
        headers: vec![
            ("X-A".into(), "1".into()),
            ("RANGE".into(), "bytes=0-1".into()),
            ("X-B".into(), "2".into()),
        ],
        cookies: vec![Cookie { name: "a".into(), value: "b".into() }],
    };
    assert_eq!(
        x.sent_headers(),
        vec![
            ("X-A".to_string(), "1".to_string()),
            ("X-B".to_string(), "2".to_string()),
            ("cookie".to_string(), "a=b".to_string()),
        ]
    );
}

#[test]
fn stripping_credentials_twice_changes_nothing_more() {
    let x = RequestExtras {
        headers: vec![
            ("Cookie".into(), "raw=1".into()),
            ("X-Token".into(), "k".into()),
            ("AUTHORIZATION".into(), "Basic a".into()),
            ("Accept".into(), "*/*".into()),
        ],
        cookies: vec![Cookie {
            name: "s".into(),
            value: "1".into(),
        }],
    };
    let once = x.without_credentials();
    let twice = once.without_credentials();
    assert_eq!(once.headers, twice.headers);
    assert_eq!(
        once.headers,
        vec![
            ("X-Token".to_string(), "k".to_string()),
            ("Accept".to_string(), "*/*".to_string())
        ]
    );
    assert!(twice.cookies.is_empty());
}
