use muzn_dm::engine::{build_client, client_recipe, configure, EngineConfig, Proxy, MAX_REDIRECTS, VERSION};
use muzn_dm::settings::{ProxySetting, Settings};
use muzn_dm::store::settings_or_default;

#[test]
fn settings_are_clamped_and_checked() {
    let base = Settings {
        download_dir: "/d".into(),
        ..Settings::default()
    };
    let v = Settings {
        max_connections: 200,
        max_parallel: 0,
        ..base.clone()
    }
    .validated()
    .unwrap();
    assert_eq!((v.max_connections, v.max_parallel), (32, 1));
    assert_eq!(
        Settings::default().validated().unwrap_err().code(),
        "SETTINGS"
    );
    let bad = Settings {
        proxy: ProxySetting::Manual {
            url: "not a url".into(),
        },
        ..base.clone()
    };
    assert_eq!(bad.validated().unwrap_err().code(), "SETTINGS");
    let cfg = base.engine_config().unwrap();
    assert_eq!(cfg.max_connections, 8);
}

#[test]
fn default_config() {
    let c = EngineConfig::default();
    assert_eq!(c.max_connections, 8);
    assert!(c.user_agent.starts_with("MuznDownloadManager/"));
    assert!(matches!(c.proxy, Proxy::System));
}

#[test]
fn version_is_set() {
    assert!(!VERSION.is_empty());
}

#[test]
fn engine_config_follows_the_settings() {
    let s = Settings {
        download_dir: "/d".into(),
        max_connections: 4,
        max_parallel: 2,
        user_agent: Some("ua/1".into()),
        proxy: ProxySetting::Manual { url: "http://127.0.0.1:8080".into() },
    };
    let c = s.engine_config().unwrap();
    assert_eq!(c.max_connections, 4);
    assert_eq!(c.user_agent, "ua/1");
    match c.proxy {
        Proxy::Manual(u) => assert_eq!(u, "http://127.0.0.1:8080/"),
        other => panic!("{other:?}"),
    }
    assert_eq!((c.connect_timeout_ms, c.retry_base_delay_ms, c.stall_timeout_ms), (20_000, 1_000, 30_000));
    let direct = Settings { proxy: ProxySetting::Direct, ..Settings::default() };
    assert!(matches!(direct.engine_config().unwrap().proxy, Proxy::Direct));
    let v = Settings { download_dir: "/d".into(), max_parallel: 99, max_connections: 5, ..Settings::default() }
        .validated()
        .unwrap();
    assert_eq!((v.max_connections, v.max_parallel), (5, 10));
}

#[test]
fn unsaved_settings_take_the_given_folder() {
    let d = settings_or_default(None, "/home/u/Downloads");
    assert_eq!(d.download_dir, "/home/u/Downloads");
    assert_eq!((d.max_connections, d.max_parallel), (8, 3));
    let mine = Settings { max_connections: 16, ..d.clone() };
    let back = settings_or_default(Some(mine.clone()), "/elsewhere");
    assert_eq!(back.max_connections, 16);
    assert_eq!(back.download_dir, "/home/u/Downloads");
}

#[test]
fn engine_builds_with_manual_proxy() {
    let cfg = EngineConfig {
        proxy: Proxy::Manual("http://127.0.0.1:8080/".to_string()),
        ..Default::default()
    };
    assert!(build_client(&client_recipe(&cfg)).is_ok());
}

#[test]
fn a_direct_client_builds_too() {
    let cfg = EngineConfig { proxy: Proxy::Direct, ..Default::default() };
    assert!(build_client(&client_recipe(&cfg)).is_ok());
}

#[test]
fn validation_is_idempotent() {
    let s = Settings {
        download_dir: "/d".into(),
        max_connections: 99,
        max_parallel: 0,
        user_agent: Some("ua".into()),
        proxy: ProxySetting::Manual { url: "http://127.0.0.1:8080".into() },
    };
    let once = s.validated().unwrap();
    let twice = once.clone().validated().unwrap();
    assert_eq!((twice.max_connections, twice.max_parallel), (once.max_connections, once.max_parallel));
    assert_eq!((once.max_connections, once.max_parallel), (32, 1));
    assert_eq!(twice.download_dir, once.download_dir);
    assert_eq!(twice.user_agent, once.user_agent);
    assert!(matches!(twice.proxy, ProxySetting::Manual { ref url } if url == "http://127.0.0.1:8080"));
}

#[test]
fn the_client_recipe_follows_the_config() {
    let cfg = EngineConfig {
        user_agent: "ua/1".into(),
        connect_timeout_ms: 1234,
        proxy: Proxy::Manual("http://127.0.0.1:8080/".to_string()),
        ..Default::default()
    };
    let r = client_recipe(&cfg);
    assert_eq!((r.user_agent.as_str(), r.connect_timeout_ms, r.max_redirects), ("ua/1", 1234, 10));
    assert_eq!(MAX_REDIRECTS, 10);
    assert!(!r.gzip && !r.brotli && !r.deflate, "byte ranges stay byte ranges");
    assert!(matches!(r.proxy, Proxy::Manual(ref u) if u == "http://127.0.0.1:8080/"));
    assert!(matches!(client_recipe(&EngineConfig::default()).proxy, Proxy::System));
}

#[test]
fn a_proxy_url_that_does_not_parse_is_refused() {
    let cfg = EngineConfig { proxy: Proxy::Manual("http://[".to_string()), ..Default::default() };
    let recipe = client_recipe(&cfg);
    assert!(configure(&recipe).is_err());
    assert!(build_client(&recipe).is_err());
    let direct = client_recipe(&EngineConfig { proxy: Proxy::Direct, ..Default::default() });
    assert!(configure(&direct).is_ok());
}
