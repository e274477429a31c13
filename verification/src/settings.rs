//! User settings: defaults for anything missing, clamped and checked before use.
use vstd::prelude::*;

use crate::core_error::CoreError;
use crate::engine::{default_user_agent, EngineConfig, Proxy};
use crate::plan::MAX_CONNECTIONS;
use crate::text::concat;
use crate::urls::{parse_url, url_parsed};

verus! {

/// Most downloads running at once.
pub const MAX_PARALLEL: u8 = 10;

/// How downloads reach the network.
#[derive(Debug)]
pub enum ProxySetting {
    /// The OS / environment proxy.
    System,
    /// Direct.
    Direct,
    /// This proxy URL.
    Manual {
        /// e.g. `http://127.0.0.1:8080`.
        url: String,
    },
}

impl Clone for ProxySetting {
    fn clone(&self) -> (r: Self)
        ensures
            r == *self,
    {
        match self {
            ProxySetting::System => ProxySetting::System,
            ProxySetting::Direct => ProxySetting::Direct,
            ProxySetting::Manual { url } => ProxySetting::Manual { url: url.clone() },
        }
    }
}

/// Everything the user can change.
#[derive(Debug)]
pub struct Settings {
    /// Where new downloads go.
    pub download_dir: String,
    /// Connections per download (1–32).
    pub max_connections: u8,
    /// Downloads running at once (1–10).
    pub max_parallel: u8,
    /// Custom User-Agent; `None` = the engine's.
    pub user_agent: Option<String>,
    /// Proxy policy.
    pub proxy: ProxySetting,
}

impl Default for Settings {
    fn default() -> (r: Self)
        ensures
            r.download_dir@.len() == 0,
            r.max_connections == 8,
            r.max_parallel == 3,
            r.user_agent is None,
            r.proxy is System,
    {
        Settings {
            download_dir: String::new(),
            max_connections: 8,
            max_parallel: 3,
            user_agent: None,
            proxy: ProxySetting::System,
        }
    }
}

impl Clone for Settings {
    fn clone(&self) -> (r: Self)
        ensures
            r == *self,
    {
        Settings {
            download_dir: self.download_dir.clone(),
            max_connections: self.max_connections,
            max_parallel: self.max_parallel,
            user_agent: match &self.user_agent {
                Some(u) => Some(u.clone()),
                None => None,
            },
            proxy: self.proxy.clone(),
        }
    }
}

/// `v` brought into `lo..=hi`.
pub open spec fn clamp(v: u8, lo: u8, hi: u8) -> u8 {
    if v < lo {
        lo
    } else if v > hi {
        hi
    } else {
        v
    }
}

/// Settings with their numbers brought into range: 1 to [`MAX_CONNECTIONS`]
/// connections, 1 to [`MAX_PARALLEL`] downloads at once.
pub open spec fn clamped(s: Settings) -> Settings {
    Settings {
        max_connections: clamp(s.max_connections, 1, MAX_CONNECTIONS),
        max_parallel: clamp(s.max_parallel, 1, MAX_PARALLEL),
        ..s
    }
}

/// A manual proxy whose URL does not parse.
pub open spec fn bad_proxy(p: ProxySetting) -> bool {
    match p {
        ProxySetting::Manual { url } => url_parsed(url@) is Err,
        _ => false,
    }
}

impl Settings {
    /// Clamp the numbers into range and refuse unusable values: an unset
    /// download folder, a manual proxy whose URL does not parse.
    pub fn validated(self) -> (r: Result<Settings, CoreError>)
        ensures
            self.download_dir@.len() == 0 ==> r is Err && r->Err_0 is Settings,
            self.download_dir@.len() > 0 && bad_proxy(self.proxy) ==> r is Err && r->Err_0 is Settings,
            self.download_dir@.len() > 0 && !bad_proxy(self.proxy) ==> r == Ok::<Settings, CoreError>(
                clamped(self),
            ),
    {
        if self.download_dir.unicode_len() == 0 {
            return Err(CoreError::Settings(String::from_str("the download folder is not set")));
        }
        if let ProxySetting::Manual { url } = &self.proxy {
            if let Err(e) = parse_url(url.as_str()) {
                return Err(CoreError::Settings(concat("proxy URL: ", e.as_str())));
            }
        }
        let mc = if self.max_connections < 1 {
            1
        } else if self.max_connections > MAX_CONNECTIONS {
            MAX_CONNECTIONS
        } else {
            self.max_connections
        };
        let mp = if self.max_parallel < 1 {
            1
        } else if self.max_parallel > MAX_PARALLEL {
            MAX_PARALLEL
        } else {
            self.max_parallel
        };
        Ok(Settings { max_connections: mc, max_parallel: mp, ..self })
    }

    /// The engine configuration these settings describe: their connections,
    /// user agent (the engine's when unset) and proxy, the engine's defaults
    /// for everything else.
    pub fn engine_config(&self) -> (r: Result<EngineConfig, CoreError>)
        ensures
            bad_proxy(self.proxy) ==> r is Err && r->Err_0 is Settings,
            !bad_proxy(self.proxy) ==> r is Ok && {
                let c = r->Ok_0;
                &&& c.max_connections == self.max_connections
                &&& c.user_agent@ == match self.user_agent {
                    Some(u) => u@,
                    None => default_user_agent(),
                }
                &&& match self.proxy {
                    ProxySetting::System => c.proxy is System,
                    ProxySetting::Direct => c.proxy is Direct,
                    ProxySetting::Manual { url } => c.proxy is Manual && c.proxy->Manual_0@
                        == url_parsed(url@)->Ok_0.0,
                }
                &&& c.connect_timeout_ms == 20000
                &&& c.retry_base_delay_ms == 1000
                &&& c.stall_timeout_ms == 30000
            },
    {
        let mut cfg = EngineConfig::default();
        cfg.max_connections = self.max_connections;
        if let Some(ua) = &self.user_agent {
            cfg.user_agent = ua.clone();
        }
        cfg.proxy = match &self.proxy {
            ProxySetting::System => Proxy::System,
            ProxySetting::Direct => Proxy::Direct,
            ProxySetting::Manual { url } => match parse_url(url.as_str()) {
                Ok(p) => Proxy::Manual(p.text),
                Err(e) => return Err(CoreError::Settings(concat("proxy URL: ", e.as_str()))),
            },
        };
        Ok(cfg)
    }
}

/// Validation is idempotent: settings that passed it pass it again,
/// unchanged, so what is saved after validation loads back as it was.
pub proof fn validated_settings_stay_valid(s: Settings)
    requires
        s.download_dir@.len() > 0,
        !bad_proxy(s.proxy),
    ensures
        clamped(s).download_dir@.len() > 0,
        !bad_proxy(clamped(s).proxy),
        clamped(clamped(s)) == clamped(s),
{
}

} // verus!
