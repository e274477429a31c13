//! Engine-wide settings.
use vstd::prelude::*;

use crate::error::EngineError;
use crate::text::concat;

verus! {

#[verifier::external_type_specification]
#[verifier::external_body]
pub struct ExClient(reqwest::Client);

#[verifier::external_type_specification]
#[verifier::external_body]
pub struct ExClientBuilder(reqwest::ClientBuilder);

/// Redirects followed before a request fails.
pub const MAX_REDIRECTS: usize = 10;

/// Engine version, for User-Agent strings.
pub const VERSION: &'static str = "0.1.0";

/// How outbound connections are routed.
#[derive(Debug)]
pub enum Proxy {
    /// Honour the OS / environment proxy settings.
    System,
    /// Connect directly, ignoring any proxy.
    Direct,
    /// Use this proxy (a URL that parses) for every request.
    Manual(String),
}

/// Engine-wide settings. Durations are in milliseconds.
#[derive(Debug)]
pub struct EngineConfig {
    /// Connections per download (1–32).
    pub max_connections: u8,
    /// `User-Agent` sent on every request.
    pub user_agent: String,
    /// Proxy policy.
    pub proxy: Proxy,
    /// TCP connect timeout.
    pub connect_timeout_ms: u64,
    /// First retry delay; doubles per attempt up to `segment::RETRY_CAP_MS`.
    pub retry_base_delay_ms: u64,
    /// No bytes for this long = the connection is dead; reconnect.
    pub stall_timeout_ms: u64,
}

/// The `User-Agent` the engine sends unless told otherwise.
pub open spec fn default_user_agent() -> Seq<char> {
    "MuznDownloadManager/"@ + VERSION@
}

impl Default for EngineConfig {
    fn default() -> (c: Self)
        ensures
            c.max_connections == 8,
            c.user_agent@ == default_user_agent(),
            c.proxy is System,
            c.connect_timeout_ms == 20000,
            c.retry_base_delay_ms == 1000,
            c.stall_timeout_ms == 30000,
    {
        EngineConfig {
            max_connections: 8,
            user_agent: concat("MuznDownloadManager/", VERSION),
            proxy: Proxy::System,
            connect_timeout_ms: 20000,
            retry_base_delay_ms: 1000,
            stall_timeout_ms: 30000,
        }
    }
}

/// One setting handed to a `reqwest::ClientBuilder`.
pub enum ClientSetting {
    /// `ClientBuilder::user_agent` with this value.
    UserAgent(Seq<char>),
    /// `ClientBuilder::connect_timeout` with this many milliseconds.
    ConnectTimeoutMs(u64),
    /// `ClientBuilder::redirect` with `redirect::Policy::limited` of this many.
    MaxRedirects(usize),
    /// `ClientBuilder::no_gzip`.
    NoGzip,
    /// `ClientBuilder::no_brotli`.
    NoBrotli,
    /// `ClientBuilder::no_deflate`.
    NoDeflate,
    /// `ClientBuilder::no_proxy`.
    NoProxy,
    /// `ClientBuilder::proxy` with `Proxy::all` of this URL.
    ProxyForAll(Seq<char>),
}

/// A `reqwest::ClientBuilder` being configured. Its view is the list of
/// settings handed to the builder so far, in the order they were handed.
pub struct ClientDraft {
    builder: reqwest::ClientBuilder,
    handed: Ghost<Seq<ClientSetting>>,
}

impl View for ClientDraft {
    type V = Seq<ClientSetting>;

    closed spec fn view(&self) -> Seq<ClientSetting> {
        self.handed@
    }
}

/// `reqwest::Client::builder`: a builder with reqwest's defaults, handed
/// nothing yet.
#[verifier::external_body]
fn new_draft() -> (r: ClientDraft)
    ensures
        r@ == Seq::<ClientSetting>::empty(),
{
    ClientDraft { builder: reqwest::Client::builder(), handed: Ghost(Seq::empty()) }
}

/// `ClientBuilder::user_agent`: the `User-Agent` of every request (an
/// unusable value makes `build` fail, it does not panic).
#[verifier::external_body]
fn hand_user_agent(d: ClientDraft, ua: &str) -> (r: ClientDraft)
    ensures
        r@ == d@.push(ClientSetting::UserAgent(ua@)),
{
    ClientDraft {
        builder: d.builder.user_agent(ua.to_string()),
        handed: Ghost(d@.push(ClientSetting::UserAgent(ua@))),
    }
}

/// `ClientBuilder::connect_timeout`, given in milliseconds.
#[verifier::external_body]
fn hand_connect_timeout(d: ClientDraft, ms: u64) -> (r: ClientDraft)
    ensures
        r@ == d@.push(ClientSetting::ConnectTimeoutMs(ms)),
{
    ClientDraft {
        builder: d.builder.connect_timeout(std::time::Duration::from_millis(ms)),
        handed: Ghost(d@.push(ClientSetting::ConnectTimeoutMs(ms))),
    }
}

/// `ClientBuilder::redirect` with `reqwest::redirect::Policy::limited(max)`:
/// follow at most `max` redirects.
#[verifier::external_body]
fn hand_redirect_limit(d: ClientDraft, max: usize) -> (r: ClientDraft)
    ensures
        r@ == d@.push(ClientSetting::MaxRedirects(max)),
{
    ClientDraft {
        builder: d.builder.redirect(reqwest::redirect::Policy::limited(max)),
        handed: Ghost(d@.push(ClientSetting::MaxRedirects(max))),
    }
}

/// `ClientBuilder::no_gzip`: no transparent gzip decoding.
#[verifier::external_body]
fn hand_no_gzip(d: ClientDraft) -> (r: ClientDraft)
    ensures
        r@ == d@.push(ClientSetting::NoGzip),
{
    ClientDraft { builder: d.builder.no_gzip(), handed: Ghost(d@.push(ClientSetting::NoGzip)) }
}

/// `ClientBuilder::no_brotli`: no transparent brotli decoding.
#[verifier::external_body]
fn hand_no_brotli(d: ClientDraft) -> (r: ClientDraft)
    ensures
        r@ == d@.push(ClientSetting::NoBrotli),
{
    ClientDraft { builder: d.builder.no_brotli(), handed: Ghost(d@.push(ClientSetting::NoBrotli)) }
}

/// `ClientBuilder::no_deflate`: no transparent deflate decoding.
#[verifier::external_body]
fn hand_no_deflate(d: ClientDraft) -> (r: ClientDraft)
    ensures
        r@ == d@.push(ClientSetting::NoDeflate),
{
    ClientDraft { builder: d.builder.no_deflate(), handed: Ghost(d@.push(ClientSetting::NoDeflate)) }
}

/// `ClientBuilder::no_proxy`: connect directly, ignoring the system proxy.
#[verifier::external_body]
fn hand_no_proxy(d: ClientDraft) -> (r: ClientDraft)
    ensures
        r@ == d@.push(ClientSetting::NoProxy),
{
    ClientDraft { builder: d.builder.no_proxy(), handed: Ghost(d@.push(ClientSetting::NoProxy)) }
}

/// `ClientBuilder::proxy` with `reqwest::Proxy::all(url)`: send every
/// request through the proxy at `url`. `Proxy::all` fails when `url` does
/// not parse as a proxy URL; the builder is then not handed anything.
#[verifier::external_body]
fn hand_proxy_for_all(d: ClientDraft, url: &str) -> (r: Result<ClientDraft, reqwest::Error>)
    ensures
        r is Ok ==> r->Ok_0@ == d@.push(ClientSetting::ProxyForAll(url@)),
{
    match reqwest::Proxy::all(url) {
        Ok(p) => Ok(ClientDraft {
            builder: d.builder.proxy(p),
            handed: Ghost(d@.push(ClientSetting::ProxyForAll(url@))),
        }),
        Err(e) => Err(e),
    }
}

/// `ClientBuilder::build` on the draft's builder.
#[verifier::external_body]
fn build_reqwest_client(d: ClientDraft) -> Result<reqwest::Client, reqwest::Error> {
    d.builder.build()
}

/// Everything the HTTP client is built from, as plain values.
#[derive(Debug)]
pub struct ClientRecipe {
    /// `User-Agent` of every request.
    pub user_agent: String,
    /// TCP connect timeout in milliseconds.
    pub connect_timeout_ms: u64,
    /// Redirects followed before a request fails.
    pub max_redirects: usize,
    /// Transparent gzip decoding of bodies.
    pub gzip: bool,
    /// Transparent brotli decoding of bodies.
    pub brotli: bool,
    /// Transparent deflate decoding of bodies.
    pub deflate: bool,
    /// Proxy policy.
    pub proxy: Proxy,
}

/// The client a configuration asks for: its user agent, connect timeout and
/// proxy policy, at most [`MAX_REDIRECTS`] redirects, and bodies exactly as
/// sent (no transparent decompression, so byte ranges stay byte ranges).
pub fn client_recipe(cfg: &EngineConfig) -> (r: ClientRecipe)
    ensures
        r.user_agent@ == cfg.user_agent@,
        r.connect_timeout_ms == cfg.connect_timeout_ms,
        r.max_redirects == MAX_REDIRECTS,
        !r.gzip && !r.brotli && !r.deflate,
        match cfg.proxy {
            Proxy::System => r.proxy is System,
            Proxy::Direct => r.proxy is Direct,
            Proxy::Manual(u) => r.proxy is Manual && r.proxy->Manual_0@ == u@,
        },
{
    ClientRecipe {
        user_agent: cfg.user_agent.clone(),
        connect_timeout_ms: cfg.connect_timeout_ms,
        max_redirects: MAX_REDIRECTS,
        gzip: false,
        brotli: false,
        deflate: false,
        proxy: match &cfg.proxy {
            Proxy::System => Proxy::System,
            Proxy::Direct => Proxy::Direct,
            Proxy::Manual(u) => Proxy::Manual(u.clone()),
        },
    }
}

/// The settings a recipe hands to the client builder, in order: user agent,
/// connect timeout, redirect limit, each decompression that is off, then the
/// proxy policy (nothing for `System`).
pub open spec fn recipe_settings(r: ClientRecipe) -> Seq<ClientSetting> {
    seq![
        ClientSetting::UserAgent(r.user_agent@),
        ClientSetting::ConnectTimeoutMs(r.connect_timeout_ms),
        ClientSetting::MaxRedirects(r.max_redirects),
    ] + (if r.gzip { Seq::empty() } else { seq![ClientSetting::NoGzip] }) + (if r.brotli {
        Seq::empty()
    } else {
        seq![ClientSetting::NoBrotli]
    }) + (if r.deflate { Seq::empty() } else { seq![ClientSetting::NoDeflate] }) + match r.proxy {
        Proxy::System => Seq::empty(),
        Proxy::Direct => seq![ClientSetting::NoProxy],
        Proxy::Manual(u) => seq![ClientSetting::ProxyForAll(u@)],
    }
}

/// Hand every setting of a recipe to a fresh client builder. Only a manual
/// proxy can fail (its URL is not a proxy URL), as a request error.
pub fn configure(recipe: &ClientRecipe) -> (r: Result<ClientDraft, EngineError>)
    ensures
        r is Ok ==> r->Ok_0@ == recipe_settings(*recipe),
        r is Err ==> recipe.proxy is Manual && {
            let e = r->Err_0;
            e is InvalidUrl || e is HttpStatus || e is Tls || e is Network
        },
{
    let mut d = new_draft();
    d = hand_user_agent(d, recipe.user_agent.as_str());
    d = hand_connect_timeout(d, recipe.connect_timeout_ms);
    d = hand_redirect_limit(d, recipe.max_redirects);
    let ghost fixed = d@;
    if !recipe.gzip {
        d = hand_no_gzip(d);
    }
    let ghost after_gzip = d@;
    if !recipe.brotli {
        d = hand_no_brotli(d);
    }
    let ghost after_brotli = d@;
    if !recipe.deflate {
        d = hand_no_deflate(d);
    }
    let ghost after_deflate = d@;
    d = match &recipe.proxy {
        Proxy::System => d,
        Proxy::Direct => hand_no_proxy(d),
        Proxy::Manual(u) => match hand_proxy_for_all(d, u.as_str()) {
            Ok(with) => with,
            Err(e) => return Err(EngineError::from_reqwest(e)),
        },
    };
    proof {
        let r = *recipe;
        let g: Seq<ClientSetting> = if r.gzip { Seq::empty() } else { seq![ClientSetting::NoGzip] };
        let b: Seq<ClientSetting> = if r.brotli { Seq::empty() } else { seq![ClientSetting::NoBrotli] };
        let f: Seq<ClientSetting> = if r.deflate { Seq::empty() } else { seq![ClientSetting::NoDeflate] };
        assert(after_gzip =~= fixed + g);
        assert(after_brotli =~= fixed + g + b);
        assert(after_deflate =~= fixed + g + b + f);
        assert(d@ =~= recipe_settings(r));
    }
    Ok(d)
}

/// Build the HTTP client of a recipe ([`client_recipe`]): [`configure`]
/// hands each of its settings to the builder, then reqwest builds the client.
/// Whether the build succeeds is reqwest's decision (its TLS setup, the
/// environment's proxies); a failure is reported as a request error.
pub fn build_client(recipe: &ClientRecipe) -> (r: Result<reqwest::Client, EngineError>)
    ensures
        r is Err ==> {
            let e = r->Err_0;
            e is InvalidUrl || e is HttpStatus || e is Tls || e is Network
        },
{
    let d = match configure(recipe) {
        Ok(d) => d,
        Err(e) => return Err(e),
    };
    match build_reqwest_client(d) {
        Ok(c) => Ok(c),
        Err(e) => Err(EngineError::from_reqwest(e)),
    }
}

} // verus!
