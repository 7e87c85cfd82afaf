//! The server's configuration: the contents of `serve.json`, listen
//! endpoints, and the merge of both with the command-line options.
use vstd::prelude::*;

use crate::cli::CliArgs;
use crate::text::{
    find_last, has_prefix, last_index, parse_u16, parse_u16_spec, push_str, starts_with,
    string_from, sub_chars, to_chars,
};

verus! {

// ---------------------------------------------------------------------------
// Types
// ---------------------------------------------------------------------------

/// A setting that is either a plain switch or a list of path patterns.
pub enum PatternSetting {
    Flag(bool),
    Patterns(Seq<Seq<char>>),
}

/// The characters of each string.
pub open spec fn strings_view(v: Seq<String>) -> Seq<Seq<char>> {
    v.map_values(|s: String| s@)
}

/// Clean URLs config: can be boolean or array of patterns
#[derive(Debug, Clone)]
pub enum CleanUrlsConfig {
    Bool(bool),
    Patterns(Vec<String>),
}

impl View for CleanUrlsConfig {
    type V = PatternSetting;

    open spec fn view(&self) -> PatternSetting {
        match self {
            CleanUrlsConfig::Bool(b) => PatternSetting::Flag(*b),
            CleanUrlsConfig::Patterns(p) => PatternSetting::Patterns(strings_view(p@)),
        }
    }
}

impl Default for CleanUrlsConfig {
    fn default() -> (r: Self)
        ensures
            r@ == PatternSetting::Flag(false),
    {
        CleanUrlsConfig::Bool(false)
    }
}

/// Directory listing config: can be boolean or array of patterns
#[derive(Debug, Clone)]
pub enum DirectoryListingConfig {
    Bool(bool),
    Patterns(Vec<String>),
}

impl View for DirectoryListingConfig {
    type V = PatternSetting;

    open spec fn view(&self) -> PatternSetting {
        match self {
            DirectoryListingConfig::Bool(b) => PatternSetting::Flag(*b),
            DirectoryListingConfig::Patterns(p) => PatternSetting::Patterns(strings_view(p@)),
        }
    }
}

impl Default for DirectoryListingConfig {
    fn default() -> (r: Self)
        ensures
            r@ == PatternSetting::Flag(true),
    {
        DirectoryListingConfig::Bool(true)
    }
}

/// URL rewrite rule
#[derive(Debug, Clone)]
pub struct RewriteRule {
    pub source: String,
    pub destination: String,
}

impl View for RewriteRule {
    type V = (Seq<char>, Seq<char>);

    open spec fn view(&self) -> (Seq<char>, Seq<char>) {
        (self.source@, self.destination@)
    }
}

pub open spec fn rewrites_view(v: Seq<RewriteRule>) -> Seq<(Seq<char>, Seq<char>)> {
    v.map_values(|r: RewriteRule| r@)
}

/// HTTP redirect rule
#[derive(Debug, Clone)]
pub struct RedirectRule {
    pub source: String,
    pub destination: String,
    /// The status code of the redirect (`type` in `serve.json`)
    pub status_type: u16,
}

impl View for RedirectRule {
    type V = (Seq<char>, Seq<char>, u16);

    open spec fn view(&self) -> (Seq<char>, Seq<char>, u16) {
        (self.source@, self.destination@, self.status_type)
    }
}

pub open spec fn redirects_view(v: Seq<RedirectRule>) -> Seq<(Seq<char>, Seq<char>, u16)> {
    v.map_values(|r: RedirectRule| r@)
}

/// The status of a redirect rule whose `type` is not given.
pub fn default_redirect_type() -> (r: u16)
    ensures
        r == 301,
{
    301
}

/// Key-value header entry
#[derive(Debug, Clone)]
pub struct HeaderEntry {
    pub key: String,
    pub value: String,
}

impl View for HeaderEntry {
    type V = (Seq<char>, Seq<char>);

    open spec fn view(&self) -> (Seq<char>, Seq<char>) {
        (self.key@, self.value@)
    }
}

/// Custom header rule
#[derive(Debug, Clone)]
pub struct HeaderRule {
    pub source: String,
    pub headers: Vec<HeaderEntry>,
}

impl View for HeaderRule {
    type V = (Seq<char>, Seq<(Seq<char>, Seq<char>)>);

    open spec fn view(&self) -> (Seq<char>, Seq<(Seq<char>, Seq<char>)>) {
        (self.source@, self.headers@.map_values(|e: HeaderEntry| e@))
    }
}

pub open spec fn header_rules_view(v: Seq<HeaderRule>) -> Seq<
    (Seq<char>, Seq<(Seq<char>, Seq<char>)>),
> {
    v.map_values(|r: HeaderRule| r@)
}

/// Configuration loaded from serve.json
#[derive(Debug, Clone)]
pub struct ServeJsonConfig {
    /// Path to the directory to serve
    pub public: Option<String>,
    /// Clean URLs: strip .html or /index
    pub clean_urls: CleanUrlsConfig,
    /// URL rewriting rules
    pub rewrites: Vec<RewriteRule>,
    /// HTTP redirect rules
    pub redirects: Vec<RedirectRule>,
    /// Custom HTTP headers per route
    pub headers: Vec<HeaderRule>,
    /// Enable/disable directory listings
    pub directory_listing: DirectoryListingConfig,
    /// Paths hidden from directory listings
    pub unlisted: Vec<String>,
    /// Control trailing slash behavior
    pub trailing_slash: Option<bool>,
    /// SPA mode: rewrite not-found to index.html
    pub render_single: Option<bool>,
    /// Whether to follow symbolic links
    pub symlinks: Option<bool>,
    /// Whether to generate ETags
    pub etag: Option<bool>,
}

/// A listen endpoint: a host and a TCP port.
#[derive(Debug, Clone)]
pub struct EndpointConfig {
    pub host: String,
    pub port: u16,
}

impl View for EndpointConfig {
    type V = (Seq<char>, u16);

    open spec fn view(&self) -> (Seq<char>, u16) {
        (self.host@, self.port)
    }
}

pub open spec fn endpoints_view(v: Seq<EndpointConfig>) -> Seq<(Seq<char>, u16)> {
    v.map_values(|e: EndpointConfig| e@)
}

/// The host an endpoint binds to when none is given.
pub open spec fn any_host() -> Seq<char> {
    "0.0.0.0"@
}

fn any_host_string() -> (s: String)
    ensures
        s@ == any_host(),
{
    String::from_str("0.0.0.0")
}

impl Default for EndpointConfig {
    fn default() -> (r: Self)
        ensures
            r@ == (any_host(), 3000u16),
    {
        EndpointConfig { host: any_host_string(), port: 3000 }
    }
}

/// The final merged application configuration
#[derive(Debug, Clone)]
pub struct AppConfig {
    /// Directory to serve
    pub public: String,
    /// Listen endpoints (host:port)
    pub endpoints: Vec<EndpointConfig>,
    /// SPA mode (rewrite all not-found to index.html)
    pub single: bool,
    /// Show debug info
    pub debug: bool,
    /// Disable request logging
    pub no_request_logging: bool,
    /// Enable CORS
    pub cors: bool,
    /// Copy local address to clipboard
    pub no_clipboard: bool,
    /// Disable gzip compression
    pub no_compression: bool,
    /// Send Last-Modified instead of ETag
    pub no_etag: bool,
    /// Resolve symlinks
    pub symlinks: bool,
    /// SSL certificate path
    pub ssl_cert: Option<String>,
    /// SSL private key path
    pub ssl_key: Option<String>,
    /// SSL passphrase path
    pub ssl_pass: Option<String>,
    /// Don't auto-switch ports
    pub no_port_switching: bool,
    /// Clean URLs config
    pub clean_urls: CleanUrlsConfig,
    /// URL rewrites
    pub rewrites: Vec<RewriteRule>,
    /// HTTP redirects
    pub redirects: Vec<RedirectRule>,
    /// Custom headers per route
    pub custom_headers: Vec<HeaderRule>,
    /// Directory listing config
    pub directory_listing: DirectoryListingConfig,
    /// Unlisted paths
    pub unlisted: Vec<String>,
    /// Trailing slash behavior
    pub trailing_slash: Option<bool>,
}

// ---------------------------------------------------------------------------
// Listen endpoints
// ---------------------------------------------------------------------------

/// The endpoint that a listen URI names, if it names one: a bare port, a
/// `tcp://host:port` URI, or `host:port`.
pub open spec fn listen_uri_spec(uri: Seq<char>) -> Option<(Seq<char>, u16)> {
    if parse_u16_spec(uri) is Some {
        Some((any_host(), parse_u16_spec(uri)->0))
    } else if starts_with(uri, "tcp://"@) {
        let rest = uri.skip(6);
        let k = last_index(rest, ':');
        let port_text = if k >= 0 {
            rest.skip(k + 1)
        } else {
            rest
        };
        match parse_u16_spec(port_text) {
            Some(port) => {
                let host = if k >= 0 {
                    rest.take(k)
                } else {
                    any_host()
                };
                Some((if host.len() == 0 { any_host() } else { host }, port))
            },
            None => None,
        }
    } else {
        let k = last_index(uri, ':');
        if k >= 0 && parse_u16_spec(uri.skip(k + 1)) is Some {
            Some((uri.take(k), parse_u16_spec(uri.skip(k + 1))->0))
        } else {
            None
        }
    }
}

/// Parse a listen URI into an EndpointConfig
pub fn parse_listen_uri(uri: &str) -> (r: Option<EndpointConfig>)
    ensures
        match r {
            Some(e) => listen_uri_spec(uri@) == Some(e@),
            None => listen_uri_spec(uri@) is None,
        },
{
    let cs = to_chars(uri);
    // A bare port number
    if let Some(port) = parse_u16(cs.as_slice()) {
        return Some(EndpointConfig { host: any_host_string(), port });
    }
    let tcp = to_chars("tcp://");
    proof {
        reveal_strlit("tcp://");
    }
    if has_prefix(cs.as_slice(), tcp.as_slice()) {
        let rest = sub_chars(cs.as_slice(), 6, cs.len());
        let k = find_last(rest.as_slice(), ':');
        let port_text = match k {
            Some(k) => sub_chars(rest.as_slice(), k + 1, rest.len()),
            None => sub_chars(rest.as_slice(), 0, rest.len()),
        };
        assert(rest@.subrange(0, rest@.len() as int) =~= rest@);
        let port = match parse_u16(port_text.as_slice()) {
            Some(p) => p,
            None => {
                return None;
            },
        };
        let host = match k {
            Some(k) => {
                if k == 0 {
                    any_host_string()
                } else {
                    string_from(sub_chars(rest.as_slice(), 0, k).as_slice())
                }
            },
            None => any_host_string(),
        };
        proof {
            reveal_strlit("0.0.0.0");
        }
        return Some(EndpointConfig { host, port });
    }
    // host:port
    if let Some(k) = find_last(cs.as_slice(), ':') {
        let port_text = sub_chars(cs.as_slice(), k + 1, cs.len());
        if let Some(port) = parse_u16(port_text.as_slice()) {
            let host = string_from(sub_chars(cs.as_slice(), 0, k).as_slice());
            return Some(EndpointConfig { host, port });
        }
    }
    None
}

/// The endpoints named by the valid URIs among `uris`, in order.
pub open spec fn listen_endpoints(uris: Seq<Seq<char>>) -> Seq<(Seq<char>, u16)>
    decreases uris.len(),
{
    if uris.len() == 0 {
        Seq::empty()
    } else {
        let rest = listen_endpoints(uris.drop_last());
        match listen_uri_spec(uris.last()) {
            Some(e) => rest.push(e),
            None => rest,
        }
    }
}

/// The endpoints the server listens on: those of `--listen` when it is
/// given, else the one of `-p`, and `0.0.0.0:3000` when that leaves none.
pub open spec fn endpoints_spec(listen: Seq<Seq<char>>, port: Option<u16>) -> Seq<
    (Seq<char>, u16),
> {
    let chosen = if listen.len() > 0 {
        listen_endpoints(listen)
    } else {
        match port {
            Some(p) => seq![(any_host(), p)],
            None => Seq::empty(),
        }
    };
    if chosen.len() == 0 {
        seq![(any_host(), 3000u16)]
    } else {
        chosen
    }
}

/// The endpoints to listen on for the given `--listen` URIs and `-p` port.
pub fn build_endpoints(listen: &Vec<String>, port: Option<u16>) -> (r: Vec<EndpointConfig>)
    ensures
        endpoints_view(r@) == endpoints_spec(strings_view(listen@), port),
        r@.len() > 0,
{
    let ghost uris = strings_view(listen@);
    let mut r: Vec<EndpointConfig> = Vec::new();
    if listen.len() > 0 {
        let mut i: usize = 0;
        while i < listen.len()
            invariant
                i <= listen@.len(),
                uris == strings_view(listen@),
                endpoints_view(r@) == listen_endpoints(uris.take(i as int)),
            decreases listen.len() - i,
        {
            assert(uris.take(i + 1).drop_last() =~= uris.take(i as int));
            assert(uris.take(i + 1).last() == listen@[i as int]@);
            let ghost before = r@;
            match parse_listen_uri(listen[i].as_str()) {
                Some(e) => {
                    r.push(e);
                    assert(endpoints_view(r@) =~= endpoints_view(before).push(e@));
                },
                None => {},
            }
            i = i + 1;
        }
        assert(uris.take(listen@.len() as int) =~= uris);
    } else {
        match port {
            Some(p) => {
                r.push(EndpointConfig { host: any_host_string(), port: p });
                assert(endpoints_view(r@) =~= seq![(any_host(), p)]);
            },
            None => {
                assert(endpoints_view(r@) =~= Seq::<(Seq<char>, u16)>::empty());
            },
        }
    }
    if r.len() == 0 {
        r.push(EndpointConfig::default());
        assert(endpoints_view(r@) =~= seq![(any_host(), 3000u16)]);
    }
    r
}

// ---------------------------------------------------------------------------
// Merging serve.json with the command line
// ---------------------------------------------------------------------------

/// The rewrite that SPA mode adds: every path to `/index.html`.
pub open spec fn catch_all_rewrite() -> (Seq<char>, Seq<char>) {
    ("**"@, "/index.html"@)
}

fn catch_all_rule() -> (r: RewriteRule)
    ensures
        r@ == catch_all_rewrite(),
{
    RewriteRule { source: String::from_str("**"), destination: String::from_str("/index.html") }
}

/// Whether SPA mode ends up on: from `--single` or from `renderSingle`.
pub open spec fn merged_single(args: CliArgs, file: Option<ServeJsonConfig>) -> bool {
    args.single || (file matches Some(c) && c.render_single == Some(true))
}

/// The rewrites of the merged configuration.
pub open spec fn merged_rewrites(args: CliArgs, file: Option<ServeJsonConfig>) -> Seq<
    (Seq<char>, Seq<char>),
> {
    let base = match file {
        Some(c) => rewrites_view(c.rewrites@),
        None => Seq::empty(),
    };
    if merged_single(args, file) {
        seq![catch_all_rewrite()] + base
    } else {
        base
    }
}

fn clone_opt(s: &Option<String>) -> (r: Option<String>)
    ensures
        r == *s,
{
    match s {
        Some(v) => Some(v.clone()),
        None => None,
    }
}

/// Merges the command-line options with the contents of `serve.json`
/// (`None` when the file could not be read or parsed): what the file sets
/// takes precedence, and SPA mode puts a catch-all rewrite first.
pub fn merge_config(args: &CliArgs, file: Option<ServeJsonConfig>) -> (r: AppConfig)
    ensures
        r.public@ == (match file {
            Some(c) => match c.public {
                Some(p) => p@,
                None => args.directory@,
            },
            None => args.directory@,
        }),
        endpoints_view(r.endpoints@) == endpoints_spec(strings_view(args.listen@), args.port),
        r.endpoints@.len() > 0,
        r.single == merged_single(*args, file),
        r.debug == args.debug,
        r.no_request_logging == args.no_request_logging,
        r.cors == args.cors,
        r.no_clipboard == args.no_clipboard,
        r.no_compression == args.no_compression,
        r.no_etag == (match file {
            Some(c) => match c.etag {
                Some(e) => !e,
                None => args.no_etag,
            },
            None => args.no_etag,
        }),
        r.symlinks == (match file {
            Some(c) => match c.symlinks {
                Some(s) => s,
                None => args.symlinks,
            },
            None => args.symlinks,
        }),
        r.ssl_cert == args.ssl_cert,
        r.ssl_key == args.ssl_key,
        r.ssl_pass == args.ssl_pass,
        r.no_port_switching == args.no_port_switching,
        r.clean_urls@ == (match file {
            Some(c) => c.clean_urls@,
            None => PatternSetting::Flag(false),
        }),
        rewrites_view(r.rewrites@) == merged_rewrites(*args, file),
        redirects_view(r.redirects@) == (match file {
            Some(c) => redirects_view(c.redirects@),
            None => Seq::empty(),
        }),
        header_rules_view(r.custom_headers@) == (match file {
            Some(c) => header_rules_view(c.headers@),
            None => Seq::empty(),
        }),
        r.directory_listing@ == (match file {
            Some(c) => c.directory_listing@,
            None => PatternSetting::Flag(true),
        }),
        strings_view(r.unlisted@) == (match file {
            Some(c) => strings_view(c.unlisted@),
            None => Seq::empty(),
        }),
        r.trailing_slash == (match file {
            Some(c) => c.trailing_slash,
            None => None,
        }),
{
    let endpoints = build_endpoints(&args.listen, args.port);
    let ssl_cert = clone_opt(&args.ssl_cert);
    let ssl_key = clone_opt(&args.ssl_key);
    let ssl_pass = clone_opt(&args.ssl_pass);
    match file {
        None => {
            let rewrites = spa_rewrites(args.single, Vec::new());
            AppConfig {
                public: args.directory.clone(),
                endpoints,
                single: args.single,
                debug: args.debug,
                no_request_logging: args.no_request_logging,
                cors: args.cors,
                no_clipboard: args.no_clipboard,
                no_compression: args.no_compression,
                no_etag: args.no_etag,
                symlinks: args.symlinks,
                ssl_cert,
                ssl_key,
                ssl_pass,
                no_port_switching: args.no_port_switching,
                clean_urls: CleanUrlsConfig::Bool(false),
                rewrites,
                redirects: Vec::new(),
                custom_headers: Vec::new(),
                directory_listing: DirectoryListingConfig::Bool(true),
                unlisted: Vec::new(),
                trailing_slash: None,
            }
        },
        Some(c) => {
            let single = args.single || match c.render_single {
                Some(b) => b,
                None => false,
            };
            let public = match c.public {
                Some(p) => p,
                None => args.directory.clone(),
            };
            let symlinks = match c.symlinks {
                Some(s) => s,
                None => args.symlinks,
            };
            let no_etag = match c.etag {
                Some(e) => !e,
                None => args.no_etag,
            };
            let rewrites = spa_rewrites(single, c.rewrites);
            AppConfig {
                public,
                endpoints,
                single,
                debug: args.debug,
                no_request_logging: args.no_request_logging,
                cors: args.cors,
                no_clipboard: args.no_clipboard,
                no_compression: args.no_compression,
                no_etag,
                symlinks,
                ssl_cert,
                ssl_key,
                ssl_pass,
                no_port_switching: args.no_port_switching,
                clean_urls: c.clean_urls,
                rewrites,
                redirects: c.redirects,
                custom_headers: c.headers,
                directory_listing: c.directory_listing,
                unlisted: c.unlisted,
                trailing_slash: c.trailing_slash,
            }
        },
    }
}

/// `rules`, preceded by the catch-all rewrite when SPA mode is on.
fn spa_rewrites(single: bool, rules: Vec<RewriteRule>) -> (r: Vec<RewriteRule>)
    ensures
        rewrites_view(r@) == if single {
            seq![catch_all_rewrite()] + rewrites_view(rules@)
        } else {
            rewrites_view(rules@)
        },
{
    let mut r = rules;
    if single {
        r.insert(0, catch_all_rule());
        assert(rewrites_view(r@) =~= seq![catch_all_rewrite()] + rewrites_view(rules@));
    }
    r
}

/// `public` joined with the file name `serve.json`, as `Path::join` joins a
/// relative component: a separator is put between them unless `public` is
/// empty or already ends with one.
pub open spec fn joined_config_path(public: Seq<char>) -> Seq<char> {
    if public.len() == 0 {
        "serve.json"@
    } else if public.last() == '/' {
        public + "serve.json"@
    } else {
        public + "/serve.json"@
    }
}

/// The path of the `serve.json` to read: `--config` when given, else
/// `serve.json` in the directory to serve.
pub fn config_path(args: &CliArgs) -> (r: String)
    ensures
        r@ == (match args.config {
            Some(c) => c@,
            None => joined_config_path(args.directory@),
        }),
{
    match &args.config {
        Some(c) => c.clone(),
        None => {
            let dir = to_chars(args.directory.as_str());
            if dir.len() == 0 {
                String::from_str("serve.json")
            } else {
                let mut r = args.directory.clone();
                if dir[dir.len() - 1] == '/' {
                    push_str(&mut r, "serve.json");
                } else {
                    push_str(&mut r, "/serve.json");
                }
                r
            }
        },
    }
}

} // verus!
