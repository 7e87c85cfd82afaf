use vaserve::cli::CliArgs;
use vaserve::config::{
    build_endpoints, config_path, default_redirect_type, merge_config, parse_listen_uri,
    CleanUrlsConfig, DirectoryListingConfig, EndpointConfig, RewriteRule, ServeJsonConfig,
};

fn args() -> CliArgs {
    CliArgs {
        help: false,
        version: false,
        listen: vec![],
        port: None,
        single: false,
        debug: false,
        config: None,
        no_request_logging: false,
        cors: false,
        no_clipboard: false,
        no_compression: false,
        no_etag: false,
        symlinks: false,
        ssl_cert: None,
        ssl_key: None,
        ssl_pass: None,
        no_port_switching: false,
        directory: ".".to_string(),
    }
}

fn serve_json() -> ServeJsonConfig {
    ServeJsonConfig {
        public: None,
        clean_urls: CleanUrlsConfig::Bool(false),
        rewrites: vec![],
        redirects: vec![],
        headers: vec![],
        directory_listing: DirectoryListingConfig::Bool(true),
        unlisted: vec![],
        trailing_slash: None,
        render_single: None,
        symlinks: None,
        etag: None,
    }
}

#[test]
fn listen_uri_forms() {
    let ep = parse_listen_uri("tcp://example.com:1234").unwrap();
    assert_eq!(ep.host, "example.com");
    assert_eq!(ep.port, 1234);
    let ep = parse_listen_uri("tcp://:1234").unwrap();
    assert_eq!(ep.host, "0.0.0.0");
    let ep = parse_listen_uri("tcp://1234").unwrap();
    assert_eq!(ep.host, "0.0.0.0");
    assert_eq!(ep.port, 1234);
    let ep = parse_listen_uri("+80").unwrap();
    assert_eq!(ep.port, 80);
    let ep = parse_listen_uri("[::1]:8080").unwrap();
    assert_eq!(ep.host, "[::1]");
    assert_eq!(ep.port, 8080);
}

#[test]
fn listen_uri_round_trip() {
    for host in ["", "localhost", "::1", "+x", "tcp:", "tcp", "a:b:c"] {
        for port in [0u16, 7, 80, 3000, 65535] {
            let ep = parse_listen_uri(&format!("{}:{}", host, port)).unwrap();
            assert_eq!((ep.host.as_str(), ep.port), (host, port));
            let ep = parse_listen_uri(&port.to_string()).unwrap();
            assert_eq!((ep.host.as_str(), ep.port), ("0.0.0.0", port));
        }
    }
}

#[test]
fn listen_uri_rejected() {
    assert!(parse_listen_uri("70000").is_none());
    assert!(parse_listen_uri("localhost").is_none());
    assert!(parse_listen_uri("unix:/tmp/sock").is_none());
    assert!(parse_listen_uri("tcp://host:99999").is_none());
    assert!(parse_listen_uri("host:").is_none());
    assert!(parse_listen_uri("").is_none());
}

#[test]
fn endpoints_default_and_overrides() {
    let eps = build_endpoints(&vec![], None);
    assert_eq!(eps.len(), 1);
    assert_eq!(eps[0].host, "0.0.0.0");
    assert_eq!(eps[0].port, 3000);

    let eps = build_endpoints(&vec![], Some(4000));
    assert_eq!(eps.len(), 1);
    assert_eq!(eps[0].port, 4000);

    let eps = build_endpoints(&vec!["5000".to_string(), "bad".to_string(), "127.0.0.1:5001".to_string()], Some(4000));
    assert_eq!(eps.len(), 2);
    assert_eq!(eps[0].port, 5000);
    assert_eq!(eps[1].host, "127.0.0.1");
    assert_eq!(eps[1].port, 5001);

    let eps = build_endpoints(&vec!["bad".to_string()], Some(4000));
    assert_eq!(eps.len(), 1);
    assert_eq!(eps[0].port, 3000);
}

#[test]
fn default_values() {
    let ep = EndpointConfig::default();
    assert_eq!(ep.host, "0.0.0.0");
    assert_eq!(ep.port, 3000);
    assert!(matches!(CleanUrlsConfig::default(), CleanUrlsConfig::Bool(false)));
    assert!(matches!(DirectoryListingConfig::default(), DirectoryListingConfig::Bool(true)));
    assert_eq!(default_redirect_type(), 301);
}

#[test]
fn merge_without_serve_json() {
    let mut a = args();
    a.cors = true;
    a.ssl_cert = Some("cert.pem".to_string());
    let c = merge_config(&a, None);
    assert_eq!(c.public, ".");
    assert!(c.cors);
    assert_eq!(c.ssl_cert, Some("cert.pem".to_string()));
    assert!(c.rewrites.is_empty());
    assert!(matches!(c.clean_urls, CleanUrlsConfig::Bool(false)));
    assert!(matches!(c.directory_listing, DirectoryListingConfig::Bool(true)));
    assert_eq!(c.endpoints.len(), 1);
    assert_eq!(c.trailing_slash, None);
}

#[test]
fn merge_single_adds_catch_all() {
    let mut a = args();
    a.single = true;
    let c = merge_config(&a, None);
    assert!(c.single);
    assert_eq!(c.rewrites.len(), 1);
    assert_eq!(c.rewrites[0].source, "**");
    assert_eq!(c.rewrites[0].destination, "/index.html");
}

#[test]
fn merge_serve_json_takes_precedence() {
    let mut a = args();
    a.no_etag = false;
    a.symlinks = false;
    let mut f = serve_json();
    f.public = Some("build".to_string());
    f.render_single = Some(true);
    f.symlinks = Some(true);
    f.etag = Some(false);
    f.trailing_slash = Some(true);
    f.unlisted = vec![".secret".to_string()];
    f.clean_urls = CleanUrlsConfig::Patterns(vec!["/blog/**".to_string()]);
    f.rewrites = vec![RewriteRule { source: "/api/**".to_string(), destination: "/api/index.html".to_string() }];
    let c = merge_config(&a, Some(f));
    assert_eq!(c.public, "build");
    assert!(c.single);
    assert!(c.symlinks);
    assert!(c.no_etag);
    assert_eq!(c.trailing_slash, Some(true));
    assert_eq!(c.unlisted, vec![".secret".to_string()]);
    assert!(matches!(c.clean_urls, CleanUrlsConfig::Patterns(ref p) if p.len() == 1));
    assert_eq!(c.rewrites.len(), 2);
    assert_eq!(c.rewrites[0].source, "**");
    assert_eq!(c.rewrites[1].source, "/api/**");
}

#[test]
fn merge_serve_json_keeps_cli_when_unset() {
    let mut a = args();
    a.no_etag = true;
    a.symlinks = true;
    let c = merge_config(&a, Some(serve_json()));
    assert!(c.no_etag);
    assert!(c.symlinks);
    assert!(!c.single);
    assert!(c.rewrites.is_empty());
}

#[test]
fn config_file_path() {
    let mut a = args();
    assert_eq!(config_path(&a), "./serve.json");
    a.directory = "build/".to_string();
    assert_eq!(config_path(&a), "build/serve.json");
    a.directory = "".to_string();
    assert_eq!(config_path(&a), "serve.json");
    a.config = Some("custom.json".to_string());
    assert_eq!(config_path(&a), "custom.json");
}
