use vaserve::cli::CliArgs;
use vaserve::config::{
    merge_config, AppConfig, CleanUrlsConfig, DirectoryListingConfig, RedirectRule, RewriteRule,
};
use vaserve::handler::{
    accepts_json, applicable_clean_urls, check_clean_urls, collapse_double_slashes,
    decode_uri_path, handle_trailing_slash, has_extension, is_directory_listing_allowed,
    relative_path, route_request, urlencoding, Route, check_resolved, clean_url_file,
    directory_action, DirAction,
};
use vaserve::rewrite::{apply_rewrites, check_redirects, match_rewrite, path_matches};

fn base_config() -> AppConfig {
    let args = CliArgs {
        help: false,
        version: false,
        listen: vec![],
        port: None,
        single: false,
        debug: false,
        config: None,
        no_request_logging: true,
        cors: false,
        no_clipboard: true,
        no_compression: false,
        no_etag: false,
        symlinks: false,
        ssl_cert: None,
        ssl_key: None,
        ssl_pass: None,
        no_port_switching: false,
        directory: ".".to_string(),
    };
    merge_config(&args, None)
}

fn rule(s: &str, d: &str) -> RewriteRule {
    RewriteRule { source: s.to_string(), destination: d.to_string() }
}

#[test]
fn percent_decoding() {
    assert_eq!(urlencoding("hello%20world.txt"), Ok("hello world.txt".to_string()));
    assert_eq!(urlencoding("a+b"), Ok("a b".to_string()));
    assert_eq!(urlencoding("%41%6a"), Ok("Aj".to_string()));
    assert_eq!(urlencoding("%+f"), Err(()));
    assert_eq!(urlencoding("%e9"), Err(()));
    assert_eq!(urlencoding("%C3%A9t%c3%a9"), Ok("\u{e9}t\u{e9}".to_string()));
    assert_eq!(urlencoding("caf\u{e9}%20"), Ok("caf\u{e9} ".to_string()));
    assert_eq!(urlencoding("%F0%9F%98%80"), Ok("\u{1f600}".to_string()));
    assert_eq!(urlencoding("%ED%A0%80"), Err(()));
    assert_eq!(urlencoding("%C0%AF"), Err(()));
    assert_eq!(urlencoding("%zz"), Err(()));
    assert_eq!(urlencoding("abc%2"), Err(()));
    assert_eq!(urlencoding("%"), Err(()));
    assert_eq!(urlencoding("%-1"), Err(()));
    assert_eq!(urlencoding("plain/path.html"), Ok("plain/path.html".to_string()));
}

#[test]
fn uri_path_decoding_drops_query() {
    assert_eq!(decode_uri_path("/index.html?v=1&t=2"), Ok("/index.html".to_string()));
    assert_eq!(decode_uri_path("/hello%20world.txt"), Ok("/hello world.txt".to_string()));
    assert_eq!(decode_uri_path("/a%2Fb"), Ok("/a/b".to_string()));
    assert_eq!(decode_uri_path("/bad%zz?x=%zz"), Err(400));
    assert_eq!(decode_uri_path("/ok?x=%zz"), Ok("/ok".to_string()));
}

#[test]
fn slashes_and_extensions() {
    assert_eq!(collapse_double_slashes("//a///b/"), "/a/b/");
    assert_eq!(collapse_double_slashes(""), "");
    assert!(has_extension("/a/b.txt"));
    assert!(!has_extension("/a/.bashrc"));
    assert!(!has_extension("/a.b/c"));
    assert!(has_extension("file.tar.gz"));
}

#[test]
fn trailing_slash_policy() {
    let some = |s: &str| Some(s.to_string());
    assert_eq!(handle_trailing_slash(Some(true), "/about"), some("/about/"));
    assert_eq!(handle_trailing_slash(Some(true), "/about/"), None);
    assert_eq!(handle_trailing_slash(Some(true), "/app.js"), None);
    assert_eq!(handle_trailing_slash(Some(true), ""), some("/"));
    assert_eq!(handle_trailing_slash(Some(false), "/about///"), some("/about"));
    assert_eq!(handle_trailing_slash(Some(false), "/about"), None);
    assert_eq!(handle_trailing_slash(Some(false), "/"), None);
    assert_eq!(handle_trailing_slash(None, "//x//y"), some("/x/y"));
    assert_eq!(handle_trailing_slash(None, "/x/y"), None);
}

#[test]
fn rewrite_patterns() {
    assert_eq!(match_rewrite("/anything", "**", "/index.html"), Some("/index.html".to_string()));
    assert_eq!(match_rewrite("/x", "*", "/y"), Some("/y".to_string()));
    assert_eq!(match_rewrite("/old-path", "/old-path", "/index.html"), Some("/index.html".to_string()));
    assert_eq!(match_rewrite("/api/users/1", "/api/**", "/v2/"), Some("/v2/users/1".to_string()));
    assert_eq!(match_rewrite("/blog/post.php", "/blog/*.php", "/b/$1"), Some("/b/post".to_string()));
    assert_eq!(match_rewrite("/blog/a/post.php", "/blog/*.php", "/b/$1"), None);
    assert_eq!(match_rewrite("/user/42", "/user/:id", "/profile/:id"), Some("/profile/42".to_string()));
    assert_eq!(
        match_rewrite("/a/1/b/2", "/a/:x/b/:y", "/:y/:x"),
        Some("/2/1".to_string())
    );
    assert_eq!(match_rewrite("/user/42", "/user/:id", "/profile"), Some("/profile".to_string()));
    assert_eq!(match_rewrite("/user/42/x", "/user/:id", "/profile/:id"), None);
    assert_eq!(match_rewrite("/other/42", "/user/:id", "/profile/:id"), None);
    assert_eq!(match_rewrite("/nothing", "/something", "/x"), None);
    assert_eq!(match_rewrite("/apix", "/api/**", "/v2"), None);
    assert_eq!(match_rewrite("/api", "/api/**", "/v2"), Some("/v2".to_string()));
    assert_eq!(match_rewrite("/api/", "/api/**", "/v2"), Some("/v2/".to_string()));
}

#[test]
fn glob_patterns() {
    assert!(path_matches("/app.js", "**/*.js"));
    assert!(path_matches("/lib/deep/app.js", "**/*.js"));
    assert!(!path_matches("/app.css", "**/*.js"));
    assert!(path_matches("/blog/a/b", "/blog/**"));
    assert!(!path_matches("/blogs/a", "/blog/**"));
    assert!(path_matches("/docs/a.html", "/docs/*.html"));
    assert!(!path_matches("/docs/x/a.html", "/docs/*.html"));
    let blog = CleanUrlsConfig::Patterns(vec!["/blog/**".to_string(), "/docs/**".to_string()]);
    assert!(applicable_clean_urls("/docs/intro.html", &blog));
    assert!(!applicable_clean_urls("/intro.html", &blog));
}

#[test]
fn clean_url_files() {
    let on = CleanUrlsConfig::Bool(true);
    assert_eq!(clean_url_file(&on, "/about", "about", false, true), "about.html");
    assert_eq!(clean_url_file(&on, "/about", "about", true, true), "about");
    assert_eq!(clean_url_file(&on, "/about", "about", false, false), "about");
    assert_eq!(clean_url_file(&on, "/", "", false, true), "");
    let off = CleanUrlsConfig::Bool(false);
    assert_eq!(clean_url_file(&off, "/about", "about", false, true), "about");
}

#[test]
fn resolved_paths_and_directories() {
    assert_eq!(check_resolved(false, true, false, false), Err(400));
    assert_eq!(check_resolved(true, false, false, false), Err(404));
    assert_eq!(check_resolved(true, true, true, false), Err(404));
    assert_eq!(check_resolved(true, true, true, true), Ok(()));
    assert_eq!(check_resolved(true, true, false, false), Ok(()));
    let on = DirectoryListingConfig::Bool(true);
    let off = DirectoryListingConfig::Bool(false);
    assert_eq!(directory_action("/", &on, true), DirAction::List);
    assert_eq!(directory_action("/", &off, true), DirAction::ServeIndex);
    assert_eq!(directory_action("/", &off, false), DirAction::NotFound);
}

#[test]
fn simple_path_patterns() {
    assert!(path_matches("/x", "**"));
    assert!(path_matches("/x", "*"));
    assert!(path_matches("/x", "/x"));
    assert!(!path_matches("/x", "/y"));
}

#[test]
fn rewrite_rules_applied_once_each() {
    let spa = vec![rule("**", "/index.html")];
    assert_eq!(apply_rewrites(&spa, "/some-route"), "/index.html");
    assert_eq!(apply_rewrites(&spa, "/app.js"), "/index.html");
    let chain = vec![rule("/a", "/b"), rule("/b", "/c")];
    assert_eq!(apply_rewrites(&chain, "/a"), "/c");
    let cycle = vec![rule("/a", "/b"), rule("/b", "/a")];
    assert_eq!(apply_rewrites(&cycle, "/a"), "/a");
    assert_eq!(apply_rewrites(&vec![], "/a"), "/a");
}

#[test]
fn redirect_rules() {
    let rules = vec![
        RedirectRule { source: "/old".to_string(), destination: "/new".to_string(), status_type: 302 },
        RedirectRule { source: "/old".to_string(), destination: "/other".to_string(), status_type: 301 },
    ];
    assert_eq!(check_redirects(&rules, "/old"), Some(("/new".to_string(), 302)));
    assert_eq!(check_redirects(&rules, "/fresh"), None);
}

#[test]
fn clean_urls() {
    let on = CleanUrlsConfig::Bool(true);
    assert_eq!(check_clean_urls(&on, "/index.html"), Some("/index".to_string()));
    assert_eq!(check_clean_urls(&on, "/docs/index"), Some("/docs/".to_string()));
    assert_eq!(check_clean_urls(&on, "/app.js"), None);
    let off = CleanUrlsConfig::Bool(false);
    assert_eq!(check_clean_urls(&off, "/index.html"), None);
    let some = CleanUrlsConfig::Patterns(vec!["/blog.html".to_string()]);
    assert!(applicable_clean_urls("/blog.html", &some));
    assert_eq!(check_clean_urls(&some, "/blog.html"), Some("/blog".to_string()));
    assert_eq!(check_clean_urls(&some, "/other.html"), None);
}

#[test]
fn directory_listing_switch() {
    assert!(is_directory_listing_allowed("/", &DirectoryListingConfig::Bool(true)));
    assert!(!is_directory_listing_allowed("/", &DirectoryListingConfig::Bool(false)));
    assert!(!is_directory_listing_allowed("/", &DirectoryListingConfig::Patterns(vec![])));
    assert!(is_directory_listing_allowed("/x", &DirectoryListingConfig::Patterns(vec!["**".to_string()])));
    assert!(!is_directory_listing_allowed("/x", &DirectoryListingConfig::Patterns(vec!["/y".to_string()])));
}

#[test]
fn traversal_check() {
    assert_eq!(relative_path("/../../etc/passwd"), Err(400));
    assert_eq!(relative_path("/a/../b"), Err(400));
    assert_eq!(relative_path("/a/..b/c"), Ok("a/..b/c".to_string()));
    assert_eq!(relative_path("///sub/index.html"), Ok("sub/index.html".to_string()));
}

#[test]
fn routing_decisions() {
    let c = base_config();
    match route_request(&c, "/index.html?v=1&t=2") {
        Route::Resolve { path, relative } => {
            assert_eq!(path, "/index.html");
            assert_eq!(relative, "index.html");
        }
        other => panic!("unexpected {:?}", other),
    }
    assert!(matches!(route_request(&c, "/../../etc/passwd"), Route::Error(400)));
    assert!(matches!(route_request(&c, "/%zz"), Route::Error(400)));
    match route_request(&c, "//a") {
        Route::Redirect { location, status } => {
            assert_eq!(location, "/a");
            assert_eq!(status, 301);
        }
        other => panic!("unexpected {:?}", other),
    }
    match route_request(&c, "/hello%20world.txt") {
        Route::Resolve { relative, .. } => assert_eq!(relative, "hello world.txt"),
        other => panic!("unexpected {:?}", other),
    }
}

#[test]
fn routing_with_rules() {
    let mut c = base_config();
    c.rewrites.push(rule("/old-path", "/index.html"));
    match route_request(&c, "/old-path") {
        Route::Resolve { path, .. } => assert_eq!(path, "/index.html"),
        other => panic!("unexpected {:?}", other),
    }
    c.clean_urls = CleanUrlsConfig::Bool(true);
    match route_request(&c, "/index.html") {
        Route::Redirect { location, status } => {
            assert_eq!(location, "/index");
            assert_eq!(status, 301);
        }
        other => panic!("unexpected {:?}", other),
    }
    c.redirects.push(RedirectRule { source: "/gone".to_string(), destination: "/here".to_string(), status_type: 307 });
    match route_request(&c, "/gone") {
        Route::Redirect { location, status } => {
            assert_eq!(location, "/here");
            assert_eq!(status, 307);
        }
        other => panic!("unexpected {:?}", other),
    }
    c.trailing_slash = Some(false);
    match route_request(&c, "/dir/") {
        Route::Redirect { location, .. } => assert_eq!(location, "/dir"),
        other => panic!("unexpected {:?}", other),
    }
}

#[test]
fn accept_header() {
    assert!(accepts_json(Some("text/html, application/json")));
    assert!(!accepts_json(Some("text/html")));
    assert!(!accepts_json(None));
}
