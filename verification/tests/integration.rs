use vaserve::config;
use vaserve::templates;

// ============================================================
// Template Rendering Tests
// ============================================================

#[test]
fn test_render_directory_template() {
    let files = vec![
        templates::DirEntry {
            base: "app.js".to_string(),
            relative: "/app.js".to_string(),
            title: "app.js (100 B)".to_string(),
            ext: "js".to_string(),
            is_dir: false,
        },
        templates::DirEntry {
            base: "subdir".to_string(),
            relative: "/subdir".to_string(),
            title: "subdir".to_string(),
            ext: "dir".to_string(),
            is_dir: true,
        },
    ];
    let paths = vec![("test".to_string(), "/test".to_string())];

    let html = templates::render_directory("test", &paths, &files);
    assert!(html.contains("<!DOCTYPE html>"));
    assert!(html.contains("Index of"));
    assert!(html.contains("app.js"));
    assert!(html.contains("subdir"));
    assert!(html.contains("folder"));
    assert!(html.contains("file"));
}

#[test]
fn test_render_error_template() {
    let html = templates::render_error(404, "The requested path could not be found");
    assert!(html.contains("404"));
    assert!(html.contains("not found") || html.contains("could not be found"));
    assert!(html.contains("<!DOCTYPE html>"));
}

#[test]
fn test_render_error_json() {
    let json = templates::render_error_json(404, "not_found", "The requested path could not be found");
    let parsed: serde_json::Value = serde_json::from_str(&json).unwrap();
    assert_eq!(parsed["error"]["code"], "not_found");
    assert_eq!(parsed["error"]["message"], "The requested path could not be found");
}

// ============================================================
// Listen URI Parser Tests
// ============================================================

#[test]
fn test_parse_listen_uri_port_only() {
    let ep = config::parse_listen_uri("8080").unwrap();
    assert_eq!(ep.host, "0.0.0.0");
    assert_eq!(ep.port, 8080);
}

#[test]
fn test_parse_listen_uri_host_port() {
    let ep = config::parse_listen_uri("127.0.0.1:9090").unwrap();
    assert_eq!(ep.host, "127.0.0.1");
    assert_eq!(ep.port, 9090);
}

#[test]
fn test_parse_listen_uri_tcp() {
    let ep = config::parse_listen_uri("tcp://0.0.0.0:5000").unwrap();
    assert_eq!(ep.host, "0.0.0.0");
    assert_eq!(ep.port, 5000);
}
