use vaserve::cli::CliArgs;
use vaserve::config::{merge_config, CleanUrlsConfig};
use vaserve::server::{
    choose_port, fallback_port, http_url, localhost_display, pad_right, request_log_line, response_log_line,
    startup_lines, startup_notices,
};

#[test]
fn padding() {
    assert_eq!(pad_right("abc", 5), "abc\u{1b}[0m  ");
    assert_eq!(pad_right("abcdef", 3), "abcdef");
    assert_eq!(pad_right("héé", 4), "héé\u{1b}[0m ");
}

#[test]
fn hosts_and_urls() {
    assert_eq!(localhost_display("0.0.0.0", true, false), "localhost");
    assert_eq!(localhost_display("127.0.0.1", false, false), "127.0.0.1");
    assert_eq!(localhost_display("::1", false, true), "[::1]");
    assert_eq!(http_url("localhost", 3000), "http://localhost:3000");
}

#[test]
fn startup_box() {
    let lines = startup_lines("http://localhost:3000", "http://192.168.1.2:3000", false, 3000);
    assert!(lines.iter().any(|l| l.contains("Serving!")));
    assert!(lines.iter().any(|l| l.contains("- Local:    http://localhost:3000")));
    assert!(lines.iter().any(|l| l.contains("- Network:  http://192.168.1.2:3000")));
    assert!(!lines.iter().any(|l| l.contains("is in use")));
    assert_eq!(lines.first().unwrap(), "");
    assert_eq!(lines.last().unwrap(), "");

    let lines = startup_lines("http://localhost:3001", "", true, 3000);
    assert!(!lines.iter().any(|l| l.contains("Network")));
    assert!(lines.iter().any(|l| l.contains("This port was picked because 3000 is in use.")));
}

#[test]
fn port_choice() {
    assert_eq!(fallback_port(3000, true, Some(40000)), 3000);
    assert_eq!(fallback_port(3000, false, Some(40000)), 40000);
    assert_eq!(fallback_port(3000, false, None), 3000);
    assert_eq!(choose_port(3000, true, Some((false, Some(40000)))), (3000, false));
    assert_eq!(choose_port(3000, true, None), (3000, false));
    assert_eq!(choose_port(3000, false, Some((false, Some(40000)))), (40000, true));
    assert_eq!(choose_port(3000, false, Some((true, None))), (3000, false));
    assert_eq!(choose_port(3000, false, Some((false, None))), (3000, false));
}

#[test]
fn notices() {
    let mut args = CliArgs {
        help: false,
        version: false,
        listen: vec![],
        port: None,
        single: true,
        debug: false,
        config: None,
        no_request_logging: false,
        cors: false,
        no_clipboard: false,
        no_compression: false,
        no_etag: false,
        symlinks: false,
        ssl_cert: None,
        ssl_key: None,
        ssl_pass: None,
        no_port_switching: false,
        directory: ".".to_string(),
    };
    let c = merge_config(&args, None);
    assert_eq!(startup_notices(&c), (true, false));
    args.ssl_key = Some("k".to_string());
    args.single = false;
    let mut c = merge_config(&args, None);
    assert_eq!(startup_notices(&c), (false, true));
    c.single = true;
    c.clean_urls = CleanUrlsConfig::Bool(true);
    assert_eq!(startup_notices(&c).0, false);
}

#[test]
fn log_lines() {
    assert_eq!(
        request_log_line(3661, "127.0.0.1", "GET", "/x"),
        "\u{1b}[44m\u{1b}[1m HTTP \u{1b}[0m 01:01:01 127.0.0.1 GET /x"
    );
    assert_eq!(response_log_line(200), "\u{1b}[32m  200 \u{1b}[0m");
    assert_eq!(response_log_line(404), "\u{1b}[31m  404 \u{1b}[0m");
}
