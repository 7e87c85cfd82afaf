use sha1::{Digest, Sha1};
use vaserve::config::{HeaderEntry, HeaderRule};
use vaserve::etag::{file_tag, make_etag, EtagCache};
use vaserve::handler::{error_info, parse_range, redirect_body, redirect_status};
use vaserve::httpdate::{chrono_now, httpdate, is_leap};
use vaserve::listing::{build_breadcrumbs, build_listing, DirItem};
use vaserve::response::{
    cors_headers, directory_html, error_response, redirect_response, serve_file, Body,
};
use vaserve::templates::{render_error_json, render_listing_json};

fn header<'a>(h: &'a [(String, String)], name: &str) -> Option<&'a str> {
    h.iter().find(|(k, _)| k == name).map(|(_, v)| v.as_str())
}

#[test]
fn byte_ranges() {
    assert_eq!(parse_range("bytes=0-4", 26), Some((0, 4)));
    assert_eq!(parse_range("bytes=-5", 26), Some((21, 25)));
    assert_eq!(parse_range("bytes=-100", 26), Some((0, 25)));
    assert_eq!(parse_range("bytes=5-", 26), Some((5, 25)));
    assert_eq!(parse_range("bytes=30-", 26), None);
    assert_eq!(parse_range("bytes=0-100", 26), Some((0, 25)));
    assert_eq!(parse_range("bytes=5-2", 26), None);
    assert_eq!(parse_range("bytes=0-1-2", 26), None);
    assert_eq!(parse_range("items=0-1", 26), None);
    assert_eq!(parse_range("bytes=-", 26), None);
    assert_eq!(parse_range("bytes=a-b", 26), None);
    assert_eq!(parse_range("bytes=0-4", 0), None);
    assert_eq!(parse_range("bytes=-0", 26), None);
}

#[test]
fn range_response() {
    let r = serve_file("/srv/range.txt", "range.txt", "range.txt", 26, 0, Some("\"abc\"".to_string()), Some("bytes=0-4"), &vec![], false);
    assert_eq!(r.status, 206);
    assert_eq!(r.body, Body::Range(0, 4));
    assert_eq!(header(&r.headers, "content-range"), Some("bytes 0-4/26"));
    assert_eq!(header(&r.headers, "content-length"), Some("5"));
    assert_eq!(header(&r.headers, "etag"), Some("\"abc\""));
    assert_eq!(header(&r.headers, "content-type"), Some("text/plain"));

    let r = serve_file("/srv/range.txt", "range.txt", "range.txt", 26, 0, None, Some("bytes=-5"), &vec![], false);
    assert_eq!(r.body, Body::Range(21, 25));

    let r = serve_file("/srv/range.txt", "range.txt", "range.txt", 26, 0, None, Some("bytes=40-"), &vec![], false);
    assert_eq!(r.status, 416);
    assert_eq!(r.body, Body::Empty);
    assert_eq!(header(&r.headers, "content-range"), Some("bytes */26"));
}

#[test]
fn whole_file_response() {
    let rules = vec![
        HeaderRule {
            source: "**".to_string(),
            headers: vec![
                HeaderEntry { key: "X-Custom".to_string(), value: "test".to_string() },
                HeaderEntry { key: "X-Bad".to_string(), value: "a\u{7f}b".to_string() },
            ],
        },
        HeaderRule {
            source: "/other.html".to_string(),
            headers: vec![HeaderEntry { key: "X-Other".to_string(), value: "no".to_string() }],
        },
    ];
    let r = serve_file("/srv/index.html", "index.html", "index.html", 31, 0, None, None, &rules, false);
    assert_eq!(r.status, 200);
    assert_eq!(r.body, Body::Whole);
    assert!(header(&r.headers, "content-type").unwrap().starts_with("text/html"));
    assert_eq!(header(&r.headers, "content-length"), Some("31"));
    assert_eq!(header(&r.headers, "content-disposition"), Some("inline; filename=\"index.html\""));
    assert_eq!(header(&r.headers, "accept-ranges"), Some("bytes"));
    assert_eq!(header(&r.headers, "last-modified"), Some("Thu, 01 Jan 1970 00:00:00 GMT"));
    assert_eq!(header(&r.headers, "etag"), None);
    assert_eq!(header(&r.headers, "X-Custom"), Some("test"));
    assert_eq!(header(&r.headers, "X-Bad"), None);
    assert_eq!(header(&r.headers, "X-Other"), None);

    let r = serve_file("/srv/app.js", "app.js", "/app.js", 20, 0, Some("\"t\"".to_string()), None, &vec![], false);
    let ct = header(&r.headers, "content-type").unwrap();
    assert!(ct.contains("javascript") || ct.contains("ecmascript"));
    assert_eq!(header(&r.headers, "etag"), Some("\"t\""));
    assert_eq!(header(&r.headers, "last-modified"), None);

    let r = serve_file("/srv/blob.unknownext", "blob.unknownext", "blob.unknownext", 1, 0, None, None, &vec![], false);
    assert_eq!(header(&r.headers, "content-type"), Some("application/octet-stream"));
}

#[test]
fn cors_and_header_names() {
    let r = serve_file("/srv/a.txt", "a.txt", "a.txt", 3, 0, None, None, &vec![], true);
    assert_eq!(header(&r.headers, "access-control-allow-origin"), Some("*"));
    let r = serve_file("/srv/a.txt", "a.txt", "a.txt", 3, 0, None, Some("bytes=0-0"), &vec![], true);
    assert_eq!(r.status, 206);
    assert_eq!(header(&r.headers, "access-control-allow-origin"), Some("*"));
    let r = serve_file("/srv/a.txt", "a.txt", "a.txt", 3, 0, None, None, &vec![], false);
    assert_eq!(header(&r.headers, "access-control-allow-origin"), None);
    assert_eq!(cors_headers(true), vec![("access-control-allow-origin".to_string(), "*".to_string())]);
    assert!(cors_headers(false).is_empty());

    let rules = vec![HeaderRule {
        source: "**/*.js".to_string(),
        headers: vec![
            HeaderEntry { key: "bad name".to_string(), value: "v".to_string() },
            HeaderEntry { key: "".to_string(), value: "v".to_string() },
            HeaderEntry { key: "X-Good".to_string(), value: "v".to_string() },
        ],
    }];
    let r = serve_file("/srv/js/app.js", "app.js", "js/app.js", 3, 0, None, None, &rules, false);
    assert_eq!(header(&r.headers, "bad name"), None);
    assert_eq!(header(&r.headers, ""), None);
    assert_eq!(header(&r.headers, "X-Good"), Some("v"));
    let r = serve_file("/srv/app.css", "app.css", "app.css", 3, 0, None, None, &rules, false);
    assert_eq!(header(&r.headers, "X-Good"), None);
}

#[test]
fn tag_or_last_modified() {
    let mut cache = EtagCache::new();
    assert_eq!(file_tag(true, &mut cache, "/srv/a.txt", "txt", 1, b"abc"), None);
    let tag = file_tag(false, &mut cache, "/srv/a.txt", "txt", 1, b"abc");
    assert_eq!(tag, Some(make_etag("txt", b"abc")));
    let r = serve_file("/srv/a.txt", "a.txt", "a.txt", 3, 0, None, None, &vec![], false);
    assert!(header(&r.headers, "last-modified").is_some());
    assert!(header(&r.headers, "etag").is_none());
    let r = serve_file("/srv/a.txt", "a.txt", "a.txt", 3, 0, tag, None, &vec![], false);
    assert!(header(&r.headers, "etag").is_some());
    assert!(header(&r.headers, "last-modified").is_none());
}

#[test]
fn json_escapes_as_serde_json() {
    let text = "q\"b\\s\u{8}\t\n\u{c}\r\u{1}\u{1f}\u{7f}/\u{e9}";
    let body = render_error_json(500, "c", text);
    let expected = format!(
        "{{\"error\":{{\"status\":500,\"code\":\"c\",\"message\":{}}}}}",
        serde_json::to_string(text).unwrap()
    );
    assert_eq!(body, expected);
}

#[test]
fn custom_not_found_page() {
    let page = "<h1>Gone fishing</h1>";
    assert_eq!(error_response(404, false, Some(page)), ("text/html; charset=utf-8".to_string(), page.to_string()));
    let (ct, _) = error_response(404, true, Some(page));
    assert_eq!(ct, "application/json; charset=utf-8");
    let (_, body) = error_response(400, false, Some(page));
    assert!(body.contains("Bad Request"));
}

#[test]
fn listing_json_body() {
    let files = build_listing(
        "/",
        &vec![
            DirItem { name: "a \"q\".txt".to_string(), is_dir: false, size: 5 },
            DirItem { name: "sub".to_string(), is_dir: true, size: 0 },
        ],
        &vec![],
    );
    let body = render_listing_json(&files);
    let v: serde_json::Value = serde_json::from_str(&body).unwrap();
    let list = v["files"].as_array().unwrap();
    assert_eq!(list.len(), 2);
    assert_eq!(list[0]["base"], "sub");
    assert_eq!(list[0]["type"], "folder");
    assert_eq!(list[0]["relative"], "/sub");
    assert_eq!(list[1]["base"], "a \"q\".txt");
    assert_eq!(list[1]["type"], "file");
    assert_eq!(list[1]["ext"], "txt");
    assert_eq!(render_listing_json(&vec![]), "{\n  \"files\": []\n}");

    let rows: Vec<serde_json::Value> = files
        .iter()
        .map(|f| {
            let mut m = serde_json::Map::new();
            m.insert("base".to_string(), serde_json::Value::String(f.base.clone()));
            m.insert("relative".to_string(), serde_json::Value::String(f.relative.clone()));
            let kind = if f.is_dir { "folder" } else { "file" };
            m.insert("type".to_string(), serde_json::Value::String(kind.to_string()));
            m.insert("ext".to_string(), serde_json::Value::String(f.ext.clone()));
            m.insert("title".to_string(), serde_json::Value::String(f.title.clone()));
            serde_json::Value::Object(m)
        })
        .collect();
    let mut top = serde_json::Map::new();
    top.insert("files".to_string(), serde_json::Value::Array(rows));
    let pretty = serde_json::to_string_pretty(&serde_json::Value::Object(top)).unwrap();
    assert_eq!(body, pretty);
    let mut empty = serde_json::Map::new();
    empty.insert("files".to_string(), serde_json::Value::Array(vec![]));
    assert_eq!(
        render_listing_json(&vec![]),
        serde_json::to_string_pretty(&serde_json::Value::Object(empty)).unwrap()
    );
}

#[test]
fn error_and_redirect_bodies() {
    assert_eq!(error_info(400), ("bad_request", "Bad Request"));
    assert_eq!(error_info(404), ("not_found", "The requested path could not be found"));
    assert_eq!(error_info(500), ("internal_server_error", "A server error has occurred"));
    let (ct, body) = error_response(404, true, None);
    assert_eq!(ct, "application/json; charset=utf-8");
    let v: serde_json::Value = serde_json::from_str(&body).unwrap();
    assert_eq!(v["error"]["code"], "not_found");
    let (ct, body) = error_response(404, false, None);
    assert_eq!(ct, "text/html; charset=utf-8");
    assert!(body.contains("could not be found"));
    let (_, body) = error_response(400, false, None);
    assert!(body.contains("Bad Request"));

    assert_eq!(redirect_status(302), 302);
    assert_eq!(redirect_status(1000), 301);
    assert_eq!(redirect_status(42), 301);
    assert_eq!(redirect_body("/new"), "Redirecting to <a href=\"/new\">/new</a>");
    let (status, location, _) = redirect_response("/x", 308);
    assert_eq!(status, 308);
    assert_eq!(location, "/x");
}

#[test]
fn http_dates() {
    assert_eq!(httpdate(0), "Thu, 01 Jan 1970 00:00:00 GMT");
    assert_eq!(httpdate(951782400), "Tue, 29 Feb 2000 00:00:00 GMT");
    assert_eq!(httpdate(1700000000), "Tue, 14 Nov 2023 22:13:20 GMT");
    assert_eq!(httpdate(4102444799), "Thu, 31 Dec 2099 23:59:59 GMT");
    assert!(is_leap(2000));
    assert!(!is_leap(1900));
    assert!(is_leap(2024));
    assert!(!is_leap(2023));
    assert_eq!(chrono_now(3661), "01:01:01");
    assert_eq!(chrono_now(86399 + 86400), "23:59:59");
}

#[test]
fn entity_tags() {
    let content = b"plain text";
    let mut hasher = Sha1::new();
    hasher.update(b"txt");
    hasher.update(content);
    let hex = format!("{:x}", hasher.finalize());
    let expected = format!("\"{}\"", &hex[..27]);
    assert_eq!(make_etag("txt", content), expected);

    let mut cache = EtagCache::new();
    let first = cache.compute_etag("/srv/data.txt", "txt", 10, content);
    assert_eq!(first, expected);
    let again = cache.compute_etag("/srv/data.txt", "txt", 10, b"changed");
    assert_eq!(again, expected);
    let changed = cache.compute_etag("/srv/data.txt", "txt", 11, b"changed");
    assert_ne!(changed, expected);
    assert_eq!(changed, make_etag("txt", b"changed"));
}

#[test]
fn directory_listing_rows() {
    let items = vec![
        DirItem { name: "data.txt".to_string(), is_dir: false, size: 10 },
        DirItem { name: "subdir".to_string(), is_dir: true, size: 0 },
        DirItem { name: ".git".to_string(), is_dir: true, size: 0 },
        DirItem { name: "App.JS".to_string(), is_dir: false, size: 1500 },
        DirItem { name: "b".to_string(), is_dir: true, size: 0 },
        DirItem { name: ".DS_Store".to_string(), is_dir: false, size: 1 },
        DirItem { name: "secret".to_string(), is_dir: false, size: 1 },
        DirItem { name: "noext".to_string(), is_dir: false, size: 0 },
    ];
    let files = build_listing("/", &items, &vec!["secret".to_string()]);
    let names: Vec<&str> = files.iter().map(|f| f.base.as_str()).collect();
    assert_eq!(names, vec!["b", "subdir", "App.JS", "data.txt", "noext"]);
    assert_eq!(files[0].relative, "/b");
    assert_eq!(files[0].ext, "dir");
    assert_eq!(files[0].title, "b");
    assert_eq!(files[2].ext, "js");
    assert_eq!(files[2].title, "App.JS (&nbsp;1.5 KB&nbsp;)");
    assert_eq!(files[3].title, "data.txt (&nbsp;10 B&nbsp;)");
    assert_eq!(files[4].ext, "noext");

    let sub = build_listing("/sub//", &items[..1].to_vec(), &vec![]);
    assert_eq!(sub[0].relative, "/sub/data.txt");
    let sub = build_listing("/sub", &items[..1].to_vec(), &vec![]);
    assert_eq!(sub[0].relative, "/sub/data.txt");
}

#[test]
fn listing_keeps_order_of_equal_names() {
    let items = vec![
        DirItem { name: "b.txt".to_string(), is_dir: false, size: 1 },
        DirItem { name: "A".to_string(), is_dir: false, size: 1 },
        DirItem { name: "a".to_string(), is_dir: false, size: 1 },
    ];
    let files = build_listing("/", &items, &vec![]);
    let names: Vec<&str> = files.iter().map(|f| f.base.as_str()).collect();
    assert_eq!(names, vec!["A", "a", "b.txt"]);
}

#[test]
fn breadcrumbs_and_page() {
    let crumbs = build_breadcrumbs("/a//b/");
    assert_eq!(crumbs, vec![("a".to_string(), "/a".to_string()), ("b".to_string(), "/a/b".to_string())]);
    assert!(build_breadcrumbs("/").is_empty());
    let files = build_listing("/", &vec![DirItem { name: "x<y".to_string(), is_dir: false, size: 3 }], &vec![]);
    let html = directory_html("/", &files);
    assert!(html.contains("Index of"));
    assert!(html.contains("x&lt;y"));
}
