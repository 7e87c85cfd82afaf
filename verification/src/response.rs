//! The responses the handler sends: files (whole or a byte range), error
//! pages, redirects and directory listings, described as status, headers
//! and body for the HTTP layer to send.
use vstd::prelude::*;

use crate::config::{HeaderRule, header_rules_view};
use crate::handler::{error_info, error_info_spec, parse_range, range_spec, redirect_body, redirect_status};
use crate::httpdate::{http_date_spec, httpdate};
use crate::listing::{breadcrumbs, build_breadcrumbs, crumbs_view};
use crate::rewrite::{path_matches, path_matches_spec};
use crate::templates::{
    DirEntry, directory_page, error_json, error_page, render_directory, render_error,
    render_error_json,
};
use crate::text::{decimal, decimal_string, push_decimal, push_str, to_chars, trim_start, trim_start_chars};

verus! {

/// The MIME type that `mime_guess` gives for a path (by its extension),
/// `application/octet-stream` when it knows none.
pub uninterp spec fn mime_of_path(path: Seq<char>) -> Seq<char>;

/// `mime_guess::from_path(path).first_or_octet_stream()`, as text.
/// Trusted: the result depends on the path alone and is named
/// `mime_of_path`; the crate's table of extensions is not stated here.
#[verifier::external_body]
fn guess_mime(path: &str) -> (r: String)
    ensures
        r@ == mime_of_path(path@),
{
    mime_guess::from_path(path).first_or_octet_stream().to_string()
}

/// What a response carries as body.
#[derive(Debug, Clone, Copy, PartialEq, Eq)]
pub enum Body {
    /// The whole file
    Whole,
    /// The bytes `start..=end` of the file
    Range(u64, u64),
    /// Nothing
    Empty,
}

/// A file response: status, headers in order, and which bytes to send.
#[derive(Debug)]
pub struct FileResponse {
    pub status: u16,
    pub headers: Vec<(String, String)>,
    pub body: Body,
}

pub open spec fn headers_view(v: Seq<(String, String)>) -> Seq<(Seq<char>, Seq<char>)> {
    v.map_values(|h: (String, String)| (h.0@, h.1@))
}

/// A character that a header value may hold (`HeaderValue::from_str`
/// accepts tab and every byte from 32 on but 127).
pub open spec fn header_char_ok(c: char) -> bool {
    c == '\t' || (c as u32 >= 32 && c as u32 != 127)
}

pub open spec fn header_value_ok(v: Seq<char>) -> bool {
    forall|i: int| 0 <= i < v.len() ==> header_char_ok(#[trigger] v[i])
}

/// A character that a header name may hold (a token character, as
/// `HeaderName::from_bytes` accepts them; capitals are taken as lower case).
pub open spec fn name_char_ok(c: char) -> bool {
    ('a' <= c && c <= 'z') || ('A' <= c && c <= 'Z') || ('0' <= c && c <= '9') || c == '!' || c
        == '#' || c == '$' || c == '%' || c == '&' || c == '\'' || c == '*' || c == '+' || c == '-'
        || c == '.' || c == '^' || c == '_' || c == '`' || c == '|' || c == '~'
}

/// A valid header name: one to 65535 token characters.
pub open spec fn header_name_ok(k: Seq<char>) -> bool {
    0 < k.len() <= 65535 && forall|i: int| 0 <= i < k.len() ==> name_char_ok(#[trigger] k[i])
}

/// The entries of a header rule whose names and values are valid.
pub open spec fn valid_entries(es: Seq<(Seq<char>, Seq<char>)>) -> Seq<(Seq<char>, Seq<char>)>
    decreases es.len(),
{
    if es.len() == 0 {
        Seq::empty()
    } else if header_name_ok(es.last().0) && header_value_ok(es.last().1) {
        valid_entries(es.drop_last()).push(es.last())
    } else {
        valid_entries(es.drop_last())
    }
}

/// The custom headers that the rules give a file at URL path `url`.
pub open spec fn custom_headers_for(
    rules: Seq<(Seq<char>, Seq<(Seq<char>, Seq<char>)>)>,
    url: Seq<char>,
) -> Seq<(Seq<char>, Seq<char>)>
    decreases rules.len(),
{
    if rules.len() == 0 {
        Seq::empty()
    } else {
        custom_headers_for(rules.drop_last(), url) + if path_matches_spec(url, rules.last().0) {
            valid_entries(rules.last().1)
        } else {
            Seq::empty()
        }
    }
}

/// `ETag` when a tag is given, else `Last-Modified`.
pub open spec fn validator_header(etag: Option<Seq<char>>, mtime: u64) -> (Seq<char>, Seq<char>) {
    match etag {
        Some(t) => ("etag"@, t),
        None => ("last-modified"@, http_date_spec(mtime as nat)),
    }
}

pub open spec fn disposition(file_name: Seq<char>) -> Seq<char> {
    "inline; filename=\""@ + file_name + "\""@
}

/// The response for a file of `size` bytes at `path`: the byte range that
/// a `Range` header asks for (206), or 416 when it cannot be satisfied, or
/// else the whole file (200) with `Accept-Ranges` and the custom headers
/// of its URL path.
pub open spec fn file_response_base(
    path: Seq<char>,
    file_name: Seq<char>,
    relative: Seq<char>,
    size: u64,
    mtime: u64,
    etag: Option<Seq<char>>,
    range: Option<Seq<char>>,
    rules: Seq<(Seq<char>, Seq<(Seq<char>, Seq<char>)>)>,
) -> (u16, Seq<(Seq<char>, Seq<char>)>, Body) {
    let mime = mime_of_path(path);
    match range {
        Some(r) => match range_spec(r, size) {
            Some((s, e)) => (
                206,
                seq![
                    ("content-type"@, mime),
                    ("content-length"@, decimal((e + 1 - s) as nat)),
                    ("content-range"@, "bytes "@ + decimal(s as nat) + "-"@ + decimal(e as nat) + "/"@
                        + decimal(size as nat)),
                    ("content-disposition"@, disposition(file_name)),
                    validator_header(etag, mtime),
                ],
                Body::Range(s, e),
            ),
            None => (416, seq![("content-range"@, "bytes */"@ + decimal(size as nat))], Body::Empty),
        },
        None => (
            200,
            seq![
                ("content-type"@, mime),
                ("content-length"@, decimal(size as nat)),
                ("content-disposition"@, disposition(file_name)),
                ("accept-ranges"@, "bytes"@),
                validator_header(etag, mtime),
            ] + custom_headers_for(rules, "/"@ + trim_start(relative, '/')),
            Body::Whole,
        ),
    }
}

/// The headers that `-C` (CORS) adds to every response.
pub open spec fn cors_spec(cors: bool) -> Seq<(Seq<char>, Seq<char>)> {
    if cors {
        seq![("access-control-allow-origin"@, "*"@)]
    } else {
        Seq::empty()
    }
}

/// A file response as `file_response_base` describes it, with the CORS
/// header added when CORS is on.
pub open spec fn file_response_spec(
    path: Seq<char>,
    file_name: Seq<char>,
    relative: Seq<char>,
    size: u64,
    mtime: u64,
    etag: Option<Seq<char>>,
    range: Option<Seq<char>>,
    rules: Seq<(Seq<char>, Seq<(Seq<char>, Seq<char>)>)>,
    cors: bool,
) -> (u16, Seq<(Seq<char>, Seq<char>)>, Body) {
    let (status, headers, body) = file_response_base(
        path,
        file_name,
        relative,
        size,
        mtime,
        etag,
        range,
        rules,
    );
    (status, headers + cors_spec(cors), body)
}

/// The headers that `-C` (CORS) adds to every response:
/// `Access-Control-Allow-Origin: *` when it is on.
pub fn cors_headers(cors: bool) -> (r: Vec<(String, String)>)
    ensures
        headers_view(r@) == cors_spec(cors),
{
    let mut r: Vec<(String, String)> = Vec::new();
    if cors {
        r.push((String::from_str("access-control-allow-origin"), String::from_str("*")));
    }
    assert(headers_view(r@) =~= cors_spec(cors));
    r
}

fn header(name: &str, value: String) -> (r: (String, String))
    ensures
        r.0@ == name@,
        r.1@ == value@,
{
    (String::from_str(name), value)
}

fn validator(etag: &Option<String>, mtime: u64) -> (r: (String, String))
    ensures
        (r.0@, r.1@) == validator_header(
            match etag {
                Some(t) => Some(t@),
                None => None,
            },
            mtime,
        ),
{
    match etag {
        Some(t) => header("etag", t.clone()),
        None => header("last-modified", httpdate(mtime)),
    }
}

fn value_ok(v: &str) -> (r: bool)
    ensures
        r == header_value_ok(v@),
{
    let cs = to_chars(v);
    let mut i: usize = 0;
    while i < cs.len()
        invariant
            i <= cs@.len(),
            cs@ == v@,
            forall|k: int| 0 <= k < i ==> header_char_ok(#[trigger] cs@[k]),
        decreases cs.len() - i,
    {
        let c = cs[i];
        if !(c == '\t' || (c as u32 >= 32 && c as u32 != 127)) {
            assert(!header_char_ok(cs@[i as int]));
            return false;
        }
        i = i + 1;
    }
    true
}

fn name_ok(k: &str) -> (r: bool)
    ensures
        r == header_name_ok(k@),
{
    let cs = to_chars(k);
    if cs.len() == 0 || cs.len() > 65535 {
        return false;
    }
    let mut i: usize = 0;
    while i < cs.len()
        invariant
            i <= cs@.len(),
            cs@ == k@,
            forall|j: int| 0 <= j < i ==> name_char_ok(#[trigger] cs@[j]),
        decreases cs.len() - i,
    {
        let c = cs[i];
        if !(('a' <= c && c <= 'z') || ('A' <= c && c <= 'Z') || ('0' <= c && c <= '9') || c == '!'
            || c == '#' || c == '$' || c == '%' || c == '&' || c == '\'' || c == '*' || c == '+'
            || c == '-' || c == '.' || c == '^' || c == '_' || c == '`' || c == '|' || c == '~') {
            assert(!name_char_ok(cs@[i as int]));
            return false;
        }
        i = i + 1;
    }
    true
}

/// Appends the custom headers that `rules` give the URL path `url`.
fn push_custom_headers(out: &mut Vec<(String, String)>, rules: &Vec<HeaderRule>, url: &str)
    ensures
        headers_view(final(out)@) == headers_view(old(out)@) + custom_headers_for(
            header_rules_view(rules@),
            url@,
        ),
{
    let ghost rv = header_rules_view(rules@);
    let ghost start = headers_view(out@);
    let mut i: usize = 0;
    assert(start =~= start + custom_headers_for(rv.take(0), url@));
    while i < rules.len()
        invariant
            i <= rules@.len(),
            rv == header_rules_view(rules@),
            headers_view(out@) == start + custom_headers_for(rv.take(i as int), url@),
        decreases rules.len() - i,
    {
        assert(rv.take(i + 1).drop_last() =~= rv.take(i as int));
        let rule = &rules[i];
        assert(rv[i as int] == rule@);
        let ghost es = rule@.1;
        let ghost before = headers_view(out@);
        if path_matches(url, rule.source.as_str()) {
            let mut k: usize = 0;
            assert(before =~= before + valid_entries(es.take(0)));
            while k < rule.headers.len()
                invariant
                    k <= rule.headers@.len(),
                    es == rule.headers@.map_values(|e: crate::config::HeaderEntry| e@),
                    headers_view(out@) == before + valid_entries(es.take(k as int)),
                decreases rule.headers.len() - k,
            {
                assert(es.take(k + 1).drop_last() =~= es.take(k as int));
                let entry = &rule.headers[k];
                assert(es[k as int] == entry@);
                if name_ok(entry.key.as_str()) && value_ok(entry.value.as_str()) {
                    let ghost b2 = headers_view(out@);
                    out.push((entry.key.clone(), entry.value.clone()));
                    assert(headers_view(out@) =~= b2.push(entry@));
                }
                assert(headers_view(out@) =~= before + valid_entries(es.take(k + 1)));
                k = k + 1;
            }
            assert(es.take(rule.headers@.len() as int) =~= es);
        }
        assert(headers_view(out@) =~= start + custom_headers_for(rv.take(i + 1), url@));
        i = i + 1;
    }
    assert(rv.take(rules@.len() as int) =~= rv);
}

/// The file response before the CORS header.
fn serve_file_base(
    path: &str,
    file_name: &str,
    relative: &str,
    file_size: u64,
    mtime: u64,
    etag: Option<String>,
    range: Option<&str>,
    custom_headers: &Vec<HeaderRule>,
) -> (r: FileResponse)
    ensures
        (r.status, headers_view(r.headers@), r.body) == file_response_base(
            path@,
            file_name@,
            relative@,
            file_size,
            mtime,
            match etag {
                Some(t) => Some(t@),
                None => None,
            },
            match range {
                Some(v) => Some(v@),
                None => None,
            },
            header_rules_view(custom_headers@),
        ),
        r.body matches Body::Range(s, e) ==> s <= e < file_size,
{
    let mime = guess_mime(path);
    let mut disp = String::from_str("inline; filename=\"");
    push_str(&mut disp, file_name);
    push_str(&mut disp, "\"");
    match range {
        Some(rv) => {
            match parse_range(rv, file_size) {
                Some((s, e)) => {
                    let mut cr = String::from_str("bytes ");
                    push_decimal(&mut cr, s);
                    push_str(&mut cr, "-");
                    push_decimal(&mut cr, e);
                    push_str(&mut cr, "/");
                    push_decimal(&mut cr, file_size);
                    let mut headers: Vec<(String, String)> = Vec::new();
                    headers.push(header("content-type", mime));
                    headers.push(header("content-length", decimal_string(e + 1 - s)));
                    headers.push(header("content-range", cr));
                    headers.push(header("content-disposition", disp));
                    headers.push(validator(&etag, mtime));
                    let r = FileResponse { status: 206, headers, body: Body::Range(s, e) };
                    assert(headers_view(r.headers@) =~= file_response_base(
                        path@,
                        file_name@,
                        relative@,
                        file_size,
                        mtime,
                        match etag {
                            Some(t) => Some(t@),
                            None => None,
                        },
                        Some(rv@),
                        header_rules_view(custom_headers@),
                    ).1);
                    return r;
                },
                None => {
                    let mut cr = String::from_str("bytes */");
                    push_decimal(&mut cr, file_size);
                    let mut headers: Vec<(String, String)> = Vec::new();
                    headers.push(header("content-range", cr));
                    let r = FileResponse { status: 416, headers, body: Body::Empty };
                    assert(headers_view(r.headers@) =~= seq![
                        ("content-range"@, "bytes */"@ + decimal(file_size as nat)),
                    ]);
                    return r;
                },
            }
        },
        None => {},
    }
    let mut headers: Vec<(String, String)> = Vec::new();
    headers.push(header("content-type", mime));
    headers.push(header("content-length", decimal_string(file_size)));
    headers.push(header("content-disposition", disp));
    headers.push(header("accept-ranges", String::from_str("bytes")));
    headers.push(validator(&etag, mtime));
    let ghost fixed = headers_view(headers@);
    let rc = to_chars(relative);
    let mut url = String::from_str("/");
    let trimmed = trim_start_chars(rc.as_slice(), '/');
    crate::text::push_chars(&mut url, trimmed.as_slice());
    push_custom_headers(&mut headers, custom_headers, url.as_str());
    let r = FileResponse { status: 200, headers, body: Body::Whole };
    assert(headers_view(r.headers@) =~= file_response_base(
        path@,
        file_name@,
        relative@,
        file_size,
        mtime,
        match etag {
            Some(t) => Some(t@),
            None => None,
        },
        None,
        header_rules_view(custom_headers@),
    ).1);
    r
}

/// Serve a file from disk: the status, headers and body of the response
/// for the file at `path` (named `file_name`, at `relative` below the
/// served directory) of `file_size` bytes, modified at `mtime`, with its
/// entity tag when tags are on, for the `Range` header when there is one,
/// with the CORS header when `cors` is on.
pub fn serve_file(
    path: &str,
    file_name: &str,
    relative: &str,
    file_size: u64,
    mtime: u64,
    etag: Option<String>,
    range: Option<&str>,
    custom_headers: &Vec<HeaderRule>,
    cors: bool,
) -> (r: FileResponse)
    ensures
        (r.status, headers_view(r.headers@), r.body) == file_response_spec(
            path@,
            file_name@,
            relative@,
            file_size,
            mtime,
            match etag {
                Some(t) => Some(t@),
                None => None,
            },
            match range {
                Some(v) => Some(v@),
                None => None,
            },
            header_rules_view(custom_headers@),
            cors,
        ),
        r.body matches Body::Range(s, e) ==> s <= e < file_size,
{
    let base = serve_file_base(path, file_name, relative, file_size, mtime, etag, range, custom_headers);
    let FileResponse { status, headers, body } = base;
    let mut headers = headers;
    let mut extra = cors_headers(cors);
    let ghost before = headers@;
    let ghost ex = extra@;
    headers.append(&mut extra);
    assert(headers_view(headers@) =~= headers_view(before) + headers_view(ex));
    FileResponse { status, headers, body }
}

/// An error response: content type and body. A `404.html` of the served
/// directory (`custom_404`, its contents) is the page of a 404 for clients
/// that do not ask for JSON.
pub open spec fn error_response_spec(code: u16, accepts_json: bool, custom_404: Option<Seq<char>>) -> (
    Seq<char>,
    Seq<char>,
) {
    let (error_code, message) = error_info_spec(code);
    if accepts_json {
        ("application/json; charset=utf-8"@, error_json(code, error_code, message))
    } else if code == 404 && custom_404 is Some {
        ("text/html; charset=utf-8"@, custom_404->0)
    } else {
        ("text/html; charset=utf-8"@, error_page(code, message))
    }
}

/// Generate an error response: its content type and body (JSON when the
/// client accepts it, else HTML: the served directory's own `404.html`
/// for a 404 when there is one, else the built-in page).
pub fn error_response(code: u16, accepts_json: bool, custom_404: Option<&str>) -> (r: (
    String,
    String,
))
    ensures
        (r.0@, r.1@) == error_response_spec(
            code,
            accepts_json,
            match custom_404 {
                Some(p) => Some(p@),
                None => None,
            },
        ),
{
    let (error_code, message) = error_info(code);
    if accepts_json {
        (
            String::from_str("application/json; charset=utf-8"),
            render_error_json(code, error_code, message),
        )
    } else {
        match custom_404 {
            Some(page) => {
                if code == 404 {
                    return (String::from_str("text/html; charset=utf-8"), String::from_str(page));
                }
            },
            None => {},
        }
        (String::from_str("text/html; charset=utf-8"), render_error(code, message))
    }
}

/// Generate a redirect response: status, `Location` and body.
pub fn redirect_response(location: &str, status: u16) -> (r: (u16, String, String))
    ensures
        r.0 == if 100 <= status <= 999 {
            status
        } else {
            301
        },
        r.1@ == location@,
        r.2@ == "Redirecting to <a href=\""@ + location@ + "\">"@ + location@ + "</a>"@,
{
    (redirect_status(status), String::from_str(location), redirect_body(location))
}

/// The HTML listing of the directory at URL path `url_path`.
pub fn directory_html(url_path: &str, files: &Vec<DirEntry>) -> (r: String)
    ensures
        r@ == directory_page(
            url_path@,
            breadcrumbs(url_path@),
            files@.map_values(|f: DirEntry| f@),
        ),
{
    let paths = build_breadcrumbs(url_path);
    let r = render_directory(url_path, &paths, files);
    assert(paths@.map_values(|p: (String, String)| (p.0@, p.1@)) =~= crumbs_view(paths@));
    r
}

} // verus!
