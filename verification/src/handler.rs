//! The decisions of the request handler: decoding the request path, the
//! trailing slash policy, rewrites, redirects, clean URLs, the path
//! traversal check, byte ranges and error pages.
use vstd::prelude::*;
use vstd::utf8::{decode_utf8, encode_utf8, valid_utf8};

use crate::config::{
    AppConfig, CleanUrlsConfig, DirectoryListingConfig, PatternSetting, redirects_view,
    rewrites_view,
};
use crate::rewrite::{
    apply_rewrites, check_redirects, path_matches, path_matches_spec, redirect_spec,
    rewrites_spec,
};
use crate::text::{
    contains_chars, contains_seq, count_char, count_of, ends_with, find_first, find_last,
    first_index, has_char, has_prefix, has_suffix, last_index, parse_u64, parse_u64_spec,
    push_char, split, split_chars, starts_with, string_from, sub_chars, to_chars, trim_end,
    trim_end_chars, trim_start, trim_start_chars,
};

verus! {

// ---------------------------------------------------------------------------
// URL decoding
// ---------------------------------------------------------------------------

/// The value of a hexadecimal digit, given as its ASCII byte.
pub open spec fn hex_value(b: u8) -> Option<u8> {
    if 0x30 <= b <= 0x39 {
        Some((b - 0x30) as u8)
    } else if 0x61 <= b <= 0x66 {
        Some((b - 0x61 + 10) as u8)
    } else if 0x41 <= b <= 0x46 {
        Some((b - 0x41 + 10) as u8)
    } else {
        None
    }
}

/// Percent-decoding of bytes: `%XY` with two hexadecimal digits becomes
/// the byte `XY`, `+` becomes a space, any other byte stays; `None` when a
/// `%` is not followed by two hexadecimal digits.
pub open spec fn percent_decode(b: Seq<u8>) -> Option<Seq<u8>>
    decreases b.len(),
{
    if b.len() == 0 {
        Some(Seq::empty())
    } else if b[0] == 0x25 {
        if b.len() < 3 {
            None
        } else {
            match (hex_value(b[1]), hex_value(b[2])) {
                (Some(h), Some(l)) => match percent_decode(b.skip(3)) {
                    Some(r) => Some(seq![(h * 16 + l) as u8] + r),
                    None => None,
                },
                _ => None,
            }
        }
    } else {
        match percent_decode(b.skip(1)) {
            Some(r) => Some(seq![if b[0] == 0x2B { 0x20u8 } else { b[0] }] + r),
            None => None,
        }
    }
}

/// URL decoding of text: its UTF-8 bytes percent-decoded and read as
/// UTF-8 again; `None` when an escape is malformed or the decoded bytes
/// are not UTF-8.
pub open spec fn url_decode(s: Seq<char>) -> Option<Seq<char>> {
    match percent_decode(encode_utf8(s)) {
        Some(bytes) => if valid_utf8(bytes) {
            Some(decode_utf8(bytes))
        } else {
            None
        },
        None => None,
    }
}

/// The request path without its query string, decoded.
pub open spec fn decode_path_spec(path: Seq<char>) -> Option<Seq<char>> {
    url_decode(path.take(first_index(path, '?')))
}

/// `String::from_utf8`, which vstd leaves without a specification.
/// Trusted: it succeeds exactly when the bytes are well-formed UTF-8
/// (vstd's `valid_utf8`), and the string then holds the characters that
/// they encode (vstd's `decode_utf8`).
#[verifier::external_body]
fn utf8_string(bytes: Vec<u8>) -> (r: Option<String>)
    ensures
        match r {
            Some(s) => valid_utf8(bytes@) && s@ == decode_utf8(bytes@),
            None => !valid_utf8(bytes@),
        },
{
    String::from_utf8(bytes).ok()
}

fn hex_digit(b: u8) -> (r: Option<u8>)
    ensures
        r == hex_value(b),
{
    if 0x30 <= b && b <= 0x39 {
        Some(b - 0x30)
    } else if 0x61 <= b && b <= 0x66 {
        Some(b - 0x61 + 10)
    } else if 0x41 <= b && b <= 0x46 {
        Some(b - 0x41 + 10)
    } else {
        None
    }
}

fn percent_decode_bytes(b: &[u8]) -> (r: Option<Vec<u8>>)
    ensures
        match r {
            Some(v) => percent_decode(b@) == Some(v@),
            None => percent_decode(b@) is None,
        },
{
    let mut out: Vec<u8> = Vec::new();
    let mut i: usize = 0;
    assert(b@.skip(0) =~= b@);
    while i < b.len()
        invariant
            i <= b@.len(),
            percent_decode(b@) == match percent_decode(b@.skip(i as int)) {
                Some(r) => Some(out@ + r),
                None => None,
            },
        decreases b.len() - i,
    {
        let ghost rest = b@.skip(i as int);
        let c = b[i];
        assert(rest[0] == c);
        if c == 0x25 {
            if b.len() - i < 3 {
                return None;
            }
            assert(rest[1] == b@[i + 1]);
            assert(rest[2] == b@[i + 2]);
            match (hex_digit(b[i + 1]), hex_digit(b[i + 2])) {
                (Some(h), Some(l)) => {
                    let ghost before = out@;
                    let v: u8 = h * 16 + l;
                    out.push(v);
                    assert(rest.skip(3) =~= b@.skip(i + 3));
                    assert(forall|r: Seq<u8>| before + (seq![v] + r) == out@ + r) by {
                        assert forall|r: Seq<u8>| before + (seq![v] + r) =~= out@ + r by {}
                    }
                    i = i + 3;
                },
                _ => {
                    return None;
                },
            }
        } else {
            let ghost before = out@;
            let d: u8 = if c == 0x2B {
                0x20
            } else {
                c
            };
            out.push(d);
            assert(rest.skip(1) =~= b@.skip(i + 1));
            assert(forall|r: Seq<u8>| before + (seq![d] + r) == out@ + r) by {
                assert forall|r: Seq<u8>| before + (seq![d] + r) =~= out@ + r by {}
            }
            i = i + 1;
        }
    }
    assert(b@.skip(i as int) =~= Seq::<u8>::empty());
    assert(out@ + Seq::<u8>::empty() =~= out@);
    Some(out)
}

/// Simple URL decoding (percent-encoded sequences): the escapes give bytes,
/// which are read, with the rest of the text, as UTF-8.
pub fn urlencoding(input: &str) -> (r: Result<String, ()>)
    ensures
        match r {
            Ok(d) => url_decode(input@) == Some(d@),
            Err(()) => url_decode(input@) is None,
        },
{
    let b = input.as_bytes();
    match percent_decode_bytes(b) {
        Some(bytes) => match utf8_string(bytes) {
            Some(s) => Ok(s),
            None => Err(()),
        },
        None => Err(()),
    }
}

/// Decode URI path component: drop the query string and percent-decode
/// the rest; a malformed escape is a bad request (400).
pub fn decode_uri_path(path: &str) -> (r: Result<String, u16>)
    ensures
        match r {
            Ok(d) => decode_path_spec(path@) == Some(d@),
            Err(code) => decode_path_spec(path@) is None && code == 400,
        },
{
    let s = to_chars(path);
    let q = find_first(s.as_slice(), '?');
    let clean = string_from(sub_chars(s.as_slice(), 0, q).as_slice());
    assert(s@.subrange(0, q as int) =~= s@.take(q as int));
    match urlencoding(clean.as_str()) {
        Ok(d) => Ok(d),
        Err(()) => Err(400),
    }
}

// ---------------------------------------------------------------------------
// Trailing slashes
// ---------------------------------------------------------------------------

/// `s` with every run of slashes collapsed to one slash.
pub open spec fn collapse_slashes(s: Seq<char>) -> Seq<char>
    decreases s.len(),
{
    if s.len() == 0 {
        s
    } else {
        let p = collapse_slashes(s.drop_last());
        if s.last() == '/' && s.len() >= 2 && s[s.len() - 2] == '/' {
            p
        } else {
            p.push(s.last())
        }
    }
}

/// Collapses runs of slashes into one.
pub fn collapse_double_slashes(path: &str) -> (r: String)
    ensures
        r@ == collapse_slashes(path@),
{
    let s = to_chars(path);
    let mut out = String::new();
    let mut prev_was_slash = false;
    let mut i: usize = 0;
    while i < s.len()
        invariant
            i <= s@.len(),
            s@ == path@,
            out@ == collapse_slashes(s@.take(i as int)),
            prev_was_slash == (i > 0 && s@[i - 1] == '/'),
        decreases s.len() - i,
    {
        assert(s@.take(i + 1).drop_last() =~= s@.take(i as int));
        let c = s[i];
        if c == '/' {
            if !prev_was_slash {
                push_char(&mut out, c);
            }
            prev_was_slash = true;
        } else {
            push_char(&mut out, c);
            prev_was_slash = false;
        }
        i = i + 1;
    }
    assert(s@.take(s@.len() as int) =~= s@);
    out
}

/// The last segment of a path: what follows its last `/`.
pub open spec fn last_segment(s: Seq<char>) -> Seq<char> {
    s.skip(last_index(s, '/') + 1)
}

/// Whether the last segment of `s` has an extension: it holds a dot and
/// does not start with one.
pub open spec fn has_extension_spec(s: Seq<char>) -> bool {
    let seg = last_segment(s);
    seg.contains('.') && !(seg.len() > 0 && seg[0] == '.')
}

pub proof fn lemma_last_index_range(s: Seq<char>, c: char)
    ensures
        -1 <= last_index(s, c) < s.len(),
        last_index(s, c) >= 0 ==> s[last_index(s, c)] == c,
    decreases s.len(),
{
    if s.len() > 0 {
        lemma_last_index_range(s.drop_last(), c);
    }
}

/// Whether the last segment of the path has a file extension.
pub fn has_extension(path: &str) -> (r: bool)
    ensures
        r == has_extension_spec(path@),
{
    let s = to_chars(path);
    proof {
        lemma_last_index_range(s@, '/');
    }
    let start = match find_last(s.as_slice(), '/') {
        Some(k) => k + 1,
        None => 0,
    };
    let seg = sub_chars(s.as_slice(), start, s.len());
    assert(seg@ =~= last_segment(s@));
    has_char(seg.as_slice(), '.') && !(seg.len() > 0 && seg[0] == '.')
}

/// What the trailing slash policy makes of a path (slashes collapsed
/// first): `Some(true)` adds a slash to paths without an extension,
/// `Some(false)` strips trailing slashes, `None` leaves the path as is.
pub open spec fn trailing_slash_spec(ts: Option<bool>, path: Seq<char>) -> Seq<char> {
    let p = collapse_slashes(path);
    match ts {
        Some(true) => if !(p.len() > 0 && p.last() == '/') && !(p.len() > 0 && p[0] == '.')
            && !has_extension_spec(p) {
            p.push('/')
        } else {
            p
        },
        Some(false) => if p.len() > 1 && p.last() == '/' {
            trim_end(p, '/')
        } else {
            p
        },
        None => p,
    }
}

fn trailing_slash_path(trailing_slash: Option<bool>, path: &str) -> (r: String)
    ensures
        r@ == trailing_slash_spec(trailing_slash, path@),
{
    let p = collapse_double_slashes(path);
    let cs = to_chars(p.as_str());
    let ends_slash = cs.len() > 0 && cs[cs.len() - 1] == '/';
    match trailing_slash {
        Some(true) => {
            if !ends_slash && !(cs.len() > 0 && cs[0] == '.') && !has_extension(p.as_str()) {
                let mut q = p;
                push_char(&mut q, '/');
                q
            } else {
                p
            }
        },
        Some(false) => {
            if cs.len() > 1 && ends_slash {
                string_from(trim_end_chars(cs.as_slice(), '/').as_slice())
            } else {
                p
            }
        },
        None => p,
    }
}

/// The redirect that the trailing slash policy asks for: the path the
/// request should have, or `None` when it already has it.
pub open spec fn trailing_redirect_spec(ts: Option<bool>, path: Seq<char>) -> Option<Seq<char>> {
    let q = trailing_slash_spec(ts, path);
    if q == path {
        None
    } else {
        Some(q)
    }
}

/// Handle trailing slash behavior - returns None if no redirect needed,
/// or Some(redirect_path) if a redirect should be performed
pub fn handle_trailing_slash(trailing_slash: Option<bool>, path: &str) -> (r: Option<String>)
    ensures
        match r {
            Some(t) => trailing_redirect_spec(trailing_slash, path@) == Some(t@),
            None => trailing_redirect_spec(trailing_slash, path@) is None,
        },
{
    let q = trailing_slash_path(trailing_slash, path);
    let qc = to_chars(q.as_str());
    let pc = to_chars(path);
    if qc.len() == pc.len() && has_prefix(qc.as_slice(), pc.as_slice()) {
        assert(qc@ =~= qc@.take(pc@.len() as int));
        None
    } else {
        proof {
            if qc@ == pc@ {
                assert(qc@.take(pc@.len() as int) =~= qc@);
            }
        }
        Some(q)
    }
}

// ---------------------------------------------------------------------------
// Clean URLs and directory listings
// ---------------------------------------------------------------------------

/// Whether a pattern setting selects `path`: a flag selects all paths or
/// none, a list selects the paths that one of its patterns matches.
pub open spec fn setting_selects(setting: PatternSetting, path: Seq<char>) -> bool {
    match setting {
        PatternSetting::Flag(b) => b,
        PatternSetting::Patterns(ps) => exists|i: int|
            0 <= i < ps.len() && path_matches_spec(path, #[trigger] ps[i]),
    }
}

proof fn lemma_setting_selects_patterns(ps: Seq<Seq<char>>, path: Seq<char>)
    ensures
        setting_selects(PatternSetting::Patterns(ps), path) == (exists|i: int|
            0 <= i < ps.len() && path_matches_spec(path, #[trigger] ps[i])),
{
}

fn any_pattern_matches(patterns: &Vec<String>, path: &str) -> (r: bool)
    ensures
        r == exists|i: int|
            0 <= i < patterns@.len() && path_matches_spec(path@, #[trigger] patterns@[i]@),
{
    let mut i: usize = 0;
    while i < patterns.len()
        invariant
            i <= patterns@.len(),
            forall|k: int| 0 <= k < i ==> !path_matches_spec(path@, #[trigger] patterns@[k]@),
        decreases patterns.len() - i,
    {
        if path_matches(path, patterns[i].as_str()) {
            return true;
        }
        i = i + 1;
    }
    false
}

fn patterns_select(patterns: &Vec<String>, path: &str) -> (r: bool)
    ensures
        r == setting_selects(
            PatternSetting::Patterns(crate::config::strings_view(patterns@)),
            path@,
        ),
{
    let r = any_pattern_matches(patterns, path);
    proof {
        let ps = crate::config::strings_view(patterns@);
        assert(ps.len() == patterns@.len());
        if r {
            let i = choose|i: int|
                0 <= i < patterns@.len() && path_matches_spec(path@, #[trigger] patterns@[i]@);
            assert(ps[i] == patterns@[i]@);
            assert(path_matches_spec(path@, ps[i]));
        }
        if exists|i: int| 0 <= i < ps.len() && path_matches_spec(path@, #[trigger] ps[i]) {
            let i = choose|i: int| 0 <= i < ps.len() && path_matches_spec(path@, #[trigger] ps[i]);
            assert(ps[i] == patterns@[i]@);
            assert(path_matches_spec(path@, patterns@[i]@));
        }
        assert(r == (exists|i: int| 0 <= i < ps.len() && path_matches_spec(path@, #[trigger] ps[i])));
        lemma_setting_selects_patterns(ps, path@);
    }
    r
}

/// Whether clean URLs apply to `path`.
pub fn applicable_clean_urls(path: &str, config: &CleanUrlsConfig) -> (r: bool)
    ensures
        r == setting_selects(config@, path@),
{
    match config {
        CleanUrlsConfig::Bool(b) => *b,
        CleanUrlsConfig::Patterns(patterns) => patterns_select(patterns, path),
    }
}

/// Whether directory listings are allowed for `path` (an empty list of
/// patterns allows none).
pub fn is_directory_listing_allowed(path: &str, config: &DirectoryListingConfig) -> (r: bool)
    ensures
        r == setting_selects(config@, path@),
{
    match config {
        DirectoryListingConfig::Bool(b) => *b,
        DirectoryListingConfig::Patterns(patterns) => {
            if patterns.len() == 0 {
                return false;
            }
            patterns_select(patterns, path)
        },
    }
}

/// Where clean URLs redirect `path`: a `.html` suffix is dropped, an
/// `/index` suffix becomes `/`.
pub open spec fn clean_url_target(setting: PatternSetting, path: Seq<char>) -> Option<Seq<char>> {
    if !setting_selects(setting, path) {
        None
    } else if ends_with(path, ".html"@) {
        Some(path.take(path.len() - 5))
    } else if ends_with(path, "/index"@) {
        Some(path.take(path.len() - 6).push('/'))
    } else {
        None
    }
}

/// Check and handle clean URLs: the path to redirect to, if any.
pub fn check_clean_urls(config: &CleanUrlsConfig, path: &str) -> (r: Option<String>)
    ensures
        match r {
            Some(t) => clean_url_target(config@, path@) == Some(t@),
            None => clean_url_target(config@, path@) is None,
        },
{
    if !applicable_clean_urls(path, config) {
        return None;
    }
    let s = to_chars(path);
    let html = to_chars(".html");
    let index = to_chars("/index");
    proof {
        reveal_strlit(".html");
        reveal_strlit("/index");
    }
    if has_suffix(s.as_slice(), html.as_slice()) {
        let t = sub_chars(s.as_slice(), 0, s.len() - 5);
        assert(t@ =~= s@.take(s@.len() - 5));
        return Some(string_from(t.as_slice()));
    }
    if has_suffix(s.as_slice(), index.as_slice()) {
        let t = sub_chars(s.as_slice(), 0, s.len() - 6);
        let mut r = string_from(t.as_slice());
        push_char(&mut r, '/');
        assert(t@ =~= s@.take(s@.len() - 6));
        return Some(r);
    }
    None
}

// ---------------------------------------------------------------------------
// Routing
// ---------------------------------------------------------------------------

/// Whether a relative path climbs out of the served directory: one of its
/// `/`-separated segments is `..`.
pub open spec fn climbs_out(relative: Seq<char>) -> bool {
    exists|i: int| 0 <= i < split(relative, '/').len() && #[trigger] split(relative, '/')[i] == ".."@
}

/// What the handler does with a request path.
pub enum RouteSpec {
    /// Redirect to the location with the status
    RedirectTo(Seq<char>, u16),
    /// Answer with the error status
    Fail(u16),
    /// Serve the file or directory at the relative path; the first part is
    /// the request path after rewriting
    Serve(Seq<char>, Seq<char>),
}

/// The route of a request path under the configuration's trailing slash
/// policy, rewrites, redirects and clean URLs, in that order.
pub open spec fn route_spec(
    trailing_slash: Option<bool>,
    rewrites: Seq<(Seq<char>, Seq<char>)>,
    redirects: Seq<(Seq<char>, Seq<char>, u16)>,
    clean_urls: PatternSetting,
    path: Seq<char>,
) -> RouteSpec {
    match decode_path_spec(path) {
        None => RouteSpec::Fail(400),
        Some(decoded) => {
            match trailing_redirect_spec(trailing_slash, decoded) {
                Some(t) => RouteSpec::RedirectTo(t, 301),
                None => {
                    let r = rewrites_spec(rewrites, decoded);
                    match redirect_spec(redirects, r, 0) {
                        Some((location, status)) => RouteSpec::RedirectTo(location, status),
                        None => match clean_url_target(clean_urls, r) {
                            Some(location) => RouteSpec::RedirectTo(location, 301),
                            None => {
                                let relative = trim_start(r, '/');
                                if climbs_out(relative) {
                                    RouteSpec::Fail(400)
                                } else {
                                    RouteSpec::Serve(r, relative)
                                }
                            },
                        },
                    }
                },
            }
        },
    }
}

/// What the handler does with a request path.
#[derive(Debug)]
pub enum Route {
    /// Redirect to `location` with the status
    Redirect { location: String, status: u16 },
    /// Answer with the error status
    Error(u16),
    /// Serve the file or directory at `relative` (below the served
    /// directory); `path` is the request path after rewriting
    Resolve { path: String, relative: String },
}

impl View for Route {
    type V = RouteSpec;

    open spec fn view(&self) -> RouteSpec {
        match self {
            Route::Redirect { location, status } => RouteSpec::RedirectTo(location@, *status),
            Route::Error(code) => RouteSpec::Fail(*code),
            Route::Resolve { path, relative } => RouteSpec::Serve(path@, relative@),
        }
    }
}

/// The path below the served directory that a request path names, or a
/// bad request (400) when it has a `..` segment.
pub fn relative_path(path: &str) -> (r: Result<String, u16>)
    ensures
        match r {
            Ok(rel) => rel@ == trim_start(path@, '/') && !climbs_out(rel@),
            Err(code) => climbs_out(trim_start(path@, '/')) && code == 400,
        },
{
    let s = to_chars(path);
    let rel = trim_start_chars(s.as_slice(), '/');
    let parts = split_chars(rel.as_slice(), '/');
    let dots = to_chars("..");
    proof {
        reveal_strlit("..");
    }
    let mut i: usize = 0;
    while i < parts.len()
        invariant
            i <= parts@.len(),
            dots@ == ".."@,
            s@ == path@,
            rel@ == trim_start(s@, '/'),
            parts@.len() == split(rel@, '/').len(),
            forall|k: int| 0 <= k < parts@.len() ==> #[trigger] parts@[k]@ == split(rel@, '/')[k],
            forall|k: int| 0 <= k < i ==> split(rel@, '/')[k] != ".."@,
        decreases parts.len() - i,
    {
        assert(parts@[i as int]@ == split(rel@, '/')[i as int]);
        let same = parts[i].len() == dots.len() && has_prefix(parts[i].as_slice(), dots.as_slice());
        if same {
            assert(parts@[i as int]@ =~= ".."@);
            return Err(400);
        } else {
            proof {
                reveal_strlit("..");
                if parts@[i as int]@ == ".."@ {
                    assert(parts@[i as int]@.take(2) =~= parts@[i as int]@);
                }
            }
        }
        i = i + 1;
    }
    Ok(string_from(rel.as_slice()))
}

/// Core routing: decode the path, apply the trailing slash policy,
/// rewrites, redirects and clean URLs, and check for path traversal.
pub fn route_request(config: &AppConfig, path: &str) -> (r: Route)
    ensures
        r@ == route_spec(
            config.trailing_slash,
            rewrites_view(config.rewrites@),
            redirects_view(config.redirects@),
            config.clean_urls@,
            path@,
        ),
{
    let decoded = match decode_uri_path(path) {
        Ok(d) => d,
        Err(code) => {
            return Route::Error(code);
        },
    };
    if let Some(location) = handle_trailing_slash(config.trailing_slash, decoded.as_str()) {
        return Route::Redirect { location, status: 301 };
    }
    let rewritten = apply_rewrites(&config.rewrites, decoded.as_str());
    if let Some((location, status)) = check_redirects(&config.redirects, rewritten.as_str()) {
        return Route::Redirect { location, status };
    }
    if let Some(location) = check_clean_urls(&config.clean_urls, rewritten.as_str()) {
        return Route::Redirect { location, status: 301 };
    }
    match relative_path(rewritten.as_str()) {
        Ok(relative) => Route::Resolve { path: rewritten, relative },
        Err(code) => Route::Error(code),
    }
}

/// The file that a served path stands for. With clean URLs on for the
/// request path, a relative path that names nothing on disk (`found`)
/// stands for its `.html` file when that exists (`html_found`).
pub open spec fn clean_file_spec(
    setting: PatternSetting,
    path: Seq<char>,
    relative: Seq<char>,
    found: bool,
    html_found: bool,
) -> Seq<char> {
    if setting_selects(setting, path) && !found && html_found && relative.len() > 0
        && relative.last() != '/' {
        relative + ".html"@
    } else {
        relative
    }
}

/// The file that the served path `relative` (request path `path`) stands
/// for, given whether it exists and whether its `.html` file exists.
pub fn clean_url_file(
    config: &CleanUrlsConfig,
    path: &str,
    relative: &str,
    found: bool,
    html_found: bool,
) -> (r: String)
    ensures
        r@ == clean_file_spec(config@, path@, relative@, found, html_found),
{
    let rc = to_chars(relative);
    if !found && html_found && rc.len() > 0 && rc[rc.len() - 1] != '/' && applicable_clean_urls(
        path,
        config,
    ) {
        let mut r = String::from_str(relative);
        r.append(".html");
        r
    } else {
        String::from_str(relative)
    }
}

/// Whether a resolved path may be served: outside the served directory
/// (after resolving links) it is a bad request, missing or a symbolic link
/// while links are not followed it is not found.
pub open spec fn resolve_check_spec(inside: bool, found: bool, is_symlink: bool, symlinks: bool) -> Option<u16> {
    if !inside {
        Some(400)
    } else if !found {
        Some(404)
    } else if is_symlink && !symlinks {
        Some(404)
    } else {
        None
    }
}

/// Decides whether a resolved path is served, from what the file system
/// says of it: `inside` (its canonical path lies in the served directory),
/// `found`, `is_symlink`, and whether links are followed (`symlinks`).
pub fn check_resolved(inside: bool, found: bool, is_symlink: bool, symlinks: bool) -> (r: Result<(), u16>)
    ensures
        match r {
            Ok(()) => resolve_check_spec(inside, found, is_symlink, symlinks) is None,
            Err(code) => resolve_check_spec(inside, found, is_symlink, symlinks) == Some(code),
        },
{
    if !inside {
        Err(400)
    } else if !found {
        Err(404)
    } else if is_symlink && !symlinks {
        Err(404)
    } else {
        Ok(())
    }
}

/// What is sent for a directory.
#[derive(Debug, Clone, Copy, PartialEq, Eq)]
pub enum DirAction {
    /// Its listing
    List,
    /// Its `index.html`
    ServeIndex,
    /// Not found (404)
    NotFound,
}

/// What a request for the directory at `path` gets: its listing where
/// listings are allowed, else its `index.html` when there is one, else 404.
pub open spec fn directory_action_spec(setting: PatternSetting, path: Seq<char>, index_found: bool) -> DirAction {
    if setting_selects(setting, path) {
        DirAction::List
    } else if index_found {
        DirAction::ServeIndex
    } else {
        DirAction::NotFound
    }
}

/// What a request for the directory at `path` gets.
pub fn directory_action(path: &str, config: &DirectoryListingConfig, index_found: bool) -> (r: DirAction)
    ensures
        r == directory_action_spec(config@, path@, index_found),
{
    if is_directory_listing_allowed(path, config) {
        DirAction::List
    } else if index_found {
        DirAction::ServeIndex
    } else {
        DirAction::NotFound
    }
}

// ---------------------------------------------------------------------------
// Byte ranges
// ---------------------------------------------------------------------------

/// The inclusive byte range `(start, end)` that a `Range` header asks for
/// in a file of `size` bytes, or `None` when it is malformed or cannot be
/// satisfied. Forms: `bytes=a-b`, `bytes=a-` and the suffix `bytes=-n`
/// (the last `n` bytes; an empty suffix `bytes=-0` cannot be satisfied).
pub open spec fn range_spec(range: Seq<char>, size: u64) -> Option<(u64, u64)> {
    if size == 0 || !starts_with(range, "bytes="@) {
        None
    } else {
        let r = range.skip(6);
        let k = first_index(r, '-');
        let a = r.take(k);
        let b = r.skip(k + 1);
        if count_char(r, '-') != 1 {
            None
        } else if a.len() == 0 && b.len() > 0 {
            match parse_u64_spec(b) {
                Some(suffix) => if suffix == 0 {
                    None
                } else if suffix > size {
                    Some((0u64, (size - 1) as u64))
                } else {
                    Some(((size - suffix) as u64, (size - 1) as u64))
                },
                None => None,
            }
        } else if b.len() == 0 {
            match parse_u64_spec(a) {
                Some(start) => if start >= size {
                    None
                } else {
                    Some((start, (size - 1) as u64))
                },
                None => None,
            }
        } else {
            match (parse_u64_spec(a), parse_u64_spec(b)) {
                (Some(start), Some(end)) => if start > end || start >= size {
                    None
                } else {
                    Some((start, if end < size { end } else { (size - 1) as u64 }))
                },
                _ => None,
            }
        }
    }
}

/// Parse a Range header, returns (start, end) inclusive
pub fn parse_range(range: &str, file_size: u64) -> (r: Option<(u64, u64)>)
    ensures
        r == range_spec(range@, file_size),
        r matches Some((s, e)) ==> s <= e < file_size,
{
    if file_size == 0 {
        return None;
    }
    let s = to_chars(range);
    let prefix = to_chars("bytes=");
    proof {
        reveal_strlit("bytes=");
    }
    if !has_prefix(s.as_slice(), prefix.as_slice()) {
        return None;
    }
    let r = sub_chars(s.as_slice(), 6, s.len());
    assert(r@ =~= s@.skip(6));
    if count_of(r.as_slice(), '-') != 1 {
        return None;
    }
    let k = find_first(r.as_slice(), '-');
    proof {
        crate::text::lemma_count_first_index(r@, '-');
    }
    let a = sub_chars(r.as_slice(), 0, k);
    let b = sub_chars(r.as_slice(), k + 1, r.len());
    assert(a@ =~= r@.take(k as int));
    assert(b@ =~= r@.skip(k + 1));
    if a.len() == 0 && b.len() > 0 {
        let suffix = match parse_u64(b.as_slice()) {
            Some(v) => v,
            None => {
                return None;
            },
        };
        if suffix == 0 {
            return None;
        }
        if suffix > file_size {
            return Some((0, file_size - 1));
        }
        return Some((file_size - suffix, file_size - 1));
    }
    if b.len() == 0 {
        let start = match parse_u64(a.as_slice()) {
            Some(v) => v,
            None => {
                return None;
            },
        };
        if start >= file_size {
            return None;
        }
        return Some((start, file_size - 1));
    }
    let start = match parse_u64(a.as_slice()) {
        Some(v) => v,
        None => {
            return None;
        },
    };
    let end = match parse_u64(b.as_slice()) {
        Some(v) => v,
        None => {
            return None;
        },
    };
    if start > end || start >= file_size {
        return None;
    }
    let end = if end < file_size {
        end
    } else {
        file_size - 1
    };
    Some((start, end))
}

// ---------------------------------------------------------------------------
// Requests and responses
// ---------------------------------------------------------------------------

/// Whether an `Accept` header value asks for JSON.
pub fn accepts_json(accept: Option<&str>) -> (r: bool)
    ensures
        r == match accept {
            Some(v) => contains_seq(v@, "application/json"@),
            None => false,
        },
{
    match accept {
        Some(v) => {
            let s = to_chars(v);
            let pat = to_chars("application/json");
            contains_chars(s.as_slice(), pat.as_slice())
        },
        None => false,
    }
}

/// The error code and message of an error status.
pub open spec fn error_info_spec(code: u16) -> (Seq<char>, Seq<char>) {
    if code == 400 {
        ("bad_request"@, "Bad Request"@)
    } else if code == 404 {
        ("not_found"@, "The requested path could not be found"@)
    } else {
        ("internal_server_error"@, "A server error has occurred"@)
    }
}

/// The error code and message of an error status.
pub fn error_info(code: u16) -> (r: (&'static str, &'static str))
    ensures
        (r.0@, r.1@) == error_info_spec(code),
{
    if code == 400 {
        ("bad_request", "Bad Request")
    } else if code == 404 {
        ("not_found", "The requested path could not be found")
    } else {
        ("internal_server_error", "A server error has occurred")
    }
}

/// The status a redirect is sent with: the rule's status when it is a valid
/// HTTP status (100 to 999), else 301.
pub fn redirect_status(status: u16) -> (r: u16)
    ensures
        r == if 100 <= status <= 999 {
            status
        } else {
            301
        },
{
    if 100 <= status && status <= 999 {
        status
    } else {
        301
    }
}

/// The body of a redirect response.
pub fn redirect_body(location: &str) -> (r: String)
    ensures
        r@ == "Redirecting to <a href=\""@ + location@ + "\">"@ + location@ + "</a>"@,
{
    let mut r = String::from_str("Redirecting to <a href=\"");
    r.append(location);
    r.append("\">");
    r.append(location);
    r.append("</a>");
    r
}

} // verus!
