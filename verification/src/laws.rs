//! Properties of the server that span several functions or all inputs.
use vstd::prelude::*;
use vstd::utf8::{
    encode_scalar, encode_utf8, has_width_1_encoding, last_continuation_byte, leading_byte_width_2,
    leading_byte_width_3, leading_byte_width_4, second_last_continuation_byte,
    third_last_continuation_byte,
};

use crate::cli::CliArgs;
use crate::config::{
    PatternSetting, ServeJsonConfig, any_host, catch_all_rewrite, endpoints_spec,
    listen_endpoints, listen_uri_spec, merged_rewrites, merged_single,
};
use crate::etag::{cache_after, etag_result, etag_spec};
use crate::handler::{
    RouteSpec, clean_url_target, climbs_out, collapse_slashes, decode_path_spec, hex_value,
    percent_decode, range_spec, route_spec, url_decode,
};
use crate::httpdate::{is_leap_spec, month_days, month_name, weekday_name};
use crate::listing::{entry_of, is_listed, is_stable_sort, key_before, listed_entries, seq_lt};
use crate::rewrite::{first_unused_match, rewrite_fix, rewrites_spec};
use crate::text::{
    all_digits, count_char, decimal, decimal2, digit_value, digits_value, first_index, is_digit, lemma_decimal, lemma_last_index_at,
    lemma_parse_decimal, parse_u16_spec, split, starts_with, trim_start,
};

verus! {

/// In SPA mode, from `--single` or from `renderSingle`, the first rewrite
/// of the merged configuration sends every path to `/index.html`.
pub proof fn law_spa_catch_all_first(args: CliArgs, file: Option<ServeJsonConfig>)
    requires
        merged_single(args, file),
    ensures
        merged_rewrites(args, file).len() >= 1,
        merged_rewrites(args, file)[0] == catch_all_rewrite(),
{
}

/// With only the SPA catch-all rule, every request path is rewritten to
/// `/index.html`.
pub proof fn law_spa_rewrites_every_path(path: Seq<char>)
    ensures
        rewrites_spec(seq![catch_all_rewrite()], path) == "/index.html"@,
{
    let rules = seq![catch_all_rewrite()];
    let used0 = Seq::new(1, |i: int| false);
    assert(first_unused_match(rules, used0, path, 0) == Some((0int, "/index.html"@)));
    let used1 = used0.update(0, true);
    assert(used1.len() == 1);
    assert(first_unused_match(rules, used1, "/index.html"@, 1) is None);
    assert(first_unused_match(rules, used1, "/index.html"@, 0) is None);
    assert(rewrite_fix(rules, used1, "/index.html"@) == "/index.html"@);
    crate::rewrite::lemma_used_count_update(used0, 0);
    assert(rewrite_fix(rules, used0, path) == rewrite_fix(rules, used1, "/index.html"@));
}

/// Without rewrite rules a path is left as it is.
pub proof fn law_no_rewrites_identity(path: Seq<char>)
    ensures
        rewrites_spec(Seq::empty(), path) == path,
{
    let used0 = Seq::<bool>::new(0, |i: int| false);
    assert(first_unused_match(Seq::empty(), used0, path, 0) is None);
}

/// By default the server listens on `0.0.0.0:3000`.
pub proof fn law_default_endpoint()
    ensures
        endpoints_spec(Seq::empty(), None) == seq![(any_host(), 3000u16)],
{
}

/// A single valid `--listen` replaces the default endpoint (and `-p`)
/// rather than adding to it.
pub proof fn law_listen_replaces_default(uri: Seq<char>, port: Option<u16>)
    requires
        listen_uri_spec(uri) is Some,
    ensures
        endpoints_spec(seq![uri], port) == seq![listen_uri_spec(uri)->0],
{
    let one = seq![uri];
    assert(one.drop_last() =~= Seq::<Seq<char>>::empty());
    assert(one.last() == uri);
    assert(listen_endpoints(one.drop_last()) == Seq::<(Seq<char>, u16)>::empty());
    assert(listen_endpoints(one) == Seq::<(Seq<char>, u16)>::empty().push(listen_uri_spec(uri)->0));
    assert(listen_endpoints(one) =~= seq![listen_uri_spec(uri)->0]);
}

/// A port written out in decimal parses back, alone (on the default host)
/// or after `host:` for any host text that does not start with `tcp://`
/// (it may be empty or hold colons: the last colon separates the port).
pub proof fn law_listen_uri_round_trip(host: Seq<char>, port: u16)
    requires
        !starts_with(host, "tcp://"@),
    ensures
        listen_uri_spec(decimal(port as nat)) == Some((any_host(), port)),
        listen_uri_spec(host + seq![':'] + decimal(port as nat)) == Some((host, port)),
{
    reveal_strlit("tcp://");
    let d = decimal(port as nat);
    lemma_decimal(port as nat);
    lemma_parse_decimal(port as nat);
    let uri = host + seq![':'] + d;
    let k = host.len() as int;
    assert(uri[k] == ':');
    // Not a bare port: the colon is no digit.
    let body = if uri.len() > 0 && uri[0] == '+' {
        uri.skip(1)
    } else {
        uri
    };
    if uri.len() > 0 && uri[0] == '+' {
        assert(k > 0);
        assert(body[k - 1] == ':');
        assert(!is_digit(body[k - 1]));
    } else {
        assert(!is_digit(body[k]));
    }
    assert(!all_digits(body));
    assert(parse_u16_spec(uri) is None);
    // Not a `tcp://` URI.
    if starts_with(uri, "tcp://"@) {
        if k >= 6 {
            assert(host.take(6) =~= uri.take(6));
        } else {
            assert(uri[k] == "tcp://"@[k]);
            assert(k == 3);
            assert(uri[4] == d[0]);
            assert(is_digit(d[0]));
            assert(uri[4] == "tcp://"@[4]);
        }
    }
    assert(!starts_with(uri, "tcp://"@));
    // The last colon is the one before the port.
    assert forall|j: int| k < j < uri.len() implies uri[j] != ':' by {
        assert(uri[j] == d[j - k - 1]);
        assert(is_digit(d[j - k - 1]));
    }
    lemma_last_index_at(uri, ':', k);
    assert(uri.take(k) =~= host);
    assert(uri.skip(k + 1) =~= d);
}

/// The first request for a file computes its tag from its extension and
/// contents.
pub proof fn law_etag_first_request(path: Seq<char>, ext: Seq<u8>, mtime: u64, content: Seq<u8>)
    ensures
        etag_result(Map::empty(), path, ext, mtime, content) == etag_spec(ext, content),
{
}

/// A second request for the same path with the same modification time gets
/// the same tag and leaves the cache as it was.
pub proof fn law_etag_cached(
    cache: Map<Seq<char>, (u64, Seq<char>)>,
    path: Seq<char>,
    ext: Seq<u8>,
    mtime: u64,
    content: Seq<u8>,
    ext2: Seq<u8>,
    content2: Seq<u8>,
)
    ensures
        etag_result(cache_after(cache, path, ext, mtime, content), path, ext2, mtime, content2)
            == etag_result(cache, path, ext, mtime, content),
        cache_after(cache_after(cache, path, ext, mtime, content), path, ext2, mtime, content2)
            == cache_after(cache, path, ext, mtime, content),
{
}

/// When the file's modification time has changed, its tag is computed
/// anew from the current extension and contents.
pub proof fn law_etag_invalidated(
    cache: Map<Seq<char>, (u64, Seq<char>)>,
    path: Seq<char>,
    ext: Seq<u8>,
    mtime: u64,
    content: Seq<u8>,
    ext2: Seq<u8>,
    mtime2: u64,
    content2: Seq<u8>,
)
    requires
        mtime2 != mtime,
    ensures
        etag_result(cache_after(cache, path, ext, mtime, content), path, ext2, mtime2, content2)
            == etag_spec(ext2, content2),
{
}

/// Bytes without `%` and `+` are left as they are by percent-decoding.
proof fn lemma_plain_bytes(b: Seq<u8>)
    requires
        forall|i: int| 0 <= i < b.len() ==> #[trigger] b[i] != 0x25u8 && b[i] != 0x2Bu8,
    ensures
        percent_decode(b) == Some(b),
    decreases b.len(),
{
    if b.len() > 0 {
        assert(b[0] != 0x25u8 && b[0] != 0x2Bu8);
        let rest = b.skip(1);
        assert forall|i: int| 0 <= i < rest.len() implies #[trigger] rest[i] != 0x25u8 && rest[i]
            != 0x2Bu8 by {
            assert(rest[i] == b[i + 1]);
        }
        lemma_plain_bytes(rest);
        assert(seq![b[0]] + rest =~= b);
    }
}

/// The UTF-8 bytes of a character other than `%` and `+` are neither of
/// those two bytes.
proof fn lemma_char_bytes(c: char)
    requires
        c != '%',
        c != '+',
    ensures
        forall|i: int|
            0 <= i < encode_scalar(c as u32).len() ==> #[trigger] encode_scalar(c as u32)[i]
                != 0x25u8 && encode_scalar(c as u32)[i] != 0x2Bu8,
{
    let v = c as u32;
    assert(v != 0x25u32 && v != 0x2Bu32);
    let e = encode_scalar(v);
    if has_width_1_encoding(v) {
        assert((v & 0x7F) as u8 != 0x25u8 && (v & 0x7F) as u8 != 0x2Bu8) by (bit_vector)
            requires
                v <= 0x7F,
                v != 0x25u32,
                v != 0x2Bu32,
        ;
    } else {
        assert(forall|x: u8| #[trigger] (0xC0u8 | x) >= 0xC0u8) by (bit_vector);
        assert(forall|x: u8| #[trigger] (0xE0u8 | x) >= 0xC0u8) by (bit_vector);
        assert(forall|x: u8| #[trigger] (0xF0u8 | x) >= 0xC0u8) by (bit_vector);
        assert(forall|x: u8| #[trigger] (0x80u8 | x) >= 0x80u8) by (bit_vector);
        assert forall|i: int| 0 <= i < e.len() implies #[trigger] e[i] >= 0x80u8 by {
            assert(leading_byte_width_2(v) >= 0xC0u8);
            assert(leading_byte_width_3(v) >= 0xC0u8);
            assert(leading_byte_width_4(v) >= 0xC0u8);
            assert(last_continuation_byte(v) >= 0x80u8);
            assert(second_last_continuation_byte(v) >= 0x80u8);
            assert(third_last_continuation_byte(v) >= 0x80u8);
        }
    }
}

/// The UTF-8 bytes of text without `%` and `+` hold neither byte.
proof fn lemma_text_bytes(s: Seq<char>)
    requires
        !s.contains('%'),
        !s.contains('+'),
    ensures
        forall|i: int|
            0 <= i < encode_utf8(s).len() ==> #[trigger] encode_utf8(s)[i] != 0x25u8
                && encode_utf8(s)[i] != 0x2Bu8,
    decreases s.len(),
{
    if s.len() > 0 {
        assert(s[0] != '%' && s[0] != '+') by {
            if s[0] == '%' {
                assert(s.contains('%'));
            }
            if s[0] == '+' {
                assert(s.contains('+'));
            }
        }
        let rest = s.drop_first();
        assert forall|c: char| #[trigger] rest.contains(c) implies s.contains(c) by {
            let i = choose|i: int| 0 <= i < rest.len() && rest[i] == c;
            assert(s[i + 1] == c);
        }
        lemma_char_bytes(s[0]);
        lemma_text_bytes(rest);
        let a = encode_scalar(s[0] as u32);
        let b = encode_utf8(rest);
        assert(encode_utf8(s) == a + b);
        assert forall|i: int| 0 <= i < (a + b).len() implies #[trigger] (a + b)[i] != 0x25u8 && (a
            + b)[i] != 0x2Bu8 by {
            if i < a.len() {
                assert((a + b)[i] == a[i]);
            } else {
                assert((a + b)[i] == b[i - a.len()]);
            }
        }
    }
}

/// Text without `%` and `+` decodes to itself.
pub proof fn law_decode_plain_text(s: Seq<char>)
    requires
        !s.contains('%'),
        !s.contains('+'),
    ensures
        url_decode(s) == Some(s),
{
    broadcast use vstd::utf8::encode_utf8_valid_utf8, vstd::utf8::encode_utf8_decode_utf8;

    lemma_text_bytes(s);
    lemma_plain_bytes(encode_utf8(s));
}

/// With clean URLs on, a path ending in `.html` redirects to the path
/// without it.
pub proof fn law_clean_urls_strip_html(path: Seq<char>)
    ensures
        clean_url_target(PatternSetting::Flag(true), path + ".html"@) == Some(path),
{
    reveal_strlit(".html");
    let q = path + ".html"@;
    assert(q.skip(q.len() - 5) =~= ".html"@);
    assert(q.take(q.len() - 5) =~= path);
}

/// A path that is served never climbs out of the served directory.
pub proof fn law_served_paths_stay_inside(
    trailing_slash: Option<bool>,
    rewrites: Seq<(Seq<char>, Seq<char>)>,
    redirects: Seq<(Seq<char>, Seq<char>, u16)>,
    clean_urls: PatternSetting,
    path: Seq<char>,
)
    ensures
        route_spec(trailing_slash, rewrites, redirects, clean_urls, path) matches RouteSpec::Serve(
            _,
            relative,
        ) ==> !climbs_out(relative),
{
}

/// In a listing, directories come before files, and within each group the
/// lower-cased names never decrease.
pub proof fn law_directories_first(keys: Seq<(bool, Seq<char>)>, order: Seq<int>, i: int, j: int)
    requires
        is_stable_sort(keys, order),
        0 <= i < j < keys.len(),
    ensures
        keys[order[j]].0 ==> keys[order[i]].0,
        keys[order[i]].0 == keys[order[j]].0 ==> !seq_lt(keys[order[j]].1, keys[order[i]].1),
{
    assert(!key_before(keys[order[j]], keys[order[i]]));
}

// ---------------------------------------------------------------------------
// Routing serves the rewritten path
// ---------------------------------------------------------------------------

/// Text without `c` splits into itself alone.
proof fn lemma_split_without(s: Seq<char>, c: char)
    requires
        !s.contains(c),
    ensures
        split(s, c) == seq![s],
    decreases s.len(),
{
    if s.len() > 0 {
        let t = s.drop_last();
        assert(!t.contains(c)) by {
            if t.contains(c) {
                let i = choose|i: int| 0 <= i < t.len() && t[i] == c;
                assert(s[i] == c);
            }
        }
        lemma_split_without(t, c);
        assert(s.last() != c) by {
            assert(s[s.len() - 1] == s.last());
        }
        assert(t.push(s.last()) =~= s);
        let p = split(t, c);
        assert(p.update(p.len() - 1, p.last().push(s.last())) =~= seq![s]);
    } else {
        assert(s =~= Seq::<char>::empty());
    }
}

/// The file that is served for a request is the request path after
/// rewriting, with its leading slashes removed: whatever the rules, a
/// route that serves names the rewritten path, never the path as asked.
pub proof fn law_served_file_is_rewritten_path(
    trailing_slash: Option<bool>,
    rewrites: Seq<(Seq<char>, Seq<char>)>,
    redirects: Seq<(Seq<char>, Seq<char>, u16)>,
    clean_urls: PatternSetting,
    path: Seq<char>,
)
    ensures
        route_spec(trailing_slash, rewrites, redirects, clean_urls, path) matches RouteSpec::Serve(
            r,
            relative,
        ) ==> (relative == trim_start(r, '/') && (decode_path_spec(path) matches Some(d) && r
            == rewrites_spec(rewrites, d))),
{
}

/// In SPA mode (only the catch-all rewrite, no redirects, clean URLs off),
/// every request that is served gets `index.html`, and every request path
/// that decodes and has no doubled slash is served so.
pub proof fn law_spa_serves_index(path: Seq<char>)
    ensures
        route_spec(None, seq![catch_all_rewrite()], Seq::empty(), PatternSetting::Flag(false), path)
            matches RouteSpec::Serve(r, relative) ==> (r == "/index.html"@ && relative
            == "index.html"@),
        (decode_path_spec(path) matches Some(d) && collapse_slashes(d) == d) ==> route_spec(
            None,
            seq![catch_all_rewrite()],
            Seq::empty(),
            PatternSetting::Flag(false),
            path,
        ) is Serve,
{
    reveal_strlit("/index.html");
    reveal_strlit("index.html");
    reveal_strlit("..");
    let idx = "/index.html"@;
    let rel = "index.html"@;
    assert(idx.skip(1) =~= rel);
    assert(trim_start(rel, '/') == rel);
    assert(trim_start(idx, '/') == rel);
    assert(!rel.contains('/')) by {
        if rel.contains('/') {
            let i = choose|i: int| 0 <= i < rel.len() && rel[i] == '/';
        }
    }
    lemma_split_without(rel, '/');
    assert(split(rel, '/')[0] != ".."@) by {
        assert(rel.len() != ".."@.len());
    }
    assert(!climbs_out(rel));
    match decode_path_spec(path) {
        Some(d) => {
            law_spa_rewrites_every_path(d);
        },
        None => {},
    }
}

// ---------------------------------------------------------------------------
// Hexadecimal digits in percent escapes
// ---------------------------------------------------------------------------

/// The lower-case hexadecimal digits, in order of value.
pub open spec fn lower_hex_digits() -> Seq<char> {
    "0123456789abcdef"@
}

/// The upper-case hexadecimal digits, in order of value.
pub open spec fn upper_hex_digits() -> Seq<char> {
    "0123456789ABCDEF"@
}

/// Every hexadecimal digit, lower or upper case, has its value.
pub proof fn law_hex_digits(d: u8)
    requires
        d < 16,
    ensures
        hex_value(lower_hex_digits()[d as int] as u8) == Some(d),
        hex_value(upper_hex_digits()[d as int] as u8) == Some(d),
{
    reveal_strlit("0123456789abcdef");
    reveal_strlit("0123456789ABCDEF");
    if d == 0 {
        assert(lower_hex_digits()[0] == '0');
        assert(upper_hex_digits()[0] == '0');
    } else if d == 1 {
        assert(lower_hex_digits()[1] == '1');
        assert(upper_hex_digits()[1] == '1');
    } else if d == 2 {
        assert(lower_hex_digits()[2] == '2');
        assert(upper_hex_digits()[2] == '2');
    } else if d == 3 {
        assert(lower_hex_digits()[3] == '3');
        assert(upper_hex_digits()[3] == '3');
    } else if d == 4 {
        assert(lower_hex_digits()[4] == '4');
        assert(upper_hex_digits()[4] == '4');
    } else if d == 5 {
        assert(lower_hex_digits()[5] == '5');
        assert(upper_hex_digits()[5] == '5');
    } else if d == 6 {
        assert(lower_hex_digits()[6] == '6');
        assert(upper_hex_digits()[6] == '6');
    } else if d == 7 {
        assert(lower_hex_digits()[7] == '7');
        assert(upper_hex_digits()[7] == '7');
    } else if d == 8 {
        assert(lower_hex_digits()[8] == '8');
        assert(upper_hex_digits()[8] == '8');
    } else if d == 9 {
        assert(lower_hex_digits()[9] == '9');
        assert(upper_hex_digits()[9] == '9');
    } else if d == 10 {
        assert(lower_hex_digits()[10] == 'a');
        assert(upper_hex_digits()[10] == 'A');
    } else if d == 11 {
        assert(lower_hex_digits()[11] == 'b');
        assert(upper_hex_digits()[11] == 'B');
    } else if d == 12 {
        assert(lower_hex_digits()[12] == 'c');
        assert(upper_hex_digits()[12] == 'C');
    } else if d == 13 {
        assert(lower_hex_digits()[13] == 'd');
        assert(upper_hex_digits()[13] == 'D');
    } else if d == 14 {
        assert(lower_hex_digits()[14] == 'e');
        assert(upper_hex_digits()[14] == 'E');
    } else if d == 15 {
        assert(lower_hex_digits()[15] == 'f');
        assert(upper_hex_digits()[15] == 'F');
    }
}

/// A byte is a hexadecimal digit only if it is one of the two tables.
pub proof fn law_hex_digits_only(b: u8)
    ensures
        hex_value(b) matches Some(v) ==> (v < 16 && (b == lower_hex_digits()[v as int] as u8 || b
            == upper_hex_digits()[v as int] as u8)),
{
    if hex_value(b) is Some {
        let v = hex_value(b)->0;
        law_hex_digits(v);
        assert(v < 16);
        if b <= 0x39 {
            assert(lower_hex_digits()[v as int] as u8 == b) by {
                reveal_strlit("0123456789abcdef");
                if v == 0 {
                    assert(lower_hex_digits()[0] == '0');
                } else if v == 1 {
                    assert(lower_hex_digits()[1] == '1');
                } else if v == 2 {
                    assert(lower_hex_digits()[2] == '2');
                } else if v == 3 {
                    assert(lower_hex_digits()[3] == '3');
                } else if v == 4 {
                    assert(lower_hex_digits()[4] == '4');
                } else if v == 5 {
                    assert(lower_hex_digits()[5] == '5');
                } else if v == 6 {
                    assert(lower_hex_digits()[6] == '6');
                } else if v == 7 {
                    assert(lower_hex_digits()[7] == '7');
                } else if v == 8 {
                    assert(lower_hex_digits()[8] == '8');
                } else if v == 9 {
                    assert(lower_hex_digits()[9] == '9');
                } else if v == 10 {
                    assert(lower_hex_digits()[10] == 'a');
                } else if v == 11 {
                    assert(lower_hex_digits()[11] == 'b');
                } else if v == 12 {
                    assert(lower_hex_digits()[12] == 'c');
                } else if v == 13 {
                    assert(lower_hex_digits()[13] == 'd');
                } else if v == 14 {
                    assert(lower_hex_digits()[14] == 'e');
                } else if v == 15 {
                    assert(lower_hex_digits()[15] == 'f');
                }
            }
        } else if b >= 0x61 {
            assert(lower_hex_digits()[v as int] as u8 == b) by {
                reveal_strlit("0123456789abcdef");
                if v == 0 {
                    assert(lower_hex_digits()[0] == '0');
                } else if v == 1 {
                    assert(lower_hex_digits()[1] == '1');
                } else if v == 2 {
                    assert(lower_hex_digits()[2] == '2');
                } else if v == 3 {
                    assert(lower_hex_digits()[3] == '3');
                } else if v == 4 {
                    assert(lower_hex_digits()[4] == '4');
                } else if v == 5 {
                    assert(lower_hex_digits()[5] == '5');
                } else if v == 6 {
                    assert(lower_hex_digits()[6] == '6');
                } else if v == 7 {
                    assert(lower_hex_digits()[7] == '7');
                } else if v == 8 {
                    assert(lower_hex_digits()[8] == '8');
                } else if v == 9 {
                    assert(lower_hex_digits()[9] == '9');
                } else if v == 10 {
                    assert(lower_hex_digits()[10] == 'a');
                } else if v == 11 {
                    assert(lower_hex_digits()[11] == 'b');
                } else if v == 12 {
                    assert(lower_hex_digits()[12] == 'c');
                } else if v == 13 {
                    assert(lower_hex_digits()[13] == 'd');
                } else if v == 14 {
                    assert(lower_hex_digits()[14] == 'e');
                } else if v == 15 {
                    assert(lower_hex_digits()[15] == 'f');
                }
            }
        } else {
            assert(upper_hex_digits()[v as int] as u8 == b) by {
                reveal_strlit("0123456789ABCDEF");
                if v == 0 {
                    assert(upper_hex_digits()[0] == '0');
                } else if v == 1 {
                    assert(upper_hex_digits()[1] == '1');
                } else if v == 2 {
                    assert(upper_hex_digits()[2] == '2');
                } else if v == 3 {
                    assert(upper_hex_digits()[3] == '3');
                } else if v == 4 {
                    assert(upper_hex_digits()[4] == '4');
                } else if v == 5 {
                    assert(upper_hex_digits()[5] == '5');
                } else if v == 6 {
                    assert(upper_hex_digits()[6] == '6');
                } else if v == 7 {
                    assert(upper_hex_digits()[7] == '7');
                } else if v == 8 {
                    assert(upper_hex_digits()[8] == '8');
                } else if v == 9 {
                    assert(upper_hex_digits()[9] == '9');
                } else if v == 10 {
                    assert(upper_hex_digits()[10] == 'A');
                } else if v == 11 {
                    assert(upper_hex_digits()[11] == 'B');
                } else if v == 12 {
                    assert(upper_hex_digits()[12] == 'C');
                } else if v == 13 {
                    assert(upper_hex_digits()[13] == 'D');
                } else if v == 14 {
                    assert(upper_hex_digits()[14] == 'E');
                } else if v == 15 {
                    assert(upper_hex_digits()[15] == 'F');
                }
            }
        }
    }
}

/// `%` followed by the two hexadecimal digits of a byte (high nibble
/// first, either case) decodes to that byte.
pub proof fn law_percent_escape(b: u8, hi_upper: bool, lo_upper: bool)
    ensures
        percent_decode(
            seq![
                0x25u8,
                (if hi_upper { upper_hex_digits() } else { lower_hex_digits() })[(b / 16) as int] as u8,
                (if lo_upper { upper_hex_digits() } else { lower_hex_digits() })[(b % 16) as int] as u8,
            ],
        ) == Some(seq![b]),
{
    let hi = (b / 16) as u8;
    let lo = (b % 16) as u8;
    law_hex_digits(hi);
    law_hex_digits(lo);
    let e = seq![
        0x25u8,
        (if hi_upper { upper_hex_digits() } else { lower_hex_digits() })[(b / 16) as int] as u8,
        (if lo_upper { upper_hex_digits() } else { lower_hex_digits() })[(b % 16) as int] as u8,
    ];
    assert(e.skip(3) =~= Seq::<u8>::empty());
    assert(percent_decode(e.skip(3)) == Some(Seq::<u8>::empty()));
    assert((hi * 16 + lo) as u8 == b);
    assert(seq![b] + Seq::<u8>::empty() =~= seq![b]);
}

// ---------------------------------------------------------------------------
// Which directory entries are hidden
// ---------------------------------------------------------------------------

/// Only `.DS_Store`, `.git` and the configured unlisted names are hidden:
/// every other name, dot files included, is listed.
pub proof fn law_hidden_entries(name: Seq<char>, unlisted: Seq<Seq<char>>)
    ensures
        !is_listed(name, unlisted) <==> (name == ".DS_Store"@ || name == ".git"@
            || unlisted.contains(name)),
{
}

/// An entry that is not hidden appears in the listing, as its own row.
pub proof fn law_listed_entry_appears(
    url: Seq<char>,
    items: Seq<(Seq<char>, bool, u64)>,
    unlisted: Seq<Seq<char>>,
    i: int,
)
    requires
        0 <= i < items.len(),
        items[i].0 != ".DS_Store"@,
        items[i].0 != ".git"@,
        !unlisted.contains(items[i].0),
    ensures
        listed_entries(url, items, unlisted).contains(entry_of(url, items[i])),
    decreases items.len(),
{
    let rest = listed_entries(url, items.drop_last(), unlisted);
    if i == items.len() - 1 {
        assert(listed_entries(url, items, unlisted) == rest.push(entry_of(url, items[i])));
        assert(listed_entries(url, items, unlisted)[rest.len() as int] == entry_of(url, items[i]));
    } else {
        assert(items.drop_last()[i] == items[i]);
        law_listed_entry_appears(url, items.drop_last(), unlisted, i);
        let k = choose|k: int| 0 <= k < rest.len() && rest[k] == entry_of(url, items[i]);
        if is_listed(items.last().0, unlisted) {
            assert(listed_entries(url, items, unlisted)[k] == rest[k]);
        }
    }
}

// ---------------------------------------------------------------------------
// Byte ranges
// ---------------------------------------------------------------------------

proof fn lemma_digits_no_dash(s: Seq<char>)
    requires
        all_digits(s),
    ensures
        count_char(s, '-') == 0,
        !s.contains('-'),
    decreases s.len(),
{
    if s.len() > 0 {
        assert(is_digit(s[s.len() - 1]));
        lemma_digits_no_dash(s.drop_last());
    }
    if s.contains('-') {
        let i = choose|i: int| 0 <= i < s.len() && s[i] == '-';
        assert(is_digit(s[i]));
    }
}

proof fn lemma_count_concat(a: Seq<char>, b: Seq<char>, c: char)
    ensures
        count_char(a + b, c) == count_char(a, c) + count_char(b, c),
    decreases b.len(),
{
    if b.len() > 0 {
        assert((a + b).drop_last() =~= a + b.drop_last());
        lemma_count_concat(a, b.drop_last(), c);
    } else {
        assert(a + b =~= a);
    }
}

proof fn lemma_first_index_after(a: Seq<char>, rest: Seq<char>, c: char)
    requires
        !a.contains(c),
    ensures
        first_index(a + seq![c] + rest, c) == a.len(),
    decreases a.len(),
{
    let s = a + seq![c] + rest;
    if a.len() == 0 {
        assert(s[0] == c);
    } else {
        assert(s[0] == a[0]);
        let t = a.skip(1);
        assert(!t.contains(c)) by {
            if t.contains(c) {
                let i = choose|i: int| 0 <= i < t.len() && t[i] == c;
                assert(a[i + 1] == c);
            }
        }
        lemma_first_index_after(t, rest, c);
        assert(s.skip(1) =~= t + seq![c] + rest);
    }
}

/// The pieces of `bytes=X-Y` after the prefix, around the one dash.
proof fn lemma_range_pieces(x: Seq<char>, y: Seq<char>)
    requires
        all_digits(x),
        all_digits(y),
    ensures
        ({
            let range = "bytes="@ + x + "-"@ + y;
            let r = range.skip(6);
            &&& starts_with(range, "bytes="@)
            &&& count_char(r, '-') == 1
            &&& r.take(first_index(r, '-')) == x
            &&& r.skip(first_index(r, '-') + 1) == y
        }),
{
    reveal_strlit("bytes=");
    reveal_strlit("-");
    let range = "bytes="@ + x + "-"@ + y;
    let r = range.skip(6);
    assert(range.take(6) =~= "bytes="@);
    assert(r =~= x + seq!['-'] + y);
    lemma_digits_no_dash(x);
    lemma_digits_no_dash(y);
    lemma_count_concat(x + seq!['-'], y, '-');
    lemma_count_concat(x, seq!['-'], '-');
    assert(count_char(seq!['-'], '-') == 1) by {
        assert(seq!['-'].drop_last() =~= Seq::<char>::empty());
        assert(count_char(Seq::<char>::empty(), '-') == 0);
        assert(seq!['-'].last() == '-');
    }
    lemma_first_index_after(x, y, '-');
    assert(r.take(x.len() as int) =~= x);
    assert(r.skip(x.len() as int + 1) =~= y);
}

/// `bytes=a-b` asks for bytes `a` to `b`: it is served from `a` to `b` (or
/// to the last byte when the file is shorter), and refused when `a` lies
/// after `b` or beyond the file.
pub proof fn law_closed_range(a: u64, b: u64, size: u64)
    requires
        size > 0,
    ensures
        range_spec("bytes="@ + decimal(a as nat) + "-"@ + decimal(b as nat), size) == if a <= b && a
            < size {
            Some((a, if b < size { b } else { (size - 1) as u64 }))
        } else {
            None
        },
{
    lemma_decimal(a as nat);
    lemma_decimal(b as nat);
    lemma_parse_decimal(a as nat);
    lemma_parse_decimal(b as nat);
    lemma_range_pieces(decimal(a as nat), decimal(b as nat));
}

/// `bytes=a-` asks for everything from byte `a` on.
pub proof fn law_open_range(a: u64, size: u64)
    requires
        size > 0,
    ensures
        range_spec("bytes="@ + decimal(a as nat) + "-"@, size) == if a < size {
            Some((a, (size - 1) as u64))
        } else {
            None
        },
{
    lemma_decimal(a as nat);
    lemma_parse_decimal(a as nat);
    lemma_range_pieces(decimal(a as nat), Seq::empty());
    assert("bytes="@ + decimal(a as nat) + "-"@ + Seq::<char>::empty() =~= "bytes="@ + decimal(
        a as nat,
    ) + "-"@);
}

/// `bytes=-n` asks for the last `n` bytes (all of them when the file is
/// shorter); it cannot be satisfied when `n` is 0.
pub proof fn law_suffix_range(n: u64, size: u64)
    requires
        size > 0,
    ensures
        range_spec("bytes="@ + "-"@ + decimal(n as nat), size) == if n == 0 {
            None
        } else if n >= size {
            Some((0u64, (size - 1) as u64))
        } else {
            Some(((size - n) as u64, (size - 1) as u64))
        },
{
    lemma_decimal(n as nat);
    lemma_parse_decimal(n as nat);
    lemma_range_pieces(Seq::empty(), decimal(n as nat));
    assert("bytes="@ + Seq::<char>::empty() + "-"@ + decimal(n as nat) =~= "bytes="@ + "-"@
        + decimal(n as nat));
}

// ---------------------------------------------------------------------------
// Names in HTTP dates
// ---------------------------------------------------------------------------

/// The months' abbreviations, three letters each, January first.
pub open spec fn month_abbreviations() -> Seq<char> {
    "JanFebMarAprMayJunJulAugSepOctNovDec"@
}

/// The weekdays' abbreviations, three letters each, Thursday (the weekday
/// of 1 January 1970) first.
pub open spec fn weekday_abbreviations() -> Seq<char> {
    "ThuFriSatSunMonTueWed"@
}

/// Month `m` (0 for January) is written with its English abbreviation.
pub proof fn law_month_names(m: int)
    requires
        0 <= m < 12,
    ensures
        month_name(m) == month_abbreviations().subrange(3 * m, 3 * m + 3),
{
    reveal_strlit("JanFebMarAprMayJunJulAugSepOctNovDec");
    reveal_strlit("Jan");
    reveal_strlit("Feb");
    reveal_strlit("Mar");
    reveal_strlit("Apr");
    reveal_strlit("May");
    reveal_strlit("Jun");
    reveal_strlit("Jul");
    reveal_strlit("Aug");
    reveal_strlit("Sep");
    reveal_strlit("Oct");
    reveal_strlit("Nov");
    reveal_strlit("Dec");
    assert(month_name(m) =~= month_abbreviations().subrange(3 * m, 3 * m + 3));
}

/// The weekday `k` days after a Thursday (0 <= k < 7) is written with its
/// English abbreviation.
pub proof fn law_weekday_names(k: int)
    requires
        0 <= k < 7,
    ensures
        weekday_name(k) == weekday_abbreviations().subrange(3 * k, 3 * k + 3),
{
    reveal_strlit("ThuFriSatSunMonTueWed");
    reveal_strlit("Thu");
    reveal_strlit("Fri");
    reveal_strlit("Sat");
    reveal_strlit("Sun");
    reveal_strlit("Mon");
    reveal_strlit("Tue");
    reveal_strlit("Wed");
    assert(weekday_name(k) =~= weekday_abbreviations().subrange(3 * k, 3 * k + 3));
}

/// The months have their Gregorian lengths: 31, 28 (29 in leap years), 31,
/// 30, 31, 30, 31, 31, 30, 31, 30, 31 days.
pub proof fn law_month_lengths(year: int, m: int)
    requires
        0 <= m < 12,
    ensures
        month_days(year, m) == seq![31int, if is_leap_spec(year) { 29int } else { 28int }, 31int,
            30int, 31int, 30int, 31int, 31int, 30int, 31int, 30int, 31int][m],
{
}

/// Days, hours, minutes and seconds below 100 are written with exactly two
/// digits that denote them.
pub proof fn law_two_digits(n: nat)
    requires
        n < 100,
    ensures
        decimal2(n).len() == 2,
        all_digits(decimal2(n)),
        digits_value(decimal2(n)) == n,
{
    if n < 10 {
        lemma_decimal(n);
        let s = decimal2(n);
        assert(s.drop_last() =~= seq!['0']);
        assert(seq!['0'].drop_last() =~= Seq::<char>::empty());
        assert(digits_value(Seq::<char>::empty()) == 0);
        assert(digits_value(seq!['0']) == 0);
        assert(decimal(n) =~= seq![s.last()]);
        assert(digits_value(decimal(n)) == digits_value(seq![s.last()].drop_last()) * 10
            + digit_value(s.last()));
        assert(seq![s.last()].drop_last() =~= Seq::<char>::empty());
        assert(is_digit(s[1])) by {
            assert(decimal(n)[0] == s[1]);
        }
    } else {
        lemma_decimal(n);
        lemma_decimal(n / 10);
        assert(n / 10 < 10);
    }
}

} // verus!
