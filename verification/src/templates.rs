//! HTML and JSON bodies: directory listings and error pages.
use vstd::prelude::*;

use crate::text::{decimal, push_char, push_decimal, push_str, to_chars};

verus! {

/// One row of a directory listing.
#[derive(Debug, Clone)]
pub struct DirEntry {
    /// The file name
    pub base: String,
    /// The URL path of the entry
    pub relative: String,
    /// The text shown for the entry
    pub title: String,
    /// The lower-cased extension, or `dir` for directories
    pub ext: String,
    pub is_dir: bool,
}

/// The fields of a listing row.
pub struct DirEntryView {
    pub base: Seq<char>,
    pub relative: Seq<char>,
    pub title: Seq<char>,
    pub ext: Seq<char>,
    pub is_dir: bool,
}

impl View for DirEntry {
    type V = DirEntryView;

    open spec fn view(&self) -> DirEntryView {
        DirEntryView {
            base: self.base@,
            relative: self.relative@,
            title: self.title@,
            ext: self.ext@,
            is_dir: self.is_dir,
        }
    }
}

// ---------------------------------------------------------------------------
// Escaping
// ---------------------------------------------------------------------------

/// Text made safe inside HTML: `&`, `<`, `>`, `"` and `'` become entities.
pub open spec fn html_escape(s: Seq<char>) -> Seq<char>
    decreases s.len(),
{
    if s.len() == 0 {
        Seq::empty()
    } else {
        html_escape(s.drop_last()) + {
            let c = s.last();
            if c == '&' {
                "&amp;"@
            } else if c == '<' {
                "&lt;"@
            } else if c == '>' {
                "&gt;"@
            } else if c == '"' {
                "&quot;"@
            } else if c == '\'' {
                "&#39;"@
            } else {
                seq![c]
            }
        }
    }
}

/// Appends `t` escaped for HTML.
pub fn push_html(s: &mut String, t: &str)
    ensures
        final(s)@ == old(s)@ + html_escape(t@),
{
    let cs = to_chars(t);
    let ghost start = s@;
    for i in 0..cs.len()
        invariant
            cs@ == t@,
            s@ == start + html_escape(cs@.take(i as int)),
    {
        let c = cs[i];
        assert(cs@.take(i + 1).drop_last() =~= cs@.take(i as int));
        let ghost before = s@;
        if c == '&' {
            push_str(s, "&amp;");
        } else if c == '<' {
            push_str(s, "&lt;");
        } else if c == '>' {
            push_str(s, "&gt;");
        } else if c == '"' {
            push_str(s, "&quot;");
        } else if c == '\'' {
            push_str(s, "&#39;");
        } else {
            push_char(s, c);
            assert(before.push(c) =~= before + seq![c]);
        }
        assert(s@ =~= start + html_escape(cs@.take(i + 1)));
    }
    assert(cs@.take(cs@.len() as int) =~= cs@);
}

/// Text made safe inside a JSON string, with serde_json's escapes: `"` and
/// `\` are escaped, backspace, tab, newline, form feed and carriage return
/// take their short escapes, other control characters are written as
/// `\u00xx` (lower-case hex).
pub open spec fn json_escape(s: Seq<char>) -> Seq<char>
    decreases s.len(),
{
    if s.len() == 0 {
        Seq::empty()
    } else {
        json_escape(s.drop_last()) + json_escape_char(s.last())
    }
}

pub open spec fn json_escape_char(c: char) -> Seq<char> {
    if c == '"' {
        "\\\""@
    } else if c == '\\' {
        "\\\\"@
    } else if c == '\u{8}' {
        "\\b"@
    } else if c == '\t' {
        "\\t"@
    } else if c == '\n' {
        "\\n"@
    } else if c == '\u{c}' {
        "\\f"@
    } else if c == '\r' {
        "\\r"@
    } else if (c as u32) < 32 {
        "\\u00"@ + seq![hex_lower((c as u32 / 16) as nat), hex_lower((c as u32 % 16) as nat)]
    } else {
        seq![c]
    }
}

pub open spec fn hex_lower(d: nat) -> char {
    if d < 10 {
        ((d + 48) as u8) as char
    } else {
        ((d - 10 + 97) as u8) as char
    }
}

fn hex_lower_char(d: u32) -> (c: char)
    requires
        d < 16,
    ensures
        c == hex_lower(d as nat),
{
    if d < 10 {
        ((d + 48) as u8) as char
    } else {
        ((d - 10 + 97) as u8) as char
    }
}

/// Appends `t` escaped for a JSON string.
pub fn push_json(s: &mut String, t: &str)
    ensures
        final(s)@ == old(s)@ + json_escape(t@),
{
    let cs = to_chars(t);
    let ghost start = s@;
    for i in 0..cs.len()
        invariant
            cs@ == t@,
            s@ == start + json_escape(cs@.take(i as int)),
    {
        let c = cs[i];
        assert(cs@.take(i + 1).drop_last() =~= cs@.take(i as int));
        let ghost before = s@;
        if c == '"' {
            push_str(s, "\\\"");
        } else if c == '\\' {
            push_str(s, "\\\\");
        } else if c == '\u{8}' {
            push_str(s, "\\b");
        } else if c == '\t' {
            push_str(s, "\\t");
        } else if c == '\n' {
            push_str(s, "\\n");
        } else if c == '\u{c}' {
            push_str(s, "\\f");
        } else if c == '\r' {
            push_str(s, "\\r");
        } else if (c as u32) < 32 {
            push_str(s, "\\u00");
            push_char(s, hex_lower_char(c as u32 / 16));
            push_char(s, hex_lower_char(c as u32 % 16));
            assert(s@ =~= before + json_escape_char(c));
        } else {
            push_char(s, c);
            assert(before.push(c) =~= before + seq![c]);
        }
        assert(s@ =~= start + json_escape(cs@.take(i + 1)));
    }
    assert(cs@.take(cs@.len() as int) =~= cs@);
}

// ---------------------------------------------------------------------------
// Error pages
// ---------------------------------------------------------------------------

/// The HTML error page for a status code and message.
pub open spec fn error_page(code: u16, message: Seq<char>) -> Seq<char> {
    "<!DOCTYPE html>\n<html lang=\"en\">\n<head>\n<meta charset=\"utf-8\">\n<meta name=\"viewport\" content=\"width=device-width, initial-scale=1\">\n<title>"@
        + decimal(code as nat) + "</title>\n<style>body{margin:0;font-family:-apple-system,BlinkMacSystemFont,sans-serif;}main{padding:40px;}h1{font-size:24px;font-weight:500;}</style>\n</head>\n<body>\n<main>\n<h1>"@
        + decimal(code as nat) + "</h1>\n<p>"@ + html_escape(message) + "</p>\n</main>\n</body>\n</html>\n"@
}

/// Render the HTML error page.
pub fn render_error(code: u16, message: &str) -> (r: String)
    ensures
        r@ == error_page(code, message@),
{
    let mut r = String::new();
    push_str(
        &mut r,
        "<!DOCTYPE html>\n<html lang=\"en\">\n<head>\n<meta charset=\"utf-8\">\n<meta name=\"viewport\" content=\"width=device-width, initial-scale=1\">\n<title>",
    );
    push_decimal(&mut r, code as u64);
    push_str(
        &mut r,
        "</title>\n<style>body{margin:0;font-family:-apple-system,BlinkMacSystemFont,sans-serif;}main{padding:40px;}h1{font-size:24px;font-weight:500;}</style>\n</head>\n<body>\n<main>\n<h1>",
    );
    push_decimal(&mut r, code as u64);
    push_str(&mut r, "</h1>\n<p>");
    push_html(&mut r, message);
    push_str(&mut r, "</p>\n</main>\n</body>\n</html>\n");
    assert(r@ =~= error_page(code, message@));
    r
}

/// The JSON error body: `{"error":{"code":...,"message":...}}`.
pub open spec fn error_json(code: u16, error_code: Seq<char>, message: Seq<char>) -> Seq<char> {
    "{\"error\":{\"status\":"@ + decimal(code as nat) + ",\"code\":\""@ + json_escape(error_code)
        + "\",\"message\":\""@ + json_escape(message) + "\"}}"@
}

/// Render the JSON error body.
pub fn render_error_json(code: u16, error_code: &str, message: &str) -> (r: String)
    ensures
        r@ == error_json(code, error_code@, message@),
{
    let mut r = String::new();
    push_str(&mut r, "{\"error\":{\"status\":");
    push_decimal(&mut r, code as u64);
    push_str(&mut r, ",\"code\":\"");
    push_json(&mut r, error_code);
    push_str(&mut r, "\",\"message\":\"");
    push_json(&mut r, message);
    push_str(&mut r, "\"}}");
    assert(r@ =~= error_json(code, error_code@, message@));
    r
}

// ---------------------------------------------------------------------------
// Directory listings
// ---------------------------------------------------------------------------

/// The breadcrumb links of a listing: `(name, path)` pairs.
pub open spec fn crumbs_html(paths: Seq<(Seq<char>, Seq<char>)>) -> Seq<char>
    decreases paths.len(),
{
    if paths.len() == 0 {
        Seq::empty()
    } else {
        crumbs_html(paths.drop_last()) + "<a href=\""@ + html_escape(paths.last().1) + "/\">"@
            + html_escape(paths.last().0) + "</a>/"@
    }
}

/// The rows of a listing.
pub open spec fn rows_html(files: Seq<DirEntryView>) -> Seq<char>
    decreases files.len(),
{
    if files.len() == 0 {
        Seq::empty()
    } else {
        rows_html(files.drop_last()) + row_html(files.last())
    }
}

pub open spec fn row_html(f: DirEntryView) -> Seq<char> {
    "<li><a href=\""@ + html_escape(f.relative) + "\" title=\""@ + html_escape(f.base)
        + "\" class=\""@ + (if f.is_dir {
        "folder"@
    } else {
        "file"@
    }) + " "@ + html_escape(f.ext) + "\">"@ + f.title + "</a></li>\n"@
}

/// The HTML page listing a directory.
pub open spec fn directory_page(
    directory: Seq<char>,
    paths: Seq<(Seq<char>, Seq<char>)>,
    files: Seq<DirEntryView>,
) -> Seq<char> {
    "<!DOCTYPE html>\n<html lang=\"en\">\n<head>\n<meta charset=\"utf-8\">\n<meta name=\"viewport\" content=\"width=device-width, initial-scale=1\">\n<title>Files within "@
        + html_escape(directory) + "</title>\n<style>body{margin:0;font-family:-apple-system,BlinkMacSystemFont,sans-serif;}main{padding:40px;}ul{list-style:none;padding:0;}li a{display:block;padding:6px 0;}a.folder{font-weight:600;}</style>\n</head>\n<body>\n<main>\n<header>\n<h1><i>Index of&nbsp;</i><a href=\"/\">~</a>/"@
        + crumbs_html(paths) + "</h1>\n</header>\n<ul id=\"files\">\n"@ + rows_html(files)
        + "</ul>\n</main>\n</body>\n</html>\n"@
}

fn push_row(r: &mut String, f: &DirEntry)
    ensures
        final(r)@ == old(r)@ + row_html(f@),
{
    push_str(r, "<li><a href=\"");
    push_html(r, f.relative.as_str());
    push_str(r, "\" title=\"");
    push_html(r, f.base.as_str());
    push_str(r, "\" class=\"");
    if f.is_dir {
        push_str(r, "folder");
    } else {
        push_str(r, "file");
    }
    push_str(r, " ");
    push_html(r, f.ext.as_str());
    push_str(r, "\">");
    push_str(r, f.title.as_str());
    push_str(r, "</a></li>\n");
    assert(final(r)@ =~= old(r)@ + row_html(f@));
}

/// Render the HTML directory listing. `title` is inserted as HTML; the
/// other fields are escaped.
pub fn render_directory(
    directory: &str,
    paths: &Vec<(String, String)>,
    files: &Vec<DirEntry>,
) -> (r: String)
    ensures
        r@ == directory_page(
            directory@,
            paths@.map_values(|p: (String, String)| (p.0@, p.1@)),
            files@.map_values(|f: DirEntry| f@),
        ),
{
    let ghost pv = paths@.map_values(|p: (String, String)| (p.0@, p.1@));
    let ghost fv = files@.map_values(|f: DirEntry| f@);
    let mut r = String::new();
    push_str(
        &mut r,
        "<!DOCTYPE html>\n<html lang=\"en\">\n<head>\n<meta charset=\"utf-8\">\n<meta name=\"viewport\" content=\"width=device-width, initial-scale=1\">\n<title>Files within ",
    );
    push_html(&mut r, directory);
    push_str(
        &mut r,
        "</title>\n<style>body{margin:0;font-family:-apple-system,BlinkMacSystemFont,sans-serif;}main{padding:40px;}ul{list-style:none;padding:0;}li a{display:block;padding:6px 0;}a.folder{font-weight:600;}</style>\n</head>\n<body>\n<main>\n<header>\n<h1><i>Index of&nbsp;</i><a href=\"/\">~</a>/",
    );
    let ghost head = r@;
    for i in 0..paths.len()
        invariant
            pv == paths@.map_values(|p: (String, String)| (p.0@, p.1@)),
            r@ == head + crumbs_html(pv.take(i as int)),
    {
        assert(pv.take(i + 1).drop_last() =~= pv.take(i as int));
        assert(pv[i as int] == (paths@[i as int].0@, paths@[i as int].1@));
        push_str(&mut r, "<a href=\"");
        push_html(&mut r, paths[i].1.as_str());
        push_str(&mut r, "/\">");
        push_html(&mut r, paths[i].0.as_str());
        push_str(&mut r, "</a>/");
        assert(r@ =~= head + crumbs_html(pv.take(i + 1)));
    }
    assert(pv.take(paths@.len() as int) =~= pv);
    push_str(&mut r, "</h1>\n</header>\n<ul id=\"files\">\n");
    let ghost mid = r@;
    for i in 0..files.len()
        invariant
            fv == files@.map_values(|f: DirEntry| f@),
            r@ == mid + rows_html(fv.take(i as int)),
    {
        assert(fv.take(i + 1).drop_last() =~= fv.take(i as int));
        assert(fv[i as int] == files@[i as int]@);
        push_row(&mut r, &files[i]);
        assert(r@ =~= mid + rows_html(fv.take(i + 1)));
    }
    assert(fv.take(files@.len() as int) =~= fv);
    push_str(&mut r, "</ul>\n</main>\n</body>\n</html>\n");
    assert(r@ =~= directory_page(directory@, pv, fv));
    r
}

/// One row of the JSON listing (keys in alphabetical order).
pub open spec fn json_row(f: DirEntryView) -> Seq<char> {
    "    {\n      \"base\": \""@ + json_escape(f.base) + "\",\n      \"ext\": \""@ + json_escape(f.ext)
        + "\",\n      \"relative\": \""@ + json_escape(f.relative) + "\",\n      \"title\": \""@
        + json_escape(f.title) + "\",\n      \"type\": \""@ + (if f.is_dir {
        "folder"@
    } else {
        "file"@
    }) + "\"\n    }"@
}

/// The rows of the JSON listing, separated by commas.
pub open spec fn json_rows(files: Seq<DirEntryView>) -> Seq<char>
    decreases files.len(),
{
    if files.len() == 0 {
        Seq::empty()
    } else if files.len() == 1 {
        json_row(files.last())
    } else {
        json_rows(files.drop_last()) + ",\n"@ + json_row(files.last())
    }
}

/// The JSON listing of a directory: an object whose `files` array holds,
/// for each row, its `base`, `ext`, `relative`, `title` and `type`
/// (`folder` or `file`), laid out with two-space indents.
pub open spec fn listing_json(files: Seq<DirEntryView>) -> Seq<char> {
    if files.len() == 0 {
        "{\n  \"files\": []\n}"@
    } else {
        "{\n  \"files\": [\n"@ + json_rows(files) + "\n  ]\n}"@
    }
}

fn push_json_row(r: &mut String, f: &DirEntry)
    ensures
        final(r)@ == old(r)@ + json_row(f@),
{
    push_str(r, "    {\n      \"base\": \"");
    push_json(r, f.base.as_str());
    push_str(r, "\",\n      \"ext\": \"");
    push_json(r, f.ext.as_str());
    push_str(r, "\",\n      \"relative\": \"");
    push_json(r, f.relative.as_str());
    push_str(r, "\",\n      \"title\": \"");
    push_json(r, f.title.as_str());
    push_str(r, "\",\n      \"type\": \"");
    if f.is_dir {
        push_str(r, "folder");
    } else {
        push_str(r, "file");
    }
    push_str(r, "\"\n    }");
    assert(final(r)@ =~= old(r)@ + json_row(f@));
}

/// Render the JSON directory listing.
pub fn render_listing_json(files: &Vec<DirEntry>) -> (r: String)
    ensures
        r@ == listing_json(files@.map_values(|f: DirEntry| f@)),
{
    let ghost fv = files@.map_values(|f: DirEntry| f@);
    let mut r = String::new();
    if files.len() == 0 {
        push_str(&mut r, "{\n  \"files\": []\n}");
        assert(r@ =~= listing_json(fv));
        return r;
    }
    push_str(&mut r, "{\n  \"files\": [\n");
    let ghost head = r@;
    for i in 0..files.len()
        invariant
            fv == files@.map_values(|f: DirEntry| f@),
            r@ == head + json_rows(fv.take(i as int)),
    {
        assert(fv.take(i + 1).drop_last() =~= fv.take(i as int));
        assert(fv[i as int] == files@[i as int]@);
        assert(fv.take(i + 1).last() == fv[i as int]);
        if i > 0 {
            push_str(&mut r, ",\n");
        }
        push_json_row(&mut r, &files[i]);
        assert(r@ =~= head + json_rows(fv.take(i + 1)));
    }
    assert(fv.take(files@.len() as int) =~= fv);
    push_str(&mut r, "\n  ]\n}");
    assert(r@ =~= listing_json(fv));
    r
}

} // verus!
