//! The contents of a directory listing: which entries are shown, how each
//! is described, their order (directories first, then by lower-cased
//! name), and the breadcrumb links.
use vstd::prelude::*;

use crate::templates::{DirEntry, DirEntryView};
use crate::text::{
    decimal, ends_with, find_last, has_suffix, last_index, nonempty_pieces, nonempty_split,
    push_char, push_chars, push_str, split, string_from, sub_chars, to_chars, trim_end,
    trim_end_chars,
};

verus! {

// ---------------------------------------------------------------------------
// Outside computations
// ---------------------------------------------------------------------------

/// The lower-case form of a string, as `str::to_lowercase` maps it.
pub uninterp spec fn lowercase_of(s: Seq<char>) -> Seq<char>;

/// `str::to_lowercase`. Trusted: the result is the lower-case mapping of
/// `s`, named `lowercase_of` (Unicode's mapping, not stated here).
#[verifier::external_body]
fn lowercase(s: &str) -> (r: String)
    ensures
        r@ == lowercase_of(s@),
{
    s.to_lowercase()
}

/// The human-readable size that `bytesize::to_string(bytes, false)` gives.
pub uninterp spec fn bytesize_text(bytes: u64) -> Seq<char>;

/// `bytesize::to_string` with decimal (KB, MB, ...) units. Trusted: the
/// result is named `bytesize_text`; below 1000 bytes it is the number of
/// bytes followed by ` B`, as the crate's source writes it with `format!`.
/// Larger sizes are formatted from a floating-point quotient, which is not
/// stated here.
#[verifier::external_body]
fn format_size(bytes: u64) -> (r: String)
    ensures
        r@ == bytesize_text(bytes),
        bytes < 1000 ==> r@ == decimal(bytes as nat) + " B"@,
{
    bytesize::to_string(bytes, false)
}

// ---------------------------------------------------------------------------
// Entries
// ---------------------------------------------------------------------------

/// An entry of a directory as read from disk.
#[derive(Debug, Clone)]
pub struct DirItem {
    pub name: String,
    pub is_dir: bool,
    /// The size in bytes (of a file)
    pub size: u64,
}

impl View for DirItem {
    type V = (Seq<char>, bool, u64);

    open spec fn view(&self) -> (Seq<char>, bool, u64) {
        (self.name@, self.is_dir, self.size)
    }
}

pub open spec fn items_view(v: Seq<DirItem>) -> Seq<(Seq<char>, bool, u64)> {
    v.map_values(|d: DirItem| d@)
}

pub open spec fn entries_view(v: Seq<DirEntry>) -> Seq<DirEntryView> {
    v.map_values(|d: DirEntry| d@)
}

/// Whether an entry is shown: `.DS_Store`, `.git` and the configured
/// unlisted names are hidden.
pub open spec fn is_listed(name: Seq<char>, unlisted: Seq<Seq<char>>) -> bool {
    name != ".DS_Store"@ && name != ".git"@ && !unlisted.contains(name)
}

/// The URL path of entry `name` in the directory at `url`.
pub open spec fn entry_relative(url: Seq<char>, name: Seq<char>) -> Seq<char> {
    (if ends_with(url, "/"@) {
        trim_end(url, '/')
    } else {
        url
    }) + "/"@ + name
}

/// The extension shown for a file: what follows its last dot (the whole
/// name when it has none), lower-cased.
pub open spec fn file_ext(name: Seq<char>) -> Seq<char> {
    lowercase_of(name.skip(last_index(name, '.') + 1))
}

/// The listing row of a directory entry.
pub open spec fn entry_of(url: Seq<char>, item: (Seq<char>, bool, u64)) -> DirEntryView {
    if item.1 {
        DirEntryView {
            base: item.0,
            relative: entry_relative(url, item.0),
            title: item.0,
            ext: "dir"@,
            is_dir: true,
        }
    } else {
        DirEntryView {
            base: item.0,
            relative: entry_relative(url, item.0),
            title: item.0 + " (&nbsp;"@ + bytesize_text(item.2) + "&nbsp;)"@,
            ext: file_ext(item.0),
            is_dir: false,
        }
    }
}

/// The rows of the shown entries, in directory order.
pub open spec fn listed_entries(
    url: Seq<char>,
    items: Seq<(Seq<char>, bool, u64)>,
    unlisted: Seq<Seq<char>>,
) -> Seq<DirEntryView>
    decreases items.len(),
{
    if items.len() == 0 {
        Seq::empty()
    } else {
        let rest = listed_entries(url, items.drop_last(), unlisted);
        if is_listed(items.last().0, unlisted) {
            rest.push(entry_of(url, items.last()))
        } else {
            rest
        }
    }
}

// ---------------------------------------------------------------------------
// Order
// ---------------------------------------------------------------------------

/// Lexicographic order of character sequences (the order of `String`s).
pub open spec fn seq_lt(a: Seq<char>, b: Seq<char>) -> bool
    decreases a.len(),
{
    if a.len() == 0 {
        b.len() > 0
    } else if b.len() == 0 {
        false
    } else if a[0] != b[0] {
        a[0] < b[0]
    } else {
        seq_lt(a.skip(1), b.skip(1))
    }
}

/// The sort key of a row: whether it is a directory, and its lower-cased name.
pub open spec fn sort_key(e: DirEntryView) -> (bool, Seq<char>) {
    (e.is_dir, lowercase_of(e.base))
}

/// Whether key `a` comes strictly before key `b`: directories before files,
/// then by name.
pub open spec fn key_before(a: (bool, Seq<char>), b: (bool, Seq<char>)) -> bool {
    (a.0 && !b.0) || (a.0 == b.0 && seq_lt(a.1, b.1))
}

/// The sort keys of rows.
pub open spec fn listing_keys(rows: Seq<DirEntryView>) -> Seq<(bool, Seq<char>)> {
    rows.map_values(|e: DirEntryView| sort_key(e))
}

/// The rows at the positions of `order`, in that order.
pub open spec fn arranged(rows: Seq<DirEntryView>, order: Seq<int>) -> Seq<DirEntryView> {
    order.map_values(|k: int| rows[k])
}

/// `order` lists each of the positions `0..n` once.
pub open spec fn is_arrangement(order: Seq<int>, n: int) -> bool {
    &&& order.len() == n
    &&& forall|i: int| 0 <= i < n ==> 0 <= #[trigger] order[i] < n
    &&& forall|i: int, j: int| 0 <= i < j < n ==> order[i] != order[j]
}

/// `order` arranges `keys` in a stable sort: keys in order, and equal keys
/// in their original order.
pub open spec fn is_stable_sort(keys: Seq<(bool, Seq<char>)>, order: Seq<int>) -> bool {
    &&& is_arrangement(order, keys.len() as int)
    &&& forall|i: int, j: int|
        0 <= i < j < keys.len() ==> !key_before(keys[order[j]], keys[order[i]])
    &&& forall|i: int, j: int|
        0 <= i < j < keys.len() && keys[order[i]] == keys[order[j]] ==> order[i] < order[j]
}

pub proof fn lemma_seq_lt_irreflexive(a: Seq<char>)
    ensures
        !seq_lt(a, a),
    decreases a.len(),
{
    if a.len() > 0 {
        lemma_seq_lt_irreflexive(a.skip(1));
    }
}

pub proof fn lemma_seq_lt_transitive(a: Seq<char>, b: Seq<char>, c: Seq<char>)
    requires
        seq_lt(a, b),
        seq_lt(b, c),
    ensures
        seq_lt(a, c),
    decreases a.len(),
{
    if a.len() > 0 && b.len() > 0 && c.len() > 0 {
        if a[0] == b[0] && b[0] == c[0] {
            lemma_seq_lt_transitive(a.skip(1), b.skip(1), c.skip(1));
        }
    }
}

pub proof fn lemma_seq_lt_total(a: Seq<char>, b: Seq<char>)
    requires
        a != b,
    ensures
        seq_lt(a, b) || seq_lt(b, a),
    decreases a.len(),
{
    if a.len() > 0 && b.len() > 0 && a[0] == b[0] {
        if a.skip(1) == b.skip(1) {
            assert(a =~= seq![a[0]] + a.skip(1));
            assert(b =~= seq![b[0]] + b.skip(1));
        }
        lemma_seq_lt_total(a.skip(1), b.skip(1));
    } else if a.len() == 0 && b.len() == 0 {
        assert(a =~= b);
    }
}

pub proof fn lemma_key_before_irreflexive(a: (bool, Seq<char>))
    ensures
        !key_before(a, a),
{
    lemma_seq_lt_irreflexive(a.1);
}

/// Keys that are not in order are in the other order (or equal), and the
/// order is transitive: "not before" is a total preorder.
pub proof fn lemma_key_not_before_transitive(
    a: (bool, Seq<char>),
    b: (bool, Seq<char>),
    c: (bool, Seq<char>),
)
    requires
        !key_before(a, b),
        !key_before(b, c),
    ensures
        !key_before(a, c),
{
    if key_before(a, c) {
        if a.0 == b.0 && b.0 == c.0 {
            if a.1 != b.1 {
                lemma_seq_lt_total(a.1, b.1);
            }
            if b.1 != c.1 {
                lemma_seq_lt_total(b.1, c.1);
            }
            if a.1 != b.1 && b.1 != c.1 {
                lemma_seq_lt_transitive(c.1, b.1, a.1);
                lemma_seq_lt_transitive(a.1, c.1, a.1);
                lemma_seq_lt_irreflexive(a.1);
            } else if a.1 == b.1 {
                lemma_seq_lt_irreflexive(a.1);
                if b.1 != c.1 {
                }
            } else {
            }
        }
    }
}

pub proof fn lemma_key_before_asymmetric(a: (bool, Seq<char>), b: (bool, Seq<char>))
    requires
        key_before(a, b),
    ensures
        !key_before(b, a),
{
    if key_before(b, a) {
        if a.0 == b.0 {
            lemma_seq_lt_transitive(a.1, b.1, a.1);
            lemma_seq_lt_irreflexive(a.1);
        }
    }
}

fn chars_lt(a: &[char], b: &[char]) -> (r: bool)
    ensures
        r == seq_lt(a@, b@),
{
    let mut i: usize = 0;
    assert(a@.skip(0) =~= a@);
    assert(b@.skip(0) =~= b@);
    while i < a.len() && i < b.len()
        invariant
            i <= a@.len(),
            i <= b@.len(),
            seq_lt(a@, b@) == seq_lt(a@.skip(i as int), b@.skip(i as int)),
        decreases a.len() - i,
    {
        assert(a@.skip(i as int)[0] == a@[i as int]);
        assert(b@.skip(i as int)[0] == b@[i as int]);
        if a[i] != b[i] {
            return a[i] < b[i];
        }
        assert(a@.skip(i as int).skip(1) =~= a@.skip(i + 1));
        assert(b@.skip(i as int).skip(1) =~= b@.skip(i + 1));
        i = i + 1;
    }
    i == a.len() && i < b.len()
}

fn key_lt(a: &(bool, Vec<char>), b: &(bool, Vec<char>)) -> (r: bool)
    ensures
        r == key_before((a.0, a.1@), (b.0, b.1@)),
{
    (a.0 && !b.0) || (a.0 == b.0 && chars_lt(a.1.as_slice(), b.1.as_slice()))
}

pub open spec fn keys_view(keys: Seq<(bool, Vec<char>)>) -> Seq<(bool, Seq<char>)> {
    keys.map_values(|k: (bool, Vec<char>)| (k.0, k.1@))
}

pub open spec fn order_view(order: Seq<usize>) -> Seq<int> {
    order.map_values(|k: usize| k as int)
}

/// A stable sorting order of `keys` (insertion sort).
fn stable_order(keys: &Vec<(bool, Vec<char>)>) -> (order: Vec<usize>)
    ensures
        is_stable_sort(keys_view(keys@), order_view(order@)),
{
    let ghost kv = keys_view(keys@);
    let n = keys.len();
    let mut order: Vec<usize> = Vec::new();
    let mut i: usize = 0;
    while i < n
        invariant
            n == keys@.len(),
            kv == keys_view(keys@),
            kv.len() == n,
            i <= n,
            order@.len() == i,
            forall|a: int| 0 <= a < i ==> #[trigger] order@[a] < i,
            forall|a: int, b: int| 0 <= a < b < i ==> order@[a] != order@[b],
            forall|a: int, b: int|
                0 <= a < b < i ==> !key_before(kv[order@[b] as int], kv[order@[a] as int]),
            forall|a: int, b: int|
                0 <= a < b < i && kv[order@[a] as int] == kv[order@[b] as int] ==> order@[a]
                    < order@[b],
        decreases n - i,
    {
        let mut p = order.len();
        while p > 0 && key_lt(&keys[i], &keys[order[p - 1]])
            invariant
                n == keys@.len(),
                kv == keys_view(keys@),
                i < n,
                p <= order@.len(),
                order@.len() == i,
                forall|a: int| 0 <= a < i ==> #[trigger] order@[a] < i,
                forall|q: int|
                    p <= q < order@.len() ==> key_before(kv[i as int], kv[order@[q] as int]),
            decreases p,
        {
            assert(kv[i as int] == (keys@[i as int].0, keys@[i as int].1@));
            assert(kv[order@[p - 1] as int] == (
                keys@[order@[p - 1] as int].0,
                keys@[order@[p - 1] as int].1@,
            ));
            p = p - 1;
        }
        proof {
            if p > 0 {
                assert(kv[i as int] == (keys@[i as int].0, keys@[i as int].1@));
                assert(kv[order@[p - 1] as int] == (
                    keys@[order@[p - 1] as int].0,
                    keys@[order@[p - 1] as int].1@,
                ));
            }
        }
        let ghost old_order = order@;
        order.insert(p, i);
        proof {
            assert(order@ =~= old_order.take(p as int).push(i).add(old_order.skip(p as int)));
            assert forall|a: int| 0 <= a < i + 1 implies #[trigger] order@[a] < i + 1 by {
                if a < p {
                    assert(order@[a] == old_order[a]);
                } else if a > p {
                    assert(order@[a] == old_order[a - 1]);
                }
            }
            assert forall|a: int, b: int| 0 <= a < b < i + 1 implies order@[a] != order@[b] by {
                if a < p && b < p {
                } else if a < p && b == p {
                    assert(old_order[a] < i);
                } else if a < p && b > p {
                    assert(order@[b] == old_order[b - 1]);
                } else if a == p {
                    assert(order@[b] == old_order[b - 1]);
                    assert(old_order[b - 1] < i);
                } else {
                    assert(order@[a] == old_order[a - 1]);
                    assert(order@[b] == old_order[b - 1]);
                }
            }
            assert forall|a: int, b: int| 0 <= a < b < i + 1 implies !key_before(
                kv[order@[b] as int],
                kv[order@[a] as int],
            ) by {
                if b < p {
                } else if a < p && b == p {
                    // kv[old[a]] <= kv[old[p-1]] <= kv[i]
                    if a < p - 1 {
                        lemma_key_not_before_transitive(
                            kv[i as int],
                            kv[old_order[p - 1] as int],
                            kv[old_order[a] as int],
                        );
                    }
                } else if a < p && b > p {
                    assert(order@[b] == old_order[b - 1]);
                } else if a == p {
                    assert(order@[b] == old_order[b - 1]);
                    lemma_key_before_asymmetric(kv[i as int], kv[old_order[b - 1] as int]);
                } else {
                    assert(order@[a] == old_order[a - 1]);
                    assert(order@[b] == old_order[b - 1]);
                }
            }
            assert forall|a: int, b: int|
                0 <= a < b < i + 1 && kv[order@[a] as int] == kv[order@[b] as int] implies order@[a]
                < order@[b] by {
                if b < p {
                } else if a < p && b == p {
                    assert(old_order[a] < i);
                } else if a < p && b > p {
                    assert(order@[b] == old_order[b - 1]);
                } else if a == p {
                    assert(order@[b] == old_order[b - 1]);
                    lemma_key_before_irreflexive(kv[i as int]);
                } else {
                    assert(order@[a] == old_order[a - 1]);
                    assert(order@[b] == old_order[b - 1]);
                }
            }
        }
        i = i + 1;
    }
    proof {
        let ov = order_view(order@);
        assert forall|a: int| 0 <= a < n implies 0 <= #[trigger] ov[a] < n by {
            assert(ov[a] == order@[a] as int);
        }
        assert forall|a: int, b: int| 0 <= a < b < n implies ov[a] != ov[b] by {
            assert(ov[a] == order@[a] as int);
            assert(ov[b] == order@[b] as int);
        }
    }
    order
}

// ---------------------------------------------------------------------------
// Breadcrumbs
// ---------------------------------------------------------------------------

/// The path of the first `n` segments: `/seg0/seg1/...`.
pub open spec fn segments_path(segs: Seq<Seq<char>>, n: int) -> Seq<char>
    decreases n,
{
    if n <= 0 {
        Seq::empty()
    } else {
        segments_path(segs, n - 1) + "/"@ + segs[n - 1]
    }
}

/// The breadcrumbs of the first `n` segments: each segment with the path
/// leading to it.
pub open spec fn crumbs_of(segs: Seq<Seq<char>>, n: int) -> Seq<(Seq<char>, Seq<char>)>
    decreases n,
{
    if n <= 0 {
        Seq::empty()
    } else {
        crumbs_of(segs, n - 1).push((segs[n - 1], segments_path(segs, n)))
    }
}

/// The breadcrumbs of a directory's URL path.
pub open spec fn breadcrumbs(url: Seq<char>) -> Seq<(Seq<char>, Seq<char>)> {
    let segs = nonempty_pieces(split(url, '/'));
    crumbs_of(segs, segs.len() as int)
}

pub open spec fn crumbs_view(v: Seq<(String, String)>) -> Seq<(Seq<char>, Seq<char>)> {
    v.map_values(|p: (String, String)| (p.0@, p.1@))
}

/// The breadcrumb links of a directory's URL path.
pub fn build_breadcrumbs(url_path: &str) -> (r: Vec<(String, String)>)
    ensures
        crumbs_view(r@) == breadcrumbs(url_path@),
{
    let cs = to_chars(url_path);
    let segs = nonempty_split(cs.as_slice(), '/');
    let ghost sv = nonempty_pieces(split(url_path@, '/'));
    let mut paths: Vec<(String, String)> = Vec::new();
    let mut acc = String::new();
    let mut i: usize = 0;
    while i < segs.len()
        invariant
            i <= segs@.len(),
            segs@.len() == sv.len(),
            forall|k: int| 0 <= k < segs@.len() ==> #[trigger] segs@[k]@ == sv[k],
            acc@ == segments_path(sv, i as int),
            crumbs_view(paths@) == crumbs_of(sv, i as int),
        decreases segs.len() - i,
    {
        let ghost acc0 = acc@;
        push_char(&mut acc, '/');
        push_chars(&mut acc, segs[i].as_slice());
        proof {
            reveal_strlit("/");
        }
        assert(acc@ =~= acc0 + "/"@ + sv[i as int]);
        assert(acc@ =~= segments_path(sv, i + 1));
        let ghost before = paths@;
        paths.push((string_from(segs[i].as_slice()), acc.clone()));
        assert(crumbs_view(paths@) =~= crumbs_view(before).push((sv[i as int], acc@)));
        i = i + 1;
    }
    paths
}

// ---------------------------------------------------------------------------
// The listing
// ---------------------------------------------------------------------------

fn is_listed_name(name: &str, unlisted: &Vec<String>) -> (r: bool)
    ensures
        r == is_listed(name@, crate::config::strings_view(unlisted@)),
{
    let ds = String::from_str(".DS_Store");
    let git = String::from_str(".git");
    let n = String::from_str(name);
    if n == ds || n == git {
        return false;
    }
    let ghost uv = crate::config::strings_view(unlisted@);
    let mut i: usize = 0;
    while i < unlisted.len()
        invariant
            i <= unlisted@.len(),
            uv == crate::config::strings_view(unlisted@),
            n@ == name@,
            forall|k: int| 0 <= k < i ==> uv[k] != name@,
        decreases unlisted.len() - i,
    {
        assert(uv[i as int] == unlisted@[i as int]@);
        if unlisted[i] == n {
            return false;
        }
        i = i + 1;
    }
    assert(!uv.contains(name@));
    true
}

fn make_entry(url: &str, item: &DirItem) -> (r: DirEntry)
    ensures
        r@ == entry_of(url@, item@),
{
    let uc = to_chars(url);
    let slash = to_chars("/");
    proof {
        reveal_strlit("/");
    }
    let mut relative = if has_suffix(uc.as_slice(), slash.as_slice()) {
        string_from(trim_end_chars(uc.as_slice(), '/').as_slice())
    } else {
        String::from_str(url)
    };
    push_str(&mut relative, "/");
    push_str(&mut relative, item.name.as_str());
    if item.is_dir {
        DirEntry {
            base: item.name.clone(),
            relative,
            title: item.name.clone(),
            ext: String::from_str("dir"),
            is_dir: true,
        }
    } else {
        let nc = to_chars(item.name.as_str());
        proof {
            crate::handler::lemma_last_index_range(nc@, '.');
        }
        let start = match find_last(nc.as_slice(), '.') {
            Some(k) => k + 1,
            None => 0,
        };
        let last = string_from(sub_chars(nc.as_slice(), start, nc.len()).as_slice());
        assert(nc@.subrange(start as int, nc@.len() as int) =~= nc@.skip(last_index(nc@, '.') + 1));
        let ext = lowercase(last.as_str());
        let mut title = item.name.clone();
        push_str(&mut title, " (&nbsp;");
        let size = format_size(item.size);
        push_str(&mut title, size.as_str());
        push_str(&mut title, "&nbsp;)");
        DirEntry { base: item.name.clone(), relative, title, ext, is_dir: false }
    }
}

fn clone_entry(e: &DirEntry) -> (r: DirEntry)
    ensures
        r@ == e@,
{
    DirEntry {
        base: e.base.clone(),
        relative: e.relative.clone(),
        title: e.title.clone(),
        ext: e.ext.clone(),
        is_dir: e.is_dir,
    }
}

/// The rows of a directory listing: the shown entries of `items` (in the
/// order the directory was read), described and sorted with directories
/// first and then by lower-cased name, keeping the read order among equal
/// keys.
pub fn build_listing(url_path: &str, items: &Vec<DirItem>, unlisted: &Vec<String>) -> (r: Vec<
    DirEntry,
>)
    ensures
        ({
            let listed = listed_entries(
                url_path@,
                items_view(items@),
                crate::config::strings_view(unlisted@),
            );
            exists|order: Seq<int>|
                #[trigger] is_stable_sort(listing_keys(listed), order) && entries_view(r@)
                    == arranged(listed, order)
        }),
{
    let ghost iv = items_view(items@);
    let ghost uv = crate::config::strings_view(unlisted@);
    let mut listed: Vec<DirEntry> = Vec::new();
    let mut keys: Vec<(bool, Vec<char>)> = Vec::new();
    let mut i: usize = 0;
    while i < items.len()
        invariant
            i <= items@.len(),
            iv == items_view(items@),
            uv == crate::config::strings_view(unlisted@),
            entries_view(listed@) == listed_entries(url_path@, iv.take(i as int), uv),
            keys_view(keys@) == listing_keys(entries_view(listed@)),
        decreases items.len() - i,
    {
        assert(iv.take(i + 1).drop_last() =~= iv.take(i as int));
        assert(iv.take(i + 1).last() == items@[i as int]@);
        let item = &items[i];
        if is_listed_name(item.name.as_str(), unlisted) {
            let e = make_entry(url_path, item);
            let low = lowercase(e.base.as_str());
            let key = (e.is_dir, to_chars(low.as_str()));
            let ghost before = listed@;
            let ghost kbefore = keys@;
            let ghost ev = e@;
            let ghost kvv = (key.0, key.1@);
            assert(kvv == sort_key(ev));
            listed.push(e);
            keys.push(key);
            assert(entries_view(listed@) =~= entries_view(before).push(ev));
            assert(keys_view(keys@) =~= keys_view(kbefore).push(kvv));
            assert(keys_view(keys@) =~= listing_keys(entries_view(listed@)));
        }
        i = i + 1;
    }
    assert(iv.take(items@.len() as int) =~= iv);
    let ghost lv = entries_view(listed@);
    let order = stable_order(&keys);
    let mut r: Vec<DirEntry> = Vec::new();
    let mut k: usize = 0;
    while k < order.len()
        invariant
            k <= order@.len(),
            lv == entries_view(listed@),
            is_stable_sort(keys_view(keys@), order_view(order@)),
            keys_view(keys@).len() == listed@.len(),
            keys_view(keys@) == listing_keys(lv),
            entries_view(r@) == arranged(lv, order_view(order@).take(k as int)),
        decreases order.len() - k,
    {
        assert(order_view(order@)[k as int] == order@[k as int] as int);
        let e = clone_entry(&listed[order[k]]);
        assert(e@ == lv[order@[k as int] as int]);
        let ghost before = r@;
        r.push(e);
        assert(entries_view(r@) =~= entries_view(before).push(lv[order@[k as int] as int]));
        assert(entries_view(r@) =~= arranged(lv, order_view(order@).take(k + 1)));
        k = k + 1;
    }
    assert(order_view(order@).take(order@.len() as int) =~= order_view(order@));
    r
}

} // verus!
