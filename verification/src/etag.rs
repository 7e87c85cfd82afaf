//! Entity tags: a SHA-1 based tag per file, cached per path and
//! invalidated when the file's modification time changes.
use vstd::prelude::*;
use vstd::hash_map::StringHashMap;
use vstd::string::StringSliceAdditionalSpecFns;

use sha1::Digest;

use crate::text::push_char;

verus! {

/// The SHA-1 digest of `data`, as the `sha1` crate computes it.
pub uninterp spec fn sha1_of(data: Seq<u8>) -> Seq<u8>;

/// `sha1::Sha1`: a new hasher, fed `data` by `Digest::update`, finalized by
/// `Digest::finalize`. Trusted: the result is the SHA-1 digest of `data`,
/// named `sha1_of`, and has the 20 bytes of SHA-1's output size.
#[verifier::external_body]
fn sha1_digest(data: &[u8]) -> (r: Vec<u8>)
    ensures
        r@ == sha1_of(data@),
        r@.len() == 20,
{
    let mut hasher = sha1::Sha1::new();
    hasher.update(data);
    hasher.finalize().to_vec()
}

/// The lower-case hexadecimal digit of `d`.
pub open spec fn hex_digit_char(d: nat) -> char {
    if d < 10 {
        ((d + '0' as nat) as u8) as char
    } else {
        ((d - 10 + 'a' as nat) as u8) as char
    }
}

/// Lower-case hexadecimal notation of bytes, two digits per byte, high
/// nibble first (the `{:x}` format of a digest).
pub open spec fn lower_hex(bytes: Seq<u8>) -> Seq<char>
    decreases bytes.len(),
{
    if bytes.len() == 0 {
        Seq::empty()
    } else {
        lower_hex(bytes.drop_last()) + seq![
            hex_digit_char((bytes.last() / 16) as nat),
            hex_digit_char((bytes.last() % 16) as nat),
        ]
    }
}

/// The entity tag of a file with extension `ext` and contents `content`:
/// the first 27 hex digits of the SHA-1 of the extension's bytes followed
/// by the contents, in double quotes.
pub open spec fn etag_spec(ext: Seq<u8>, content: Seq<u8>) -> Seq<char> {
    seq!['"'] + lower_hex(sha1_of(ext + content)).take(27) + seq!['"']
}

pub proof fn lemma_lower_hex_len(bytes: Seq<u8>)
    ensures
        lower_hex(bytes).len() == 2 * bytes.len(),
    decreases bytes.len(),
{
    if bytes.len() > 0 {
        lemma_lower_hex_len(bytes.drop_last());
    }
}

fn hex_char(d: u8) -> (c: char)
    requires
        d < 16,
    ensures
        c == hex_digit_char(d as nat),
{
    if d < 10 {
        (d + 48) as char
    } else {
        (d - 10 + 97) as char
    }
}

/// The entity tag of a file: `ext` is its extension, `content` its bytes.
pub fn make_etag(ext: &str, content: &[u8]) -> (r: String)
    ensures
        r@ == etag_spec(ext.spec_bytes(), content@),
{
    let eb = ext.as_bytes();
    let mut data: Vec<u8> = Vec::new();
    for i in 0..eb.len()
        invariant
            data@ == eb@.take(i as int),
    {
        data.push(eb[i]);
        assert(eb@.take(i + 1) =~= eb@.take(i as int).push(eb@[i as int]));
    }
    assert(eb@.take(eb@.len() as int) =~= eb@);
    for i in 0..content.len()
        invariant
            data@ == eb@ + content@.take(i as int),
    {
        data.push(content[i]);
        assert(content@.take(i + 1) =~= content@.take(i as int).push(content@[i as int]));
    }
    assert(content@.take(content@.len() as int) =~= content@);
    let digest = sha1_digest(data.as_slice());
    let ghost d = digest@;
    let mut hex = String::new();
    for i in 0..digest.len()
        invariant
            d == digest@,
            hex@ == lower_hex(d.take(i as int)),
    {
        let b = digest[i];
        assert(d.take(i + 1).drop_last() =~= d.take(i as int));
        push_char(&mut hex, hex_char(b / 16));
        push_char(&mut hex, hex_char(b % 16));
        assert(hex@ =~= lower_hex(d.take(i + 1)));
    }
    assert(d.take(d.len() as int) =~= d);
    proof {
        lemma_lower_hex_len(d);
    }
    let hs = crate::text::to_chars(hex.as_str());
    let mut r = String::new();
    push_char(&mut r, '"');
    for i in 0..27
        invariant
            hs@ == lower_hex(d),
            hs@.len() == 40,
            r@ == seq!['"'] + hs@.take(i as int),
    {
        push_char(&mut r, hs[i]);
        assert(hs@.take(i + 1) =~= hs@.take(i as int).push(hs@[i as int]));
        assert(r@ =~= seq!['"'] + hs@.take(i + 1));
    }
    push_char(&mut r, '"');
    assert(r@ =~= etag_spec(ext.spec_bytes(), content@));
    r
}

/// Entity tags already computed: for each file path, the modification time
/// the tag was computed for and the tag.
pub struct EtagCache {
    entries: StringHashMap<(u64, String)>,
}

impl View for EtagCache {
    type V = Map<Seq<char>, (u64, Seq<char>)>;

    closed spec fn view(&self) -> Map<Seq<char>, (u64, Seq<char>)> {
        self.entries@.map_values(|v: (u64, String)| (v.0, v.1@))
    }
}

/// The cached tag of `path`, if it was computed for modification time `mtime`.
pub open spec fn cached_etag(cache: Map<Seq<char>, (u64, Seq<char>)>, path: Seq<char>, mtime: u64) -> Option<
    Seq<char>,
> {
    if cache.contains_key(path) && cache[path].0 == mtime {
        Some(cache[path].1)
    } else {
        None
    }
}

/// The tag that a request for `path` gets from a cache in state `cache`.
pub open spec fn etag_result(
    cache: Map<Seq<char>, (u64, Seq<char>)>,
    path: Seq<char>,
    ext: Seq<u8>,
    mtime: u64,
    content: Seq<u8>,
) -> Seq<char> {
    match cached_etag(cache, path, mtime) {
        Some(e) => e,
        None => etag_spec(ext, content),
    }
}

/// The cache after a request for `path`: a fresh tag is remembered with
/// its modification time.
pub open spec fn cache_after(
    cache: Map<Seq<char>, (u64, Seq<char>)>,
    path: Seq<char>,
    ext: Seq<u8>,
    mtime: u64,
    content: Seq<u8>,
) -> Map<Seq<char>, (u64, Seq<char>)> {
    match cached_etag(cache, path, mtime) {
        Some(e) => cache,
        None => cache.insert(path, (mtime, etag_spec(ext, content))),
    }
}

impl EtagCache {
    /// An empty cache.
    pub fn new() -> (r: Self)
        ensures
            r@ == Map::<Seq<char>, (u64, Seq<char>)>::empty(),
    {
        let r = EtagCache { entries: StringHashMap::new() };
        assert(r@ =~= Map::<Seq<char>, (u64, Seq<char>)>::empty());
        r
    }

    /// Compute ETag for a file: the cached tag when it was computed for the
    /// same modification time, else a fresh one, which is then cached.
    pub fn compute_etag(&mut self, path: &str, ext: &str, mtime: u64, content: &[u8]) -> (r: String)
        ensures
            r@ == etag_result(old(self)@, path@, ext.spec_bytes(), mtime, content@),
            final(self)@ == cache_after(old(self)@, path@, ext.spec_bytes(), mtime, content@),
    {
        match self.entries.get(path) {
            Some(entry) => {
                if entry.0 == mtime {
                    return entry.1.clone();
                }
            },
            None => {},
        }
        let etag = make_etag(ext, content);
        let key = String::from_str(path);
        self.entries.insert(key, (mtime, etag.clone()));
        proof {
            assert(self@ =~= old(self)@.insert(path@, (mtime, etag@)));
        }
        etag
    }
}

/// The validator of a file response: its entity tag, from the cache, unless
/// tags are off (`--no-etag`), in which case there is none (the response
/// then carries `Last-Modified`) and the cache is left alone.
pub fn file_tag(
    no_etag: bool,
    cache: &mut EtagCache,
    path: &str,
    ext: &str,
    mtime: u64,
    content: &[u8],
) -> (r: Option<String>)
    ensures
        no_etag ==> r is None && final(cache)@ == old(cache)@,
        !no_etag ==> (r matches Some(t) && t@ == etag_result(
            old(cache)@,
            path@,
            ext.spec_bytes(),
            mtime,
            content@,
        )),
        !no_etag ==> final(cache)@ == cache_after(
            old(cache)@,
            path@,
            ext.spec_bytes(),
            mtime,
            content@,
        ),
{
    if no_etag {
        None
    } else {
        Some(cache.compute_etag(path, ext, mtime, content))
    }
}

} // verus!
