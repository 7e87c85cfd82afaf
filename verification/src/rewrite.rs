//! Path patterns of `serve.json`: matching a request path against a rule's
//! source and producing the rule's target.
use vstd::prelude::*;

use crate::config::{RedirectRule, RewriteRule, redirects_view, rewrites_view};
use crate::text::{
    count_char, count_of, ends_with, find_first, first_index, has_char, has_prefix, has_suffix,
    nonempty_pieces, nonempty_split, replace_all, replace_chars, split, starts_with, string_from,
    sub_chars, to_chars, trim_end, trim_end_chars,
};

verus! {

// ---------------------------------------------------------------------------
// Specifications
// ---------------------------------------------------------------------------

/// `(name, value)` pairs with `name` added, or its value replaced when the
/// name is already there (a map that remembers first insertion order).
pub open spec fn param_insert(
    ps: Seq<(Seq<char>, Seq<char>)>,
    name: Seq<char>,
    value: Seq<char>,
) -> Seq<(Seq<char>, Seq<char>)> {
    if exists|i: int| 0 <= i < ps.len() && (#[trigger] ps[i]).0 == name {
        let i = choose|i: int| 0 <= i < ps.len() && (#[trigger] ps[i]).0 == name;
        ps.update(i, (name, value))
    } else {
        ps.push((name, value))
    }
}

/// The `:name` parameters bound by matching the first `n` source segments
/// against the first `n` path segments, or `None` when a literal segment
/// differs (`*` and `**` segments match any segment).
pub open spec fn collect_params(src: Seq<Seq<char>>, path: Seq<Seq<char>>, n: int) -> Option<
    Seq<(Seq<char>, Seq<char>)>,
>
    decreases n,
{
    if n <= 0 {
        Some(Seq::empty())
    } else {
        match collect_params(src, path, n - 1) {
            None => None,
            Some(ps) => {
                let s = src[n - 1];
                let p = path[n - 1];
                if s.len() > 0 && s[0] == ':' {
                    Some(param_insert(ps, s.skip(1), p))
                } else if s != p && s != "**"@ && s != "*"@ {
                    None
                } else {
                    Some(ps)
                }
            },
        }
    }
}

pub proof fn lemma_collect_none(src: Seq<Seq<char>>, path: Seq<Seq<char>>, a: int, b: int)
    requires
        a <= b,
        0 < a,
        collect_params(src, path, a) is None,
    ensures
        collect_params(src, path, b) is None,
    decreases b - a,
{
    if a < b {
        lemma_collect_none(src, path, a, b - 1);
    }
}

/// `dest` with each `:name` replaced by its value, parameter by parameter.
pub open spec fn apply_params(dest: Seq<char>, ps: Seq<(Seq<char>, Seq<char>)>) -> Seq<char>
    decreases ps.len(),
{
    if ps.len() == 0 {
        dest
    } else {
        apply_params(replace_all(dest, seq![':'] + ps[0].0, ps[0].1), ps.skip(1))
    }
}

/// The target of a `:param` source, when `source` and `path` have as many
/// non-empty segments and the literal ones agree.
pub open spec fn param_target(path: Seq<char>, source: Seq<char>, dest: Seq<char>) -> Option<
    Seq<char>,
> {
    let src = nonempty_pieces(split(source, '/'));
    let segs = nonempty_pieces(split(path, '/'));
    if src.len() != segs.len() {
        None
    } else {
        match collect_params(src, segs, src.len() as int) {
            None => None,
            Some(ps) => Some(
                if dest.contains(':') {
                    apply_params(dest, ps)
                } else {
                    dest
                },
            ),
        }
    }
}

/// The target of a source with a single `*`: the text that the `*` stands
/// for, when it holds no `/`, replaces each `$1` of `dest`.
pub open spec fn wildcard_target(path: Seq<char>, source: Seq<char>, dest: Seq<char>) -> Option<
    Seq<char>,
> {
    let star = first_index(source, '*');
    let prefix = source.take(star);
    let suffix = source.skip(star + 1);
    if count_char(source, '*') == 1 && starts_with(path, prefix) && ends_with(path, suffix)
        && path.len() >= prefix.len() + suffix.len() {
        let captured = path.subrange(prefix.len() as int, path.len() - suffix.len());
        if !captured.contains('/') {
            Some(replace_all(dest, "$1"@, captured))
        } else {
            None
        }
    } else {
        None
    }
}

/// Whether `path` lies under `prefix`: it is `prefix` itself or goes on
/// with a `/` after it.
pub open spec fn under_prefix(path: Seq<char>, prefix: Seq<char>) -> bool {
    starts_with(path, prefix) && (path.len() == prefix.len() || path[prefix.len() as int] == '/')
}

/// What `path` becomes under a rule from `source` to `dest`, or `None`
/// when the rule does not apply to it. Sources are tried in this order:
/// `**` or `*` (every path), the path itself, `prefix/**` (the prefix and
/// the paths under it, keeping the rest of the path), a single `*` wildcard within a
/// segment, and `:param` segments.
pub open spec fn rewrite_target(path: Seq<char>, source: Seq<char>, dest: Seq<char>) -> Option<
    Seq<char>,
> {
    if source == "**"@ || source == "*"@ || source == path {
        Some(dest)
    } else if ends_with(source, "/**"@) && under_prefix(path, source.take(source.len() - 3)) {
        Some(trim_end(dest, '/') + path.skip(source.len() - 3))
    } else if wildcard_target(path, source, dest) is Some {
        wildcard_target(path, source, dest)
    } else if source.contains(':') {
        param_target(path, source, dest)
    } else {
        None
    }
}

/// Whether `path` matches the glob `pat`: `**` stands for any text,
/// `*` for any text without a `/`, any other character for itself.
pub open spec fn glob_matches(pat: Seq<char>, path: Seq<char>) -> bool
    decreases pat.len() + path.len(),
{
    if pat.len() == 0 {
        path.len() == 0
    } else if pat.len() >= 2 && pat[0] == '*' && pat[1] == '*' {
        glob_matches(pat.skip(2), path) || (path.len() > 0 && glob_matches(pat, path.skip(1)))
    } else if pat[0] == '*' {
        glob_matches(pat.skip(1), path) || (path.len() > 0 && path[0] != '/' && glob_matches(
            pat,
            path.skip(1),
        ))
    } else {
        path.len() > 0 && path[0] == pat[0] && glob_matches(pat.skip(1), path.skip(1))
    }
}

/// Whether `path` matches a pattern of clean URLs, directory listings or
/// custom headers: `**` and `*` alone match every path, any other pattern
/// is a glob (so `/blog/**` matches what lies under `/blog/` and `**/*.js`
/// every `.js` file).
pub open spec fn path_matches_spec(path: Seq<char>, pattern: Seq<char>) -> bool {
    pattern == "**"@ || pattern == "*"@ || glob_matches(pattern, path)
}

/// The first rule, from position `from` on, that is not yet used and
/// applies to `path`, with the path it gives.
pub open spec fn first_unused_match(
    rules: Seq<(Seq<char>, Seq<char>)>,
    used: Seq<bool>,
    path: Seq<char>,
    from: int,
) -> Option<(int, Seq<char>)>
    decreases rules.len() - from,
{
    if from < 0 || from >= rules.len() {
        None
    } else if !used[from] && rewrite_target(path, rules[from].0, rules[from].1) is Some {
        Some((from, rewrite_target(path, rules[from].0, rules[from].1)->0))
    } else {
        first_unused_match(rules, used, path, from + 1)
    }
}

/// The number of rules marked as used.
pub open spec fn used_count(used: Seq<bool>) -> nat
    decreases used.len(),
{
    if used.len() == 0 {
        0
    } else {
        used_count(used.drop_last()) + if used.last() {
            1nat
        } else {
            0nat
        }
    }
}

pub proof fn lemma_first_unused_match(
    rules: Seq<(Seq<char>, Seq<char>)>,
    used: Seq<bool>,
    path: Seq<char>,
    from: int,
)
    requires
        0 <= from,
    ensures
        first_unused_match(rules, used, path, from) matches Some((i, t)) ==> {
            &&& from <= i < rules.len()
            &&& !used[i]
            &&& rewrite_target(path, rules[i].0, rules[i].1) == Some(t)
            &&& forall|j: int|
                from <= j < i ==> used[j] || rewrite_target(path, rules[j].0, rules[j].1) is None
        },
        first_unused_match(rules, used, path, from) is None ==> forall|j: int|
            from <= j < rules.len() ==> used[j] || rewrite_target(path, rules[j].0, rules[j].1)
                is None,
    decreases rules.len() - from,
{
    if from < rules.len() {
        lemma_first_unused_match(rules, used, path, from + 1);
    }
}

pub proof fn lemma_used_count_update(used: Seq<bool>, i: int)
    requires
        0 <= i < used.len(),
        !used[i],
    ensures
        used_count(used.update(i, true)) == used_count(used) + 1,
        used_count(used) <= used.len(),
    decreases used.len(),
{
    if i < used.len() - 1 {
        lemma_used_count_update(used.drop_last(), i);
        assert(used.update(i, true).drop_last() =~= used.drop_last().update(i, true));
    } else {
        assert(used.update(i, true).drop_last() =~= used.drop_last());
        lemma_used_count_le(used.drop_last());
    }
}

pub proof fn lemma_used_count_le(used: Seq<bool>)
    ensures
        used_count(used) <= used.len(),
    decreases used.len(),
{
    if used.len() > 0 {
        lemma_used_count_le(used.drop_last());
    }
}

/// `path` after the rewrite rules: the first unused rule that applies is
/// applied and marked used, and so on until no unused rule applies. Each
/// rule is applied at most once.
pub open spec fn rewrite_fix(rules: Seq<(Seq<char>, Seq<char>)>, used: Seq<bool>, path: Seq<char>) -> Seq<char>
    recommends
        used.len() == rules.len(),
    decreases rules.len() - used_count(used),
{
    match first_unused_match(rules, used, path, 0) {
        None => path,
        Some((i, t)) => {
            proof {
                lemma_first_unused_match(rules, used, path, 0);
                if used.len() == rules.len() {
                    lemma_used_count_update(used, i);
                    lemma_used_count_le(used.update(i, true));
                }
            }
            if used.len() == rules.len() {
                rewrite_fix(rules, used.update(i, true), t)
            } else {
                path
            }
        },
    }
}

/// The path that the rewrite rules turn `path` into.
pub open spec fn rewrites_spec(rules: Seq<(Seq<char>, Seq<char>)>, path: Seq<char>) -> Seq<char> {
    rewrite_fix(rules, Seq::new(rules.len(), |i: int| false), path)
}

/// The first redirect rule that applies to `path`, from position `from`
/// on: its target and status.
pub open spec fn redirect_spec(
    rules: Seq<(Seq<char>, Seq<char>, u16)>,
    path: Seq<char>,
    from: int,
) -> Option<(Seq<char>, u16)>
    decreases rules.len() - from,
{
    if from < 0 || from >= rules.len() {
        None
    } else {
        match rewrite_target(path, rules[from].0, rules[from].1) {
            Some(t) => Some((t, rules[from].2)),
            None => redirect_spec(rules, path, from + 1),
        }
    }
}

// ---------------------------------------------------------------------------
// Implementation
// ---------------------------------------------------------------------------

fn lit(s: &str) -> (v: Vec<char>)
    ensures
        v@ == s@,
{
    to_chars(s)
}

fn eq_chars(a: &[char], b: &[char]) -> (r: bool)
    ensures
        r == (a@ == b@),
{
    if a.len() != b.len() {
        return false;
    }
    let r = has_prefix(a, b);
    proof {
        if r {
            assert(a@ =~= a@.take(b@.len() as int));
        } else {
            assert(a@.take(a@.len() as int) =~= a@);
        }
    }
    r
}

/// Adds the parameter `name` with `value`, replacing an earlier value.
fn insert_param(ps: &mut Vec<(Vec<char>, Vec<char>)>, name: Vec<char>, value: Vec<char>)
    requires
        forall|i: int, j: int|
            0 <= i < j < old(ps)@.len() ==> old(ps)@[i].0@ != old(ps)@[j].0@,
    ensures
        params_view(final(ps)@) == param_insert(params_view(old(ps)@), name@, value@),
        forall|i: int, j: int|
            0 <= i < j < final(ps)@.len() ==> final(ps)@[i].0@ != final(ps)@[j].0@,
{
    let ghost pv = params_view(ps@);
    let mut i: usize = 0;
    while i < ps.len()
        invariant
            i <= ps@.len(),
            ps@ == old(ps)@,
            pv == params_view(ps@),
            forall|a: int, b: int| 0 <= a < b < ps@.len() ==> ps@[a].0@ != ps@[b].0@,
            forall|k: int| 0 <= k < i ==> ps@[k].0@ != name@,
        decreases ps.len() - i,
    {
        if eq_chars(ps[i].0.as_slice(), name.as_slice()) {
            let ghost old_ps = ps@;
            assert(pv[i as int].0 == name@);
            assert forall|k: int| 0 <= k < pv.len() && (#[trigger] pv[k]).0 == name@ implies k
                == i by {
                if k != i {
                    if k < i {
                    } else {
                        assert(old_ps[i as int].0@ != old_ps[k].0@);
                    }
                }
            }
            let ghost k = choose|k: int| 0 <= k < pv.len() && (#[trigger] pv[k]).0 == name@;
            ps.set(i, (name, value));
            assert(params_view(ps@) =~= pv.update(i as int, (name@, value@)));
            assert forall|a: int, b: int| 0 <= a < b < ps@.len() implies ps@[a].0@ != ps@[b].0@ by {
                assert(ps@[a].0@ == old_ps[a].0@);
                assert(ps@[b].0@ == old_ps[b].0@);
            }
            return ;
        }
        i = i + 1;
    }
    assert(!(exists|k: int| 0 <= k < pv.len() && (#[trigger] pv[k]).0 == name@));
    ps.push((name, value));
    assert(params_view(ps@) =~= pv.push((name@, value@)));
}

/// The characters of each pair.
pub open spec fn params_view(ps: Seq<(Vec<char>, Vec<char>)>) -> Seq<(Seq<char>, Seq<char>)> {
    ps.map_values(|p: (Vec<char>, Vec<char>)| (p.0@, p.1@))
}

/// Replaces each `:name` of `dest` by its value.
fn substitute_params(dest: Vec<char>, ps: &Vec<(Vec<char>, Vec<char>)>) -> (r: Vec<char>)
    ensures
        r@ == apply_params(dest@, params_view(ps@)),
{
    let ghost pv = params_view(ps@);
    let mut target = dest;
    let mut i: usize = 0;
    assert(pv.skip(0) =~= pv);
    while i < ps.len()
        invariant
            i <= ps@.len(),
            pv == params_view(ps@),
            apply_params(target@, pv.skip(i as int)) == apply_params(dest@, pv),
        decreases ps.len() - i,
    {
        let mut pat: Vec<char> = Vec::new();
        pat.push(':');
        let mut k: usize = 0;
        while k < ps[i].0.len()
            invariant
                i < ps@.len(),
                k <= ps@[i as int].0@.len(),
                pat@ == seq![':'] + ps@[i as int].0@.take(k as int),
            decreases ps@[i as int].0@.len() - k,
        {
            pat.push(ps[i].0[k]);
            assert(ps@[i as int].0@.take(k + 1) =~= ps@[i as int].0@.take(k as int).push(
                ps@[i as int].0@[k as int],
            ));
            assert(pat@ =~= seq![':'] + ps@[i as int].0@.take(k + 1));
            k = k + 1;
        }
        assert(ps@[i as int].0@.take(k as int) =~= ps@[i as int].0@);
        assert(pv.skip(i as int)[0] == pv[i as int]);
        assert(pv.skip(i as int).skip(1) =~= pv.skip(i + 1));
        target = replace_chars(target.as_slice(), pat.as_slice(), ps[i].1.as_slice());
        i = i + 1;
    }
    assert(pv.skip(ps@.len() as int) =~= Seq::<(Seq<char>, Seq<char>)>::empty());
    assert(pv.skip(0) =~= pv);
    target
}

fn param_match(path: &[char], source: &[char], dest: &[char]) -> (r: Option<Vec<char>>)
    ensures
        match r {
            Some(t) => param_target(path@, source@, dest@) == Some(t@),
            None => param_target(path@, source@, dest@) is None,
        },
{
    let src = nonempty_split(source, '/');
    let segs = nonempty_split(path, '/');
    let ghost sv = nonempty_pieces(split(source@, '/'));
    let ghost pv = nonempty_pieces(split(path@, '/'));
    if src.len() != segs.len() {
        return None;
    }
    let star2 = lit("**");
    let star1 = lit("*");
    proof {
        reveal_strlit("**");
        reveal_strlit("*");
    }
    let mut ps: Vec<(Vec<char>, Vec<char>)> = Vec::new();
    let mut i: usize = 0;
    while i < src.len()
        invariant
            i <= src@.len(),
            sv == nonempty_pieces(split(source@, '/')),
            pv == nonempty_pieces(split(path@, '/')),
            src@.len() == segs@.len(),
            src@.len() == sv.len(),
            segs@.len() == pv.len(),
            forall|k: int| 0 <= k < src@.len() ==> #[trigger] src@[k]@ == sv[k],
            forall|k: int| 0 <= k < segs@.len() ==> #[trigger] segs@[k]@ == pv[k],
            star2@ == "**"@,
            star1@ == "*"@,
            collect_params(sv, pv, i as int) == Some(params_view(ps@)),
            forall|a: int, b: int| 0 <= a < b < ps@.len() ==> ps@[a].0@ != ps@[b].0@,
        decreases src.len() - i,
    {
        let s = src[i].as_slice();
        let p = segs[i].as_slice();
        assert(s@ == sv[i as int]);
        assert(p@ == pv[i as int]);
        if s.len() > 0 && s[0] == ':' {
            let name = sub_chars(s, 1, s.len());
            assert(name@ =~= s@.skip(1));
            let value = sub_chars(p, 0, p.len());
            assert(value@ =~= p@);
            insert_param(&mut ps, name, value);
        } else if !eq_chars(s, p) && !eq_chars(s, star2.as_slice()) && !eq_chars(
            s,
            star1.as_slice(),
        ) {
            proof {
                assert(s@ != "**"@);
                assert(s@ != "*"@);
                assert(s@ != p@);
                assert(collect_params(sv, pv, i + 1) is None);
                lemma_collect_none(sv, pv, i + 1, sv.len() as int);
            }
            return None;
        }
        i = i + 1;
    }
    let dest_v = sub_chars(dest, 0, dest.len());
    assert(dest_v@ =~= dest@);
    if has_char(dest, ':') {
        Some(substitute_params(dest_v, &ps))
    } else {
        Some(dest_v)
    }
}

fn wildcard_match(path: &[char], source: &[char], dest: &[char]) -> (r: Option<Vec<char>>)
    ensures
        match r {
            Some(t) => wildcard_target(path@, source@, dest@) == Some(t@),
            None => wildcard_target(path@, source@, dest@) is None,
        },
{
    if count_of(source, '*') != 1 {
        return None;
    }
    let star = find_first(source, '*');
    proof {
        crate::text::lemma_count_first_index(source@, '*');
    }
    assert(star < source.len());
    let prefix = sub_chars(source, 0, star);
    let suffix = sub_chars(source, star + 1, source.len());
    assert(prefix@ =~= source@.take(star as int));
    assert(suffix@ =~= source@.skip(star + 1));
    if !(has_prefix(path, prefix.as_slice()) && has_suffix(path, suffix.as_slice())) {
        return None;
    }
    if path.len() < prefix.len() || path.len() - prefix.len() < suffix.len() {
        return None;
    }
    let captured = sub_chars(path, prefix.len(), path.len() - suffix.len());
    if has_char(captured.as_slice(), '/') {
        return None;
    }
    let dollar = lit("$1");
    proof {
        reveal_strlit("$1");
    }
    Some(replace_chars(dest, dollar.as_slice(), captured.as_slice()))
}

/// Match a path against a rewrite pattern and produce a target
pub fn match_rewrite(path: &str, source: &str, destination: &str) -> (r: Option<String>)
    ensures
        match r {
            Some(t) => rewrite_target(path@, source@, destination@) == Some(t@),
            None => rewrite_target(path@, source@, destination@) is None,
        },
{
    let p = to_chars(path);
    let s = to_chars(source);
    let d = to_chars(destination);
    let star2 = lit("**");
    let star1 = lit("*");
    let tail = lit("/**");
    proof {
        reveal_strlit("**");
        reveal_strlit("*");
        reveal_strlit("/**");
    }
    if eq_chars(s.as_slice(), star2.as_slice()) || eq_chars(s.as_slice(), star1.as_slice())
        || eq_chars(s.as_slice(), p.as_slice()) {
        return Some(String::from_str(destination));
    }
    if has_suffix(s.as_slice(), tail.as_slice()) {
        let prefix = sub_chars(s.as_slice(), 0, s.len() - 3);
        assert(prefix@ =~= s@.take(s@.len() - 3));
        if has_prefix(p.as_slice(), prefix.as_slice()) && (p.len() == prefix.len()
            || p[prefix.len()] == '/') {
            let target = trim_end_chars(d.as_slice(), '/');
            let remainder = sub_chars(p.as_slice(), prefix.len(), p.len());
            assert(remainder@ =~= p@.skip(s@.len() - 3));
            let mut out = string_from(target.as_slice());
            crate::text::push_chars(&mut out, remainder.as_slice());
            return Some(out);
        }
    }
    if let Some(t) = wildcard_match(p.as_slice(), s.as_slice(), d.as_slice()) {
        return Some(string_from(t.as_slice()));
    }
    if has_char(s.as_slice(), ':') {
        return match param_match(p.as_slice(), s.as_slice(), d.as_slice()) {
            Some(t) => Some(string_from(t.as_slice())),
            None => None,
        };
    }
    None
}

fn glob_at(pat: &[char], path: &[char], i: usize, j: usize) -> (r: bool)
    requires
        i <= pat@.len(),
        j <= path@.len(),
    ensures
        r == glob_matches(pat@.skip(i as int), path@.skip(j as int)),
    decreases pat@.len() - i + path@.len() - j,
{
    let ghost p = pat@.skip(i as int);
    let ghost q = path@.skip(j as int);
    if i == pat.len() {
        return j == path.len();
    }
    assert(p[0] == pat@[i as int]);
    if i + 1 < pat.len() && pat[i] == '*' && pat[i + 1] == '*' {
        assert(p[1] == pat@[i + 1]);
        assert(p.skip(2) =~= pat@.skip(i + 2));
        if glob_at(pat, path, i + 2, j) {
            return true;
        }
        if j == path.len() {
            return false;
        }
        assert(q.skip(1) =~= path@.skip(j + 1));
        return glob_at(pat, path, i, j + 1);
    }
    if pat[i] == '*' {
        assert(p.skip(1) =~= pat@.skip(i + 1));
        if glob_at(pat, path, i + 1, j) {
            return true;
        }
        if j == path.len() {
            return false;
        }
        assert(q[0] == path@[j as int]);
        if path[j] == '/' {
            return false;
        }
        assert(q.skip(1) =~= path@.skip(j + 1));
        return glob_at(pat, path, i, j + 1);
    }
    if j == path.len() {
        return false;
    }
    assert(q[0] == path@[j as int]);
    if path[j] != pat[i] {
        return false;
    }
    assert(p.skip(1) =~= pat@.skip(i + 1));
    assert(q.skip(1) =~= path@.skip(j + 1));
    glob_at(pat, path, i + 1, j + 1)
}

/// Path matching for clean URLs, directory listings and custom headers.
pub fn path_matches(path: &str, pattern: &str) -> (r: bool)
    ensures
        r == path_matches_spec(path@, pattern@),
{
    let p = to_chars(path);
    let q = to_chars(pattern);
    let star2 = lit("**");
    let star1 = lit("*");
    proof {
        reveal_strlit("**");
        reveal_strlit("*");
    }
    assert(q@.skip(0) =~= q@);
    assert(p@.skip(0) =~= p@);
    eq_chars(q.as_slice(), star2.as_slice()) || eq_chars(q.as_slice(), star1.as_slice())
        || glob_at(q.as_slice(), p.as_slice(), 0, 0)
}

/// Apply rewrite rules: repeatedly apply the first not yet used rule that
/// matches, until none does.
pub fn apply_rewrites(rules: &Vec<RewriteRule>, path: &str) -> (r: String)
    ensures
        r@ == rewrites_spec(rewrites_view(rules@), path@),
{
    let ghost rv = rewrites_view(rules@);
    let n = rules.len();
    let mut used: Vec<bool> = Vec::new();
    while used.len() < n
        invariant
            used@.len() <= n,
            forall|k: int| 0 <= k < used@.len() ==> !used@[k],
        decreases n - used.len(),
    {
        used.push(false);
    }
    assert(used@ =~= Seq::new(rv.len(), |i: int| false));
    let mut current = String::from_str(path);
    loop
        invariant
            n == rules@.len(),
            rv == rewrites_view(rules@),
            used@.len() == n,
            rewrite_fix(rv, used@, current@) == rewrites_spec(rv, path@),
        ensures
            current@ == rewrites_spec(rv, path@),
        decreases n - used_count(used@),
    {
        proof {
            lemma_first_unused_match(rv, used@, current@, 0);
            lemma_used_count_le(used@);
        }
        let mut idx: usize = 0;
        let mut found: Option<(usize, String)> = None;
        while idx < n
            invariant_except_break
                found is None,
            invariant
                n == rules@.len(),
                rv == rewrites_view(rules@),
                used@.len() == n,
                idx <= n,
                first_unused_match(rv, used@, current@, 0) == first_unused_match(
                    rv,
                    used@,
                    current@,
                    idx as int,
                ),
            ensures
                match found {
                    Some((i, t)) => first_unused_match(rv, used@, current@, 0) == Some(
                        (i as int, t@),
                    ),
                    None => first_unused_match(rv, used@, current@, 0) is None,
                },
            decreases n - idx,
        {
            if !used[idx] {
                assert(rv[idx as int] == (rules@[idx as int].source@, rules@[idx as int].destination@));
                match match_rewrite(
                    current.as_str(),
                    rules[idx].source.as_str(),
                    rules[idx].destination.as_str(),
                ) {
                    Some(t) => {
                        found = Some((idx, t));
                        break;
                    },
                    None => {},
                }
            }
            idx = idx + 1;
        }
        match found {
            Some((i, t)) => {
                let ghost before = used@;
                proof {
                    assert(!used@[i as int]);
                    lemma_used_count_update(used@, i as int);
                }
                used.set(i, true);
                assert(used@ == before.update(i as int, true));
                assert(used_count(used@) == used_count(before) + 1);
                proof {
                    lemma_used_count_le(used@);
                }
                current = t;
            },
            None => {
                break;
            },
        }
    }
    current
}

/// Check redirect rules: the target and status of the first rule that applies.
pub fn check_redirects(rules: &Vec<RedirectRule>, path: &str) -> (r: Option<(String, u16)>)
    ensures
        match r {
            Some((t, s)) => redirect_spec(redirects_view(rules@), path@, 0) == Some((t@, s)),
            None => redirect_spec(redirects_view(rules@), path@, 0) is None,
        },
{
    let ghost rv = redirects_view(rules@);
    let mut i: usize = 0;
    while i < rules.len()
        invariant
            i <= rules@.len(),
            rv == redirects_view(rules@),
            redirect_spec(rv, path@, 0) == redirect_spec(rv, path@, i as int),
        decreases rules.len() - i,
    {
        assert(rv[i as int] == rules@[i as int]@);
        if let Some(target) = match_rewrite(
            path,
            rules[i].source.as_str(),
            rules[i].destination.as_str(),
        ) {
            return Some((target, rules[i].status_type));
        }
        i = i + 1;
    }
    None
}

} // verus!
