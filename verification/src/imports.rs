//! The internal module paths a source file imports: `use` trees are expanded, and
//! each leaf is resolved against the importing module to an absolute path.
use vstd::prelude::*;
use crate::paths::{expand, expand_use_tree, word_crate, word_self, word_super};
use crate::sites::{site_views, top_mods, top_mods_of, use_sites, use_sites_of};
use crate::strip::{stripped, strip_comments_and_strings, views};
use crate::text::{
    chars_eq, chars_lt, chars_of, extend_chars, seq_lt, string_of, subvec, trim, trim_chars,
    lemma_seq_lt_irreflexive, lemma_seq_lt_total, lemma_seq_lt_transitive,
};

verus! {

/// Whether `::` occurs at index `k`.
pub open spec fn dc_at(s: Seq<char>, k: int) -> bool {
    0 <= k && k + 1 < s.len() && s[k] == ':' && s[k + 1] == ':'
}

/// The first index at or after `p` where `::` occurs.
pub open spec fn find_dc(s: Seq<char>, p: int) -> Option<int>
    decreases s.len() - p,
{
    if p < 0 || p >= s.len() {
        None
    } else if dc_at(s, p) {
        Some(p)
    } else {
        find_dc(s, p + 1)
    }
}

pub proof fn lemma_find_dc(s: Seq<char>, p: int)
    requires
        0 <= p,
    ensures
        find_dc(s, p) matches Some(k) ==> p <= k && dc_at(s, k),
    decreases s.len() - p,
{
    if p < s.len() && !dc_at(s, p) {
        lemma_find_dc(s, p + 1);
    }
}

/// The pieces of `s[start..]` between occurrences of `::` (`str::split("::")`).
pub open spec fn split_dc_from(s: Seq<char>, start: int) -> Seq<Seq<char>>
    decreases s.len() + 2 - start,
{
    if start < 0 || start > s.len() {
        Seq::empty()
    } else {
        proof {
            lemma_find_dc(s, start);
        }
        match find_dc(s, start) {
            None => seq![s.subrange(start, s.len() as int)],
            Some(k) => seq![s.subrange(start, k)] + split_dc_from(s, k + 2),
        }
    }
}

/// The pieces of `s` between occurrences of `::`.
pub open spec fn split_dc(s: Seq<char>) -> Seq<Seq<char>> {
    split_dc_from(s, 0)
}

/// A path segment in its canonical form: a raw identifier `r#name` is `name`.
pub open spec fn unraw(t: Seq<char>) -> Seq<char> {
    if t.len() >= 2 && t[0] == 'r' && t[1] == '#' {
        t.skip(2)
    } else {
        t
    }
}

/// The trimmed pieces, each in canonical form, that are not empty, in order.
pub open spec fn trimmed_nonempty(ps: Seq<Seq<char>>) -> Seq<Seq<char>>
    decreases ps.len(),
{
    if ps.len() == 0 {
        Seq::empty()
    } else {
        let rest = trimmed_nonempty(ps.drop_last());
        let t = unraw(trim(ps.last()));
        if t.len() > 0 {
            rest.push(t)
        } else {
            rest
        }
    }
}

/// The pieces that are not empty, in order.
pub open spec fn nonempty(ps: Seq<Seq<char>>) -> Seq<Seq<char>>
    decreases ps.len(),
{
    if ps.len() == 0 {
        Seq::empty()
    } else {
        let rest = nonempty(ps.drop_last());
        if ps.last().len() > 0 {
            rest.push(ps.last())
        } else {
            rest
        }
    }
}

/// The segments joined by `::`.
pub open spec fn join_dc(ps: Seq<Seq<char>>) -> Seq<char>
    decreases ps.len(),
{
    if ps.len() == 0 {
        Seq::empty()
    } else if ps.len() == 1 {
        ps[0]
    } else {
        join_dc(ps.drop_last()) + seq![':', ':'] + ps.last()
    }
}

/// The number of consecutive `super` segments starting at index `i`.
pub open spec fn leading_supers(segs: Seq<Seq<char>>, i: int) -> nat
    decreases segs.len() - i,
{
    if 0 <= i < segs.len() && segs[i] == word_super() {
        1 + leading_supers(segs, i + 1)
    } else {
        0
    }
}

/// The absolute module path a use path names when written in module `current`,
/// each raw identifier `r#name` read as `name`: `crate::…` is already absolute, `self::…` and `super::…` are resolved against
/// `current`; a path whose first segment is anything else names an external crate
/// (`None`), and a `super` chain that climbs to or past the crate root names no
/// module (`None`).
pub open spec fn normalize(path: Seq<char>, current: Seq<char>) -> Option<Seq<char>> {
    let segs = trimmed_nonempty(split_dc(path));
    let cur = nonempty(split_dc(current));
    if segs.len() == 0 {
        None
    } else if segs[0] == word_crate() {
        Some(join_dc(segs))
    } else if segs[0] == word_self() {
        Some(join_dc(cur + segs.drop_first()))
    } else if segs[0] == word_super() {
        let n = leading_supers(segs, 0);
        if n >= cur.len() {
            None
        } else {
            Some(join_dc(cur.take(cur.len() - n) + segs.skip(n as int)))
        }
    } else {
        None
    }
}

/// The resolved paths of `leaves`, in order, skipping external ones.
pub open spec fn normalize_all(leaves: Seq<Seq<char>>, current: Seq<char>) -> Seq<Seq<char>>
    decreases leaves.len(),
{
    if leaves.len() == 0 {
        Seq::empty()
    } else {
        let rest = normalize_all(leaves.drop_last(), current);
        match normalize(leaves.last(), current) {
            Some(p) => rest.push(p),
            None => rest,
        }
    }
}

/// The module a `use` stands in: the file's module `current`, then each inline
/// module that encloses it, outermost first.
pub open spec fn inner_module(current: Seq<char>, names: Seq<Seq<char>>) -> Seq<char>
    decreases names.len(),
{
    if names.len() == 0 {
        current
    } else {
        inner_module(current, names.drop_last()) + seq![':', ':'] + names.last()
    }
}

/// A leaf written in the crate root, read against the modules the root declares:
/// a bare path whose first segment names one of them (`foo::x` beside `mod foo;`)
/// starts at the crate root; any other leaf, a leading `::` among them, is left as
/// written.
pub open spec fn rooted(leaf: Seq<char>, roots: Seq<Seq<char>>) -> Seq<char> {
    let first = unraw(trim(split_dc(leaf)[0]));
    if first.len() > 0 && roots.contains(first) {
        word_crate() + seq![':', ':'] + leaf
    } else {
        leaf
    }
}

/// The leaves of a use site: those of its path tree, each read against `roots`
/// when the site stands directly in the file's module.
pub open spec fn site_leaves(site: (Seq<char>, Seq<Seq<char>>), roots: Seq<Seq<char>>) -> Seq<
    Seq<char>,
> {
    if site.1.len() == 0 {
        expand(site.0).map_values(|l: Seq<char>| rooted(l, roots))
    } else {
        expand(site.0)
    }
}

/// The resolved paths of every leaf of every use site, each resolved against the
/// module the site stands in, in order; `roots` are the modules a bare path may
/// start with.
pub open spec fn site_imports(
    sites: Seq<(Seq<char>, Seq<Seq<char>>)>,
    current: Seq<char>,
    roots: Seq<Seq<char>>,
) -> Seq<Seq<char>>
    decreases sites.len(),
{
    if sites.len() == 0 {
        Seq::empty()
    } else {
        site_imports(sites.drop_last(), current, roots) + normalize_all(
            site_leaves(sites.last(), roots),
            inner_module(current, sites.last().1),
        )
    }
}

/// The modules a bare path in a file of module `current` may start with: those
/// the crate root declares, when the file is the crate root; none elsewhere.
pub open spec fn root_mods(text: Seq<char>, current: Seq<char>) -> Seq<Seq<char>> {
    if current == word_crate() {
        top_mods(text)
    } else {
        Seq::empty()
    }
}

/// Every internal module path `source` imports, from a file defining module
/// `current`, in the order the declarations appear (with repetitions). Comments,
/// literals and macro bodies are out of scope; a `use` inside an inline
/// `mod name { … }` is resolved against that submodule; in the crate root, a bare
/// path that starts with a module the root declares is a crate path.
pub open spec fn import_list(source: Seq<char>, current: Seq<char>) -> Seq<Seq<char>> {
    let t = stripped(source);
    site_imports(use_sites(t), current, root_mods(t, current))
}

/// Strictly increasing in the lexicographic order, hence without repetitions.
pub open spec fn strictly_sorted(s: Seq<Seq<char>>) -> bool {
    forall|i: int, j: int| 0 <= i < j < s.len() ==> seq_lt(#[trigger] s[i], #[trigger] s[j])
}

/// The distinct elements of `s`, in increasing order.
pub open spec fn sorted_set(s: Seq<Seq<char>>) -> Seq<Seq<char>> {
    choose|t: Seq<Seq<char>>| strictly_sorted(t) && same_elements(t, s)
}

/// Whether `a` and `b` hold the same elements.
pub open spec fn same_elements(a: Seq<Seq<char>>, b: Seq<Seq<char>>) -> bool {
    forall|x: Seq<char>| #[trigger] a.contains(x) <==> b.contains(x)
}

/// Two strictly sorted sequences with the same elements are equal.
pub proof fn lemma_strictly_sorted_unique(s: Seq<Seq<char>>, t: Seq<Seq<char>>)
    requires
        strictly_sorted(s),
        strictly_sorted(t),
        same_elements(s, t),
    ensures
        s == t,
    decreases s.len(),
{
    if s.len() == 0 {
        if t.len() > 0 {
            assert(t.contains(t[0]));
            assert(s.contains(t[0]));
            assert(false);
        }
        assert(s =~= t);
    } else {
        assert(s.contains(s[0]));
        assert(t.contains(s[0]));
        let j = choose|j: int| 0 <= j < t.len() && t[j] == s[0];
        assert(t.contains(t[0]));
        assert(s.contains(t[0]));
        let i = choose|i: int| 0 <= i < s.len() && s[i] == t[0];
        if j > 0 {
            assert(seq_lt(t[0], t[j]));
            if i > 0 {
                assert(seq_lt(s[0], s[i]));
                lemma_seq_lt_transitive(t[0], s[0], s[i]);
            }
            lemma_seq_lt_irreflexive(t[0]);
            assert(false);
        }
        assert(s[0] == t[0]);
        let s1 = s.drop_first();
        let t1 = t.drop_first();
        assert forall|x: Seq<char>| #[trigger] s1.contains(x) <==> t1.contains(x) by {
            if s1.contains(x) {
                let k = choose|k: int| 0 <= k < s1.len() && s1[k] == x;
                assert(s[k + 1] == x);
                assert(s.contains(x));
                assert(t.contains(x));
                let m = choose|m: int| 0 <= m < t.len() && t[m] == x;
                if m == 0 {
                    assert(seq_lt(s[0], s[k + 1]));
                    lemma_seq_lt_irreflexive(x);
                }
                assert(t1[m - 1] == x);
            }
            if t1.contains(x) {
                let k = choose|k: int| 0 <= k < t1.len() && t1[k] == x;
                assert(t[k + 1] == x);
                assert(t.contains(x));
                assert(s.contains(x));
                let m = choose|m: int| 0 <= m < s.len() && s[m] == x;
                if m == 0 {
                    assert(seq_lt(t[0], t[k + 1]));
                    lemma_seq_lt_irreflexive(x);
                }
                assert(s1[m - 1] == x);
            }
        }
        assert forall|a: int, b: int| 0 <= a < b < s1.len() implies seq_lt(
            #[trigger] s1[a],
            #[trigger] s1[b],
        ) by {
            assert(s1[a] == s[a + 1] && s1[b] == s[b + 1]);
        }
        assert forall|a: int, b: int| 0 <= a < b < t1.len() implies seq_lt(
            #[trigger] t1[a],
            #[trigger] t1[b],
        ) by {
            assert(t1[a] == t[a + 1] && t1[b] == t[b + 1]);
        }
        lemma_strictly_sorted_unique(s1, t1);
        assert(s =~= seq![s[0]] + s1);
        assert(t =~= seq![t[0]] + t1);
    }
}

pub open spec fn insert_in_text_order(t: Seq<Seq<char>>, x: Seq<char>) -> Seq<Seq<char>>
    decreases t.len(),
{
    if t.len() == 0 {
        seq![x]
    } else if t[0] == x {
        t
    } else if seq_lt(x, t[0]) {
        seq![x] + t
    } else {
        seq![t[0]] + insert_in_text_order(t.drop_first(), x)
    }
}

proof fn lemma_insert_in_text_order(t: Seq<Seq<char>>, x: Seq<char>)
    requires
        strictly_sorted(t),
    ensures
        strictly_sorted(insert_in_text_order(t, x)),
        forall|y: Seq<char>| #[trigger]
            insert_in_text_order(t, x).contains(y) <==> (t.contains(y) || y == x),
    decreases t.len(),
{
    let r = insert_in_text_order(t, x);
    if t.len() == 0 {
        assert(r[0] == x);
    } else if t[0] == x {
        assert(t.contains(t[0]));
    } else if seq_lt(x, t[0]) {
        assert forall|i: int, j: int| 0 <= i < j < r.len() implies seq_lt(
            #[trigger] r[i],
            #[trigger] r[j],
        ) by {
            if i == 0 {
                assert(r[j] == t[j - 1]);
                if j - 1 > 0 {
                    assert(seq_lt(t[0], t[j - 1]));
                    lemma_seq_lt_transitive(x, t[0], t[j - 1]);
                }
            } else {
                assert(r[i] == t[i - 1] && r[j] == t[j - 1]);
            }
        }
        assert forall|y: Seq<char>| #[trigger] r.contains(y) <==> (t.contains(y) || y == x) by {
            if r.contains(y) {
                let k = choose|k: int| 0 <= k < r.len() && r[k] == y;
                if k > 0 {
                    assert(t[k - 1] == y);
                }
            }
            if t.contains(y) {
                let k = choose|k: int| 0 <= k < t.len() && t[k] == y;
                assert(r[k + 1] == y);
            }
            if y == x {
                assert(r[0] == y);
            }
        }
    } else {
        let rest = t.drop_first();
        assert forall|i: int, j: int| 0 <= i < j < rest.len() implies seq_lt(
            #[trigger] rest[i],
            #[trigger] rest[j],
        ) by {
            assert(rest[i] == t[i + 1] && rest[j] == t[j + 1]);
        }
        lemma_insert_in_text_order(rest, x);
        let ins = insert_in_text_order(rest, x);
        lemma_seq_lt_total(x, t[0]);
        assert(seq_lt(t[0], x));
        assert forall|y: Seq<char>| #[trigger] ins.contains(y) implies seq_lt(t[0], y) by {
            if rest.contains(y) {
                let k = choose|k: int| 0 <= k < rest.len() && rest[k] == y;
                assert(t[k + 1] == y);
            }
        }
        assert forall|i: int, j: int| 0 <= i < j < r.len() implies seq_lt(
            #[trigger] r[i],
            #[trigger] r[j],
        ) by {
            assert(r[j] == ins[j - 1]);
            assert(ins.contains(ins[j - 1]));
            if i > 0 {
                assert(r[i] == ins[i - 1]);
            }
        }
        assert forall|y: Seq<char>| #[trigger] r.contains(y) <==> (t.contains(y) || y == x) by {
            if r.contains(y) {
                let k = choose|k: int| 0 <= k < r.len() && r[k] == y;
                if k > 0 {
                    assert(ins[k - 1] == y);
                    assert(ins.contains(y));
                    if rest.contains(y) {
                        let m = choose|m: int| 0 <= m < rest.len() && rest[m] == y;
                        assert(t[m + 1] == y);
                    }
                }
            }
            if t.contains(y) {
                let k = choose|k: int| 0 <= k < t.len() && t[k] == y;
                if k > 0 {
                    assert(rest[k - 1] == y);
                    assert(rest.contains(y));
                    assert(ins.contains(y));
                    let m = choose|m: int| 0 <= m < ins.len() && ins[m] == y;
                    assert(r[m + 1] == y);
                } else {
                    assert(r[0] == y);
                }
            }
            if y == x {
                assert(ins.contains(x));
                let m = choose|m: int| 0 <= m < ins.len() && ins[m] == x;
                assert(r[m + 1] == x);
            }
        }
    }
}

/// Every sequence of texts has a strictly sorted arrangement of its distinct
/// elements.
pub proof fn lemma_sorted_set_exists(es: Seq<Seq<char>>)
    ensures
        exists|t: Seq<Seq<char>>|
            strictly_sorted(t) && forall|x: Seq<char>| #[trigger] t.contains(x) <==> es.contains(x),
    decreases es.len(),
{
    if es.len() == 0 {
        let t = Seq::<Seq<char>>::empty();
        assert(strictly_sorted(t) && forall|x: Seq<char>| #[trigger] t.contains(x) <==> es.contains(x));
    } else {
        lemma_sorted_set_exists(es.drop_last());
        let init = es.drop_last();
        let s = choose|t: Seq<Seq<char>>|
            strictly_sorted(t) && forall|x: Seq<char>| #[trigger] t.contains(x) <==> init.contains(x);
        lemma_insert_in_text_order(s, es.last());
        let t = insert_in_text_order(s, es.last());
        assert forall|x: Seq<char>| #[trigger] t.contains(x) <==> es.contains(x) by {
            if es.contains(x) {
                let k = choose|k: int| 0 <= k < es.len() && es[k] == x;
                if k < init.len() {
                    assert(init[k] == x);
                    assert(init.contains(x));
                }
            }
            if init.contains(x) {
                let k = choose|k: int| 0 <= k < init.len() && init[k] == x;
                assert(es[k] == x);
            }
            assert(es[es.len() - 1] == es.last());
        }
        assert(strictly_sorted(t) && forall|x: Seq<char>| #[trigger] t.contains(x) <==> es.contains(x));
    }
}

/// [`sorted_set`]`(s)` is strictly sorted and holds the elements of `s`.
pub proof fn lemma_sorted_set_elements(s: Seq<Seq<char>>)
    ensures
        strictly_sorted(sorted_set(s)),
        same_elements(sorted_set(s), s),
{
    lemma_sorted_set_exists(s);
}

/// A strictly sorted sequence with the elements of `s` is [`sorted_set`]`(s)`.
pub proof fn lemma_sorted_set(r: Seq<Seq<char>>, s: Seq<Seq<char>>)
    requires
        strictly_sorted(r),
        same_elements(r, s),
    ensures
        sorted_set(s) == r,
{
    let t = sorted_set(s);
    assert(strictly_sorted(t) && same_elements(t, s));
    assert(same_elements(t, r));
    lemma_strictly_sorted_unique(t, r);
}

/// The views of a sequence of strings.
pub open spec fn string_views(v: Seq<String>) -> Seq<Seq<char>> {
    v.map_values(|s: String| s@)
}

fn split_double_colon(s: &Vec<char>) -> (out: Vec<Vec<char>>)
    ensures
        views(out@) == split_dc(s@),
{
    let mut out: Vec<Vec<char>> = Vec::new();
    let mut start: usize = 0;
    let mut p: usize = 0;
    while p < s.len()
        invariant
            start <= p <= s.len(),
            find_dc(s@, start as int) == find_dc(s@, p as int),
            views(out@) + split_dc_from(s@, start as int) == split_dc(s@),
        decreases s.len() - p,
    {
        if s.len() - p >= 2 && s[p] == ':' && s[p + 1] == ':' {
            let piece = subvec(s, start, p);
            let ghost before = views(out@);
            out.push(piece);
            assert(views(out@) =~= before.push(piece@));
            assert(views(out@) + split_dc_from(s@, p + 2) =~= before + (seq![piece@]
                + split_dc_from(s@, p + 2)));
            start = p + 2;
            p = p + 2;
        } else {
            p += 1;
        }
    }
    let piece = subvec(s, start, s.len());
    let ghost before = views(out@);
    out.push(piece);
    assert(views(out@) =~= before + seq![piece@]);
    out
}

/// A path segment in canonical form.
fn unraw_chars(t: Vec<char>) -> (r: Vec<char>)
    ensures
        r@ == unraw(t@),
{
    if t.len() >= 2 && t[0] == 'r' && t[1] == '#' {
        let r = subvec(&t, 2, t.len());
        assert(t@.subrange(2, t@.len() as int) =~= t@.skip(2));
        r
    } else {
        t
    }
}

fn trimmed_nonempty_of(ps: &Vec<Vec<char>>) -> (out: Vec<Vec<char>>)
    ensures
        views(out@) == trimmed_nonempty(views(ps@)),
{
    let mut out: Vec<Vec<char>> = Vec::new();
    let mut k: usize = 0;
    while k < ps.len()
        invariant
            k <= ps.len(),
            views(out@) == trimmed_nonempty(views(ps@).take(k as int)),
        decreases ps.len() - k,
    {
        let t = unraw_chars(trim_chars(&ps[k]));
        assert(views(ps@).take(k + 1).drop_last() =~= views(ps@).take(k as int));
        if t.len() > 0 {
            let ghost before = views(out@);
            out.push(t);
            assert(views(out@) =~= before.push(t@));
        }
        k += 1;
    }
    assert(views(ps@).take(ps.len() as int) =~= views(ps@));
    out
}

fn nonempty_of(ps: &Vec<Vec<char>>) -> (out: Vec<Vec<char>>)
    ensures
        views(out@) == nonempty(views(ps@)),
{
    let mut out: Vec<Vec<char>> = Vec::new();
    let mut k: usize = 0;
    while k < ps.len()
        invariant
            k <= ps.len(),
            views(out@) == nonempty(views(ps@).take(k as int)),
        decreases ps.len() - k,
    {
        assert(views(ps@).take(k + 1).drop_last() =~= views(ps@).take(k as int));
        if ps[k].len() > 0 {
            let t = subvec(&ps[k], 0, ps[k].len());
            assert(ps@[k as int]@.subrange(0, ps@[k as int]@.len() as int) =~= ps@[k as int]@);
            let ghost before = views(out@);
            out.push(t);
            assert(views(out@) =~= before.push(t@));
        }
        k += 1;
    }
    assert(views(ps@).take(ps.len() as int) =~= views(ps@));
    out
}

pub(crate) fn join_double_colon(ps: &Vec<Vec<char>>, from: usize) -> (out: Vec<char>)
    requires
        from <= ps.len(),
    ensures
        out@ == join_dc(views(ps@).skip(from as int)),
{
    let ghost segs = views(ps@).skip(from as int);
    let mut out: Vec<char> = Vec::new();
    let mut k: usize = from;
    while k < ps.len()
        invariant
            from <= k <= ps.len(),
            segs == views(ps@).skip(from as int),
            out@ == join_dc(segs.take(k - from)),
        decreases ps.len() - k,
    {
        assert(segs.take(k - from + 1).drop_last() =~= segs.take(k - from));
        assert(segs.take(k - from + 1).last() == ps@[k as int]@);
        if k > from {
            out.push(':');
            out.push(':');
        } else {
            assert(segs.take(1) =~= seq![ps@[k as int]@]);
        }
        extend_chars(&mut out, &ps[k]);
        k += 1;
    }
    assert(segs.take(ps.len() - from) =~= segs);
    out
}

/// The absolute module path named by `path` in module `current`, or `None` for an
/// external path.
pub fn normalize_module_path(path: &Vec<char>, current: &Vec<char>) -> (r: Option<Vec<char>>)
    ensures
        r is Some == normalize(path@, current@) is Some,
        r matches Some(p) ==> normalize(path@, current@) == Some(p@),
{
    let pieces = split_double_colon(path);
    let segs = trimmed_nonempty_of(&pieces);
    let cur_pieces = split_double_colon(current);
    let cur = nonempty_of(&cur_pieces);
    if segs.len() == 0 {
        return None;
    }
    let w_crate = vec!['c', 'r', 'a', 't', 'e'];
    let w_self = vec!['s', 'e', 'l', 'f'];
    let w_super = vec!['s', 'u', 'p', 'e', 'r'];
    assert(w_crate@ =~= word_crate());
    assert(w_self@ =~= word_self());
    assert(w_super@ =~= word_super());
    assert(views(segs@)[0] == segs@[0]@);
    if chars_eq(&segs[0], &w_crate) {
        assert(views(segs@).skip(0) =~= views(segs@));
        Some(join_double_colon(&segs, 0))
    } else if chars_eq(&segs[0], &w_self) {
        let mut all: Vec<Vec<char>> = Vec::new();
        let mut k: usize = 0;
        while k < cur.len()
            invariant
                k <= cur.len(),
                views(all@) == views(cur@).take(k as int),
            decreases cur.len() - k,
        {
            let ghost before = views(all@);
            all.push(subvec(&cur[k], 0, cur[k].len()));
            assert(cur@[k as int]@.subrange(0, cur@[k as int]@.len() as int) =~= cur@[k as int]@);
            assert(views(all@) =~= before.push(cur@[k as int]@));
            assert(views(cur@).take(k + 1) =~= views(cur@).take(k as int).push(cur@[k as int]@));
            k += 1;
        }
        let mut m: usize = 1;
        while m < segs.len()
            invariant
                1 <= m <= segs.len(),
                views(all@) == views(cur@) + views(segs@).subrange(1, m as int),
            decreases segs.len() - m,
        {
            let ghost before = views(all@);
            all.push(subvec(&segs[m], 0, segs[m].len()));
            assert(segs@[m as int]@.subrange(0, segs@[m as int]@.len() as int) =~= segs@[m as int]@);
            assert(views(all@) =~= before.push(segs@[m as int]@));
            assert(views(segs@).subrange(1, m + 1) =~= views(segs@).subrange(1, m as int).push(
                segs@[m as int]@,
            ));
            assert(views(all@) =~= views(cur@) + views(segs@).subrange(1, m + 1));
            m += 1;
        }
        assert(views(segs@).subrange(1, segs.len() as int) =~= views(segs@).drop_first());
        assert(views(all@).skip(0) =~= views(all@));
        Some(join_double_colon(&all, 0))
    } else if chars_eq(&segs[0], &w_super) {
        let mut n: usize = 0;
        while n < segs.len() && chars_eq(&segs[n], &w_super)
            invariant
                n <= segs.len(),
                w_super@ == word_super(),
                forall|q: int| 0 <= q < n ==> views(segs@)[q] == word_super(),
                leading_supers(views(segs@), 0) == n + leading_supers(views(segs@), n as int),
            decreases segs.len() - n,
        {
            assert(views(segs@)[n as int] == segs@[n as int]@);
            n += 1;
        }
        let ghost ns = views(segs@);
        proof {
            if n < segs.len() {
                assert(ns[n as int] == segs@[n as int]@);
            }
        }
        assert(leading_supers(ns, n as int) == 0);
        if n >= cur.len() {
            return None;
        }
        let keep: usize = cur.len() - n;
        let mut all: Vec<Vec<char>> = Vec::new();
        let mut k: usize = 0;
        while k < keep
            invariant
                k <= keep <= cur.len(),
                views(all@) == views(cur@).take(k as int),
            decreases keep - k,
        {
            let ghost before = views(all@);
            all.push(subvec(&cur[k], 0, cur[k].len()));
            assert(cur@[k as int]@.subrange(0, cur@[k as int]@.len() as int) =~= cur@[k as int]@);
            assert(views(all@) =~= before.push(cur@[k as int]@));
            assert(views(cur@).take(k + 1) =~= views(cur@).take(k as int).push(cur@[k as int]@));
            k += 1;
        }
        let mut m: usize = n;
        while m < segs.len()
            invariant
                n <= m <= segs.len(),
                views(all@) == views(cur@).take(keep as int) + views(segs@).subrange(
                    n as int,
                    m as int,
                ),
            decreases segs.len() - m,
        {
            let ghost before = views(all@);
            all.push(subvec(&segs[m], 0, segs[m].len()));
            assert(segs@[m as int]@.subrange(0, segs@[m as int]@.len() as int) =~= segs@[m as int]@);
            assert(views(all@) =~= before.push(segs@[m as int]@));
            assert(views(segs@).subrange(n as int, m + 1) =~= views(segs@).subrange(
                n as int,
                m as int,
            ).push(segs@[m as int]@));
            assert(views(all@) =~= views(cur@).take(keep as int) + views(segs@).subrange(
                n as int,
                m + 1,
            ));
            m += 1;
        }
        assert(views(segs@).subrange(n as int, segs.len() as int) =~= views(segs@).skip(n as int));
        assert(views(all@).skip(0) =~= views(all@));
        Some(join_double_colon(&all, 0))
    } else {
        None
    }
}

/// A leaf of the crate root read against the modules the root declares.
fn rooted_chars(leaf: &Vec<char>, roots: &Vec<Vec<char>>) -> (r: Vec<char>)
    ensures
        r@ == rooted(leaf@, views(roots@)),
{
    let pieces = split_double_colon(leaf);
    assert(views(pieces@).len() > 0);
    assert(views(pieces@)[0] == pieces@[0]@);
    let first = unraw_chars(trim_chars(&pieces[0]));
    let mut found = false;
    let mut k: usize = 0;
    while k < roots.len() && !found
        invariant
            k <= roots.len(),
            found ==> first@.len() > 0 && views(roots@).contains(first@),
            !found ==> forall|j: int| 0 <= j < k ==> first@.len() == 0 || views(roots@)[j] != first@,
        decreases roots.len() - k,
    {
        if first.len() > 0 && chars_eq(&roots[k], &first) {
            assert(views(roots@)[k as int] == first@);
            found = true;
        }
        k += 1;
    }
    proof {
        if !found && first@.len() > 0 {
            assert(!views(roots@).contains(first@));
        }
    }
    if found {
        let mut r = vec!['c', 'r', 'a', 't', 'e', ':', ':'];
        assert(r@ =~= word_crate() + seq![':', ':']);
        extend_chars(&mut r, leaf);
        r
    } else {
        subvec(leaf, 0, leaf.len())
    }
}

/// The path of the module reached from `current` through the inline modules
/// `names`, outermost first.
pub fn inner_module_of(current: &Vec<char>, names: &Vec<Vec<char>>) -> (r: Vec<char>)
    ensures
        r@ == inner_module(current@, views(names@)),
{
    let ghost ns = views(names@);
    let mut module = subvec(current, 0, current.len());
    assert(current@.subrange(0, current@.len() as int) =~= current@);
    let mut m: usize = 0;
    while m < names.len()
        invariant
            m <= names.len(),
            ns == views(names@),
            module@ == inner_module(current@, ns.take(m as int)),
        decreases names.len() - m,
    {
        assert(ns.take(m + 1).drop_last() =~= ns.take(m as int));
        assert(ns.take(m + 1).last() == names@[m as int]@);
        module.push(':');
        module.push(':');
        extend_chars(&mut module, &names[m]);
        m += 1;
    }
    assert(ns.take(names.len() as int) =~= ns);
    module
}

/// Inserts `x` into the strictly sorted `v`, unless it is already there.
pub fn insert_sorted(v: &mut Vec<Vec<char>>, x: Vec<char>)
    requires
        strictly_sorted(views(old(v)@)),
    ensures
        strictly_sorted(views(final(v)@)),
        forall|y: Seq<char>| #[trigger]
            views(final(v)@).contains(y) <==> views(old(v)@).contains(y) || y == x@,
{
    let ghost old_v = views(v@);
    let mut p: usize = 0;
    while p < v.len() && chars_lt(&v[p], &x)
        invariant
            p <= v.len(),
            views(v@) == old_v,
            forall|i: int| 0 <= i < p ==> seq_lt(#[trigger] old_v[i], x@),
        decreases v.len() - p,
    {
        p += 1;
    }
    if p < v.len() && chars_eq(&v[p], &x) {
        assert(old_v[p as int] == x@);
        assert(old_v.contains(x@));
        return;
    }
    proof {
        if p < v.len() {
            lemma_seq_lt_total(old_v[p as int], x@);
        }
    }
    let ghost xv = x@;
    v.insert(p, x);
    let ghost nv = views(v@);
    assert(nv =~= old_v.insert(p as int, xv));
    assert forall|i: int, j: int| 0 <= i < j < nv.len() implies seq_lt(
        #[trigger] nv[i],
        #[trigger] nv[j],
    ) by {
        if j < p {
            assert(nv[i] == old_v[i] && nv[j] == old_v[j]);
        } else if j == p {
            assert(nv[i] == old_v[i]);
        } else if i < p {
            assert(nv[j] == old_v[j - 1]);
            assert(seq_lt(old_v[i], xv));
            if j - 1 > p as int {
                assert(seq_lt(old_v[p as int], old_v[j - 1]));
                lemma_seq_lt_transitive(xv, old_v[p as int], old_v[j - 1]);
            }
            lemma_seq_lt_transitive(old_v[i], xv, old_v[j - 1]);
        } else if i == p {
            assert(nv[j] == old_v[j - 1]);
            if j - 1 > p as int {
                assert(seq_lt(old_v[p as int], old_v[j - 1]));
                lemma_seq_lt_transitive(xv, old_v[p as int], old_v[j - 1]);
            }
        } else {
            assert(nv[i] == old_v[i - 1] && nv[j] == old_v[j - 1]);
        }
    }
    assert forall|y: Seq<char>| #[trigger] nv.contains(y) <==> old_v.contains(y) || y == xv by {
        if nv.contains(y) {
            let k = choose|k: int| 0 <= k < nv.len() && nv[k] == y;
            if k < p {
                assert(old_v[k] == y);
            } else if k > p {
                assert(old_v[k - 1] == y);
            }
        }
        if old_v.contains(y) {
            let k = choose|k: int| 0 <= k < old_v.len() && old_v[k] == y;
            if k < p {
                assert(nv[k] == y);
            } else {
                assert(nv[k + 1] == y);
            }
        }
        if y == xv {
            assert(nv[p as int] == y);
        }
    }
}

/// Every internal module path that `source` imports through `use` declarations,
/// resolved to an absolute `crate::…` path against `current_module` (the module the
/// source file defines). Comments and literals are removed first; grouped and glob
/// forms are expanded; paths whose first segment is an external crate are left out.
/// The result is sorted and free of repetitions.
pub fn imported_module_paths(source: &str, current_module: &str) -> (out: Vec<String>)
    requires
        source@.len() + 3 <= usize::MAX,
    ensures
        string_views(out@) == sorted_set(import_list(source@, current_module@)),
        strictly_sorted(string_views(out@)),
        forall|p: Seq<char>| #[trigger]
            string_views(out@).contains(p) <==> import_list(source@, current_module@).contains(p),
{
    let src = chars_of(source);
    let current = chars_of(current_module);
    let cleaned = strip_comments_and_strings(&src);
    let sites = use_sites_of(&cleaned);
    let w_crate = vec!['c', 'r', 'a', 't', 'e'];
    assert(w_crate@ =~= word_crate());
    let roots: Vec<Vec<char>> = if chars_eq(&current, &w_crate) {
        top_mods_of(&cleaned)
    } else {
        Vec::new()
    };
    let ghost rs = views(roots@);
    assert(rs =~= root_mods(stripped(source@), current_module@));
    let ghost all_sites = site_views(sites@);
    let mut found: Vec<Vec<char>> = Vec::new();
    let mut t: usize = 0;
    while t < sites.len()
        invariant
            t <= sites.len(),
            all_sites == site_views(sites@),
            all_sites == use_sites(stripped(source@)),
            current@ == current_module@,
            rs == views(roots@),
            strictly_sorted(views(found@)),
            forall|p: Seq<char>| #[trigger]
                views(found@).contains(p) <==> site_imports(all_sites.take(t as int), current@, rs).contains(p),
        decreases sites.len() - t,
    {
        let site = &sites[t];
        let ghost sv = all_sites[t as int];
        assert(sv == (site.0@, views(site.1@)));
        let mut module = subvec(&current, 0, current.len());
        assert(current@.subrange(0, current@.len() as int) =~= current@);
        let mut m: usize = 0;
        while m < site.1.len()
            invariant
                m <= site.1.len(),
                sv == (site.0@, views(site.1@)),
                module@ == inner_module(current@, sv.1.take(m as int)),
            decreases site.1.len() - m,
        {
            assert(sv.1.take(m + 1).drop_last() =~= sv.1.take(m as int));
            assert(sv.1.take(m + 1).last() == site.1@[m as int]@);
            module.push(':');
            module.push(':');
            crate::text::extend_chars(&mut module, &site.1[m]);
            m += 1;
        }
        assert(sv.1.take(site.1.len() as int) =~= sv.1);
        let at_root = site.1.len() == 0;
        let tree_leaves = expand_use_tree(&site.0);
        let ghost tv = views(tree_leaves@);
        let mut leaves: Vec<Vec<char>> = Vec::new();
        let mut q: usize = 0;
        while q < tree_leaves.len()
            invariant
                q <= tree_leaves.len(),
                tv == views(tree_leaves@),
                rs == views(roots@),
                at_root == (sv.1.len() == 0),
                views(leaves@) == if at_root {
                    tv.take(q as int).map_values(|l: Seq<char>| rooted(l, rs))
                } else {
                    tv.take(q as int)
                },
            decreases tree_leaves.len() - q,
        {
            let ghost before = views(leaves@);
            let leaf = if at_root {
                rooted_chars(&tree_leaves[q], &roots)
            } else {
                subvec(&tree_leaves[q], 0, tree_leaves[q].len())
            };
            let ghost lw = leaf@;
            leaves.push(leaf);
            assert(views(leaves@) =~= before.push(lw));
            assert(tv.take(q + 1) =~= tv.take(q as int).push(tv[q as int]));
            assert(tv.take(q + 1).map_values(|l: Seq<char>| rooted(l, rs)) =~= tv.take(
                q as int,
            ).map_values(|l: Seq<char>| rooted(l, rs)).push(rooted(tv[q as int], rs)));
            assert(tree_leaves@[q as int]@.subrange(0, tree_leaves@[q as int]@.len() as int)
                =~= tree_leaves@[q as int]@);
            q += 1;
        }
        assert(tv.take(tree_leaves.len() as int) =~= tv);
        let ghost lv = views(leaves@);
        assert(lv == site_leaves(sv, rs));
        let ghost base = site_imports(all_sites.take(t as int), current@, rs);
        assert(all_sites.take(t + 1).drop_last() =~= all_sites.take(t as int));
        assert(all_sites.take(t + 1).last() == sv);
        let mut l: usize = 0;
        while l < leaves.len()
            invariant
                l <= leaves.len(),
                lv == views(leaves@),
                lv == site_leaves(sv, rs),
                module@ == inner_module(current@, sv.1),
                strictly_sorted(views(found@)),
                forall|p: Seq<char>| #[trigger]
                    views(found@).contains(p) <==> (base + normalize_all(lv.take(l as int), module@)).contains(p),
            decreases leaves.len() - l,
        {
            assert(lv.take(l + 1).drop_last() =~= lv.take(l as int));
            assert(lv.take(l + 1).last() == leaves@[l as int]@);
            let ghost prevn = normalize_all(lv.take(l as int), module@);
            match normalize_module_path(&leaves[l], &module) {
                Some(p) => {
                    let ghost pv = p@;
                    insert_sorted(&mut found, p);
                    assert(base + prevn.push(pv) =~= (base + prevn).push(pv));
                    assert forall|q: Seq<char>| #[trigger]
                        views(found@).contains(q) <==> (base + normalize_all(lv.take(l + 1), module@)).contains(q) by {
                        assert((base + prevn).push(pv).contains(q) <==> (base + prevn).contains(q) || q == pv) by {
                            let s = (base + prevn).push(pv);
                            if s.contains(q) {
                                let k = choose|k: int| 0 <= k < s.len() && s[k] == q;
                                if k < s.len() - 1 {
                                    assert((base + prevn)[k] == q);
                                }
                            }
                            if (base + prevn).contains(q) {
                                let k = choose|k: int| 0 <= k < (base + prevn).len() && (base + prevn)[k] == q;
                                assert(s[k] == q);
                            }
                            if q == pv {
                                assert(s[s.len() - 1] == q);
                            }
                        }
                    }
                },
                None => {
                },
            }
            l += 1;
        }
        assert(lv.take(leaves.len() as int) =~= lv);
        t += 1;
    }
    assert(all_sites.take(sites.len() as int) =~= all_sites);
    let mut out: Vec<String> = Vec::new();
    let mut k: usize = 0;
    while k < found.len()
        invariant
            k <= found.len(),
            string_views(out@) == views(found@).take(k as int),
        decreases found.len() - k,
    {
        let s = string_of(&found[k]);
        let ghost before = string_views(out@);
        out.push(s);
        assert(string_views(out@) =~= before.push(found@[k as int]@));
        assert(views(found@).take(k + 1) =~= views(found@).take(k as int).push(found@[k as int]@));
        k += 1;
    }
    assert(views(found@).take(found.len() as int) =~= views(found@));
    proof {
        lemma_sorted_set(string_views(out@), import_list(source@, current_module@));
    }
    out
}

} // verus!
