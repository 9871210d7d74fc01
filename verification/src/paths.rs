//! Expansion of `use` trees into leaf paths: a group distributes its prefix over
//! its members, `self` in a group names the prefix module, and a glob or an alias
//! is dropped from the leaf.
use vstd::prelude::*;
use crate::strip::{find_char, lemma_find_char, views};
use crate::text::{chars_eq, extend_chars, is_ws, subvec, trim, trim_chars, ws_back, ws_end};

verus! {

/// The characters inside the first `{ … }` of `s`, which starts with `{`; nested
/// braces are kept, the outermost pair is dropped, and text after the matching
/// close is ignored (from index `i`, with `depth` braces open).
pub open spec fn brace_from(s: Seq<char>, i: int, depth: int) -> Seq<char>
    decreases s.len() - i,
{
    if i < 0 || i >= s.len() {
        Seq::empty()
    } else if s[i] == '{' {
        if depth + 1 == 1 {
            brace_from(s, i + 1, depth + 1)
        } else {
            seq!['{'] + brace_from(s, i + 1, depth + 1)
        }
    } else if s[i] == '}' {
        if depth - 1 == 0 {
            Seq::empty()
        } else {
            seq!['}'] + brace_from(s, i + 1, depth - 1)
        }
    } else {
        seq![s[i]] + brace_from(s, i + 1, depth)
    }
}

/// The brace depth after the first `k` characters of `x`: each `{` opens a
/// level and each `}` closes one.
pub open spec fn depth_in(x: Seq<char>, k: int) -> int
    decreases k,
{
    if k <= 0 {
        0
    } else {
        depth_in(x, k - 1) + if x[k - 1] == '{' {
            1int
        } else if x[k - 1] == '}' {
            -1int
        } else {
            0int
        }
    }
}

/// Whether the braces of `x` are balanced: no prefix closes more than it
/// opened, and the whole closes all it opened.
pub open spec fn balanced(x: Seq<char>) -> bool {
    &&& depth_in(x, x.len() as int) == 0
    &&& forall|k: int| 0 <= k <= x.len() ==> #[trigger] depth_in(x, k) >= 0
}

/// A group's content runs to the `}` that matches its opening `{`, whatever
/// balanced groups it nests and whatever follows the match: the content of
/// `{x}r` is `x` when the braces of `x` are balanced.
pub proof fn a_group_runs_to_its_matching_brace(x: Seq<char>, r: Seq<char>)
    requires
        balanced(x),
    ensures
        brace_from(seq!['{'] + x + seq!['}'] + r, 0, 0) == x,
{
    let s = seq!['{'] + x + seq!['}'] + r;
    assert(s[0] == '{');
    lemma_brace_runs_to_match(x, r, 0);
    assert(x.skip(0) =~= x);
}

/// From the `k`-th character of a balanced `x` inside `{x}r`, the content read
/// is the rest of `x`.
proof fn lemma_brace_runs_to_match(x: Seq<char>, r: Seq<char>, k: int)
    requires
        balanced(x),
        0 <= k <= x.len(),
    ensures
        brace_from(seq!['{'] + x + seq!['}'] + r, 1 + k, 1 + depth_in(x, k)) == x.skip(k),
    decreases x.len() - k,
{
    let s = seq!['{'] + x + seq!['}'] + r;
    let d = depth_in(x, k);
    assert(d >= 0);
    if k == x.len() {
        assert(s[1 + k] == '}');
        assert(x.skip(k) =~= Seq::<char>::empty());
    } else {
        assert(s[1 + k] == x[k]);
        lemma_brace_runs_to_match(x, r, k + 1);
        assert(depth_in(x, k + 1) >= 0);
        assert(x.skip(k) =~= seq![x[k]] + x.skip(k + 1));
    }
}

/// The pieces of `s` between commas at brace depth zero (from index `i`, with
/// `depth` braces open and `cur` collected so far); a trailing piece that is only
/// whitespace is dropped.
pub open spec fn split_from(s: Seq<char>, i: int, depth: int, cur: Seq<char>) -> Seq<Seq<char>>
    decreases s.len() - i,
{
    if i < 0 || i >= s.len() {
        if trim(cur).len() > 0 {
            seq![cur]
        } else {
            Seq::empty()
        }
    } else if s[i] == '{' {
        split_from(s, i + 1, depth + 1, cur.push('{'))
    } else if s[i] == '}' {
        split_from(s, i + 1, depth - 1, cur.push('}'))
    } else if s[i] == ',' && depth == 0 {
        seq![cur] + split_from(s, i + 1, depth, Seq::empty())
    } else {
        split_from(s, i + 1, depth, cur.push(s[i]))
    }
}

/// Whether every comma of `x` stands inside a brace group.
pub open spec fn commas_nested(x: Seq<char>) -> bool {
    forall|k: int| 0 <= k < x.len() && x[k] == ',' ==> #[trigger] depth_in(x, k) > 0
}

/// A group's members are its pieces between the commas outside nested braces: a
/// first member `a` that closes every brace it opens and has no comma outside
/// them is taken whole, the members after its comma are those of the rest, and
/// alone it is the only member (none when it is only whitespace).
pub proof fn a_group_splits_at_its_top_level_commas(a: Seq<char>, b: Seq<char>)
    requires
        balanced(a),
        commas_nested(a),
    ensures
        split_from(a + seq![','] + b, 0, 0, Seq::empty()) == seq![a] + split_from(
            b,
            0,
            0,
            Seq::empty(),
        ),
        split_from(a, 0, 0, Seq::empty()) == if trim(a).len() > 0 {
            seq![a]
        } else {
            Seq::<Seq<char>>::empty()
        },
{
    let s = a + seq![','] + b;
    lemma_split_member(a, seq![','] + b, 0);
    assert(s =~= a + (seq![','] + b));
    assert(a.take(0) =~= Seq::<char>::empty());
    assert(a.take(a.len() as int) =~= a);
    assert(s[a.len() as int] == ',');
    lemma_split_shift(a + seq![','], b, 0, 0, Seq::empty());
    assert(a + seq![','] + b =~= s);
    lemma_split_member(a, Seq::empty(), 0);
    assert(a + Seq::<char>::empty() =~= a);
}

/// Inside a member `a` of `a + r` with no comma outside its braces, the scan
/// collects the characters of `a` at the depth they leave open.
proof fn lemma_split_member(a: Seq<char>, r: Seq<char>, k: int)
    requires
        commas_nested(a),
        0 <= k <= a.len(),
    ensures
        split_from(a + r, k, depth_in(a, k), a.take(k)) == split_from(
            a + r,
            a.len() as int,
            depth_in(a, a.len() as int),
            a.take(a.len() as int),
        ),
    decreases a.len() - k,
{
    if k < a.len() {
        let s = a + r;
        assert(s[k] == a[k]);
        assert(a.take(k).push(a[k]) =~= a.take(k + 1));
        if a[k] == ',' {
            assert(depth_in(a, k) > 0);
        }
        lemma_split_member(a, r, k + 1);
    }
}

/// The pieces read from inside `t` in `u + t` are those read in `t`.
proof fn lemma_split_shift(u: Seq<char>, t: Seq<char>, j: int, depth: int, cur: Seq<char>)
    requires
        0 <= j,
    ensures
        split_from(u + t, u.len() + j, depth, cur) == split_from(t, j, depth, cur),
    decreases t.len() - j,
{
    if j < t.len() {
        let s = u + t;
        assert(s[u.len() + j] == t[j]);
        if t[j] == '{' {
            lemma_split_shift(u, t, j + 1, depth + 1, cur.push('{'));
        } else if t[j] == '}' {
            lemma_split_shift(u, t, j + 1, depth - 1, cur.push('}'));
        } else if t[j] == ',' && depth == 0 {
            lemma_split_shift(u, t, j + 1, depth, Seq::empty());
        } else {
            lemma_split_shift(u, t, j + 1, depth, cur.push(t[j]));
        }
    }
}

pub open spec fn word_self() -> Seq<char> {
    seq!['s', 'e', 'l', 'f']
}

pub open spec fn word_super() -> Seq<char> {
    seq!['s', 'u', 'p', 'e', 'r']
}

pub open spec fn word_crate() -> Seq<char> {
    seq!['c', 'r', 'a', 't', 'e']
}

/// Index just past the last character before `j` that is not `:`.
pub open spec fn colon_back(s: Seq<char>, j: int) -> int
    decreases j,
{
    if 0 < j <= s.len() && s[j - 1] == ':' {
        colon_back(s, j - 1)
    } else {
        j
    }
}

/// `s` without trailing `:` characters (`trim_end_matches(':')`).
pub open spec fn trim_colons(s: Seq<char>) -> Seq<char> {
    s.subrange(0, colon_back(s, s.len() as int))
}

/// Whether ` as ` occurs at index `k`.
pub open spec fn as_at(s: Seq<char>, k: int) -> bool {
    0 <= k && k + 4 <= s.len() && s[k] == ' ' && s[k + 1] == 'a' && s[k + 2] == 's' && s[k + 3]
        == ' '
}

/// The first index at or after `p` where ` as ` occurs.
pub open spec fn find_as(s: Seq<char>, p: int) -> Option<int>
    decreases s.len() - p,
{
    if p < 0 || p >= s.len() {
        None
    } else if as_at(s, p) {
        Some(p)
    } else {
        find_as(s, p + 1)
    }
}

/// Whether `s` ends with `::*`.
pub open spec fn ends_with_glob(s: Seq<char>) -> bool {
    s.len() >= 3 && s[s.len() - 3] == ':' && s[s.len() - 2] == ':' && s[s.len() - 1] == '*'
}

/// The leaf path of a brace-free use tree: ` as alias` and a trailing `::*` are
/// dropped, then trailing `:`.
pub open spec fn leaf(t: Seq<char>) -> Seq<Seq<char>> {
    let base = match find_as(t, 0) {
        Some(k) => t.subrange(0, k),
        None => t,
    };
    let b = trim(base);
    let c = if ends_with_glob(b) {
        b.subrange(0, b.len() - 3)
    } else {
        b
    };
    let d = trim_colons(c);
    if d.len() == 0 {
        Seq::empty()
    } else {
        seq![d]
    }
}

/// The leaf paths of a use tree: `a::{b, c::d}` gives `a::b` and `a::c::d`;
/// `{self}` gives the prefix module.
pub open spec fn expand(tree: Seq<char>) -> Seq<Seq<char>>
    decreases 2 * tree.len() + 1, 0int,
{
    let t = trim(tree);
    match find_char(t, 0, '{') {
        Some(open) => {
            let prefix = trim(t.subrange(0, open));
            let inner = brace_from(t.subrange(open, t.len() as int), 0, 0);
            expand_parts(prefix, split_from(inner, 0, 0, Seq::empty()), tree.len())
        },
        None => leaf(t),
    }
}

/// The leaf paths of the group members `parts` under `prefix`. Every member is
/// shorter than the tree it came from, whose length is `limit`.
pub open spec fn expand_parts(prefix: Seq<char>, parts: Seq<Seq<char>>, limit: nat) -> Seq<
    Seq<char>,
>
    decreases 2 * limit, parts.len(),
{
    if parts.len() == 0 {
        Seq::empty()
    } else {
        let part = trim(parts[0]);
        let here = if part.len() == 0 {
            Seq::empty()
        } else if part == word_self() {
            let m = trim(trim_colons(prefix));
            if m.len() > 0 {
                seq![m]
            } else {
                Seq::empty()
            }
        } else if prefix.len() + part.len() < limit {
            expand(prefix + part)
        } else {
            Seq::empty()
        };
        here + expand_parts(prefix, parts.drop_first(), limit)
    }
}

proof fn lemma_trim_len(s: Seq<char>)
    ensures
        trim(s).len() <= s.len(),
{
    lemma_ws(s);
}

proof fn lemma_ws(s: Seq<char>)
    ensures
        0 <= ws_end(s, 0) <= s.len(),
        0 <= ws_back(s, s.len() as int) <= s.len(),
{
    lemma_ws_end_from(s, 0);
    lemma_ws_back_from(s, s.len() as int);
}

proof fn lemma_ws_end_from(s: Seq<char>, i: int)
    requires
        0 <= i <= s.len(),
    ensures
        i <= ws_end(s, i) <= s.len(),
    decreases s.len() - i,
{
    if i < s.len() && is_ws(s[i]) {
        lemma_ws_end_from(s, i + 1);
    }
}

proof fn lemma_ws_back_from(s: Seq<char>, j: int)
    requires
        0 <= j <= s.len(),
    ensures
        0 <= ws_back(s, j) <= j,
    decreases j,
{
    if 0 < j && is_ws(s[j - 1]) {
        lemma_ws_back_from(s, j - 1);
    }
}

proof fn lemma_colon_back(s: Seq<char>, j: int)
    requires
        0 <= j <= s.len(),
    ensures
        0 <= colon_back(s, j) <= j,
    decreases j,
{
    if 0 < j && s[j - 1] == ':' {
        lemma_colon_back(s, j - 1);
    }
}

proof fn lemma_brace_len(s: Seq<char>, i: int, depth: int)
    requires
        0 <= i <= s.len(),
    ensures
        brace_from(s, i, depth).len() <= s.len() - i,
    decreases s.len() - i,
{
    if i < s.len() {
        if s[i] == '{' {
            lemma_brace_len(s, i + 1, depth + 1);
        } else if s[i] == '}' {
            if depth - 1 != 0 {
                lemma_brace_len(s, i + 1, depth - 1);
            }
        } else {
            lemma_brace_len(s, i + 1, depth);
        }
    }
}

proof fn lemma_split_len(s: Seq<char>, i: int, depth: int, cur: Seq<char>)
    requires
        0 <= i <= s.len(),
    ensures
        forall|k: int|
            0 <= k < split_from(s, i, depth, cur).len() ==> #[trigger] split_from(
                s,
                i,
                depth,
                cur,
            )[k].len() <= cur.len() + s.len() - i,
    decreases s.len() - i,
{
    if i < s.len() {
        if s[i] == '{' {
            lemma_split_len(s, i + 1, depth + 1, cur.push('{'));
            assert(split_from(s, i, depth, cur) == split_from(s, i + 1, depth + 1, cur.push('{')));
        } else if s[i] == '}' {
            lemma_split_len(s, i + 1, depth - 1, cur.push('}'));
            assert(split_from(s, i, depth, cur) == split_from(s, i + 1, depth - 1, cur.push('}')));
        } else if s[i] == ',' && depth == 0 {
            lemma_split_len(s, i + 1, depth, Seq::empty());
            let rest = split_from(s, i + 1, depth, Seq::empty());
            assert forall|k: int| 0 <= k < split_from(s, i, depth, cur).len() implies #[trigger] split_from(
                s,
                i,
                depth,
                cur,
            )[k].len() <= cur.len() + s.len() - i by {
                if k > 0 {
                    assert(split_from(s, i, depth, cur)[k] == rest[k - 1]);
                }
            }
        } else {
            lemma_split_len(s, i + 1, depth, cur.push(s[i]));
            assert(split_from(s, i, depth, cur) == split_from(s, i + 1, depth, cur.push(s[i])));
        }
    }
}

/// Every member of a group is shorter than the tree it was taken from.
proof fn lemma_member_shorter(tree: Seq<char>, open: int, k: int)
    requires
        find_char(trim(tree), 0, '{') == Some(open),
        0 <= k < split_from(
            brace_from(trim(tree).subrange(open, trim(tree).len() as int), 0, 0),
            0,
            0,
            Seq::empty(),
        ).len(),
    ensures
        trim(trim(tree).subrange(0, open)).len() + trim(
            split_from(
                brace_from(trim(tree).subrange(open, trim(tree).len() as int), 0, 0),
                0,
                0,
                Seq::empty(),
            )[k],
        ).len() < tree.len(),
{
    let t = trim(tree);
    lemma_trim_len(tree);
    lemma_find_char(t, 0, '{');
    let rest = t.subrange(open, t.len() as int);
    assert(rest[0] == '{');
    lemma_brace_len(rest, 1, 1);
    assert(brace_from(rest, 0, 0) == brace_from(rest, 1, 1));
    let inner = brace_from(rest, 0, 0);
    lemma_split_len(inner, 0, 0, Seq::empty());
    let part = split_from(inner, 0, 0, Seq::empty())[k];
    lemma_trim_len(part);
    lemma_trim_len(t.subrange(0, open));
}

fn brace_content(s: &Vec<char>) -> (out: Vec<char>)
    ensures
        out@ == brace_from(s@, 0, 0),
{
    let mut out: Vec<char> = Vec::new();
    let mut depth: i128 = 0;
    let mut i: usize = 0;
    while i < s.len()
        invariant
            i <= s.len(),
            s.len() <= usize::MAX,
            -(i as int) <= depth <= i,
            out@ + brace_from(s@, i as int, depth as int) == brace_from(s@, 0, 0),
        decreases s.len() - i,
    {
        let c = s[i];
        let ghost prev = out@;
        if c == '{' {
            depth += 1;
            if depth != 1 {
                out.push(c);
                assert(out@ + brace_from(s@, i + 1, depth as int) =~= prev + (seq!['{']
                    + brace_from(s@, i + 1, depth as int)));
            }
        } else if c == '}' {
            depth -= 1;
            if depth == 0 {
                assert(prev + brace_from(s@, i as int, depth + 1) =~= prev);
                return out;
            }
            out.push(c);
            assert(out@ + brace_from(s@, i + 1, depth as int) =~= prev + (seq!['}']
                + brace_from(s@, i + 1, depth as int)));
        } else {
            out.push(c);
            assert(out@ + brace_from(s@, i + 1, depth as int) =~= prev + (seq![c] + brace_from(
                s@,
                i + 1,
                depth as int,
            )));
        }
        i += 1;
    }
    assert(out@ + brace_from(s@, i as int, depth as int) =~= out@);
    out
}

fn split_top_commas(s: &Vec<char>) -> (parts: Vec<Vec<char>>)
    ensures
        views(parts@) == split_from(s@, 0, 0, Seq::empty()),
{
    let mut parts: Vec<Vec<char>> = Vec::new();
    let mut current: Vec<char> = Vec::new();
    let mut depth: i128 = 0;
    let mut i: usize = 0;
    while i < s.len()
        invariant
            i <= s.len(),
            -(i as int) <= depth <= i,
            views(parts@) + split_from(s@, i as int, depth as int, current@) == split_from(
                s@,
                0,
                0,
                Seq::empty(),
            ),
        decreases s.len() - i,
    {
        let c = s[i];
        if c == '{' {
            depth += 1;
            current.push(c);
        } else if c == '}' {
            depth -= 1;
            current.push(c);
        } else if c == ',' && depth == 0 {
            let ghost before = views(parts@);
            let ghost cur = current@;
            parts.push(current);
            current = Vec::new();
            assert(views(parts@) =~= before.push(cur));
            assert(views(parts@) + split_from(s@, i + 1, depth as int, current@) =~= before + (
            seq![cur] + split_from(s@, i + 1, depth as int, Seq::empty())));
        } else {
            current.push(c);
        }
        i += 1;
    }
    let t = trim_chars(&current);
    if t.len() > 0 {
        let ghost before = views(parts@);
        let ghost cur = current@;
        parts.push(current);
        assert(views(parts@) =~= before + seq![cur]);
    } else {
        assert(views(parts@) + split_from(s@, i as int, depth as int, current@) =~= views(
            parts@,
        ));
    }
    parts
}

fn trim_colons_of(s: &Vec<char>) -> (out: Vec<char>)
    ensures
        out@ == trim_colons(s@),
{
    let mut j = s.len();
    while j > 0 && s[j - 1] == ':'
        invariant
            j <= s.len(),
            colon_back(s@, j as int) == colon_back(s@, s.len() as int),
        decreases j,
    {
        j -= 1;
    }
    subvec(s, 0, j)
}

fn find_as_at(s: &Vec<char>) -> (r: Option<usize>)
    ensures
        r is Some == find_as(s@, 0) is Some,
        r matches Some(k) ==> find_as(s@, 0) == Some(k as int) && k <= s.len(),
{
    let mut p: usize = 0;
    while p < s.len()
        invariant
            p <= s.len(),
            find_as(s@, p as int) == find_as(s@, 0),
        decreases s.len() - p,
    {
        if s.len() - p >= 4 && s[p] == ' ' && s[p + 1] == 'a' && s[p + 2] == 's' && s[p + 3]
            == ' ' {
            return Some(p);
        }
        p += 1;
    }
    None
}

fn leaf_of(t: &Vec<char>) -> (out: Vec<Vec<char>>)
    ensures
        views(out@) == leaf(t@),
{
    let base = match find_as_at(t) {
        Some(k) => subvec(t, 0, k),
        None => subvec(t, 0, t.len()),
    };
    assert(t@.subrange(0, t@.len() as int) =~= t@);
    let b = trim_chars(&base);
    let n = b.len();
    let c = if n >= 3 && b[n - 3] == ':' && b[n - 2] == ':' && b[n - 1] == '*' {
        subvec(&b, 0, n - 3)
    } else {
        b
    };
    let d = trim_colons_of(&c);
    let mut out: Vec<Vec<char>> = Vec::new();
    if d.len() > 0 {
        out.push(d);
        assert(views(out@) =~= seq![d@]);
    } else {
        assert(views(out@) =~= Seq::<Seq<char>>::empty());
    }
    out
}

fn find_char_vec(s: &Vec<char>, c: char) -> (r: Option<usize>)
    ensures
        r is Some == find_char(s@, 0, c) is Some,
        r matches Some(p) ==> find_char(s@, 0, c) == Some(p as int) && p < s.len(),
{
    let mut p: usize = 0;
    while p < s.len()
        invariant
            p <= s.len(),
            find_char(s@, p as int, c) == find_char(s@, 0, c),
        decreases s.len() - p,
    {
        if s[p] == c {
            return Some(p);
        }
        p += 1;
    }
    None
}

fn self_word() -> (w: Vec<char>)
    ensures
        w@ == word_self(),
{
    let mut w = Vec::new();
    w.push('s');
    w.push('e');
    w.push('l');
    w.push('f');
    assert(w@ =~= word_self());
    w
}

/// The leaf paths of the use tree `tree`.
pub fn expand_use_tree(tree: &Vec<char>) -> (out: Vec<Vec<char>>)
    ensures
        views(out@) == expand(tree@),
    decreases tree.len(),
{
    let t = trim_chars(tree);
    match find_char_vec(&t, '{') {
        None => leaf_of(&t),
        Some(open) => {
            let head = subvec(&t, 0, open);
            let prefix = trim_chars(&head);
            let rest = subvec(&t, open, t.len());
            let inner = brace_content(&rest);
            let parts = split_top_commas(&inner);
            let ghost limit = tree@.len();
            let ghost all = views(parts@);
            let mut out: Vec<Vec<char>> = Vec::new();
            let mut k: usize = 0;
            assert(all.skip(0) =~= all);
            while k < parts.len()
                invariant
                    k <= parts.len(),
                    t@ == trim(tree@),
                    find_char(t@, 0, '{') == Some(open as int),
                    prefix@ == trim(t@.subrange(0, open as int)),
                    all == views(parts@),
                    all == split_from(
                        brace_from(t@.subrange(open as int, t@.len() as int), 0, 0),
                        0,
                        0,
                        Seq::empty(),
                    ),
                    limit == tree@.len(),
                    views(out@) + expand_parts(prefix@, all.skip(k as int), limit) == expand_parts(
                        prefix@,
                        all,
                        limit,
                    ),
                decreases parts.len() - k,
            {
                let part = trim_chars(&parts[k]);
                let ghost rest_parts = all.skip(k as int);
                assert(rest_parts[0] == parts@[k as int]@);
                assert(rest_parts.drop_first() =~= all.skip(k + 1));
                let ghost before = views(out@);
                if part.len() == 0 {
                } else if chars_eq(&part, &self_word()) {
                    let m0 = trim_colons_of(&prefix);
                    let m = trim_chars(&m0);
                    if m.len() > 0 {
                        out.push(m);
                        assert(views(out@) =~= before + seq![m@]);
                    }
                } else {
                    proof {
                        lemma_member_shorter(tree@, open as int, k as int);
                    }
                    let mut joined = subvec(&prefix, 0, prefix.len());
                    assert(prefix@.subrange(0, prefix@.len() as int) =~= prefix@);
                    extend_chars(&mut joined, &part);
                    let sub = expand_use_tree(&joined);
                    let mut j: usize = 0;
                    while j < sub.len()
                        invariant
                            j <= sub.len(),
                            views(out@) == before + views(sub@).take(j as int),
                        decreases sub.len() - j,
                    {
                        let ghost prev = views(out@);
                        out.push(subvec(&sub[j], 0, sub[j].len()));
                        assert(sub@[j as int]@.subrange(0, sub@[j as int]@.len() as int)
                            =~= sub@[j as int]@);
                        assert(views(out@) =~= prev.push(sub@[j as int]@));
                        assert(views(sub@).take(j + 1) =~= views(sub@).take(j as int).push(
                            sub@[j as int]@,
                        ));
                        assert(views(out@) =~= before + views(sub@).take(j + 1));
                        j += 1;
                    }
                    assert(views(sub@).take(sub.len() as int) =~= views(sub@));
                }
                assert(views(out@) + expand_parts(prefix@, all.skip(k + 1), limit) =~= before
                    + expand_parts(prefix@, all.skip(k as int), limit));
                k += 1;
            }
            assert(all.skip(k as int) =~= Seq::<Seq<char>>::empty());
            assert(views(out@) =~= views(out@) + Seq::<Seq<char>>::empty());
            out
        },
    }
}

} // verus!
