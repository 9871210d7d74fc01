//! Where the `use` declarations of a source stripped of comments and literals
//! stand, and in which inline modules. The body of a macro definition or
//! invocation is skipped (what a macro generates is out of scope), and each
//! `mod name { … }` block is tracked, so that a `use` inside it is attributed to
//! that submodule.
use vstd::prelude::*;
use crate::strip::{find_char, is_use_at, lemma_find_char, views};
use crate::paths::depth_in;
use crate::text::{
    ascii_identifier_characters, is_ident, is_ident_char, is_whitespace, is_ws, subvec, trim,
    trim_chars, ws_end,
};

verus! {

/// An opening delimiter of a token group.
pub open spec fn is_open(c: char) -> bool {
    c == '(' || c == '[' || c == '{'
}

/// A closing delimiter of a token group.
pub open spec fn is_close(c: char) -> bool {
    c == ')' || c == ']' || c == '}'
}

/// Index just past the run of identifier characters starting at `i`.
pub open spec fn ident_end(s: Seq<char>, i: int) -> int
    decreases s.len() - i,
{
    if 0 <= i < s.len() && is_ident_char(s[i]) {
        ident_end(s, i + 1)
    } else {
        i
    }
}

/// Index just past the delimiter that closes a group whose body starts at `i`
/// with `depth` groups open; the end of the input when it is never closed.
pub open spec fn group_end(s: Seq<char>, i: int, depth: nat) -> int
    decreases s.len() - i,
{
    if depth == 0 || i < 0 || i >= s.len() {
        i
    } else if is_open(s[i]) {
        group_end(s, i + 1, depth + 1)
    } else if is_close(s[i]) {
        group_end(s, i + 1, (depth - 1) as nat)
    } else {
        group_end(s, i + 1, depth)
    }
}

/// When the `!` of a macro (`name!(…)`, `name![…]`, `name!{…}`, or
/// `macro_rules! name { … }`) stands at `i`, the index just past its body.
pub open spec fn macro_end(s: Seq<char>, i: int) -> Option<int> {
    if 0 < i < s.len() && s[i] == '!' && is_ident_char(s[i - 1]) {
        let b = ws_end(s, ident_end(s, ws_end(s, i + 1)));
        if 0 <= b < s.len() && is_open(s[b]) {
            Some(group_end(s, b + 1, 1))
        } else {
            None
        }
    } else {
        None
    }
}

/// Whether a standalone `mod` keyword begins at `p`.
pub open spec fn is_mod_at(s: Seq<char>, p: int) -> bool {
    &&& 0 <= p
    &&& p + 3 <= s.len()
    &&& s[p] == 'm'
    &&& s[p + 1] == 'o'
    &&& s[p + 2] == 'd'
    &&& (p == 0 || !is_ident_char(s[p - 1]))
    &&& (p + 3 >= s.len() || !is_ident_char(s[p + 3]))
}

/// When an inline module `mod name {` begins at `i`, its name (a raw identifier
/// `r#name` read as `name`) and the index just past its opening brace.
pub open spec fn mod_header(s: Seq<char>, i: int) -> Option<(Seq<char>, int)> {
    if is_mod_at(s, i) {
        let a = decl_name_start(s, i);
        let e = ident_end(s, a);
        let b = ws_end(s, e);
        if a < e && 0 <= b < s.len() && s[b] == '{' {
            Some((s.subrange(a, e), b + 1))
        } else {
            None
        }
    } else {
        None
    }
}

/// The open inline modules once a `}` leaves brace depth `depth`: the innermost
/// one is closed when it was opened at that depth.
pub open spec fn close_mods(mods: Seq<(Seq<char>, int)>, depth: int) -> Seq<(Seq<char>, int)> {
    if mods.len() > 0 && mods.last().1 == depth {
        mods.drop_last()
    } else {
        mods
    }
}

/// The names of the open inline modules, outermost first.
pub open spec fn mod_names(mods: Seq<(Seq<char>, int)>) -> Seq<Seq<char>> {
    mods.map_values(|m: (Seq<char>, int)| m.0)
}

pub proof fn lemma_ws_end(s: Seq<char>, i: int)
    requires
        0 <= i,
    ensures
        i <= ws_end(s, i),
        i <= s.len() ==> ws_end(s, i) <= s.len(),
    decreases s.len() - i,
{
    if 0 <= i < s.len() && is_ws(s[i]) {
        lemma_ws_end(s, i + 1);
    }
}

pub proof fn lemma_ident_end(s: Seq<char>, i: int)
    requires
        0 <= i,
    ensures
        i <= ident_end(s, i),
        i <= s.len() ==> ident_end(s, i) <= s.len(),
        forall|k: int| i <= k < ident_end(s, i) ==> is_ident_char(#[trigger] s[k]),
    decreases s.len() - i,
{
    if 0 <= i < s.len() && is_ident_char(s[i]) {
        lemma_ident_end(s, i + 1);
    }
}

pub proof fn lemma_group_end(s: Seq<char>, i: int, depth: nat)
    requires
        0 <= i,
    ensures
        i <= group_end(s, i, depth),
        i <= s.len() ==> group_end(s, i, depth) <= s.len(),
    decreases s.len() - i,
{
    if !(depth == 0 || i >= s.len()) {
        if is_open(s[i]) {
            lemma_group_end(s, i + 1, depth + 1);
        } else if is_close(s[i]) {
            lemma_group_end(s, i + 1, (depth - 1) as nat);
        } else {
            lemma_group_end(s, i + 1, depth);
        }
    }
}

/// A macro body or an inline module header starting at `i` ends past `i`.
pub proof fn lemma_steps(s: Seq<char>, i: int)
    requires
        0 <= i < s.len(),
    ensures
        macro_end(s, i) matches Some(j) ==> i < j <= s.len(),
        mod_header(s, i) matches Some((_, j)) ==> i + 3 < j <= s.len(),
{
    if 0 < i < s.len() && s[i] == '!' && is_ident_char(s[i - 1]) {
        lemma_ws_end(s, i + 1);
        let a = ws_end(s, i + 1);
        lemma_ident_end(s, a);
        lemma_ws_end(s, ident_end(s, a));
        let b = ws_end(s, ident_end(s, a));
        if 0 <= b < s.len() && is_open(s[b]) {
            lemma_group_end(s, b + 1, 1);
        }
    }
    if is_mod_at(s, i) {
        lemma_ws_end(s, i + 3);
        let a = decl_name_start(s, i);
        lemma_ident_end(s, a);
        lemma_ws_end(s, ident_end(s, a));
    }
}

/// Each `use` declaration from index `i` on: its trimmed path tree (the text
/// between `use` and `;`) and the names of the inline modules enclosing it, given
/// the modules `mods` open at brace depth `depth`.
pub open spec fn sites_from(
    s: Seq<char>,
    i: int,
    mods: Seq<(Seq<char>, int)>,
    depth: int,
) -> Seq<(Seq<char>, Seq<Seq<char>>)>
    decreases s.len() - i,
{
    if i < 0 || i >= s.len() {
        Seq::empty()
    } else {
        proof {
            lemma_steps(s, i);
            lemma_find_char(s, i + 3, ';');
        }
        match macro_end(s, i) {
            Some(j) => sites_from(s, j, mods, depth),
            None => if is_use_at(s, i) {
                match find_char(s, i + 3, ';') {
                    None => Seq::empty(),
                    Some(e) => seq![(trim(s.subrange(i + 3, e)), mod_names(mods))] + sites_from(
                        s,
                        e + 1,
                        mods,
                        depth,
                    ),
                }
            } else {
                match mod_header(s, i) {
                    Some((name, j)) => sites_from(s, j, mods.push((name, depth)), depth + 1),
                    None => if s[i] == '{' {
                        sites_from(s, i + 1, mods, depth + 1)
                    } else if s[i] == '}' {
                        sites_from(s, i + 1, close_mods(mods, depth - 1), depth - 1)
                    } else {
                        sites_from(s, i + 1, mods, depth)
                    },
                }
            },
        }
    }
}

/// Each `use` declaration of `s` with the inline modules that enclose it.
pub open spec fn use_sites(s: Seq<char>) -> Seq<(Seq<char>, Seq<Seq<char>>)> {
    sites_from(s, 0, Seq::empty(), 0)
}

/// The models of use sites.
pub open spec fn site_views(v: Seq<(Vec<char>, Vec<Vec<char>>)>) -> Seq<
    (Seq<char>, Seq<Seq<char>>),
> {
    v.map_values(|x: (Vec<char>, Vec<Vec<char>>)| (x.0@, views(x.1@)))
}

/// The models of open inline modules.
pub open spec fn mod_views(v: Seq<(Vec<char>, i128)>) -> Seq<(Seq<char>, int)> {
    v.map_values(|x: (Vec<char>, i128)| (x.0@, x.1 as int))
}

/// The names of each inline module opened from index `i` on, outermost first,
/// given the modules `mods` open at brace depth `depth`, in order. Macro bodies
/// are skipped.
pub open spec fn inline_from(s: Seq<char>, i: int, mods: Seq<(Seq<char>, int)>, depth: int) -> Seq<
    Seq<Seq<char>>,
>
    decreases s.len() - i,
{
    if i < 0 || i >= s.len() {
        Seq::empty()
    } else {
        proof {
            lemma_steps(s, i);
        }
        match macro_end(s, i) {
            Some(j) => inline_from(s, j, mods, depth),
            None => match mod_header(s, i) {
                Some((name, j)) => seq![mod_names(mods.push((name, depth)))] + inline_from(
                    s,
                    j,
                    mods.push((name, depth)),
                    depth + 1,
                ),
                None => if s[i] == '{' {
                    inline_from(s, i + 1, mods, depth + 1)
                } else if s[i] == '}' {
                    inline_from(s, i + 1, close_mods(mods, depth - 1), depth - 1)
                } else {
                    inline_from(s, i + 1, mods, depth)
                },
            },
        }
    }
}

/// The inline modules of a stripped source, each as the names that lead to it
/// from the file's module, outermost first.
pub open spec fn inline_modules(s: Seq<char>) -> Seq<Seq<Seq<char>>> {
    inline_from(s, 0, Seq::empty(), 0)
}

/// The models of sequences of names.
pub open spec fn chain_views(v: Seq<Vec<Vec<char>>>) -> Seq<Seq<Seq<char>>> {
    v.map_values(|x: Vec<Vec<char>>| views(x@))
}

/// Where the name of a module declared by a `mod` keyword at `i` starts: past the
/// whitespace, and past the `r#` of a raw identifier.
pub open spec fn decl_name_start(s: Seq<char>, i: int) -> int {
    let a = ws_end(s, i + 3);
    if is_at_char(s, a, 'r') && is_at_char(s, a + 1, '#') {
        a + 2
    } else {
        a
    }
}

/// Whether `s` holds `c` at index `i`.
pub open spec fn is_at_char(s: Seq<char>, i: int, c: char) -> bool {
    0 <= i < s.len() && s[i] == c
}

/// When a module declaration (`mod name;` or `mod name {`) begins at `i`, the
/// module's name, a raw identifier `r#name` read as `name`.
pub open spec fn mod_decl(s: Seq<char>, i: int) -> Option<Seq<char>> {
    if is_mod_at(s, i) {
        let a = decl_name_start(s, i);
        let e = ident_end(s, a);
        let b = ws_end(s, e);
        if a < e && 0 <= b < s.len() && (s[b] == ';' || s[b] == '{') {
            Some(s.subrange(a, e))
        } else {
            None
        }
    } else {
        None
    }
}

/// The modules declared at brace depth zero from index `i` on, given brace depth
/// `depth` at `i`, in order. Macro bodies are skipped.
pub open spec fn top_mods_from(s: Seq<char>, i: int, depth: int) -> Seq<Seq<char>>
    decreases s.len() - i,
{
    if i < 0 || i >= s.len() {
        Seq::empty()
    } else {
        proof {
            lemma_steps(s, i);
        }
        match macro_end(s, i) {
            Some(j) => top_mods_from(s, j, depth),
            None => match mod_decl(s, i) {
                Some(name) => (if depth == 0 {
                    seq![name]
                } else {
                    Seq::empty()
                }) + top_mods_from(s, i + 3, depth),
                None => if s[i] == '{' {
                    top_mods_from(s, i + 1, depth + 1)
                } else if s[i] == '}' {
                    top_mods_from(s, i + 1, depth - 1)
                } else {
                    top_mods_from(s, i + 1, depth)
                },
            },
        }
    }
}

/// The modules a stripped source declares at its top level, in order.
pub open spec fn top_mods(s: Seq<char>) -> Seq<Seq<char>> {
    top_mods_from(s, 0, 0)
}

fn skip_ws(s: &Vec<char>, i: usize) -> (r: usize)
    requires
        i <= s.len(),
    ensures
        r == ws_end(s@, i as int),
        i <= r <= s.len(),
{
    let mut j = i;
    while j < s.len() && is_whitespace(s[j])
        invariant
            i <= j <= s.len(),
            ws_end(s@, j as int) == ws_end(s@, i as int),
        decreases s.len() - j,
    {
        j += 1;
    }
    j
}

fn skip_ident(s: &Vec<char>, i: usize) -> (r: usize)
    requires
        i <= s.len(),
    ensures
        r == ident_end(s@, i as int),
        i <= r <= s.len(),
{
    let mut j = i;
    while j < s.len() && is_ident(s[j])
        invariant
            i <= j <= s.len(),
            ident_end(s@, j as int) == ident_end(s@, i as int),
        decreases s.len() - j,
    {
        j += 1;
    }
    j
}

fn skip_group(s: &Vec<char>, i: usize) -> (r: usize)
    requires
        i <= s.len(),
        s.len() + 3 <= usize::MAX,
    ensures
        r == group_end(s@, i as int, 1),
        i <= r <= s.len(),
{
    let mut j = i;
    let mut depth: usize = 1;
    while j < s.len() && depth > 0
        invariant
            i <= j <= s.len(),
            s.len() + 3 <= usize::MAX,
            depth <= j - i + 1,
            group_end(s@, j as int, depth as nat) == group_end(s@, i as int, 1),
        decreases s.len() - j,
    {
        let c = s[j];
        if c == '(' || c == '[' || c == '{' {
            depth += 1;
        } else if c == ')' || c == ']' || c == '}' {
            depth -= 1;
        }
        j += 1;
    }
    j
}

fn macro_end_at(s: &Vec<char>, i: usize) -> (r: Option<usize>)
    requires
        i < s.len(),
        s.len() + 3 <= usize::MAX,
    ensures
        r is Some == macro_end(s@, i as int) is Some,
        r matches Some(j) ==> macro_end(s@, i as int) == Some(j as int),
{
    if i > 0 && s[i] == '!' && is_ident(s[i - 1]) {
        let a = skip_ws(s, i + 1);
        let e = skip_ident(s, a);
        let b = skip_ws(s, e);
        if b < s.len() && (s[b] == '(' || s[b] == '[' || s[b] == '{') {
            Some(skip_group(s, b + 1))
        } else {
            None
        }
    } else {
        None
    }
}

fn mod_header_at(s: &Vec<char>, i: usize) -> (r: Option<(Vec<char>, usize)>)
    requires
        i < s.len(),
    ensures
        r is Some == mod_header(s@, i as int) is Some,
        r matches Some((name, j)) ==> mod_header(s@, i as int) == Some((name@, j as int)),
{
    let n = s.len();
    if 3 <= n - i && s[i] == 'm' && s[i + 1] == 'o' && s[i + 2] == 'd' && (i == 0 || !is_ident(
        s[i - 1],
    )) && (i + 3 >= n || !is_ident(s[i + 3])) {
        let a0 = skip_ws(s, i + 3);
        let a = if n - a0 > 1 && s[a0] == 'r' && s[a0 + 1] == '#' {
            a0 + 2
        } else {
            a0
        };
        assert(a == decl_name_start(s@, i as int));
        let e = skip_ident(s, a);
        let b = skip_ws(s, e);
        if a < e && b < n && s[b] == '{' {
            Some((subvec(s, a, e), b + 1))
        } else {
            None
        }
    } else {
        None
    }
}

fn mod_decl_at(s: &Vec<char>, i: usize) -> (r: Option<Vec<char>>)
    requires
        i < s.len(),
    ensures
        r is Some == mod_decl(s@, i as int) is Some,
        r matches Some(name) ==> mod_decl(s@, i as int) == Some(name@),
{
    let n = s.len();
    if 3 <= n - i && s[i] == 'm' && s[i + 1] == 'o' && s[i + 2] == 'd' && (i == 0 || !is_ident(
        s[i - 1],
    )) && (i + 3 >= n || !is_ident(s[i + 3])) {
        let a0 = skip_ws(s, i + 3);
        let a = if n - a0 > 1 && s[a0] == 'r' && s[a0 + 1] == '#' {
            a0 + 2
        } else {
            a0
        };
        assert(a == decl_name_start(s@, i as int));
        let e = skip_ident(s, a);
        let b = skip_ws(s, e);
        if a < e && b < n && (s[b] == ';' || s[b] == '{') {
            Some(subvec(s, a, e))
        } else {
            None
        }
    } else {
        None
    }
}

/// The modules a stripped source declares at its top level (`mod name;` or
/// `mod name { … }` outside every brace), in order; macro bodies are skipped.
pub fn top_mods_of(source: &Vec<char>) -> (names: Vec<Vec<char>>)
    requires
        source.len() + 3 <= usize::MAX,
    ensures
        views(names@) == top_mods(source@),
{
    let s = source;
    let mut names: Vec<Vec<char>> = Vec::new();
    let mut depth: i128 = 0;
    let mut i: usize = 0;
    assert(views(names@) =~= Seq::<Seq<char>>::empty());
    while i < s.len()
        invariant
            s@ == source@,
            s.len() + 3 <= usize::MAX,
            i <= s.len() + 1,
            -(i as int) <= depth <= i as int,
            views(names@) + top_mods_from(s@, i as int, depth as int) == top_mods(s@),
        decreases s.len() - i,
    {
        proof {
            lemma_steps(s@, i as int);
        }
        match macro_end_at(s, i) {
            Some(j) => {
                i = j;
            },
            None => {
                match mod_decl_at(s, i) {
                    Some(name) => {
                        let ghost nv = name@;
                        let ghost before = views(names@);
                        if depth == 0 {
                            names.push(name);
                            assert(views(names@) =~= before.push(nv));
                            assert(views(names@) + top_mods_from(s@, i + 3, depth as int) =~= before
                                + (seq![nv] + top_mods_from(s@, i + 3, depth as int)));
                        } else {
                            assert(before + top_mods_from(s@, i + 3, depth as int) =~= before + (
                            Seq::<Seq<char>>::empty() + top_mods_from(s@, i + 3, depth as int)));
                        }
                        i = i + 3;
                    },
                    None => {
                        if s[i] == '{' {
                            depth = depth + 1;
                        } else if s[i] == '}' {
                            depth = depth - 1;
                        }
                        i += 1;
                    },
                }
            },
        }
    }
    assert(views(names@) + top_mods_from(s@, i as int, depth as int) =~= views(names@));
    names
}

/// The inline modules of a stripped source, each as the names that lead to it
/// from the file's module, outermost first; macro bodies are skipped.
pub fn inline_modules_of(source: &Vec<char>) -> (chains: Vec<Vec<Vec<char>>>)
    requires
        source.len() + 3 <= usize::MAX,
    ensures
        chain_views(chains@) == inline_modules(source@),
{
    let s = source;
    let mut chains: Vec<Vec<Vec<char>>> = Vec::new();
    let mut mods: Vec<(Vec<char>, i128)> = Vec::new();
    let mut depth: i128 = 0;
    let mut i: usize = 0;
    assert(mod_views(mods@) =~= Seq::<(Seq<char>, int)>::empty());
    assert(chain_views(chains@) =~= Seq::<Seq<Seq<char>>>::empty());
    while i < s.len()
        invariant
            s@ == source@,
            s.len() + 3 <= usize::MAX,
            i <= s.len() + 1,
            -(i as int) <= depth <= i as int,
            forall|k: int| 0 <= k < mods.len() ==> -(i as int) <= (#[trigger] mods@[k]).1 <= i as int,
            chain_views(chains@) + inline_from(s@, i as int, mod_views(mods@), depth as int)
                == inline_modules(s@),
        decreases s.len() - i,
    {
        proof {
            lemma_steps(s@, i as int);
        }
        let ghost mv = mod_views(mods@);
        match macro_end_at(s, i) {
            Some(j) => {
                i = j;
            },
            None => {
                match mod_header_at(s, i) {
                    Some((name, j)) => {
                        let ghost nv = name@;
                        mods.push((name, depth));
                        let ghost mv2 = mod_views(mods@);
                        assert(mv2 =~= mv.push((nv, depth as int)));
                        let mut names: Vec<Vec<char>> = Vec::new();
                        let mut k: usize = 0;
                        while k < mods.len()
                            invariant
                                k <= mods.len(),
                                mv2 == mod_views(mods@),
                                views(names@) == mod_names(mv2).take(k as int),
                            decreases mods.len() - k,
                        {
                            let ghost before = views(names@);
                            names.push(subvec(&mods[k].0, 0, mods[k].0.len()));
                            assert(mods@[k as int].0@.subrange(0, mods@[k as int].0@.len() as int)
                                =~= mods@[k as int].0@);
                            assert(views(names@) =~= before.push(mv2[k as int].0));
                            assert(mod_names(mv2).take(k + 1) =~= mod_names(mv2).take(
                                k as int,
                            ).push(mv2[k as int].0));
                            k += 1;
                        }
                        assert(mod_names(mv2).take(mods.len() as int) =~= mod_names(mv2));
                        let ghost entry = views(names@);
                        let ghost before = chain_views(chains@);
                        chains.push(names);
                        assert(chain_views(chains@) =~= before.push(entry));
                        assert(chain_views(chains@) + inline_from(s@, j as int, mv2, depth + 1)
                            =~= before + (seq![entry] + inline_from(s@, j as int, mv2, depth + 1)));
                        depth = depth + 1;
                        i = j;
                    },
                    None => {
                        if s[i] == '{' {
                            depth = depth + 1;
                        } else if s[i] == '}' {
                            depth = depth - 1;
                            if mods.len() > 0 && mods[mods.len() - 1].1 == depth {
                                mods.pop();
                                assert(mod_views(mods@) =~= mv.drop_last());
                            }
                        }
                        i += 1;
                    },
                }
            },
        }
    }
    assert(chain_views(chains@) + inline_from(s@, i as int, mod_views(mods@), depth as int)
        =~= chain_views(chains@));
    chains
}

fn use_at(s: &Vec<char>, p: usize) -> (r: bool)
    ensures
        r == is_use_at(s@, p as int),
{
    if p <= s.len() && 3 <= s.len() - p && s[p] == 'u' && s[p + 1] == 's' && s[p + 2] == 'e' {
        let before = p == 0 || !is_ident(s[p - 1]);
        let after = p + 3 >= s.len() || !is_ident(s[p + 3]);
        before && after
    } else {
        false
    }
}

fn semicolon_at(s: &Vec<char>, from: usize) -> (r: Option<usize>)
    ensures
        r is Some == find_char(s@, from as int, ';') is Some,
        r matches Some(p) ==> find_char(s@, from as int, ';') == Some(p as int) && p < s.len(),
{
    let mut p = from;
    while p < s.len()
        invariant
            from <= p,
            find_char(s@, p as int, ';') == find_char(s@, from as int, ';'),
        decreases s.len() - p,
    {
        if s[p] == ';' {
            return Some(p);
        }
        p += 1;
    }
    None
}

/// Each `use` declaration of a stripped source, in order: its trimmed path tree
/// and the names of the inline modules that enclose it, outermost first. Macro
/// bodies are skipped.
pub fn use_sites_of(source: &Vec<char>) -> (sites: Vec<(Vec<char>, Vec<Vec<char>>)>)
    requires
        source.len() + 3 <= usize::MAX,
    ensures
        site_views(sites@) == use_sites(source@),
{
    let s = source;
    let mut sites: Vec<(Vec<char>, Vec<Vec<char>>)> = Vec::new();
    let mut mods: Vec<(Vec<char>, i128)> = Vec::new();
    let mut depth: i128 = 0;
    let mut i: usize = 0;
    assert(mod_views(mods@) =~= Seq::<(Seq<char>, int)>::empty());
    assert(site_views(sites@) =~= Seq::<(Seq<char>, Seq<Seq<char>>)>::empty());
    while i < s.len()
        invariant
            s@ == source@,
            s.len() + 3 <= usize::MAX,
            i <= s.len() + 1,
            -(i as int) <= depth <= i as int,
            forall|k: int| 0 <= k < mods.len() ==> -(i as int) <= (#[trigger] mods@[k]).1 <= i as int,
            site_views(sites@) + sites_from(s@, i as int, mod_views(mods@), depth as int)
                == use_sites(s@),
        decreases s.len() - i,
    {
        proof {
            lemma_steps(s@, i as int);
            lemma_find_char(s@, i + 3, ';');
        }
        let ghost mv = mod_views(mods@);
        match macro_end_at(s, i) {
            Some(j) => {
                i = j;
            },
            None => {
                if use_at(s, i) {
                    match semicolon_at(s, i + 3) {
                        None => {
                            assert(sites_from(s@, i as int, mv, depth as int) == Seq::<
                                (Seq<char>, Seq<Seq<char>>),
                            >::empty());
                            assert(site_views(sites@) + sites_from(
                                s@,
                                i as int,
                                mv,
                                depth as int,
                            ) =~= site_views(sites@));
                            return sites;
                        },
                        Some(e) => {
                            let piece = subvec(s, i + 3, e);
                            let tree = trim_chars(&piece);
                            let mut names: Vec<Vec<char>> = Vec::new();
                            let mut k: usize = 0;
                            while k < mods.len()
                                invariant
                                    k <= mods.len(),
                                    mv == mod_views(mods@),
                                    views(names@) == mod_names(mv).take(k as int),
                                decreases mods.len() - k,
                            {
                                let ghost before = views(names@);
                                names.push(subvec(&mods[k].0, 0, mods[k].0.len()));
                                assert(mods@[k as int].0@.subrange(0, mods@[k as int].0@.len() as int)
                                    =~= mods@[k as int].0@);
                                assert(views(names@) =~= before.push(mv[k as int].0));
                                assert(mod_names(mv).take(k + 1) =~= mod_names(mv).take(
                                    k as int,
                                ).push(mv[k as int].0));
                                k += 1;
                            }
                            assert(mod_names(mv).take(mods.len() as int) =~= mod_names(mv));
                            let ghost entry = (tree@, views(names@));
                            let ghost before = site_views(sites@);
                            sites.push((tree, names));
                            assert(site_views(sites@) =~= before.push(entry));
                            assert(site_views(sites@) + sites_from(s@, e + 1, mv, depth as int)
                                =~= before + (seq![entry] + sites_from(
                                s@,
                                e + 1,
                                mv,
                                depth as int,
                            )));
                            i = e + 1;
                        },
                    }
                } else {
                    match mod_header_at(s, i) {
                        Some((name, j)) => {
                            let ghost nv = name@;
                            mods.push((name, depth));
                            assert(mod_views(mods@) =~= mv.push((nv, depth as int)));
                            depth = depth + 1;
                            i = j;
                        },
                        None => {
                            if s[i] == '{' {
                                depth = depth + 1;
                            } else if s[i] == '}' {
                                depth = depth - 1;
                                if mods.len() > 0 && mods[mods.len() - 1].1 == depth {
                                    mods.pop();
                                    assert(mod_views(mods@) =~= mv.drop_last());
                                }
                            }
                            i += 1;
                        },
                    }
                }
            },
        }
    }
    assert(site_views(sites@) + sites_from(s@, i as int, mod_views(mods@), depth as int)
        =~= site_views(sites@));
    sites
}

/// Reading whitespace inside `u` stops before its end when `u` ends with a
/// character that is not whitespace.
proof fn lemma_ws_end_within(u: Seq<char>, t: Seq<char>, k: int)
    requires
        0 <= k < u.len(),
        !is_ws(u.last()),
    ensures
        ws_end(u + t, k) == ws_end(u, k),
        k <= ws_end(u, k) < u.len(),
    decreases u.len() - k,
{
    let s = u + t;
    assert(s[k] == u[k]);
    assert(u[u.len() - 1] == u.last());
    if is_ws(u[k]) {
        lemma_ws_end_within(u, t, k + 1);
    }
}

/// Reading an identifier inside `u` stops before its end when `u` ends with a
/// character that cannot continue one.
proof fn lemma_ident_end_within(u: Seq<char>, t: Seq<char>, k: int)
    requires
        0 <= k < u.len(),
        !is_ident_char(u.last()),
    ensures
        ident_end(u + t, k) == ident_end(u, k),
        k <= ident_end(u, k) < u.len(),
    decreases u.len() - k,
{
    let s = u + t;
    assert(s[k] == u[k]);
    assert(u[u.len() - 1] == u.last());
    if is_ident_char(u[k]) {
        lemma_ident_end_within(u, t, k + 1);
    }
}

/// A module declaration that begins inside `u`, which ends with `;` or `}`, is
/// read inside `u`: what follows `u` changes nothing of it.
proof fn lemma_mod_decl_within(u: Seq<char>, t: Seq<char>, p: int)
    requires
        0 <= p < u.len(),
        u.last() == ';' || u.last() == '}',
    ensures
        mod_decl(u + t, p) == mod_decl(u, p),
        mod_decl(u, p) is Some ==> p + 3 < u.len(),
{
    let s = u + t;
    let n = u.len() as int;
    assert(u[n - 1] == u.last());
    ascii_identifier_characters(';');
    ascii_identifier_characters('}');
    assert(!is_ws(u.last()) && !is_ident_char(u.last()));
    if p + 3 < n {
        assert(s[p] == u[p] && s[p + 1] == u[p + 1] && s[p + 2] == u[p + 2] && s[p + 3] == u[p
            + 3]);
        if p > 0 {
            assert(s[p - 1] == u[p - 1]);
        }
        assert(is_mod_at(s, p) == is_mod_at(u, p));
        if is_mod_at(u, p) {
            lemma_ws_end_within(u, t, p + 3);
            let a = ws_end(u, p + 3);
            assert(s[a] == u[a]);
            if a + 1 < n {
                assert(s[a + 1] == u[a + 1]);
            }
            assert(decl_name_start(s, p) == decl_name_start(u, p));
            let a2 = decl_name_start(u, p);
            assert(a2 < n);
            lemma_ident_end_within(u, t, a2);
            let e = ident_end(u, a2);
            lemma_ws_end_within(u, t, e);
            let b = ws_end(u, e);
            assert(s[b] == u[b]);
            assert(s.subrange(a2, e) =~= u.subrange(a2, e));
        }
    } else {
        assert(!is_mod_at(s, p)) by {
            if p == n - 1 {
                assert(s[p] == u.last());
            } else if p == n - 2 {
                assert(s[p + 1] == u.last());
            } else {
                assert(s[p + 2] == u.last());
            }
        }
        assert(!is_mod_at(u, p)) by {
            if p + 3 == n {
                assert(u[p + 2] == u.last());
            }
        }
    }
}

/// Three characters that are not braces leave the brace depth unchanged.
proof fn lemma_depth_over_mod(u: Seq<char>, i: int)
    requires
        0 <= i,
        i + 3 <= u.len(),
        u[i] == 'm',
        u[i + 1] == 'o',
        u[i + 2] == 'd',
    ensures
        depth_in(u, i + 3) == depth_in(u, i),
{
    assert(depth_in(u, i + 1) == depth_in(u, i));
    assert(depth_in(u, i + 2) == depth_in(u, i + 1));
    assert(depth_in(u, i + 3) == depth_in(u, i + 2));
}

/// Scanning `u + t` from inside `u` yields the modules `u` declares from there
/// on, then those read from the end of `u` at the brace depth `u` leaves.
proof fn lemma_top_mods_prefix(u: Seq<char>, t: Seq<char>, i: int, d: int)
    requires
        0 <= i <= u.len(),
        u.len() > 0,
        u.last() == ';' || u.last() == '}',
        !u.contains('!'),
    ensures
        top_mods_from(u + t, i, d) == top_mods_from(u, i, d) + top_mods_from(
            u + t,
            u.len() as int,
            d + depth_in(u, u.len() as int) - depth_in(u, i),
        ),
    decreases u.len() - i,
{
    let s = u + t;
    let n = u.len() as int;
    if i == n {
        assert(top_mods_from(u, i, d) == Seq::<Seq<char>>::empty());
        assert(top_mods_from(s, i, d) =~= Seq::<Seq<char>>::empty() + top_mods_from(s, i, d));
    } else {
        assert(s[i] == u[i]);
        if u[i] == '!' {
            assert(u.contains('!'));
        }
        assert(macro_end(s, i) is None);
        assert(macro_end(u, i) is None);
        lemma_mod_decl_within(u, t, i);
        match mod_decl(u, i) {
            Some(name) => {
                lemma_depth_over_mod(u, i);
                lemma_top_mods_prefix(u, t, i + 3, d);
                let here = if d == 0 {
                    seq![name]
                } else {
                    Seq::<Seq<char>>::empty()
                };
                assert(top_mods_from(s, i, d) == here + top_mods_from(s, i + 3, d));
                assert(top_mods_from(u, i, d) == here + top_mods_from(u, i + 3, d));
                let rest = top_mods_from(s, n, d + depth_in(u, n) - depth_in(u, i));
                assert(here + (top_mods_from(u, i + 3, d) + rest) =~= (here + top_mods_from(
                    u,
                    i + 3,
                    d,
                )) + rest);
            },
            None => {
                assert(depth_in(u, i + 1) == depth_in(u, i) + if u[i] == '{' {
                    1int
                } else if u[i] == '}' {
                    -1int
                } else {
                    0int
                });
                if u[i] == '{' {
                    lemma_top_mods_prefix(u, t, i + 1, d + 1);
                } else if u[i] == '}' {
                    lemma_top_mods_prefix(u, t, i + 1, d - 1);
                } else {
                    lemma_top_mods_prefix(u, t, i + 1, d);
                }
            },
        }
    }
}

/// Whitespace read from inside `t` in `u + t` is read as in `t`, shifted.
proof fn lemma_ws_end_shift(u: Seq<char>, t: Seq<char>, j: int)
    requires
        0 <= j,
    ensures
        ws_end(u + t, u.len() + j) == u.len() + ws_end(t, j),
    decreases t.len() - j,
{
    let s = u + t;
    if j < t.len() {
        assert(s[u.len() + j] == t[j]);
        if is_ws(t[j]) {
            lemma_ws_end_shift(u, t, j + 1);
        }
    }
}

/// An identifier read from inside `t` in `u + t` is read as in `t`, shifted.
proof fn lemma_ident_end_shift(u: Seq<char>, t: Seq<char>, j: int)
    requires
        0 <= j,
    ensures
        ident_end(u + t, u.len() + j) == u.len() + ident_end(t, j),
    decreases t.len() - j,
{
    let s = u + t;
    if j < t.len() {
        assert(s[u.len() + j] == t[j]);
        if is_ident_char(t[j]) {
            lemma_ident_end_shift(u, t, j + 1);
        }
    }
}

/// A group read from inside `t` in `u + t` ends as in `t`, shifted.
proof fn lemma_group_end_shift(u: Seq<char>, t: Seq<char>, j: int, depth: nat)
    requires
        0 <= j,
    ensures
        group_end(u + t, u.len() + j, depth) == u.len() + group_end(t, j, depth),
    decreases t.len() - j,
{
    let s = u + t;
    if depth != 0 && j < t.len() {
        assert(s[u.len() + j] == t[j]);
        if is_open(t[j]) {
            lemma_group_end_shift(u, t, j + 1, depth + 1);
        } else if is_close(t[j]) {
            lemma_group_end_shift(u, t, j + 1, (depth - 1) as nat);
        } else {
            lemma_group_end_shift(u, t, j + 1, depth);
        }
    }
}

/// Past a part `u` that ends with a character that cannot continue an
/// identifier, macros and module declarations of `t` read in `u + t` as in `t`.
proof fn lemma_steps_shift(u: Seq<char>, t: Seq<char>, j: int)
    requires
        0 <= j,
        u.len() > 0,
        !is_ident_char(u.last()),
    ensures
        mod_decl(u + t, u.len() + j) == mod_decl(t, j),
        macro_end(u + t, u.len() + j) == match macro_end(t, j) {
            Some(k) => Some(u.len() + k),
            None => None,
        },
{
    lemma_mod_decl_shift(u, t, j);
    lemma_macro_end_shift(u, t, j);
}

proof fn lemma_mod_decl_shift(u: Seq<char>, t: Seq<char>, j: int)
    requires
        0 <= j,
        u.len() > 0,
        !is_ident_char(u.last()),
    ensures
        mod_decl(u + t, u.len() + j) == mod_decl(t, j),
{
    let s = u + t;
    let n = u.len() as int;
    assert(s[n - 1] == u.last());
    if j < t.len() {
        assert(s[n + j] == t[j]);
    }
    if j > 0 && j <= t.len() {
        assert(s[n + j - 1] == t[j - 1]);
    }
    if j + 3 <= t.len() {
        assert(s[n + j + 1] == t[j + 1] && s[n + j + 2] == t[j + 2]);
    }
    if j + 3 < t.len() {
        assert(s[n + j + 3] == t[j + 3]);
    }
    assert(is_mod_at(s, n + j) == is_mod_at(t, j));
    if is_mod_at(t, j) {
        lemma_ws_end(t, j + 3);
        lemma_ws_end_shift(u, t, j + 3);
        let a = ws_end(t, j + 3);
        assert(ws_end(s, n + j + 3) == n + a);
        if a < t.len() {
            assert(s[n + a] == t[a]);
        }
        if a + 1 < t.len() {
            assert(s[n + a + 1] == t[a + 1]);
        }
        assert(is_at_char(s, n + a, 'r') == is_at_char(t, a, 'r'));
        assert(is_at_char(s, n + a + 1, '#') == is_at_char(t, a + 1, '#'));
        assert(decl_name_start(s, n + j) == n + decl_name_start(t, j));
        let a2 = decl_name_start(t, j);
        lemma_ident_end_shift(u, t, a2);
        let e = ident_end(t, a2);
        lemma_ident_end(t, a2);
        lemma_ws_end_shift(u, t, e);
        let b = ws_end(t, e);
        lemma_ws_end(t, e);
        assert(ident_end(s, n + a2) == n + e);
        assert(ws_end(s, n + e) == n + b);
        if b < t.len() {
            assert(s[n + b] == t[b]);
        }
        if a2 < e && e <= t.len() {
            assert(s.subrange(n + a2, n + e) =~= t.subrange(a2, e));
        }
    }
}

proof fn lemma_macro_end_shift(u: Seq<char>, t: Seq<char>, j: int)
    requires
        0 <= j,
        u.len() > 0,
        !is_ident_char(u.last()),
    ensures
        macro_end(u + t, u.len() + j) == match macro_end(t, j) {
            Some(k) => Some(u.len() + k),
            None => None,
        },
{
    let s = u + t;
    let n = u.len() as int;
    assert(s[n - 1] == u.last());
    if j < t.len() {
        assert(s[n + j] == t[j]);
    }
    if j > 0 && j <= t.len() {
        assert(s[n + j - 1] == t[j - 1]);
    }
    if 0 < j < t.len() && t[j] == '!' && is_ident_char(t[j - 1]) {
        lemma_ws_end(t, j + 1);
        lemma_ws_end_shift(u, t, j + 1);
        let a = ws_end(t, j + 1);
        lemma_ident_end(t, a);
        lemma_ident_end_shift(u, t, a);
        let e = ident_end(t, a);
        lemma_ws_end(t, e);
        lemma_ws_end_shift(u, t, e);
        let b = ws_end(t, e);
        assert(ws_end(s, n + j + 1) == n + a);
        assert(ident_end(s, n + a) == n + e);
        assert(ws_end(s, n + e) == n + b);
        if b < t.len() {
            assert(s[n + b] == t[b]);
            lemma_group_end_shift(u, t, b + 1, 1);
        }
    }
}

/// Scanning `u + t` from inside `t` reads the modules `t` declares from there.
proof fn lemma_top_mods_shift(u: Seq<char>, t: Seq<char>, j: int, d: int)
    requires
        0 <= j,
        u.len() > 0,
        !is_ident_char(u.last()),
    ensures
        top_mods_from(u + t, u.len() + j, d) == top_mods_from(t, j, d),
    decreases t.len() - j,
{
    let s = u + t;
    let n = u.len() as int;
    if j < t.len() {
        lemma_steps(t, j);
        lemma_steps_shift(u, t, j);
        assert(s[n + j] == t[j]);
        match macro_end(t, j) {
            Some(k) => {
                lemma_top_mods_shift(u, t, k, d);
            },
            None => match mod_decl(t, j) {
                Some(name) => {
                    lemma_top_mods_shift(u, t, j + 3, d);
                    assert(n + j + 3 == n + (j + 3));
                },
                None => if t[j] == '{' {
                    lemma_top_mods_shift(u, t, j + 1, d + 1);
                } else if t[j] == '}' {
                    lemma_top_mods_shift(u, t, j + 1, d - 1);
                } else {
                    lemma_top_mods_shift(u, t, j + 1, d);
                },
            },
        }
    }
}

/// The modules a source declares at its top level are those of its parts: when
/// a part `u` ends a declaration or a group (its last character is `;` or `}`),
/// invokes no macro, and closes as many braces as it opens, the top-level
/// modules of `u + t` are those of `u` followed by those of `t`. So a balanced
/// group before a `mod name;`, as in `use std::{fmt, io};`, never hides it.
pub proof fn top_level_modules_of_consecutive_parts(u: Seq<char>, t: Seq<char>)
    requires
        u.len() > 0,
        u.last() == ';' || u.last() == '}',
        !u.contains('!'),
        depth_in(u, u.len() as int) == 0,
    ensures
        top_mods(u + t) == top_mods(u) + top_mods(t),
{
    lemma_top_mods_prefix(u, t, 0, 0);
    ascii_identifier_characters(';');
    ascii_identifier_characters('}');
    lemma_top_mods_shift(u, t, 0, 0);
}

} // verus!
