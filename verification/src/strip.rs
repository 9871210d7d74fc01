//! Removal of comments and literals from Rust source text.
//!
//! The source is read character by character. Every position at which a region
//! starts or ends is an ASCII character, so the text that is kept is exactly the
//! characters outside comments and string, byte-string, raw-string and char
//! literals. A quote is taken as a simple char literal only when the one character
//! between the quotes is ASCII; any other quote (a lifetime, `'é'`) is kept as text.
use vstd::prelude::*;
use crate::text::{ascii_alnum, ascii_identifier_characters, is_ident, is_ident_char};

verus! {

/// Whether `s` holds `c` at index `i` (an in-bounds test).
pub open spec fn is_at(s: Seq<char>, i: int, c: char) -> bool {
    0 <= i < s.len() && s[i] == c
}

/// End of a line comment begun at `i`: the index of the next newline, or the end.
pub open spec fn line_end(s: Seq<char>, i: int) -> int
    decreases s.len() - i,
{
    if 0 <= i < s.len() && s[i] != '\n' {
        line_end(s, i + 1)
    } else {
        i
    }
}

/// End of a nested block comment whose body starts at `i` with `depth` comments
/// open: just past the `*/` that closes the outermost one, or the end of the
/// input when it is never closed.
pub open spec fn block_end(s: Seq<char>, i: int, depth: nat) -> int
    decreases s.len() - i,
{
    if depth == 0 {
        i
    } else if 0 <= i && i + 1 < s.len() {
        if s[i] == '/' && s[i + 1] == '*' {
            block_end(s, i + 2, depth + 1)
        } else if s[i] == '*' && s[i + 1] == '/' {
            block_end(s, i + 2, (depth - 1) as nat)
        } else {
            block_end(s, i + 1, depth)
        }
    } else if i < s.len() {
        s.len() as int
    } else {
        i
    }
}

/// Index just past a run of `#` starting at `j`.
pub open spec fn hashes_end(s: Seq<char>, j: int) -> int
    decreases s.len() - j,
{
    if is_at(s, j, '#') {
        hashes_end(s, j + 1)
    } else {
        j
    }
}

/// When a raw string literal (`r"…"`, `r#"…"#`, `br#"…"#`) starts at `i`, its
/// number of hashes and the index of its opening quote. A leading `r`/`b` that
/// continues an identifier starts no literal.
pub open spec fn raw_prefix(s: Seq<char>, i: int) -> Option<(int, int)> {
    if 0 < i <= s.len() && is_ident_char(s[i - 1]) {
        None
    } else {
        let j = if is_at(s, i, 'b') {
            i + 1
        } else {
            i
        };
        if !is_at(s, j, 'r') {
            None
        } else {
            let k = hashes_end(s, j + 1);
            if is_at(s, k, '"') {
                Some((k - (j + 1), k))
            } else {
                None
            }
        }
    }
}

/// A raw string `r"…"` after a character that cannot continue an identifier (a
/// space, punctuation, any ASCII character other than `_` and the letters and
/// digits) starts a literal, with no hashes and its quote just after the `r`.
pub proof fn a_raw_string_after_punctuation_starts_a_literal(s: Seq<char>, i: int)
    requires
        0 < i,
        i + 1 < s.len(),
        (s[i - 1] as u32) < 0x80,
        s[i - 1] != '_',
        !ascii_alnum(s[i - 1]),
        s[i] == 'r',
        s[i + 1] == '"',
    ensures
        raw_prefix(s, i) == Some((0int, i + 1)),
{
    ascii_identifier_characters(s[i - 1]);
    assert(hashes_end(s, i + 1) == i + 1);
}

/// Whether `s` holds `#` at index `at + k`.
pub open spec fn hash_at(s: Seq<char>, at: int, k: int) -> bool {
    is_at(s, at + k, '#')
}

/// Whether `hashes` `#` characters start at `at`.
pub open spec fn closing_hashes(s: Seq<char>, at: int, hashes: int) -> bool {
    forall|k: int| 0 <= k < hashes ==> #[trigger] hash_at(s, at, k)
}

/// Index just past the end of a raw string whose body starts at `i`.
pub open spec fn raw_end(s: Seq<char>, i: int, hashes: int) -> int
    decreases s.len() - i,
{
    if 0 <= i < s.len() {
        if s[i] == '"' && closing_hashes(s, i + 1, hashes) {
            i + 1 + hashes
        } else {
            raw_end(s, i + 1, hashes)
        }
    } else {
        i
    }
}

/// Index of the closing `q` of a quoted body starting at `i`, stepping over a
/// backslash and the character after it (possibly past the end).
pub open spec fn quoted_end(s: Seq<char>, i: int, q: char) -> int
    decreases s.len() + 2 - i,
{
    if 0 <= i < s.len() && s[i] != q {
        quoted_end(
            s,
            i + if s[i] == '\\' {
                2int
            } else {
                1int
            },
            q,
        )
    } else {
        i
    }
}

pub proof fn lemma_line_end(s: Seq<char>, i: int)
    requires
        0 <= i,
    ensures
        i <= line_end(s, i),
        i < s.len() ==> line_end(s, i) <= s.len(),
    decreases s.len() - i,
{
    if 0 <= i < s.len() && s[i] != '\n' {
        lemma_line_end(s, i + 1);
    }
}

pub proof fn lemma_block_end(s: Seq<char>, i: int, depth: nat)
    requires
        0 <= i,
    ensures
        i <= block_end(s, i, depth),
        i <= s.len() ==> block_end(s, i, depth) <= s.len(),
    decreases s.len() - i,
{
    if 0 <= i && i + 1 < s.len() && depth > 0 {
        if s[i] == '/' && s[i + 1] == '*' {
            lemma_block_end(s, i + 2, depth + 1);
        } else if s[i] == '*' && s[i + 1] == '/' {
            lemma_block_end(s, i + 2, (depth - 1) as nat);
        } else {
            lemma_block_end(s, i + 1, depth);
        }
    }
}

pub proof fn lemma_hashes_end(s: Seq<char>, j: int)
    requires
        0 <= j,
    ensures
        j <= hashes_end(s, j),
        forall|k: int| j <= k < hashes_end(s, j) ==> is_at(s, k, '#'),
    decreases s.len() - j,
{
    if is_at(s, j, '#') {
        lemma_hashes_end(s, j + 1);
    }
}

pub proof fn lemma_raw_end(s: Seq<char>, i: int, hashes: int)
    requires
        0 <= i,
        0 <= hashes,
    ensures
        i <= raw_end(s, i, hashes),
        i <= s.len() ==> raw_end(s, i, hashes) <= s.len(),
    decreases s.len() - i,
{
    if 0 <= i < s.len() {
        if s[i] == '"' && closing_hashes(s, i + 1, hashes) {
            if hashes > 0 {
                assert(hash_at(s, i + 1, hashes - 1));
            }
        } else {
            lemma_raw_end(s, i + 1, hashes);
        }
    }
}

pub proof fn lemma_quoted_end(s: Seq<char>, i: int, q: char)
    requires
        0 <= i,
    ensures
        i <= quoted_end(s, i, q),
        i <= s.len() + 1 ==> quoted_end(s, i, q) <= s.len() + 1,
    decreases s.len() + 2 - i,
{
    if 0 <= i < s.len() && s[i] != q {
        lemma_quoted_end(
            s,
            i + if s[i] == '\\' {
                2int
            } else {
                1int
            },
            q,
        );
    }
}

/// Index at which scanning resumes after the region that starts at `i`, when
/// that region is removed; `None` when the character at `i` is kept.
pub open spec fn skip_to(s: Seq<char>, i: int) -> Option<int> {
    if s[i] == '/' && i + 1 < s.len() && s[i + 1] == '/' {
        Some(line_end(s, i))
    } else if s[i] == '/' && i + 1 < s.len() && s[i + 1] == '*' {
        Some(block_end(s, i + 2, 1))
    } else if raw_prefix(s, i) is Some {
        let (hashes, quote) = raw_prefix(s, i)->0;
        Some(raw_end(s, quote + 1, hashes))
    } else if s[i] == '"' {
        Some(quoted_end(s, i + 1, '"') + 1)
    } else if s[i] == '\'' {
        if i + 1 < s.len() && s[i + 1] == '\\' {
            Some(quoted_end(s, i + 3, '\'') + 1)
        } else if i + 2 < s.len() && s[i + 1] < '\u{80}' && s[i + 2] == '\'' {
            Some(i + 3)
        } else {
            None
        }
    } else {
        None
    }
}

pub proof fn lemma_skip_to(s: Seq<char>, i: int)
    requires
        0 <= i < s.len(),
    ensures
        skip_to(s, i) matches Some(j) ==> i < j <= s.len() + 2,
{
    if s[i] == '/' && i + 1 < s.len() && s[i + 1] == '/' {
        lemma_line_end(s, i + 1);
        assert(line_end(s, i) == line_end(s, i + 1));
    } else if s[i] == '/' && i + 1 < s.len() && s[i + 1] == '*' {
        lemma_block_end(s, i + 2, 1);
    } else if raw_prefix(s, i) is Some {
        let j = if is_at(s, i, 'b') {
            i + 1
        } else {
            i
        };
        lemma_hashes_end(s, j + 1);
        let (hashes, quote) = raw_prefix(s, i)->0;
        lemma_raw_end(s, quote + 1, hashes);
    } else if s[i] == '"' {
        lemma_quoted_end(s, i + 1, '"');
    } else if s[i] == '\'' {
        if i + 1 < s.len() && s[i + 1] == '\\' {
            lemma_quoted_end(s, i + 3, '\'');
        }
    }
}

/// The source from index `i` on with comments and literals removed.
pub open spec fn strip_from(s: Seq<char>, i: int) -> Seq<char>
    decreases s.len() + 3 - i,
{
    if i < 0 || i >= s.len() {
        Seq::empty()
    } else {
        proof {
            lemma_skip_to(s, i);
        }
        match skip_to(s, i) {
            Some(j) => strip_from(s, j),
            None => seq![s[i]] + strip_from(s, i + 1),
        }
    }
}

/// The source with comments and literals removed.
pub open spec fn stripped(s: Seq<char>) -> Seq<char> {
    strip_from(s, 0)
}

/// Stripping from index `i` on keeps at most the characters from `i` on.
proof fn lemma_strip_from_len(s: Seq<char>, i: int)
    ensures
        strip_from(s, i).len() <= if 0 <= i <= s.len() {
            s.len() - i
        } else {
            0
        },
    decreases s.len() + 3 - i,
{
    if 0 <= i < s.len() {
        lemma_skip_to(s, i);
        match skip_to(s, i) {
            Some(j) => lemma_strip_from_len(s, j),
            None => lemma_strip_from_len(s, i + 1),
        }
    }
}

/// Stripping never lengthens the text: what is kept is at most the source.
pub proof fn stripping_never_lengthens(s: Seq<char>)
    ensures
        stripped(s).len() <= s.len(),
{
    lemma_strip_from_len(s, 0);
}

/// From index `i` on, text without slashes and quotes is kept whole.
proof fn lemma_plain_strip_from(s: Seq<char>, i: int)
    requires
        0 <= i <= s.len(),
        forall|k: int| 0 <= k < s.len() ==> s[k] != '/' && s[k] != '"' && s[k] != '\'',
    ensures
        strip_from(s, i) == s.skip(i),
    decreases s.len() - i,
{
    if i < s.len() {
        let j = if is_at(s, i, 'b') {
            i + 1
        } else {
            i
        };
        if is_at(s, j, 'r') {
            lemma_hashes_end(s, j + 1);
        }
        assert(skip_to(s, i) is None);
        lemma_plain_strip_from(s, i + 1);
        assert(s.skip(i) =~= seq![s[i]] + s.skip(i + 1));
    } else {
        assert(s.skip(i) =~= Seq::<char>::empty());
    }
}

/// Text that holds no slash and no quote has no comment and no literal, so
/// stripping keeps every character of it, in order.
pub proof fn plain_text_is_kept_whole(s: Seq<char>)
    requires
        forall|k: int| 0 <= k < s.len() ==> s[k] != '/' && s[k] != '"' && s[k] != '\'',
    ensures
        stripped(s) == s,
{
    lemma_plain_strip_from(s, 0);
    assert(s.skip(0) =~= s);
}

fn line_end_at(s: &Vec<char>, i: usize) -> (r: usize)
    requires
        i < s.len(),
    ensures
        r == line_end(s@, i as int),
{
    let mut j = i;
    while j < s.len() && s[j] != '\n'
        invariant
            i <= j <= s.len(),
            line_end(s@, j as int) == line_end(s@, i as int),
        decreases s.len() - j,
    {
        j += 1;
    }
    j
}

fn block_end_at(s: &Vec<char>, i: usize) -> (r: usize)
    requires
        s.len() + 3 <= usize::MAX,
        i <= s.len(),
    ensures
        r == block_end(s@, i as int, 1),
{
    let mut j = i;
    let mut depth: usize = 1;
    while j + 1 < s.len() && depth > 0
        invariant
            i <= j <= s.len(),
            s.len() + 3 <= usize::MAX,
            depth <= j + 1,
            block_end(s@, j as int, depth as nat) == block_end(s@, i as int, 1),
        decreases s.len() - j,
    {
        if s[j] == '/' && s[j + 1] == '*' {
            depth += 1;
            j += 2;
        } else if s[j] == '*' && s[j + 1] == '/' {
            depth -= 1;
            j += 2;
        } else {
            j += 1;
        }
    }
    if depth > 0 && j < s.len() {
        j = s.len();
    }
    j
}

fn raw_string_prefix(s: &Vec<char>, i: usize) -> (r: Option<(usize, usize)>)
    requires
        s.len() + 3 <= usize::MAX,
        i < s.len(),
    ensures
        r is Some == raw_prefix(s@, i as int) is Some,
        r matches Some(p) ==> raw_prefix(s@, i as int) == Some((p.0 as int, p.1 as int)),
        r matches Some(p) ==> p.1 < s.len(),
{
    if i > 0 && is_ident(s[i - 1]) {
        return None;
    }
    let mut j = i;
    if s[j] == 'b' {
        j += 1;
    }
    if !(j < s.len() && s[j] == 'r') {
        return None;
    }
    j += 1;
    let start = j;
    while j < s.len() && s[j] == '#'
        invariant
            start <= j <= s.len(),
            hashes_end(s@, j as int) == hashes_end(s@, start as int),
        decreases s.len() - j,
    {
        j += 1;
    }
    if j < s.len() && s[j] == '"' {
        Some((j - start, j))
    } else {
        None
    }
}

fn raw_closing_matches(s: &Vec<char>, at: usize, hashes: usize) -> (r: bool)
    requires
        s.len() + 3 <= usize::MAX,
    ensures
        r == closing_hashes(s@, at as int, hashes as int),
{
    let mut k: usize = 0;
    while k < hashes
        invariant
            k <= hashes,
            forall|m: int| 0 <= m < k ==> #[trigger] hash_at(s@, at as int, m),
        decreases hashes - k,
    {
        if !(at <= s.len() && k < s.len() - at && s[at + k] == '#') {
            assert(!hash_at(s@, at as int, k as int));
            return false;
        }
        k += 1;
    }
    true
}

fn raw_end_at(s: &Vec<char>, i: usize, hashes: usize) -> (r: usize)
    requires
        s.len() + 3 <= usize::MAX,
        i <= s.len(),
    ensures
        r == raw_end(s@, i as int, hashes as int),
        r <= s.len(),
{
    let mut j = i;
    while j < s.len()
        invariant
            i <= j <= s.len(),
            s.len() + 3 <= usize::MAX,
            raw_end(s@, j as int, hashes as int) == raw_end(s@, i as int, hashes as int),
        decreases s.len() - j,
    {
        if s[j] == '"' && raw_closing_matches(s, j + 1, hashes) {
            proof {
                if hashes > 0 {
                    assert(hash_at(s@, j + 1, hashes - 1));
                }
            }
            return j + 1 + hashes;
        }
        j += 1;
    }
    j
}

fn quoted_end_at(s: &Vec<char>, i: usize, q: char) -> (r: usize)
    requires
        s.len() + 3 <= usize::MAX,
        i <= s.len() + 1,
    ensures
        r == quoted_end(s@, i as int, q),
        r <= s.len() + 1,
{
    let mut j = i;
    while j < s.len() && s[j] != q
        invariant
            i <= j <= s.len() + 1,
            s.len() + 3 <= usize::MAX,
            quoted_end(s@, j as int, q) == quoted_end(s@, i as int, q),
        decreases s.len() + 2 - j,
    {
        if s[j] == '\\' {
            j += 2;
        } else {
            j += 1;
        }
    }
    j
}

/// Where scanning resumes after a removed region starting at `i`, if any.
fn skip_at(s: &Vec<char>, i: usize) -> (r: Option<usize>)
    requires
        s.len() + 3 <= usize::MAX,
        i < s.len(),
    ensures
        r is Some == skip_to(s@, i as int) is Some,
        r matches Some(j) ==> skip_to(s@, i as int) == Some(j as int),
{
    let n = s.len();
    if s[i] == '/' && i + 1 < n && s[i + 1] == '/' {
        Some(line_end_at(s, i))
    } else if s[i] == '/' && i + 1 < n && s[i + 1] == '*' {
        Some(block_end_at(s, i + 2))
    } else {
        match raw_string_prefix(s, i) {
            Some((hashes, quote)) => Some(raw_end_at(s, quote + 1, hashes)),
            None => {
                if s[i] == '"' {
                    Some(quoted_end_at(s, i + 1, '"') + 1)
                } else if s[i] == '\'' {
                    if i + 1 < n && s[i + 1] == '\\' {
                        Some(quoted_end_at(s, i + 3, '\'') + 1)
                    } else if i + 2 < n && s[i + 1] < '\u{80}' && s[i + 2] == '\'' {
                        Some(i + 3)
                    } else {
                        None
                    }
                } else {
                    None
                }
            },
        }
    }
}

/// `source` with comments and string, byte-string, raw-string and char literals
/// removed, so that their text is never read as a `use` declaration.
pub fn strip_comments_and_strings(source: &Vec<char>) -> (out: Vec<char>)
    requires
        source.len() + 3 <= usize::MAX,
    ensures
        out@ == stripped(source@),
        out.len() <= source.len(),
{
    let mut out: Vec<char> = Vec::new();
    let mut i: usize = 0;
    while i < source.len()
        invariant
            i <= source.len() + 2,
            out.len() <= i,
            out.len() <= source.len(),
            source.len() + 3 <= usize::MAX,
            out@ + strip_from(source@, i as int) == stripped(source@),
        decreases source.len() + 3 - i,
    {
        proof {
            lemma_skip_to(source@, i as int);
        }
        match skip_at(source, i) {
            Some(j) => {
                i = j;
            },
            None => {
                let c = source[i];
                let ghost prev = out@;
                out.push(c);
                assert(strip_from(source@, i as int) == seq![c] + strip_from(source@, i + 1));
                assert(out@ + strip_from(source@, i + 1) =~= prev + (seq![c] + strip_from(
                    source@,
                    i + 1,
                )));
                i += 1;
            },
        }
    }
    assert(out@ + strip_from(source@, i as int) =~= out@);
    out
}

/// Whether a standalone `use` keyword begins at `p`.
pub open spec fn is_use_at(s: Seq<char>, p: int) -> bool {
    &&& 0 <= p
    &&& p + 3 <= s.len()
    &&& s[p] == 'u'
    &&& s[p + 1] == 's'
    &&& s[p + 2] == 'e'
    &&& (p == 0 || !is_ident_char(s[p - 1]))
    &&& (p + 3 >= s.len() || !is_ident_char(s[p + 3]))
}

/// The first index at or after `p` holding `c`.
pub open spec fn find_char(s: Seq<char>, p: int, c: char) -> Option<int>
    decreases s.len() - p,
{
    if p < 0 || p >= s.len() {
        None
    } else if s[p] == c {
        Some(p)
    } else {
        find_char(s, p + 1, c)
    }
}

pub proof fn lemma_find_char(s: Seq<char>, p: int, c: char)
    requires
        0 <= p,
    ensures
        find_char(s, p, c) matches Some(q) ==> p <= q < s.len() && s[q] == c,
        find_char(s, p, c) is None ==> forall|k: int| p <= k < s.len() ==> s[k] != c,
    decreases s.len() - p,
{
    if p < s.len() && s[p] != c {
        lemma_find_char(s, p + 1, c);
    }
}

/// The views of a sequence of character vectors.
pub open spec fn views(v: Seq<Vec<char>>) -> Seq<Seq<char>> {
    v.map_values(|x: Vec<char>| x@)
}

} // verus!
