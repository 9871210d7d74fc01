//! The runner's decisions: what the command line asks for, what each reaction
//! prints, and the exit code. `0` clean, warn-only or fully baselined; `1` an
//! enforced violation; `2` a constitution, scan or usage error. Performing the
//! work (running Cargo, reading and writing files, printing) is the caller's part.
use vstd::prelude::*;
use crate::baseline::{
    Baseline, a_fully_baselined_run_does_not_fail, apply_baseline, baseline_doc,
    baseline_error_message, baseline_from_text, mark, report_ids, sorted_entries, stale_of,
};
use crate::json::json_render;
use crate::model::{Constitution, Severity, strs};
use crate::order::sorted_ids;
use crate::projection::{
    constitution_doc, constitution_json, constitution_text, constitution_text_of, report_doc,
    report_json,
};
use crate::report::{
    Coverage, CoverageView, IdView, Outcome, OutcomeView, Report, ViolationId, ViolationView,
    any_fails,
};
use crate::workspace::text_view;
use crate::text::{
    append_str, chars_of, decimal, decimal_u64, extend_chars, has_prefix, owned, starts_with,
    str_eq, string_of, subvec,
};

verus! {

/// The value-taking flags, in the order the runner tries them.
pub open spec fn flag_name(k: int) -> Seq<char> {
    if k == 0 {
        "--manifest-path"@
    } else if k == 1 {
        "--baseline"@
    } else if k == 2 {
        "--write-baseline"@
    } else {
        "--format"@
    }
}

/// The `--flag=` prefix of each value-taking flag.
pub open spec fn flag_prefix(k: int) -> Seq<char> {
    if k == 0 {
        "--manifest-path="@
    } else if k == 1 {
        "--baseline="@
    } else if k == 2 {
        "--write-baseline="@
    } else {
        "--format="@
    }
}

/// The flag a token names exactly (`4` when none).
pub open spec fn flag_named(a: Seq<char>) -> int {
    if a == flag_name(0) {
        0
    } else if a == flag_name(1) {
        1
    } else if a == flag_name(2) {
        2
    } else if a == flag_name(3) {
        3
    } else {
        4
    }
}

/// The flag whose `--flag=` form a token uses (`4` when none).
pub open spec fn flag_prefixed(a: Seq<char>) -> int {
    if starts_with(a, flag_prefix(0)) {
        0
    } else if starts_with(a, flag_prefix(1)) {
        1
    } else if starts_with(a, flag_prefix(2)) {
        2
    } else if starts_with(a, flag_prefix(3)) {
        3
    } else {
        4
    }
}

/// The boolean flag: it takes no value.
pub open spec fn warn_uncovered_flag() -> Seq<char> {
    "--warn-uncovered"@
}

/// The flag values set by the tokens from `i` on, starting from `values` (one
/// per value-taking flag, then the boolean flag, set to the empty text when
/// given; a later setting of a flag replaces an earlier one); or the usage error
/// of the first token that is neither a flag with its value, a `--flag=value`,
/// nor the boolean flag.
pub open spec fn scan_flags(args: Seq<Seq<char>>, i: int, values: Seq<Option<Seq<char>>>) -> Result<
    Seq<Option<Seq<char>>>,
    Seq<char>,
>
    decreases args.len() - i,
{
    if i < 0 || i >= args.len() {
        Ok(values)
    } else {
        let a = args[i];
        let k = flag_named(a);
        if k < 4 {
            if i + 1 < args.len() {
                scan_flags(args, i + 2, values.update(k, Some(args[i + 1])))
            } else {
                Err(flag_name(k) + " requires a value"@)
            }
        } else {
            let p = flag_prefixed(a);
            if p < 4 {
                scan_flags(args, i + 1, values.update(p, Some(a.skip(flag_prefix(p).len() as int))))
            } else if a == warn_uncovered_flag() {
                scan_flags(args, i + 1, values.update(4, Some(Seq::empty())))
            } else {
                Err("unrecognized argument '"@ + a + "'"@)
            }
        }
    }
}

/// Scanning depends only on the tokens that remain.
proof fn lemma_scan_flags_suffix(
    a: Seq<Seq<char>>,
    i: int,
    b: Seq<Seq<char>>,
    j: int,
    values: Seq<Option<Seq<char>>>,
)
    requires
        0 <= i <= a.len(),
        0 <= j <= b.len(),
        a.skip(i) == b.skip(j),
    ensures
        scan_flags(a, i, values) == scan_flags(b, j, values),
    decreases a.len() - i,
{
    assert(a.len() - i == b.len() - j) by {
        assert(a.skip(i).len() == b.skip(j).len());
    }
    if i < a.len() {
        assert(a[i] == a.skip(i)[0] && b[j] == b.skip(j)[0]);
        if i + 1 < a.len() {
            assert(a[i + 1] == a.skip(i)[1] && b[j + 1] == b.skip(j)[1]);
        }
        let k = flag_named(a[i]);
        if k < 4 {
            if i + 1 < a.len() {
                if i + 2 <= a.len() {
                    assert(a.skip(i + 2) =~= a.skip(i).skip(2));
                    assert(b.skip(j + 2) =~= b.skip(j).skip(2));
                    lemma_scan_flags_suffix(a, i + 2, b, j + 2, values.update(k, Some(a[i + 1])));
                }
            }
        } else {
            assert(a.skip(i + 1) =~= a.skip(i).skip(1));
            assert(b.skip(j + 1) =~= b.skip(j).skip(1));
            let p = flag_prefixed(a[i]);
            if p < 4 {
                lemma_scan_flags_suffix(
                    a,
                    i + 1,
                    b,
                    j + 1,
                    values.update(p, Some(a[i].skip(flag_prefix(p).len() as int))),
                );
            } else {
                lemma_scan_flags_suffix(a, i + 1, b, j + 1, values.update(4, Some(Seq::empty())));
            }
        }
    }
}

/// The third characters of the flag names, which tell them apart.
proof fn lemma_flag_letters()
    ensures
        flag_name(0).len() > 2 && flag_name(0)[2] == 'm',
        flag_name(1).len() > 2 && flag_name(1)[2] == 'b',
        flag_name(2).len() > 2 && flag_name(2)[2] == 'w',
        flag_name(3).len() > 2 && flag_name(3)[2] == 'f',
        flag_prefix(0).len() > 2 && flag_prefix(0)[2] == 'm',
        flag_prefix(1).len() > 2 && flag_prefix(1)[2] == 'b',
        flag_prefix(2).len() > 2 && flag_prefix(2)[2] == 'w',
        flag_prefix(3).len() > 2 && flag_prefix(3)[2] == 'f',
        forall|k: int, c: int| 0 <= k < 4 && 0 <= c < flag_name(k).len() ==> flag_name(k)[c] != '=',
        forall|k: int| 0 <= k < 4 ==> flag_prefix(k) == flag_name(k) + seq!['='],
{
    reveal_strlit("--manifest-path");
    reveal_strlit("--baseline");
    reveal_strlit("--write-baseline");
    reveal_strlit("--format");
    reveal_strlit("--manifest-path=");
    reveal_strlit("--baseline=");
    reveal_strlit("--write-baseline=");
    reveal_strlit("--format=");
    assert(flag_prefix(0) =~= flag_name(0) + seq!['=']);
    assert(flag_prefix(1) =~= flag_name(1) + seq!['=']);
    assert(flag_prefix(2) =~= flag_name(2) + seq!['=']);
    assert(flag_prefix(3) =~= flag_name(3) + seq!['=']);
}

/// A value-taking flag may be given as two tokens, `--flag value`, or as one,
/// `--flag=value`: wherever the scan reaches such a flag, the two forms set the
/// same value and leave the same tokens to read, so they give the same result.
pub proof fn the_space_and_equals_forms_of_a_flag_agree(
    pre: Seq<Seq<char>>,
    k: int,
    v: Seq<char>,
    post: Seq<Seq<char>>,
    values: Seq<Option<Seq<char>>>,
)
    requires
        0 <= k < 4,
    ensures
        scan_flags(pre + seq![flag_name(k), v] + post, pre.len() as int, values) == scan_flags(
            pre + seq![flag_prefix(k) + v] + post,
            pre.len() as int,
            values,
        ),
{
    lemma_flag_letters();
    let a = pre + seq![flag_name(k), v] + post;
    let b = pre + seq![flag_prefix(k) + v] + post;
    let i = pre.len() as int;
    let t = flag_prefix(k) + v;
    assert(a[i] == flag_name(k));
    assert(a[i + 1] == v);
    assert(b[i] == t);
    assert(flag_named(flag_name(k)) == k) by {
        if k > 0 {
            assert(flag_name(k)[2] != flag_name(0)[2]);
        }
        if k > 1 {
            assert(flag_name(k)[2] != flag_name(1)[2]);
        }
        if k > 2 {
            assert(flag_name(k)[2] != flag_name(2)[2]);
        }
    }
    assert(flag_named(t) == 4) by {
        let n = flag_prefix(k).len() - 1;
        assert(t[n] == '=');
        assert forall|j: int| 0 <= j < 4 implies t != #[trigger] flag_name(j) by {
            if t == flag_name(j) {
                assert(flag_name(j)[n] == '=');
            }
        }
        assert(t != flag_name(0));
        assert(t != flag_name(1));
        assert(t != flag_name(2));
        assert(t != flag_name(3));
    }
    assert(flag_prefixed(t) == k) by {
        assert(t.take(flag_prefix(k).len() as int) =~= flag_prefix(k));
        assert forall|j: int| 0 <= j < 4 && j != k implies !starts_with(t, #[trigger] flag_prefix(j)) by {
            if starts_with(t, flag_prefix(j)) {
                assert(t.take(flag_prefix(j).len() as int)[2] == flag_prefix(j)[2]);
                assert(t[2] == flag_prefix(k)[2]);
            }
        }
        assert(starts_with(t, flag_prefix(k)));
        if k > 0 {
            assert(!starts_with(t, flag_prefix(0)));
        }
        if k > 1 {
            assert(!starts_with(t, flag_prefix(1)));
        }
        if k > 2 {
            assert(!starts_with(t, flag_prefix(2)));
        }
    }
    assert(t.skip(flag_prefix(k).len() as int) =~= v);
    assert(a.skip(i + 2) =~= post);
    assert(b.skip(i + 1) =~= post);
    lemma_scan_flags_suffix(a, i + 2, b, i + 1, values.update(k, Some(v)));
}

/// Which runner command was requested: `check` reacts against a workspace;
/// `list` projects the declared constitution and never reacts.
#[derive(Debug, Clone, Copy, PartialEq, Eq, Structural)]
pub enum Command {
    Check,
    List,
}

/// The command the arguments request, and where their flags begin. The command is
/// the first token after the program name; an absent or unrecognized one means
/// `check` and is read as a flag.
pub open spec fn command_of(args: Seq<Seq<char>>) -> (Command, int) {
    if args.len() >= 2 && args[1] == "list"@ {
        (Command::List, 2)
    } else if args.len() >= 2 && args[1] == "check"@ {
        (Command::Check, 2)
    } else {
        (Command::Check, 1)
    }
}

/// What the command line asks the runner to do.
#[derive(Debug)]
pub enum Request {
    /// Project the constitution, as JSON when `json`.
    List { json: bool },
    /// React against the workspace whose manifest is `manifest_path` (the nearest
    /// `Cargo.toml` when none is given), gating against the baseline at `baseline`
    /// or writing one to `write_baseline` (never both), report as JSON when
    /// `json`, and raise each workspace crate no boundary covers to an advisory
    /// when `warn_uncovered`.
    Check {
        manifest_path: Option<String>,
        baseline: Option<String>,
        write_baseline: Option<String>,
        json: bool,
        warn_uncovered: bool,
    },
}

/// The model of a request.
pub enum RequestView {
    List { json: bool },
    Check {
        manifest_path: Option<Seq<char>>,
        baseline: Option<Seq<char>>,
        write_baseline: Option<Seq<char>>,
        json: bool,
        warn_uncovered: bool,
    },
}

/// The model of an optional text.
pub open spec fn opt_view(o: Option<String>) -> Option<Seq<char>> {
    match o {
        Some(s) => Some(s@),
        None => None,
    }
}

impl View for Request {
    type V = RequestView;

    open spec fn view(&self) -> RequestView {
        match self {
            Request::List { json } => RequestView::List { json: *json },
            Request::Check {
                manifest_path,
                baseline,
                write_baseline,
                json,
                warn_uncovered,
            } => RequestView::Check {
                manifest_path: opt_view(*manifest_path),
                baseline: opt_view(*baseline),
                write_baseline: opt_view(*write_baseline),
                json: *json,
                warn_uncovered: *warn_uncovered,
            },
        }
    }
}

/// The usage error of a `list` given a flag that only `check` takes.
pub open spec fn check_only_message(flag: Seq<char>) -> Seq<char> {
    flag + " applies only to check"@
}

/// The request the arguments make (the program name first), or the usage error
/// they commit: a value-taking flag without its value, an unknown token, an
/// unknown `--format`, a `list` given a flag that only `check` takes, or both
/// baseline flags. A `check` without `--manifest-path` leaves the manifest to be
/// found.
pub open spec fn request_of(args: Seq<Seq<char>>) -> Result<RequestView, Seq<char>> {
    let (command, start) = command_of(args);
    match scan_flags(args, start, seq![None, None, None, None, None]) {
        Err(m) => Err(m),
        Ok(values) => {
            let format = values[3];
            if format is Some && format->0 != "text"@ && format->0 != "json"@ {
                Err("unknown --format '"@ + format->0 + "' (expected text or json)"@)
            } else {
                let json = format == Some("json"@);
                if command == Command::List {
                    if values[0] is Some {
                        Err(check_only_message(flag_name(0)))
                    } else if values[1] is Some {
                        Err(check_only_message(flag_name(1)))
                    } else if values[2] is Some {
                        Err(check_only_message(flag_name(2)))
                    } else if values[4] is Some {
                        Err(check_only_message(warn_uncovered_flag()))
                    } else {
                        Ok(RequestView::List { json })
                    }
                } else if values[1] is Some && values[2] is Some {
                    Err("--baseline and --write-baseline are mutually exclusive"@)
                } else {
                    Ok(
                        RequestView::Check {
                            manifest_path: values[0],
                            baseline: values[1],
                            write_baseline: values[2],
                            json,
                            warn_uncovered: values[4] is Some,
                        },
                    )
                }
            }
        },
    }
}

/// The boolean flag is told apart from every value-taking flag and its `=` form,
/// and from the command words.
proof fn lemma_warn_flag_word()
    ensures
        forall|k: int| 0 <= k < 4 ==> #[trigger] flag_name(k) != warn_uncovered_flag(),
        forall|k: int| 0 <= k < 4 ==> !starts_with(warn_uncovered_flag(), #[trigger] flag_prefix(k)),
        warn_uncovered_flag() != "list"@,
        warn_uncovered_flag() != "check"@,
{
    reveal_strlit("--warn-uncovered");
    reveal_strlit("--manifest-path");
    reveal_strlit("--baseline");
    reveal_strlit("--write-baseline");
    reveal_strlit("--format");
    reveal_strlit("--manifest-path=");
    reveal_strlit("--baseline=");
    reveal_strlit("--write-baseline=");
    reveal_strlit("--format=");
    reveal_strlit("list");
    reveal_strlit("check");
    let w = warn_uncovered_flag();
    assert(w[2] != flag_name(0)[2]);
    assert(w[2] != flag_name(1)[2]);
    assert(w[3] != flag_name(2)[3]);
    assert(w[2] != flag_name(3)[2]);
    assert(w.take(flag_prefix(0).len() as int)[2] != flag_prefix(0)[2]);
    assert(w.take(flag_prefix(1).len() as int)[2] != flag_prefix(1)[2]);
    assert(flag_prefix(2).len() > w.len());
    assert(w.take(flag_prefix(3).len() as int)[2] != flag_prefix(3)[2]);
    assert(w.len() != "list"@.len());
    assert(w.len() != "check"@.len());
}

/// Scanning keeps one value per flag.
proof fn lemma_scan_flags_len(args: Seq<Seq<char>>, i: int, values: Seq<Option<Seq<char>>>)
    requires
        values.len() == 5,
        scan_flags(args, i, values) is Ok,
    ensures
        scan_flags(args, i, values)->Ok_0.len() == 5,
    decreases args.len() - i,
{
    if 0 <= i < args.len() {
        let a = args[i];
        let k = flag_named(a);
        if k < 4 {
            if i + 1 < args.len() {
                lemma_scan_flags_len(args, i + 2, values.update(k, Some(args[i + 1])));
            }
        } else {
            let p = flag_prefixed(a);
            if p < 4 {
                lemma_scan_flags_len(
                    args,
                    i + 1,
                    values.update(p, Some(a.skip(flag_prefix(p).len() as int))),
                );
            } else if a == warn_uncovered_flag() {
                lemma_scan_flags_len(args, i + 1, values.update(4, Some(Seq::empty())));
            }
        }
    }
}

/// Scanning a command line with the boolean flag appended gives what scanning
/// it without gave, with the boolean flag set.
proof fn lemma_scan_flags_push_warn(
    args: Seq<Seq<char>>,
    i: int,
    values: Seq<Option<Seq<char>>>,
)
    requires
        0 <= i <= args.len(),
        scan_flags(args, i, values) is Ok,
    ensures
        scan_flags(args.push(warn_uncovered_flag()), i, values) == Ok::<
            Seq<Option<Seq<char>>>,
            Seq<char>,
        >(scan_flags(args, i, values)->Ok_0.update(4, Some(Seq::<char>::empty()))),
    decreases args.len() - i,
{
    lemma_warn_flag_word();
    let pushed = args.push(warn_uncovered_flag());
    let w = warn_uncovered_flag();
    if i == args.len() {
        assert(pushed[i] == w);
        assert(scan_flags(pushed, i + 1, values.update(4, Some(Seq::<char>::empty()))) == Ok::<
            Seq<Option<Seq<char>>>,
            Seq<char>,
        >(values.update(4, Some(Seq::<char>::empty()))));
        assert(flag_named(w) == 4) by {
            assert(flag_name(0) != w);
            assert(flag_name(1) != w);
            assert(flag_name(2) != w);
            assert(flag_name(3) != w);
        }
        assert(flag_prefixed(w) == 4) by {
            assert(!starts_with(w, flag_prefix(0)));
            assert(!starts_with(w, flag_prefix(1)));
            assert(!starts_with(w, flag_prefix(2)));
            assert(!starts_with(w, flag_prefix(3)));
        }
    } else {
        let a = args[i];
        assert(pushed[i] == a);
        let k = flag_named(a);
        if k < 4 {
            assert(pushed[i + 1] == args[i + 1]);
            lemma_scan_flags_push_warn(args, i + 2, values.update(k, Some(args[i + 1])));
        } else {
            let p = flag_prefixed(a);
            if p < 4 {
                lemma_scan_flags_push_warn(
                    args,
                    i + 1,
                    values.update(p, Some(a.skip(flag_prefix(p).len() as int))),
                );
            } else {
                lemma_scan_flags_push_warn(args, i + 1, values.update(4, Some(Seq::empty())));
            }
        }
    }
}

/// The advisory flag only sets the advisory field: appending `--warn-uncovered` to
/// a command line that requests a check requests the same check, with the
/// uncovered crates raised to advisories and every other field unchanged.
pub proof fn appending_warn_uncovered_only_sets_the_advisory(args: Seq<Seq<char>>)
    requires
        args.len() >= 1,
        request_of(args) is Ok,
        request_of(args)->Ok_0 is Check,
    ensures
        request_of(args.push(warn_uncovered_flag())) == Ok::<RequestView, Seq<char>>(
            match request_of(args)->Ok_0 {
                RequestView::Check { manifest_path, baseline, write_baseline, json, .. } =>
                    RequestView::Check {
                    manifest_path,
                    baseline,
                    write_baseline,
                    json,
                    warn_uncovered: true,
                },
                other => other,
            },
        ),
{
    lemma_warn_flag_word();
    let pushed = args.push(warn_uncovered_flag());
    if args.len() >= 2 {
        assert(pushed[1] == args[1]);
    } else {
        assert(pushed[1] == warn_uncovered_flag());
    }
    assert(command_of(pushed) == command_of(args));
    let (command, start) = command_of(args);
    let init: Seq<Option<Seq<char>>> = seq![None, None, None, None, None];
    lemma_scan_flags_push_warn(args, start, init);
    lemma_scan_flags_len(args, start, init);
    let vals = scan_flags(args, start, init)->Ok_0;
    let vals2 = vals.update(4, Some(Seq::<char>::empty()));
    assert(scan_flags(pushed, start, init) == Ok::<Seq<Option<Seq<char>>>, Seq<char>>(vals2));
    assert(vals2[0] == vals[0] && vals2[1] == vals[1] && vals2[2] == vals[2] && vals2[3] == vals[3]);
    assert(vals2[4] is Some);
}

/// The views of optional texts.
pub open spec fn opt_views(v: Seq<Option<String>>) -> Seq<Option<Seq<char>>> {
    v.map_values(|o: Option<String>| opt_view(o))
}

/// The flag a token names exactly (`4` when none).
fn named_flag(a: &str) -> (k: usize)
    ensures
        k == flag_named(a@),
{
    if str_eq(a, "--manifest-path") {
        0
    } else if str_eq(a, "--baseline") {
        1
    } else if str_eq(a, "--write-baseline") {
        2
    } else if str_eq(a, "--format") {
        3
    } else {
        4
    }
}

/// The value of a `--flag=value` token and its flag, or `None`.
fn prefixed_flag(a: &str) -> (r: Option<(usize, String)>)
    ensures
        match r {
            Some((k, v)) => k < 4 && k == flag_prefixed(a@) && v@ == a@.skip(
                flag_prefix(k as int).len() as int,
            ),
            None => flag_prefixed(a@) == 4,
        },
{
    let chars = chars_of(a);
    let prefixes = [
        chars_of("--manifest-path="),
        chars_of("--baseline="),
        chars_of("--write-baseline="),
        chars_of("--format="),
    ];
    let mut k: usize = 0;
    while k < 4
        invariant
            k <= 4,
            chars@ == a@,
            prefixes@.len() == 4,
            forall|j: int| 0 <= j < 4 ==> (#[trigger] prefixes@[j])@ == flag_prefix(j),
            forall|j: int| 0 <= j < k ==> !starts_with(a@, #[trigger] flag_prefix(j)),
        decreases 4 - k,
    {
        if has_prefix(&chars, &prefixes[k]) {
            let rest = subvec(&chars, prefixes[k].len(), chars.len());
            assert(a@.subrange(prefixes@[k as int]@.len() as int, a@.len() as int) =~= a@.skip(
                flag_prefix(k as int).len() as int,
            ));
            return Some((k, string_of(&rest)));
        }
        k += 1;
    }
    None
}

/// The usage error of a `list` given `flag`, which only `check` takes.
fn check_only(flag: &str) -> (m: String)
    ensures
        m@ == check_only_message(flag@),
{
    let mut m = chars_of(flag);
    append_str(&mut m, " applies only to check");
    string_of(&m)
}

/// Reads the command line (the program name first) into a request, or gives the
/// usage error it commits. A value-taking flag must be given its value; an unknown
/// flag, a misspelling or a stray positional is refused, never ignored.
pub fn parse_args(args: &Vec<String>) -> (r: Result<Request, String>)
    ensures
        match request_of(strs(args@)) {
            Ok(req) => r matches Ok(q) && q@ == req,
            Err(m) => r matches Err(e) && e@ == m,
        },
{
    let ghost all = strs(args@);
    let mut command = Command::Check;
    let mut i: usize = 1;
    if args.len() >= 2 {
        if str_eq(args[1].as_str(), "list") {
            command = Command::List;
            i = 2;
        } else if str_eq(args[1].as_str(), "check") {
            i = 2;
        }
    }
    assert(command_of(all) == (command, i as int));
    let mut values: Vec<Option<String>> = vec![None, None, None, None, None];
    assert(opt_views(values@) =~= seq![None, None, None, None, None]);
    let ghost start = i as int;
    while i < args.len()
        invariant
            all == strs(args@),
            start <= i,
            command_of(all) == (command, start),
            values@.len() == 5,
            scan_flags(all, start, seq![None, None, None, None, None]) == scan_flags(
                all,
                i as int,
                opt_views(values@),
            ),
        decreases args.len() - i,
    {
        let a = args[i].as_str();
        assert(all[i as int] == a@);
        let k = named_flag(a);
        if k < 4 {
            if i + 1 < args.len() {
                let v = owned(args[i + 1].as_str());
                let ghost before = opt_views(values@);
                values.set(k, Some(v));
                assert(opt_views(values@) =~= before.update(k as int, Some(all[i + 1])));
                i += 2;
            } else {
                let mut m = chars_of(a);
                let tail = chars_of(" requires a value");
                crate::text::extend_chars(&mut m, &tail);
                return Err(string_of(&m));
            }
        } else {
            match prefixed_flag(a) {
                Some((p, v)) => {
                    let ghost before = opt_views(values@);
                    let ghost vv = v@;
                    values.set(p, Some(v));
                    assert(opt_views(values@) =~= before.update(p as int, Some(vv)));
                    i += 1;
                },
                None if str_eq(a, "--warn-uncovered") => {
                    let ghost before = opt_views(values@);
                    values.set(4, Some(String::new()));
                    assert(opt_views(values@) =~= before.update(4, Some(Seq::<char>::empty())));
                    i += 1;
                },
                None => {
                    let mut m = chars_of("unrecognized argument '");
                    crate::text::append_str(&mut m, a);
                    crate::text::append_str(&mut m, "'");
                    return Err(string_of(&m));
                },
            }
        }
    }
    let ghost vals = opt_views(values@);
    assert(scan_flags(all, start, seq![None, None, None, None, None]) == Ok::<
        Seq<Option<Seq<char>>>,
        Seq<char>,
    >(vals));
    let mut json = false;
    match &values[3] {
        None => {},
        Some(f) => {
            if str_eq(f.as_str(), "json") {
                json = true;
            } else if !str_eq(f.as_str(), "text") {
                let mut m = chars_of("unknown --format '");
                crate::text::append_str(&mut m, f.as_str());
                crate::text::append_str(&mut m, "' (expected text or json)");
                return Err(string_of(&m));
            }
        },
    }
    assert(json == (vals[3] == Some("json"@))) by {
        assert(vals[3] == opt_view(values@[3]));
    }
    assert(vals[0] == opt_view(values@[0]));
    assert(vals[1] == opt_view(values@[1]));
    assert(vals[2] == opt_view(values@[2]));
    assert(vals[4] == opt_view(values@[4]));
    if command == Command::List {
        if values[0].is_some() {
            return Err(check_only("--manifest-path"));
        } else if values[1].is_some() {
            return Err(check_only("--baseline"));
        } else if values[2].is_some() {
            return Err(check_only("--write-baseline"));
        } else if values[4].is_some() {
            return Err(check_only("--warn-uncovered"));
        }
        return Ok(Request::List { json });
    }
    let manifest_path = match &values[0] {
        Some(m) => Some(owned(m.as_str())),
        None => None,
    };
    let warn_uncovered = values[4].is_some();
    if values[1].is_some() && values[2].is_some() {
        return Err(owned("--baseline and --write-baseline are mutually exclusive"));
    }
    let baseline = match &values[1] {
        Some(b) => Some(owned(b.as_str())),
        None => None,
    };
    let write_baseline = match &values[2] {
        Some(w) => Some(owned(w.as_str())),
        None => None,
    };
    Ok(Request::Check { manifest_path, baseline, write_baseline, json, warn_uncovered })
}


/// Where a line is printed.
#[derive(Debug, Clone, Copy, PartialEq, Eq, Structural)]
pub enum Stream {
    Stdout,
    Stderr,
}

/// One line the runner prints.
#[derive(Debug)]
pub struct Line {
    pub stream: Stream,
    pub text: String,
}

/// The model of a printed line.
pub struct LineView {
    pub stream: Stream,
    pub text: Seq<char>,
}

impl View for Line {
    type V = LineView;

    open spec fn view(&self) -> LineView {
        LineView { stream: self.stream, text: self.text@ }
    }
}

/// The models of printed lines.
pub open spec fn lines_view(ls: Seq<Line>) -> Seq<LineView> {
    ls.map_values(|l: Line| l@)
}

/// A line on standard output.
pub open spec fn out(text: Seq<char>) -> LineView {
    LineView { stream: Stream::Stdout, text }
}

/// A line on standard error.
pub open spec fn err(text: Seq<char>) -> LineView {
    LineView { stream: Stream::Stderr, text }
}

/// What a run without violations prints.
pub open spec fn clean_text() -> Seq<char> {
    "Modou: clean — no boundary violated"@
}

/// The block printed for one violation that no baseline records: a failure for an
/// enforced boundary, an advisory for a warn one.
pub open spec fn violation_block(v: ViolationView) -> Seq<LineView> {
    let (header, reaction) = match v.severity {
        Severity::Enforce => ("Modou violation"@, "CI failed."@),
        Severity::Warn => ("Modou advisory"@, "warning only — CI not failed."@),
    };
    seq![
        err(Seq::empty()),
        err(header),
        err(Seq::empty()),
        err("Boundary:\n  "@ + v.target),
        err("Rule:\n  "@ + v.rule),
        err("Found:\n  "@ + v.finding),
        err("Reason:\n  "@ + v.reason),
        err("Reaction:\n  "@ + reaction),
    ]
}

/// The blocks of the violations no baseline records, in order.
pub open spec fn violation_blocks(vs: Seq<ViolationView>) -> Seq<LineView>
    decreases vs.len(),
{
    if vs.len() == 0 {
        Seq::empty()
    } else {
        violation_blocks(vs.drop_last()) + if vs.last().baselined {
            Seq::empty()
        } else {
            violation_block(vs.last())
        }
    }
}

/// How many of the violations a baseline records.
pub open spec fn baselined_count(vs: Seq<ViolationView>) -> nat
    decreases vs.len(),
{
    if vs.len() == 0 {
        0
    } else {
        baselined_count(vs.drop_last()) + if vs.last().baselined {
            1nat
        } else {
            0nat
        }
    }
}

/// What a report prints: each violation no baseline records, then how many a
/// baseline suppressed; or the clean line when there is none.
pub open spec fn violation_lines(vs: Seq<ViolationView>) -> Seq<LineView> {
    if vs.len() == 0 {
        seq![err(clean_text())]
    } else {
        let n = baselined_count(vs);
        violation_blocks(vs) + if n > 0 {
            seq![
                err(
                    "Modou: "@ + decimal(n) + " pre-existing violation(s) suppressed by baseline"@,
                ),
            ]
        } else {
            Seq::empty()
        }
    }
}

/// The line reporting a constitution error.
pub open spec fn constitution_error_text(message: Seq<char>) -> Seq<char> {
    "Modou constitution error: "@ + message
}

/// What the text report of an outcome prints, all of it on standard error.
pub open spec fn report_lines(o: OutcomeView) -> Seq<LineView> {
    match o {
        OutcomeView::Clean => seq![err(clean_text())],
        OutcomeView::Violations(vs) => violation_lines(vs),
        OutcomeView::ConstitutionError(m) => seq![err(constitution_error_text(m))],
    }
}

/// The lines reporting stale baseline entries.
pub open spec fn stale_lines(stale: Seq<IdView>) -> Seq<LineView> {
    stale.map_values(
        |e: IdView|
            err(
                "Modou: stale baseline entry (no longer violated): "@ + e.target + " / "@ + e.rule
                    + " / "@ + e.finding,
            ),
    )
}

/// The usage text and the error, both on standard error.
pub open spec fn usage_lines(message: Seq<char>) -> Seq<LineView> {
    seq![
        err(
            "usage:\n  modou check [--manifest-path <path/to/Cargo.toml>] [--baseline <file> | --write-baseline <file>] [--format text|json] [--warn-uncovered]\n  modou list [--format text|json]"@,
        ),
        err("error: "@ + message),
    ]
}

/// An outcome with the baseline's entries marked on its violations.
pub open spec fn gated(o: OutcomeView, entries: Seq<IdView>) -> OutcomeView {
    match o {
        OutcomeView::Violations(vs) => OutcomeView::Violations(
            vs.map_values(|v: ViolationView| mark(v, entries)),
        ),
        _ => o,
    }
}

/// The violations of an outcome (none unless it has some).
pub open spec fn violations_of(o: OutcomeView) -> Seq<ViolationView> {
    match o {
        OutcomeView::Violations(vs) => vs,
        _ => Seq::empty(),
    }
}

/// The line summarising coverage.
pub open spec fn coverage_text(c: CoverageView) -> Seq<char> {
    "Modou: coverage — "@ + decimal(c.uncovered.len()) + " of "@ + decimal(c.workspace_crates)
        + " workspace crate(s) have no boundary"@
}

/// The advisory for a workspace crate that no boundary covers.
pub open spec fn uncovered_text(name: Seq<char>) -> Seq<char> {
    "Modou advisory: workspace crate '"@ + name
        + "' has no boundary (warning only — CI not failed.)"@
}

/// What the text report adds about coverage: nothing for a constitution that
/// could not be evaluated or when no coverage was observed; otherwise the coverage
/// line, then, when `warn`, an advisory for each uncovered crate. All of it is on
/// standard error and none of it changes the exit code.
pub open spec fn coverage_lines(cov: Option<CoverageView>, o: OutcomeView, warn: bool) -> Seq<
    LineView,
> {
    match cov {
        None => Seq::empty(),
        Some(c) => if o is ConstitutionError {
            Seq::empty()
        } else {
            seq![err(coverage_text(c))] + if warn {
                c.uncovered.map_values(|n: Seq<char>| err(uncovered_text(n)))
            } else {
                Seq::empty()
            }
        },
    }
}

/// The exit code and the lines of a check gated against a baseline. A
/// constitution error exits 2 whatever the baseline, which is then not read; an
/// unreadable or invalid baseline exits 2; otherwise the violations the baseline
/// records are suppressed, the stale entries are reported, and the gated outcome
/// decides the exit code.
pub open spec fn gate_result(
    o: OutcomeView,
    read: Result<Seq<char>, Seq<char>>,
    path: Seq<char>,
    json: bool,
    cov: Option<CoverageView>,
    warn: bool,
) -> (u8, Seq<LineView>) {
    match o {
        OutcomeView::ConstitutionError(m) => (2, constitution_error_lines(o, m, json)),
        _ => match read {
            Err(e) => (2, seq![err("Modou: cannot read baseline "@ + path + ": "@ + e)]),
            Ok(text) => match baseline_from_text(text) {
                Err(e) => (
                    2,
                    seq![err("Modou: invalid baseline "@ + path + ": "@ + baseline_error_message(e))],
                ),
                Ok(es) => {
                    let entries = sorted_entries(es);
                    let g = gated(o, entries);
                    let stale = stale_of(entries, violations_of(g));
                    (
                        g.exit_code(),
                        if json {
                            seq![out(json_render(report_doc(g, stale, cov)))]
                        } else {
                            violation_lines(violations_of(g)) + stale_lines(stale) + coverage_lines(
                                cov,
                                g,
                                warn,
                            )
                        },
                    )
                },
            },
        },
    }
}

/// What a constitution error prints: the JSON report, or the error line.
pub open spec fn constitution_error_lines(o: OutcomeView, m: Seq<char>, json: bool) -> Seq<
    LineView,
> {
    if json {
        seq![out(json_render(report_doc(o, Seq::empty(), None)))]
    } else {
        seq![err(constitution_error_text(m))]
    }
}

/// A line on standard output.
fn stdout_line(text: String) -> (l: Line)
    ensures
        l@ == out(text@),
{
    Line { stream: Stream::Stdout, text }
}

/// A line on standard error.
fn stderr_line(text: String) -> (l: Line)
    ensures
        l@ == err(text@),
{
    Line { stream: Stream::Stderr, text }
}

/// Appends `line` to `lines`.
fn push_line(lines: &mut Vec<Line>, line: Line)
    ensures
        lines_view(final(lines)@) == lines_view(old(lines)@).push(line@),
{
    let ghost before = lines_view(lines@);
    let ghost lv = line@;
    lines.push(line);
    assert(lines_view(lines@) =~= before.push(lv));
}

/// The answer to a usage mistake: the usage text and the error, both on standard
/// error, and exit code 2 (a usage mistake is not architectural drift).
pub fn usage(message: &str) -> (r: (u8, Vec<Line>))
    ensures
        r.0 == 2,
        lines_view(r.1@) == usage_lines(message@),
{
    let mut lines: Vec<Line> = Vec::new();
    push_line(
        &mut lines,
        stderr_line(
            owned(
                "usage:\n  modou check [--manifest-path <path/to/Cargo.toml>] [--baseline <file> | --write-baseline <file>] [--format text|json] [--warn-uncovered]\n  modou list [--format text|json]",
            ),
        ),
    );
    let mut m = chars_of("error: ");
    append_str(&mut m, message);
    push_line(&mut lines, stderr_line(string_of(&m)));
    assert(lines_view(lines@) =~= usage_lines(message@));
    (2, lines)
}

/// A line `label` followed by a newline, two spaces and `value`.
fn labelled(label: &str, value: &str) -> (line: Line)
    ensures
        line@ == err(label@ + value@),
{
    let mut m = chars_of(label);
    append_str(&mut m, value);
    stderr_line(string_of(&m))
}

/// Prints each violation that no baseline records as a failure (enforce) or an
/// advisory (warn), then how many a baseline suppressed; a report without
/// violations prints the clean line.
pub fn report_violations(report: &Report) -> (lines: Vec<Line>)
    ensures
        lines_view(lines@) == violation_lines(report@),
{
    let ghost vs = report@;
    let mut lines: Vec<Line> = Vec::new();
    if report.violations.len() == 0 {
        push_line(&mut lines, stderr_line(owned("Modou: clean — no boundary violated")));
        assert(lines_view(lines@) =~= violation_lines(vs));
        return lines;
    }
    let mut baselined: u64 = 0;
    let mut i: usize = 0;
    while i < report.violations.len()
        invariant
            i <= report.violations.len(),
            vs == report@,
            baselined == baselined_count(vs.take(i as int)),
            baselined <= i,
            lines_view(lines@) == violation_blocks(vs.take(i as int)),
        decreases report.violations.len() - i,
    {
        let v = &report.violations[i];
        assert(vs.take(i + 1).drop_last() =~= vs.take(i as int));
        assert(vs.take(i + 1).last() == v@);
        if v.baselined {
            baselined += 1;
            assert(lines_view(lines@) =~= violation_blocks(vs.take(i as int)) + Seq::<
                LineView,
            >::empty());
        } else {
            let ghost before = lines_view(lines@);
            let (header, reaction) = match v.severity {
                Severity::Enforce => ("Modou violation", "CI failed."),
                Severity::Warn => ("Modou advisory", "warning only — CI not failed."),
            };
            push_line(&mut lines, stderr_line(String::new()));
            push_line(&mut lines, stderr_line(owned(header)));
            push_line(&mut lines, stderr_line(String::new()));
            push_line(&mut lines, labelled("Boundary:\n  ", v.target.as_str()));
            push_line(&mut lines, labelled("Rule:\n  ", v.rule.as_str()));
            push_line(&mut lines, labelled("Found:\n  ", v.finding.as_str()));
            push_line(&mut lines, labelled("Reason:\n  ", v.reason.as_str()));
            push_line(&mut lines, labelled("Reaction:\n  ", reaction));
            assert(lines_view(lines@) =~= before + violation_block(v@));
        }
        i += 1;
    }
    assert(vs.take(report.violations.len() as int) =~= vs);
    if baselined > 0 {
        let mut m = chars_of("Modou: ");
        let digits = decimal_u64(baselined);
        extend_chars(&mut m, &digits);
        append_str(&mut m, " pre-existing violation(s) suppressed by baseline");
        push_line(&mut lines, stderr_line(string_of(&m)));
    }
    assert(lines_view(lines@) =~= violation_lines(vs));
    lines
}

/// The text report of an outcome.
pub fn report(outcome: &Outcome) -> (lines: Vec<Line>)
    ensures
        lines_view(lines@) == report_lines(outcome@),
{
    match outcome {
        Outcome::Clean => {
            let mut lines: Vec<Line> = Vec::new();
            push_line(&mut lines, stderr_line(owned("Modou: clean — no boundary violated")));
            assert(lines_view(lines@) =~= report_lines(outcome@));
            lines
        },
        Outcome::Violations(report) => report_violations(report),
        Outcome::ConstitutionError(message) => {
            let mut lines: Vec<Line> = Vec::new();
            let mut m = chars_of("Modou constitution error: ");
            append_str(&mut m, message.as_str());
            push_line(&mut lines, stderr_line(string_of(&m)));
            assert(lines_view(lines@) =~= report_lines(outcome@));
            lines
        },
    }
}


/// The lines reporting the stale entries `stale`, appended to `lines`.
fn push_stale_lines(lines: &mut Vec<Line>, stale: &Vec<ViolationId>)
    ensures
        lines_view(final(lines)@) == lines_view(old(lines)@) + stale_lines(
            stale@.map_values(|e: ViolationId| e@),
        ),
{
    let ghost es = stale@.map_values(|e: ViolationId| e@);
    let ghost start = lines_view(lines@);
    let mut k: usize = 0;
    while k < stale.len()
        invariant
            k <= stale.len(),
            es == stale@.map_values(|e: ViolationId| e@),
            lines_view(lines@) == start + stale_lines(es.take(k as int)),
        decreases stale.len() - k,
    {
        let e = &stale[k];
        let mut m = chars_of("Modou: stale baseline entry (no longer violated): ");
        append_str(&mut m, e.target.as_str());
        append_str(&mut m, " / ");
        append_str(&mut m, e.rule.as_str());
        append_str(&mut m, " / ");
        append_str(&mut m, e.finding.as_str());
        push_line(lines, stderr_line(string_of(&m)));
        assert(stale_lines(es.take(k + 1)) =~= stale_lines(es.take(k as int)).push(
            stale_lines(es)[k as int],
        ));
        k += 1;
    }
    assert(es.take(stale.len() as int) =~= es);
}

/// Appends what the text report says about coverage to `lines`.
fn push_coverage_lines(
    lines: &mut Vec<Line>,
    coverage: Option<&Coverage>,
    outcome: &Outcome,
    warn_uncovered: bool,
)
    ensures
        lines_view(final(lines)@) == lines_view(old(lines)@) + coverage_lines(
            match coverage {
                Some(c) => Some(c@),
                None => None,
            },
            outcome@,
            warn_uncovered,
        ),
{
    let c = match coverage {
        Some(c) => c,
        None => {
            assert(lines_view(lines@) =~= lines_view(lines@) + Seq::<LineView>::empty());
            return;
        },
    };
    if matches!(outcome, Outcome::ConstitutionError(_)) {
        assert(lines_view(lines@) =~= lines_view(lines@) + Seq::<LineView>::empty());
        return;
    }
    let ghost start = lines_view(lines@);
    let ghost us = c@.uncovered;
    let mut m = chars_of("Modou: coverage — ");
    let digits = decimal_u64(c.uncovered.len() as u64);
    extend_chars(&mut m, &digits);
    append_str(&mut m, " of ");
    let total = decimal_u64(c.workspace_crates as u64);
    extend_chars(&mut m, &total);
    append_str(&mut m, " workspace crate(s) have no boundary");
    push_line(lines, stderr_line(string_of(&m)));
    assert(lines_view(lines@) == start + seq![err(coverage_text(c@))]);
    if warn_uncovered {
        let mut k: usize = 0;
        while k < c.uncovered.len()
            invariant
                k <= c.uncovered.len(),
                us == c@.uncovered,
                lines_view(lines@) == start + seq![err(coverage_text(c@))] + us.take(
                    k as int,
                ).map_values(|n: Seq<char>| err(uncovered_text(n))),
            decreases c.uncovered.len() - k,
        {
            let mut t = chars_of("Modou advisory: workspace crate '");
            append_str(&mut t, c.uncovered[k].as_str());
            append_str(&mut t, "' has no boundary (warning only — CI not failed.)");
            push_line(lines, stderr_line(string_of(&t)));
            assert(us.take(k + 1).map_values(|n: Seq<char>| err(uncovered_text(n))) =~= us.take(
                k as int,
            ).map_values(|n: Seq<char>| err(uncovered_text(n))).push(err(uncovered_text(us[k as int]))));
            k += 1;
        }
        assert(us.take(c.uncovered.len() as int) =~= us);
    } else {
        assert(lines_view(lines@) =~= start + (seq![err(coverage_text(c@))] + Seq::<LineView>::empty()));
    }
}

/// What a constitution error prints: the JSON report, or the error line.
fn constitution_error_answer(outcome: &Outcome, json: bool) -> (lines: Vec<Line>)
    requires
        outcome@ is ConstitutionError,
    ensures
        lines_view(lines@) == constitution_error_lines(
            outcome@,
            outcome@->ConstitutionError_0,
            json,
        ),
{
    let mut lines: Vec<Line> = Vec::new();
    if json {
        let empty: Vec<ViolationId> = Vec::new();
        assert(empty@.map_values(|e: ViolationId| e@) =~= Seq::<IdView>::empty());
        push_line(&mut lines, stdout_line(report_json(outcome, empty.as_slice(), None)));
    } else if let Outcome::ConstitutionError(message) = outcome {
        let mut m = chars_of("Modou constitution error: ");
        append_str(&mut m, message.as_str());
        push_line(&mut lines, stderr_line(string_of(&m)));
    }
    assert(lines_view(lines@) =~= constitution_error_lines(
        outcome@,
        outcome@->ConstitutionError_0,
        json,
    ));
    lines
}

/// Gates an outcome against a baseline: the text read from `path`, or the reason
/// it could not be read. A constitution error is answered first (exit 2), whatever
/// the baseline. Otherwise recorded violations are suppressed, only new ones fail,
/// and stale entries are reported; an unreadable or invalid baseline exits 2.
pub fn gate(
    outcome: Outcome,
    baseline: Result<String, String>,
    path: &str,
    json: bool,
    coverage: Option<&Coverage>,
    warn_uncovered: bool,
) -> (r: (u8, Vec<Line>))
    ensures
        (r.0, lines_view(r.1@)) == gate_result(
            outcome@,
            text_view(baseline),
            path@,
            json,
            match coverage {
                Some(c) => Some(c@),
                None => None,
            },
            warn_uncovered,
        ),
{
    let ghost cov = match coverage {
        Some(c) => Some(c@),
        None => None,
    };
    if matches!(outcome, Outcome::ConstitutionError(_)) {
        let lines = constitution_error_answer(&outcome, json);
        return (2, lines);
    }
    let mut lines: Vec<Line> = Vec::new();
    let text = match &baseline {
        Ok(t) => t,
        Err(e) => {
            let mut m = chars_of("Modou: cannot read baseline ");
            append_str(&mut m, path);
            append_str(&mut m, ": ");
            append_str(&mut m, e.as_str());
            push_line(&mut lines, stderr_line(string_of(&m)));
            assert(lines_view(lines@) =~= gate_result(
                outcome@,
                text_view(baseline),
                path@,
                json,
                cov,
                warn_uncovered,
            ).1);
            return (2, lines);
        },
    };
    let b = match Baseline::from_json(text.as_str()) {
        Ok(b) => b,
        Err(e) => {
            let mut m = chars_of("Modou: invalid baseline ");
            append_str(&mut m, path);
            append_str(&mut m, ": ");
            append_str(&mut m, e.as_str());
            push_line(&mut lines, stderr_line(string_of(&m)));
            assert(lines_view(lines@) =~= gate_result(
                outcome@,
                text_view(baseline),
                path@,
                json,
                cov,
                warn_uncovered,
            ).1);
            return (2, lines);
        },
    };
    let ghost entries = b@;
    let gated_outcome = match outcome {
        Outcome::Violations(report) => {
            let mut report = report;
            apply_baseline(&mut report, &b);
            Outcome::Violations(report)
        },
        other => other,
    };
    assert(gated_outcome@ == gated(outcome@, entries));
    let empty = Report { violations: Vec::new() };
    let current: &Report = match &gated_outcome {
        Outcome::Violations(report) => report,
        _ => &empty,
    };
    assert(current@ =~= violations_of(gated_outcome@));
    let stale_refs = b.stale(current);
    let mut stale: Vec<ViolationId> = Vec::new();
    let mut k: usize = 0;
    while k < stale_refs.len()
        invariant
            k <= stale_refs.len(),
            stale@.map_values(|e: ViolationId| e@) == stale_refs@.map_values(
                |e: &ViolationId| e@,
            ).take(k as int),
        decreases stale_refs.len() - k,
    {
        let ghost before = stale@.map_values(|e: ViolationId| e@);
        stale.push(stale_refs[k].copy());
        assert(stale@.map_values(|e: ViolationId| e@) =~= before.push(stale_refs@[k as int]@));
        assert(stale_refs@.map_values(|e: &ViolationId| e@).take(k + 1) =~= stale_refs@.map_values(
            |e: &ViolationId| e@,
        ).take(k as int).push(stale_refs@[k as int]@));
        k += 1;
    }
    assert(stale_refs@.map_values(|e: &ViolationId| e@).take(k as int) =~= stale_refs@.map_values(
        |e: &ViolationId| e@,
    ));
    if json {
        push_line(&mut lines, stdout_line(report_json(&gated_outcome, stale.as_slice(), coverage)));
    } else {
        let report_lines = report_violations(current);
        let mut j: usize = 0;
        while j < report_lines.len()
            invariant
                j <= report_lines.len(),
                lines_view(lines@) == lines_view(report_lines@).take(j as int),
            decreases report_lines.len() - j,
        {
            let l = &report_lines[j];
            push_line(&mut lines, Line { stream: l.stream, text: owned(l.text.as_str()) });
            assert(lines_view(report_lines@).take(j + 1) =~= lines_view(report_lines@).take(
                j as int,
            ).push(report_lines@[j as int]@));
            j += 1;
        }
        assert(lines_view(report_lines@).take(j as int) =~= lines_view(report_lines@));
        push_stale_lines(&mut lines, &stale);
        push_coverage_lines(&mut lines, coverage, &gated_outcome, warn_uncovered);
    }
    let code = gated_outcome.exit_code();
    assert(lines_view(lines@) =~= gate_result(
        outcome@,
        text_view(baseline),
        path@,
        json,
        cov,
        warn_uncovered,
    ).1);
    (code, lines)
}


/// The refusal printed for a `--write-baseline` run whose constitution could not
/// be evaluated.
pub open spec fn refusal_lines(message: Seq<char>) -> Seq<LineView> {
    seq![
        err(constitution_error_text(message)),
        err("refusing to write a baseline from a constitution that could not be evaluated"@),
    ]
}

/// The baseline a `--write-baseline` run records, in its on-disk JSON form, with
/// the number of violations it was taken from; or, for a constitution that could
/// not be evaluated, the refusal to print (such a run exits 2). Recording is not
/// judging: gating the same outcome against what it writes exits 0.
pub fn baseline_to_write(outcome: &Outcome) -> (r: Result<(String, usize), (u8, Vec<Line>)>)
    ensures
        match outcome@ {
            OutcomeView::ConstitutionError(m) => r matches Err((code, lines)) && code == 2
                && lines_view(lines@) == refusal_lines(m),
            _ => r matches Ok((text, n)) && text@ == json_render(
                baseline_doc(sorted_entries(report_ids(violations_of(outcome@)))),
            ) && n == violations_of(outcome@).len() && forall|
                path: Seq<char>,
                json: bool,
                cov: Option<CoverageView>,
                warn: bool,
            | #[trigger] gate_result(outcome@, Ok(text@), path, json, cov, warn).0 == 0,
        },
{
    let empty = Report { violations: Vec::new() };
    let report: &Report = match outcome {
        Outcome::ConstitutionError(message) => {
            let mut lines: Vec<Line> = Vec::new();
            let mut m = chars_of("Modou constitution error: ");
            append_str(&mut m, message.as_str());
            push_line(&mut lines, stderr_line(string_of(&m)));
            push_line(
                &mut lines,
                stderr_line(
                    owned(
                        "refusing to write a baseline from a constitution that could not be evaluated",
                    ),
                ),
            );
            assert(lines_view(lines@) =~= refusal_lines(message@));
            return Err((2, lines));
        },
        Outcome::Violations(report) => report,
        Outcome::Clean => &empty,
    };
    assert(report@ =~= violations_of(outcome@));
    let b = Baseline::of(report);
    let text = b.to_json();
    proof {
        let vs = report@;
        let es = b@;
        crate::baseline::lemma_sorted_entries(es, es);
        assert forall|i: int| 0 <= i < vs.len() implies es.contains(#[trigger] vs[i].id()) by {
            assert(report_ids(vs)[i] == vs[i].id());
            assert(report_ids(vs).contains(vs[i].id()));
        }
        a_fully_baselined_run_does_not_fail(vs, es);
        assert forall|path: Seq<char>, json: bool, cov: Option<CoverageView>, warn: bool| #[trigger]
            gate_result(outcome@, Ok(text@), path, json, cov, warn).0 == 0 by {
            assert(gated(outcome@, es).exit_code() == 0);
        }
    }
    Ok((text, report.violations.len()))
}

/// What a plain check prints: the JSON report, or the text report followed by
/// what it says about coverage.
pub open spec fn response_lines(o: OutcomeView, json: bool, cov: Option<CoverageView>, warn: bool) -> Seq<
    LineView,
> {
    if json {
        seq![out(json_render(report_doc(o, Seq::empty(), cov)))]
    } else {
        report_lines(o) + coverage_lines(cov, o, warn)
    }
}

/// What a plain check prints, with its exit code, which is the outcome's: the
/// JSON report, or the text report and the coverage lines.
pub fn respond(outcome: &Outcome, json: bool, coverage: Option<&Coverage>, warn_uncovered: bool) -> (r: (
    u8,
    Vec<Line>,
))
    ensures
        r.0 == outcome@.exit_code(),
        lines_view(r.1@) == response_lines(
            outcome@,
            json,
            match coverage {
                Some(c) => Some(c@),
                None => None,
            },
            warn_uncovered,
        ),
{
    if json {
        let mut lines: Vec<Line> = Vec::new();
        let empty: Vec<ViolationId> = Vec::new();
        assert(empty@.map_values(|e: ViolationId| e@) =~= Seq::<IdView>::empty());
        push_line(&mut lines, stdout_line(report_json(outcome, empty.as_slice(), coverage)));
        (outcome.exit_code(), lines)
    } else {
        let mut lines = report(outcome);
        push_coverage_lines(&mut lines, coverage, outcome, warn_uncovered);
        (outcome.exit_code(), lines)
    }
}

/// What the runner does once a check has been evaluated: print an answer and
/// exit with its code, read the baseline at a path and gate against it, or write
/// a baseline's text to a path.
#[derive(Debug)]
pub enum Step {
    /// Print the lines and exit with the code.
    Answer(u8, Vec<Line>),
    /// Read the baseline file at the path, then [`gate`] against what was read.
    ReadBaseline(String),
    /// Write `text`, a baseline of `count` violations, to `path`, then answer with
    /// [`baseline_written`].
    WriteBaseline { path: String, text: String, count: usize },
}

/// The step after evaluating a check. Writing a baseline records the outcome,
/// unless the constitution could not be evaluated, which is refused (exit 2).
/// Gating reads the baseline, unless the constitution could not be evaluated,
/// which is answered at once (exit 2) so that no baseline can mask it. A plain
/// check answers with the outcome's own exit code.
pub fn next_step(
    outcome: &Outcome,
    coverage: Option<&Coverage>,
    baseline: Option<&str>,
    write_baseline: Option<&str>,
    json: bool,
    warn_uncovered: bool,
) -> (step: Step)
    ensures
        match write_baseline {
            Some(p) => match outcome@ {
                OutcomeView::ConstitutionError(m) => step matches Step::Answer(code, lines) && code
                    == 2 && lines_view(lines@) == refusal_lines(m),
                _ => step matches Step::WriteBaseline { path, text, count } && path@ == p@ && text@
                    == json_render(baseline_doc(sorted_entries(report_ids(violations_of(outcome@)))))
                    && count == violations_of(outcome@).len(),
            },
            None => match baseline {
                Some(p) => match outcome@ {
                    OutcomeView::ConstitutionError(m) => step matches Step::Answer(code, lines)
                        && code == 2 && lines_view(lines@) == constitution_error_lines(
                        outcome@,
                        m,
                        json,
                    ),
                    _ => step matches Step::ReadBaseline(path) && path@ == p@,
                },
                None => step matches Step::Answer(code, lines) && code == outcome@.exit_code()
                    && lines_view(lines@) == response_lines(
                    outcome@,
                    json,
                    match coverage {
                        Some(c) => Some(c@),
                        None => None,
                    },
                    warn_uncovered,
                ),
            },
        },
{
    if let Some(path) = write_baseline {
        return match baseline_to_write(outcome) {
            Err((code, lines)) => Step::Answer(code, lines),
            Ok((text, count)) => Step::WriteBaseline { path: owned(path), text, count },
        };
    }
    if let Some(path) = baseline {
        if matches!(outcome, Outcome::ConstitutionError(_)) {
            return Step::Answer(2, constitution_error_answer(outcome, json));
        }
        return Step::ReadBaseline(owned(path));
    }
    let (code, lines) = respond(outcome, json, coverage, warn_uncovered);
    Step::Answer(code, lines)
}

/// The message when no `Cargo.toml` is found at or above the directory the search
/// started from.
pub open spec fn no_manifest_text(start: Seq<char>) -> Seq<char> {
    "Modou scan error: no Cargo.toml found in "@ + start + " or any parent directory"@
}

/// The answer when `check` was given no `--manifest-path` and no `Cargo.toml` is
/// found at or above `start`, the directory the search started from: the
/// workspace cannot be evaluated, so the run exits 2.
pub fn no_manifest_found(start: &str) -> (r: (u8, Vec<Line>))
    ensures
        r.0 == 2,
        lines_view(r.1@) == seq![err(no_manifest_text(start@))],
{
    let mut lines: Vec<Line> = Vec::new();
    let mut m = chars_of("Modou scan error: no Cargo.toml found in ");
    append_str(&mut m, start);
    append_str(&mut m, " or any parent directory");
    push_line(&mut lines, stderr_line(string_of(&m)));
    assert(lines_view(lines@) =~= seq![err(no_manifest_text(start@))]);
    (2, lines)
}

/// What `list` prints: the constitution's JSON or text projection. It observes
/// nothing and always exits 0.
pub fn listing(constitution: &Constitution, json: bool) -> (r: (u8, Vec<Line>))
    ensures
        r.0 == 0,
        lines_view(r.1@) == seq![
            out(
                if json {
                    json_render(constitution_doc(constitution@))
                } else {
                    constitution_text_of(constitution@)
                },
            ),
        ],
{
    let mut lines: Vec<Line> = Vec::new();
    let text = if json {
        constitution_json(constitution)
    } else {
        constitution_text(constitution)
    };
    push_line(&mut lines, stdout_line(text));
    assert(lines_view(lines@) =~= seq![
        out(
            if json {
                json_render(constitution_doc(constitution@))
            } else {
                constitution_text_of(constitution@)
            },
        ),
    ]);
    (0, lines)
}

/// A gate fails exactly on what the baseline does not record: against a valid
/// baseline, a run with violations exits 1 if and only if one of them is
/// enforced, not already baselined, and absent from the baseline.
pub proof fn a_gate_fails_only_on_new_enforced_violations(
    vs: Seq<ViolationView>,
    text: Seq<char>,
    path: Seq<char>,
    json: bool,
    cov: Option<CoverageView>,
    warn: bool,
)
    requires
        baseline_from_text(text) is Ok,
    ensures
        (gate_result(OutcomeView::Violations(vs), Ok(text), path, json, cov, warn).0 == 1) <==> exists|
            i: int,
        |
            0 <= i < vs.len() && (#[trigger] vs[i]).fails() && !baseline_from_text(
                text,
            )->Ok_0.contains(vs[i].id()),
{
    let es = baseline_from_text(text)->Ok_0;
    let entries = sorted_entries(es);
    let t = choose|t: Seq<IdView>|
        sorted_ids(t) && forall|x: IdView| #[trigger] t.contains(x) <==> es.contains(x);
    assert(exists|t: Seq<IdView>|
        sorted_ids(t) && forall|x: IdView| #[trigger] t.contains(x) <==> es.contains(x)) by {
        crate::order::lemma_sorted_exists(es);
    }
    assert(forall|x: IdView| #[trigger] entries.contains(x) <==> es.contains(x));
    let marked = vs.map_values(|v: ViolationView| mark(v, entries));
    if any_fails(marked) {
        let i = choose|i: int| 0 <= i < marked.len() && #[trigger] marked[i].fails();
        assert(vs[i].fails() && !es.contains(vs[i].id()));
    }
    if exists|i: int| 0 <= i < vs.len() && (#[trigger] vs[i]).fails() && !es.contains(vs[i].id()) {
        let i = choose|i: int| 0 <= i < vs.len() && (#[trigger] vs[i]).fails() && !es.contains(
            vs[i].id(),
        );
        assert(marked[i].fails());
    }
}


/// Gating never hides a constitution error: whatever the baseline, it exits 2.
pub proof fn a_constitution_error_is_reported_before_the_baseline(
    m: Seq<char>,
    read1: Result<Seq<char>, Seq<char>>,
    read2: Result<Seq<char>, Seq<char>>,
    path: Seq<char>,
    json: bool,
    cov: Option<CoverageView>,
    warn: bool,
)
    ensures
        gate_result(OutcomeView::ConstitutionError(m), read1, path, json, cov, warn) == gate_result(
            OutcomeView::ConstitutionError(m),
            read2,
            path,
            json,
            cov,
            warn,
        ),
        gate_result(OutcomeView::ConstitutionError(m), read1, path, json, cov, warn).0 == 2,
{
}

/// Coverage never changes the exit code: with or without a coverage summary, and
/// with or without advisories for the uncovered crates, a gated check exits with
/// the same code, and a plain check exits with its outcome's code.
pub proof fn coverage_never_changes_the_exit_code(
    o: OutcomeView,
    read: Result<Seq<char>, Seq<char>>,
    path: Seq<char>,
    json: bool,
    cov1: Option<CoverageView>,
    warn1: bool,
    cov2: Option<CoverageView>,
    warn2: bool,
)
    ensures
        gate_result(o, read, path, json, cov1, warn1).0 == gate_result(
            o,
            read,
            path,
            json,
            cov2,
            warn2,
        ).0,
{
}

/// The answer once a baseline of `count` violations was, or could not be, written
/// to `path`: exit 0 with the count, or exit 2 with the write error.
pub open spec fn write_result(count: nat, path: Seq<char>, written: Result<(), Seq<char>>) -> (
    u8,
    Seq<LineView>,
) {
    match written {
        Ok(()) => (
            0,
            seq![err("Modou: wrote "@ + decimal(count) + " violation(s) to baseline "@ + path)],
        ),
        Err(e) => (2, seq![err("Modou: cannot write baseline "@ + path + ": "@ + e)]),
    }
}

/// What a `--write-baseline` run answers once the baseline of `count` violations
/// was written to `path`, or once writing it failed with `result`'s error.
pub fn baseline_written(count: usize, path: &str, result: Result<(), String>) -> (r: (u8, Vec<Line>))
    ensures
        (r.0, lines_view(r.1@)) == write_result(
            count as nat,
            path@,
            match result {
                Ok(()) => Ok(()),
                Err(e) => Err(e@),
            },
        ),
{
    let mut lines: Vec<Line> = Vec::new();
    match &result {
        Ok(()) => {
            let mut m = chars_of("Modou: wrote ");
            let digits = decimal_u64(count as u64);
            extend_chars(&mut m, &digits);
            append_str(&mut m, " violation(s) to baseline ");
            append_str(&mut m, path);
            push_line(&mut lines, stderr_line(string_of(&m)));
            assert(lines_view(lines@) =~= seq![
                err("Modou: wrote "@ + decimal(count as nat) + " violation(s) to baseline "@ + path@),
            ]);
            (0, lines)
        },
        Err(e) => {
            let mut m = chars_of("Modou: cannot write baseline ");
            append_str(&mut m, path);
            append_str(&mut m, ": ");
            append_str(&mut m, e.as_str());
            push_line(&mut lines, stderr_line(string_of(&m)));
            assert(lines_view(lines@) =~= seq![
                err("Modou: cannot write baseline "@ + path@ + ": "@ + e@),
            ]);
            (2, lines)
        },
    }
}

} // verus!
