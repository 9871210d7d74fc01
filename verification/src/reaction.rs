//! The reaction: a constitution checked against an observed workspace. Each
//! target is resolved to a workspace package, observed (its declared dependencies,
//! or its source imports), compared with its rule, and the outcome returned. An
//! unresolvable target or an unreadable workspace is a constitution error, never a
//! silent pass.
use vstd::prelude::*;
use crate::imports::{
    import_list, imported_module_paths, inner_module, inner_module_of, insert_sorted, join_double_colon, lemma_sorted_set,
    lemma_sorted_set_elements, same_elements, sorted_set, strictly_sorted, string_views,
};
use crate::json::{Json, JsonView, items_view, json_parse, lemma_items_view, parse_json};
use crate::metadata::{
    find_package, holds, member_names_of, package_named, rule_findings, workspace_members,
};
use crate::model::{
    Boundary, BoundaryView, Constitution, ConstitutionView, CrateBoundary, CrateBoundaryView,
    ModuleBoundary, ModuleBoundaryView, ModuleRule, ModuleRuleView, boundary_views,
    module_rule_label, rule_label, strs,
};
use crate::report::{
    BoundaryKind, Coverage, CoverageView, Outcome, OutcomeView, Report, Violation, ViolationView,
    coverage_view, violation_views,
};
use crate::sites::{chain_views, inline_modules, inline_modules_of, top_mods, top_mods_of};
use crate::strip::{strip_comments_and_strings, stripped, views};
use crate::text::{
    append_str, chars_eq, chars_of, has_prefix, owned, seq_lt, starts_with, str_eq, string_of,
    subvec,
};
use crate::workspace::{
    CrateSources, CrateSourcesView, SourceFile, SourceFileView, Workspace, WorkspaceView,
    ends_in_rs, file_module, file_views, module_segments, scannable_file, scannable_sources,
    sources_at, stem, unreadable_at,
};

verus! {

/// Whether `path` is `module` or a module beneath it.
pub open spec fn at_or_beneath(path: Seq<char>, module: Seq<char>) -> bool {
    path == module || starts_with(path, module + seq![':', ':'])
}

/// Whether a readable file of `all` that defines the module with segments
/// `parent` declares a submodule `name` at its top level (`mod name;` or
/// `mod name { … }`).
pub open spec fn declares(all: Seq<SourceFileView>, parent: Seq<Seq<char>>, name: Seq<char>) -> bool {
    exists|g: int|
        0 <= g < all.len() && all[g].text is Ok && module_segments(all[g].components) == parent
            && #[trigger] top_mods(stripped(all[g].text->Ok_0)).contains(name)
}

/// Whether the module with segments `segs` is reachable from the crate root
/// through the `mod` declarations of the files of `all`: the root always is, and
/// a submodule is when its parent is and a file of the parent declares it. A
/// file of an unreachable module is not compiled, so it is not governed.
pub open spec fn reachable(all: Seq<SourceFileView>, segs: Seq<Seq<char>>) -> bool
    decreases segs.len(),
{
    if segs.len() <= 1 {
        true
    } else {
        reachable(all, segs.drop_last()) && declares(all, segs.drop_last(), segs.last())
    }
}

/// The files of `files` whose module is reachable among `all` and is `module` or
/// beneath it, each with its module path, in order.
pub open spec fn governed_among(
    all: Seq<SourceFileView>,
    files: Seq<SourceFileView>,
    module: Seq<char>,
) -> Seq<(SourceFileView, Seq<char>)>
    decreases files.len(),
{
    if files.len() == 0 {
        Seq::empty()
    } else {
        let rest = governed_among(all, files.drop_last(), module);
        let m = file_module(files.last().components);
        if at_or_beneath(m, module) && reachable(all, module_segments(files.last().components)) {
            rest.push((files.last(), m))
        } else {
            rest
        }
    }
}

/// The files of a crate that a module boundary on `module` governs: those whose
/// module is reachable from the crate root and is `module` or beneath it, each
/// with its module path, in order.
pub open spec fn governed(files: Seq<SourceFileView>, module: Seq<char>) -> Seq<
    (SourceFileView, Seq<char>),
> {
    governed_among(files, files, module)
}

/// Every file a module boundary governs is reachable from the crate root through
/// `mod` declarations and lies at or beneath the governed module, and is listed
/// with the module path it defines: a file that no `mod` declares is never
/// governed.
pub proof fn only_declared_files_are_governed(files: Seq<SourceFileView>, module: Seq<char>)
    ensures
        forall|i: int|
            0 <= i < governed(files, module).len() ==> {
                let (f, m) = #[trigger] governed(files, module)[i];
                &&& reachable(files, module_segments(f.components))
                &&& m == file_module(f.components)
                &&& at_or_beneath(m, module)
            },
{
    lemma_governed_among(files, files, module);
}

/// A module boundary governs every file at or beneath its module that is
/// reachable from the crate root through `mod` declarations: in a crate whose
/// every file is declared by its parent, every file at or beneath the module.
pub proof fn every_reachable_file_beneath_the_module_is_governed(
    files: Seq<SourceFileView>,
    module: Seq<char>,
    i: int,
)
    requires
        0 <= i < files.len(),
        at_or_beneath(file_module(files[i].components), module),
        reachable(files, module_segments(files[i].components)),
    ensures
        governed(files, module).contains((files[i], file_module(files[i].components))),
{
    lemma_governed_among_complete(files, files, module, i);
}

proof fn lemma_governed_among_complete(
    all: Seq<SourceFileView>,
    files: Seq<SourceFileView>,
    module: Seq<char>,
    i: int,
)
    requires
        0 <= i < files.len(),
        at_or_beneath(file_module(files[i].components), module),
        reachable(all, module_segments(files[i].components)),
    ensures
        governed_among(all, files, module).contains((files[i], file_module(files[i].components))),
    decreases files.len(),
{
    let rest = governed_among(all, files.drop_last(), module);
    let g = governed_among(all, files, module);
    let item = (files[i], file_module(files[i].components));
    if i == files.len() - 1 {
        assert(files.last() == files[i]);
        assert(g == rest.push(item));
        assert(g[rest.len() as int] == item);
    } else {
        assert(files.drop_last()[i] == files[i]);
        lemma_governed_among_complete(all, files.drop_last(), module, i);
        let k = choose|k: int| 0 <= k < rest.len() && rest[k] == item;
        let m = file_module(files.last().components);
        if at_or_beneath(m, module) && reachable(all, module_segments(files.last().components)) {
            assert(g == rest.push((files.last(), m)));
            assert(g[k] == item);
        } else {
            assert(g == rest);
        }
    }
}

proof fn lemma_governed_among(
    all: Seq<SourceFileView>,
    files: Seq<SourceFileView>,
    module: Seq<char>,
)
    ensures
        forall|i: int|
            0 <= i < governed_among(all, files, module).len() ==> {
                let (f, m) = #[trigger] governed_among(all, files, module)[i];
                &&& reachable(all, module_segments(f.components))
                &&& m == file_module(f.components)
                &&& at_or_beneath(m, module)
            },
    decreases files.len(),
{
    if files.len() > 0 {
        lemma_governed_among(all, files.drop_last(), module);
        let rest = governed_among(all, files.drop_last(), module);
        let g = governed_among(all, files, module);
        assert forall|i: int| 0 <= i < g.len() implies {
            let (f, m) = #[trigger] g[i];
            &&& reachable(all, module_segments(f.components))
            &&& m == file_module(f.components)
            &&& at_or_beneath(m, module)
        } by {
            if i < rest.len() {
                assert(g[i] == rest[i]);
            }
        }
    }
}

/// Whether an import `p` made from the observed files offends a module rule on
/// `module`: for must-not-import, `p` reaches the forbidden module; for the
/// allowlist, `p` lies outside `module`'s own subtree and outside every allowed
/// module's; for must-not-be-imported-by, `p` reaches `module`.
pub open spec fn offends(p: Seq<char>, rule: ModuleRuleView, module: Seq<char>) -> bool {
    match rule {
        ModuleRuleView::MustNotImport(forbidden) => at_or_beneath(p, forbidden),
        ModuleRuleView::RestrictImportsTo(allowed) => !at_or_beneath(p, module) && !within_any(
            p,
            allowed,
        ),
        ModuleRuleView::MustNotBeImportedBy(_) => at_or_beneath(p, module),
    }
}

/// Whether `p` is one of `modules` or beneath one of them.
pub open spec fn within_any(p: Seq<char>, modules: Seq<Seq<char>>) -> bool {
    exists|i: int| 0 <= i < modules.len() && at_or_beneath(p, #[trigger] modules[i])
}

/// The module whose files a module rule observes: the importer for
/// must-not-be-imported-by, the governed module otherwise.
pub open spec fn observed_module(b: ModuleBoundaryView) -> Seq<char> {
    match b.rule {
        ModuleRuleView::MustNotBeImportedBy(importer) => importer,
        _ => b.module,
    }
}

/// Whether a module rule can never react: an allowlist or an inbound rule on
/// `crate`, beneath which every internal module lies.
pub open spec fn never_reacts(b: ModuleBoundaryView) -> bool {
    b.module == "crate"@ && !(b.rule is MustNotImport)
}

/// The paths among `paths` that offend the rule, in order.
pub open spec fn offending(paths: Seq<Seq<char>>, rule: ModuleRuleView, module: Seq<char>) -> Seq<
    Seq<char>,
>
    decreases paths.len(),
{
    if paths.len() == 0 {
        Seq::empty()
    } else {
        let rest = offending(paths.drop_last(), rule, module);
        if offends(paths.last(), rule, module) {
            rest.push(paths.last())
        } else {
            rest
        }
    }
}

/// The violation a crate boundary reports for one finding.
pub open spec fn crate_violation(b: CrateBoundaryView, finding: Seq<char>) -> ViolationView {
    ViolationView {
        kind: BoundaryKind::Crate,
        target: b.package,
        rule: rule_label(b.rule),
        finding,
        reason: b.reason,
        severity: b.severity,
        baselined: false,
    }
}

/// The violation a module boundary reports for one offending import.
pub open spec fn module_violation(b: ModuleBoundaryView, finding: Seq<char>) -> ViolationView {
    ViolationView {
        kind: BoundaryKind::Module,
        target: b.module,
        rule: module_rule_label(b.rule),
        finding,
        reason: b.reason,
        severity: b.severity,
        baselined: false,
    }
}

/// The message for a target crate that is not a workspace package.
pub open spec fn not_found_message(package: Seq<char>) -> Seq<char> {
    "target crate '"@ + package + "' not found in the workspace"@
}

/// The message for a crate whose source directory cannot be located.
pub open spec fn no_src_message(package: Seq<char>) -> Seq<char> {
    "cannot locate src for crate '"@ + package + "'"@
}

/// The message for a module rule that can never react.
pub open spec fn never_reacts_message(label: Seq<char>) -> Seq<char> {
    "a '"@ + label + "' boundary on 'crate' can never react: every internal module is beneath crate"@
}

/// The message for a governed module that no source file defines.
pub open spec fn no_module_message(module: Seq<char>, package: Seq<char>) -> Seq<char> {
    "module '"@ + module + "' not found in crate '"@ + package
        + "' source (file-based modules only)"@
}

/// The message for a governed module that is an inline `mod` block of a file.
pub open spec fn inline_target_message(module: Seq<char>, package: Seq<char>) -> Seq<char> {
    "module '"@ + module + "' in crate '"@ + package
        + "' is an inline `mod` block; only file-based modules can be governed"@
}

/// Whether `module` is an inline `mod name { … }` block of one of the readable
/// files.
pub open spec fn inline_target(files: Seq<SourceFileView>, module: Seq<char>) -> bool {
    exists|k: int, c: Seq<Seq<char>>|
        0 <= k < files.len() && files[k].text is Ok && #[trigger] inline_modules(
            stripped(files[k].text->Ok_0),
        ).contains(c) && inner_module(file_module(files[k].components), c) == module
}

/// The message for a governed file that could not be read.
pub open spec fn unreadable_message(display: Seq<char>, error: Seq<char>) -> Seq<char> {
    "cannot read governed source file '"@ + display + "': "@ + error
}

/// The message for a governed source directory that could not be read.
pub open spec fn unreadable_dir_message(dir: Seq<char>, error: Seq<char>) -> Seq<char> {
    "cannot read governed source directory '"@ + dir + "': "@ + error
}

/// The message for a workspace whose metadata could not be read.
pub open spec fn workspace_message(manifest: Seq<char>, error: Seq<char>) -> Seq<char> {
    "cannot read target workspace at "@ + manifest + ": "@ + error
}

/// Every import of the governed files, file after file, with repetitions; or the
/// message for the first file that could not be read.
pub open spec fn governed_imports(gov: Seq<(SourceFileView, Seq<char>)>) -> Result<
    Seq<Seq<char>>,
    Seq<char>,
>
    decreases gov.len(),
{
    if gov.len() == 0 {
        Ok(Seq::empty())
    } else {
        match governed_imports(gov.drop_last()) {
            Err(m) => Err(m),
            Ok(ps) => {
                let (file, current) = gov.last();
                match file.text {
                    Err(e) => Err(unreadable_message(file.display, e)),
                    Ok(t) => Ok(ps + import_list(t, current)),
                }
            },
        }
    }
}

/// The violations of a module boundary in its observed files: for the inbound
/// rule, one per importing module that reaches in, naming that importer; for the
/// others, one per distinct offending import, whichever files make it; in
/// increasing order; or the message for the first file that could not be read.
pub open spec fn file_violations(
    gov: Seq<(SourceFileView, Seq<char>)>,
    b: ModuleBoundaryView,
) -> Result<Seq<ViolationView>, Seq<char>> {
    match b.rule {
        ModuleRuleView::MustNotBeImportedBy(_) => match reaching_importers(gov, b.module) {
            Err(m) => Err(m),
            Ok(ms) => Ok(sorted_set(ms).map_values(|m: Seq<char>| module_violation(b, m))),
        },
        _ => match governed_imports(gov) {
            Err(m) => Err(m),
            Ok(ps) => Ok(
                offending(sorted_set(ps), b.rule, b.module).map_values(
                    |p: Seq<char>| module_violation(b, p),
                ),
            ),
        },
    }
}

/// Whether some import of `imports` is `target` or beneath it.
pub open spec fn reaches_into(imports: Seq<Seq<char>>, target: Seq<char>) -> bool {
    exists|i: int| 0 <= i < imports.len() && at_or_beneath(#[trigger] imports[i], target)
}

/// The modules of the observed files that import `target` (or anything beneath
/// it), file after file, with repetitions; or the message for the first file that
/// could not be read.
pub open spec fn reaching_importers(gov: Seq<(SourceFileView, Seq<char>)>, target: Seq<char>) -> Result<
    Seq<Seq<char>>,
    Seq<char>,
>
    decreases gov.len(),
{
    if gov.len() == 0 {
        Ok(Seq::empty())
    } else {
        match reaching_importers(gov.drop_last(), target) {
            Err(m) => Err(m),
            Ok(ms) => {
                let (file, current) = gov.last();
                match file.text {
                    Err(e) => Err(unreadable_message(file.display, e)),
                    Ok(t) => if reaches_into(import_list(t, current), target) {
                        Ok(ms.push(current))
                    } else {
                        Ok(ms)
                    },
                }
            },
        }
    }
}

/// The violations of a crate boundary, or its constitution error.
pub open spec fn crate_boundary_violations(b: CrateBoundaryView, doc: JsonView) -> Result<
    Seq<ViolationView>,
    Seq<char>,
> {
    match package_named(doc, b.package) {
        None => Err(not_found_message(b.package)),
        Some(p) => Ok(
            rule_findings(b.rule, p, workspace_members(doc), b.kind).map_values(
                |f: Seq<char>| crate_violation(b, f),
            ),
        ),
    }
}

/// The violations of a module boundary, or its constitution error.
pub open spec fn module_boundary_violations(
    b: ModuleBoundaryView,
    doc: JsonView,
    sources: Seq<CrateSourcesView>,
) -> Result<Seq<ViolationView>, Seq<char>> {
    if never_reacts(b) {
        Err(never_reacts_message(module_rule_label(b.rule)))
    } else {
        module_boundary_observed(b, doc, sources)
    }
}

/// The violations of a module boundary that can react, or its constitution error.
pub open spec fn module_boundary_observed(
    b: ModuleBoundaryView,
    doc: JsonView,
    sources: Seq<CrateSourcesView>,
) -> Result<Seq<ViolationView>, Seq<char>> {
    match package_named(doc, b.crate_package) {
        None => Err(not_found_message(b.crate_package)),
        Some(p) => match p.get("manifest_path"@).as_str() {
            None => Err(no_src_message(b.crate_package)),
            Some(manifest) => match sources_at(sources, manifest) {
                None => Err(no_src_message(b.crate_package)),
                Some(files) => match unreadable_at(sources, manifest) {
                    Some((dir, e)) => Err(unreadable_dir_message(dir, e)),
                    None => {
                        let gov = governed(files, observed_module(b));
                        if gov.len() == 0 {
                            if inline_target(files, observed_module(b)) {
                                Err(inline_target_message(observed_module(b), b.crate_package))
                            } else {
                                Err(no_module_message(observed_module(b), b.crate_package))
                            }
                        } else {
                            file_violations(gov, b)
                        }
                    },
                },
            },
        },
    }
}

/// The violations of one boundary, or its constitution error.
pub open spec fn boundary_violations(
    b: BoundaryView,
    doc: JsonView,
    sources: Seq<CrateSourcesView>,
) -> Result<Seq<ViolationView>, Seq<char>> {
    match b {
        BoundaryView::Crate(cb) => crate_boundary_violations(cb, doc),
        BoundaryView::Module(mb) => module_boundary_violations(mb, doc, sources),
    }
}

/// The violations of every boundary, in declaration order; or the constitution
/// error of the first boundary that has one.
pub open spec fn all_violations(
    bs: Seq<BoundaryView>,
    doc: JsonView,
    sources: Seq<CrateSourcesView>,
) -> Result<Seq<ViolationView>, Seq<char>>
    decreases bs.len(),
{
    if bs.len() == 0 {
        Ok(Seq::empty())
    } else {
        match all_violations(bs.drop_last(), doc, sources) {
            Err(m) => Err(m),
            Ok(vs) => match boundary_violations(bs.last(), doc, sources) {
                Err(m) => Err(m),
                Ok(ws) => Ok(vs + ws),
            },
        }
    }
}

/// The outcome of checking a constitution against an observed workspace.
pub open spec fn evaluation(c: ConstitutionView, ws: WorkspaceView) -> OutcomeView {
    match ws.metadata {
        Err(e) => OutcomeView::ConstitutionError(workspace_message(ws.manifest, e)),
        Ok(text) => match json_parse(text) {
            Err(e) => OutcomeView::ConstitutionError(workspace_message(ws.manifest, e)),
            Ok(doc) => match all_violations(c.boundaries, doc, ws.sources) {
                Err(m) => OutcomeView::ConstitutionError(m),
                Ok(vs) => if vs.len() == 0 {
                    OutcomeView::Clean
                } else {
                    OutcomeView::Violations(vs)
                },
            },
        },
    }
}

/// Whether `s` is the word `w`.
fn is_word(s: &Vec<char>, w: &str) -> (r: bool)
    ensures
        r == (s@ == w@),
{
    let wc = chars_of(w);
    chars_eq(s, &wc)
}

/// The module path of a source file from its path components relative to `src/`:
/// `lib.rs`, `main.rs` and `mod.rs` add no segment; `kernel/foo.rs` is
/// `crate::kernel::foo`.
pub fn file_module_path(components: &Vec<String>) -> (out: String)
    ensures
        out@ == file_module(strs(components@)),
{
    let segs = module_segments_of(components);
    assert(views(segs@).skip(0) =~= views(segs@));
    let joined = join_double_colon(&segs, 0);
    string_of(&joined)
}

/// The segments of the module a source file defines, from its path components
/// relative to `src/`.
fn module_segments_of(components: &Vec<String>) -> (segs: Vec<Vec<char>>)
    ensures
        views(segs@) == module_segments(strs(components@)),
{
    let ghost cs = strs(components@);
    let mut segs: Vec<Vec<char>> = Vec::new();
    segs.push(chars_of("crate"));
    if components.len() > 0 {
        let last = components.len() - 1;
        let mut i: usize = 0;
        while i < last
            invariant
                i <= last,
                last + 1 == components.len(),
                cs == strs(components@),
                views(segs@) == seq!["crate"@] + cs.take(i as int),
            decreases last - i,
        {
            let ghost before = views(segs@);
            segs.push(chars_of(components[i].as_str()));
            assert(views(segs@) =~= before.push(cs[i as int]));
            assert(cs.take(i + 1) =~= cs.take(i as int).push(cs[i as int]));
            i += 1;
        }
        assert(cs.take(last as int) =~= cs.drop_last());
        let name = chars_of(components[last].as_str());
        let n = name.len();
        let has_rs = n >= 3 && name[n - 3] == '.' && name[n - 2] == 'r' && name[n - 1] == 's';
        let mut s: Vec<char> = Vec::new();
        let keep = if has_rs {
            n - 3
        } else {
            n
        };
        let mut k: usize = 0;
        while k < keep
            invariant
                k <= keep <= n,
                n == name.len(),
                s@ == name@.take(k as int),
            decreases keep - k,
        {
            s.push(name[k]);
            assert(name@.take(k + 1) =~= name@.take(k as int).push(name@[k as int]));
            k += 1;
        }
        assert(name@ == cs.last());
        assert(has_rs == ends_in_rs(name@));
        if !has_rs {
            assert(name@.take(n as int) =~= name@);
        }
        assert(s@ == stem(cs.last()));
        if !(is_word(&s, "mod") || is_word(&s, "lib") || is_word(&s, "main")) {
            let ghost before = views(segs@);
            let ghost sv = s@;
            segs.push(s);
            assert(views(segs@) =~= before.push(sv));
            assert(views(segs@) =~= seq!["crate"@] + cs.drop_last() + seq![sv]);
        } else {
            assert(views(segs@) =~= seq!["crate"@] + cs.drop_last() + Seq::<Seq<char>>::empty());
        }
    } else {
        assert(views(segs@) =~= seq!["crate"@]);
    }
    segs
}

/// Whether two sequences of names are equal.
fn names_eq(a: &Vec<Vec<char>>, b: &Vec<Vec<char>>) -> (r: bool)
    ensures
        r == (views(a@) == views(b@)),
{
    if a.len() != b.len() {
        assert(views(a@).len() != views(b@).len());
        return false;
    }
    let mut i: usize = 0;
    while i < a.len()
        invariant
            i <= a.len() == b.len(),
            forall|j: int| 0 <= j < i ==> views(a@)[j] == views(b@)[j],
        decreases a.len() - i,
    {
        if !chars_eq(&a[i], &b[i]) {
            assert(views(a@)[i as int] != views(b@)[i as int]);
            return false;
        }
        i += 1;
    }
    assert(views(a@) =~= views(b@));
    true
}

/// Whether a readable file of `files` that defines the module with segments
/// `parent` declares a submodule `name` at its top level.
fn declares_of(files: &Vec<SourceFile>, parent: &Vec<Vec<char>>, name: &Vec<char>) -> (r: bool)
    requires
        forall|j: int| 0 <= j < files.len() ==> scannable_file(#[trigger] files@[j]@),
    ensures
        r == declares(file_views(files@), views(parent@), name@),
{
    let ghost fs = file_views(files@);
    let mut g: usize = 0;
    while g < files.len()
        invariant
            g <= files.len(),
            fs == file_views(files@),
            forall|j: int| 0 <= j < files.len() ==> scannable_file(#[trigger] files@[j]@),
            forall|j: int|
                0 <= j < g && fs[j].text is Ok && module_segments(fs[j].components) == views(
                    parent@,
                ) ==> !(#[trigger] top_mods(stripped(fs[j].text->Ok_0))).contains(name@),
        decreases files.len() - g,
    {
        let file = &files[g];
        assert(fs[g as int] == file@);
        assert(scannable_file(files@[g as int]@));
        match &file.text {
            Err(_) => {},
            Ok(text) => {
                let segs = module_segments_of(&file.components);
                if names_eq(&segs, parent) {
                    let src = chars_of(text.as_str());
                    let cleaned = strip_comments_and_strings(&src);
                    let mods = top_mods_of(&cleaned);
                    let ghost ms = views(mods@);
                    assert(fs[g as int].text == Ok::<Seq<char>, Seq<char>>(text@));
                    assert(ms == top_mods(stripped(fs[g as int].text->Ok_0)));
                    assert(module_segments(fs[g as int].components) == views(parent@));
                    let mut k: usize = 0;
                    while k < mods.len()
                        invariant
                            k <= mods.len(),
                            ms == views(mods@),
                            g < files.len(),
                            fs == file_views(files@),
                            fs[g as int].text is Ok,
                            module_segments(fs[g as int].components) == views(parent@),
                            ms == top_mods(stripped(fs[g as int].text->Ok_0)),
                            forall|q: int| 0 <= q < k ==> ms[q] != name@,
                        decreases mods.len() - k,
                    {
                        if chars_eq(&mods[k], name) {
                            assert(ms[k as int] == name@);
                            assert(ms.contains(name@));
                            assert(top_mods(stripped(fs[g as int].text->Ok_0)).contains(name@));
                            return true;
                        }
                        k += 1;
                    }
                    assert(!ms.contains(name@));
                }
            },
        }
        g += 1;
    }
    false
}

/// Whether the module with segments `segs` is reachable from the crate root
/// through the `mod` declarations of `files`.
fn reachable_of(files: &Vec<SourceFile>, segs: &Vec<Vec<char>>) -> (r: bool)
    requires
        forall|j: int| 0 <= j < files.len() ==> scannable_file(#[trigger] files@[j]@),
    ensures
        r == reachable(file_views(files@), views(segs@)),
{
    let ghost ss = views(segs@);
    let ghost fs = file_views(files@);
    if segs.len() <= 1 {
        return true;
    }
    let mut parent: Vec<Vec<char>> = Vec::new();
    parent.push(subvec(&segs[0], 0, segs[0].len()));
    assert(segs@[0]@.subrange(0, segs@[0]@.len() as int) =~= segs@[0]@);
    assert(views(parent@) =~= ss.take(1));
    let mut k: usize = 1;
    while k < segs.len()
        invariant
            1 <= k <= segs.len(),
            ss == views(segs@),
            fs == file_views(files@),
            views(parent@) == ss.take(k as int),
            reachable(fs, ss.take(k as int)),
            forall|j: int| 0 <= j < files.len() ==> scannable_file(#[trigger] files@[j]@),
        decreases segs.len() - k,
    {
        assert(ss.take(k + 1).drop_last() =~= ss.take(k as int));
        assert(ss.take(k + 1).last() == segs@[k as int]@);
        if !declares_of(files, &parent, &segs[k]) {
            proof {
                lemma_reachable_prefix(fs, ss, k + 1);
            }
            return false;
        }
        let ghost before = views(parent@);
        parent.push(subvec(&segs[k], 0, segs[k].len()));
        assert(segs@[k as int]@.subrange(0, segs@[k as int]@.len() as int) =~= segs@[k as int]@);
        assert(views(parent@) =~= before.push(ss[k as int]));
        assert(ss.take(k + 1) =~= ss.take(k as int).push(ss[k as int]));
        k += 1;
    }
    assert(ss.take(segs.len() as int) =~= ss);
    true
}

/// A module is reachable only if each of its ancestors is.
proof fn lemma_reachable_prefix(all: Seq<SourceFileView>, ss: Seq<Seq<char>>, j: int)
    requires
        0 <= j <= ss.len(),
        !reachable(all, ss.take(j)),
    ensures
        !reachable(all, ss),
    decreases ss.len() - j,
{
    if j < ss.len() {
        assert(ss.take(j + 1).drop_last() =~= ss.take(j));
        lemma_reachable_prefix(all, ss, j + 1);
    } else {
        assert(ss.take(j) =~= ss);
    }
}

/// Every governed file, with its module path: those whose module is `module` or
/// beneath it, in order.
fn governed_files<'a>(files: &'a Vec<SourceFile>, module: &str) -> (out: Vec<
    (&'a SourceFile, String),
>)
    requires
        forall|j: int| 0 <= j < files.len() ==> scannable_file(#[trigger] files@[j]@),
    ensures
        forall|k: int| 0 <= k < out.len() ==> scannable_file(#[trigger] out@[k].0@),
        out@.map_values(|p: (&SourceFile, String)| (p.0@, p.1@)) == governed(
            file_views(files@),
            module@,
        ),
{
    let ghost all = file_views(files@);
    let ghost fs = file_views(files@);
    let m = chars_of(module);
    let mut beneath = chars_of(module);
    beneath.push(':');
    beneath.push(':');
    let mut out: Vec<(&SourceFile, String)> = Vec::new();
    let mut i: usize = 0;
    while i < files.len()
        invariant
            i <= files.len(),
            fs == file_views(files@),
            m@ == module@,
            beneath@ == module@ + seq![':', ':'],
            all == file_views(files@),
            out@.map_values(|p: (&SourceFile, String)| (p.0@, p.1@)) == governed_among(
                all,
                fs.take(i as int),
                module@,
            ),
            forall|j: int| 0 <= j < files.len() ==> scannable_file(#[trigger] files@[j]@),
            forall|k: int| 0 <= k < out.len() ==> scannable_file(#[trigger] out@[k].0@),
        decreases files.len() - i,
    {
        let file = &files[i];
        assert(fs.take(i + 1).drop_last() =~= fs.take(i as int));
        assert(fs.take(i + 1).last() == file@);
        let path = file_module_path(&file.components);
        let pc = chars_of(path.as_str());
        if (chars_eq(&pc, &m) || has_prefix(&pc, &beneath)) && reachable_of(
            files,
            &module_segments_of(&file.components),
        ) {
            let ghost before = out@.map_values(|p: (&SourceFile, String)| (p.0@, p.1@));
            let ghost entry = (file@, path@);
            assert(scannable_file(files@[i as int]@));
            let ghost prev = out@;
            out.push((file, path));
            assert forall|k: int| 0 <= k < out.len() implies scannable_file(
                #[trigger] out@[k].0@,
            ) by {
                if k < prev.len() {
                    assert(out@[k] == prev[k]);
                }
            }
            assert(out@.map_values(|p: (&SourceFile, String)| (p.0@, p.1@)) =~= before.push(
                entry,
            ));
        }
        i += 1;
    }
    assert(fs.take(files.len() as int) =~= fs);
    out
}


/// The files recorded for the crate whose manifest is `manifest`: `None` when no
/// entry has that manifest path, `Some(None)` when the entry has no source
/// directory.
fn crate_sources<'a>(sources: &'a Vec<CrateSources>, manifest: &str) -> (r: Option<
    Option<&'a Vec<SourceFile>>,
>)
    requires
        scannable_sources(sources@.map_values(|c: CrateSources| c@)),
    ensures
        match r {
            None => sources_at(sources@.map_values(|c: CrateSources| c@), manifest@) == Some(
                Seq::<SourceFileView>::empty(),
            ),
            Some(None) => sources_at(sources@.map_values(|c: CrateSources| c@), manifest@) is None,
            Some(Some(fs)) => sources_at(sources@.map_values(|c: CrateSources| c@), manifest@)
                == Some(file_views(fs@)) && forall|j: int|
                0 <= j < fs.len() ==> scannable_file(#[trigger] fs@[j]@),
        },
{
    let ghost all = sources@.map_values(|c: CrateSources| c@);
    let m = chars_of(manifest);
    let mut i: usize = 0;
    assert(all.skip(0) =~= all);
    while i < sources.len()
        invariant
            i <= sources.len(),
            all == sources@.map_values(|c: CrateSources| c@),
            scannable_sources(all),
            m@ == manifest@,
            sources_at(all, manifest@) == sources_at(all.skip(i as int), manifest@),
        decreases sources.len() - i,
    {
        let entry = &sources[i];
        let ghost rest = all.skip(i as int);
        assert(rest[0] == entry@);
        assert(rest.drop_first() =~= all.skip(i + 1));
        let path = chars_of(entry.manifest_path.as_str());
        if chars_eq(&path, &m) {
            return match &entry.files {
                Some(fs) => {
                    assert forall|j: int| 0 <= j < fs.len() implies scannable_file(
                        #[trigger] fs@[j]@,
                    ) by {
                        assert(all[i as int].files->0[j] == fs@[j]@);
                    }
                    Some(Some(fs))
                },
                None => Some(None),
            };
        }
        i += 1;
    }
    assert(all.skip(i as int) =~= Seq::<CrateSourcesView>::empty());
    None
}

/// The directory under `src/` that could not be read, for the crate whose
/// manifest is `manifest`.
fn unreadable_dir_of<'a>(sources: &'a Vec<CrateSources>, manifest: &str) -> (r: Option<
    &'a (String, String),
>)
    ensures
        match r {
            Some(p) => unreadable_at(sources@.map_values(|c: CrateSources| c@), manifest@) == Some(
                (p.0@, p.1@),
            ),
            None => unreadable_at(sources@.map_values(|c: CrateSources| c@), manifest@) is None,
        },
{
    let ghost all = sources@.map_values(|c: CrateSources| c@);
    let m = chars_of(manifest);
    let mut i: usize = 0;
    assert(all.skip(0) =~= all);
    while i < sources.len()
        invariant
            i <= sources.len(),
            all == sources@.map_values(|c: CrateSources| c@),
            m@ == manifest@,
            unreadable_at(all, manifest@) == unreadable_at(all.skip(i as int), manifest@),
        decreases sources.len() - i,
    {
        let entry = &sources[i];
        let ghost rest = all.skip(i as int);
        assert(rest[0] == entry@);
        assert(rest.drop_first() =~= all.skip(i + 1));
        let path = chars_of(entry.manifest_path.as_str());
        if chars_eq(&path, &m) {
            return match &entry.unreadable_dir {
                Some(p) => Some(p),
                None => None,
            };
        }
        i += 1;
    }
    assert(all.skip(i as int) =~= Seq::<CrateSourcesView>::empty());
    None
}

/// Whether `module` is an inline `mod name { … }` block of one of the readable
/// `files`.
fn is_inline_target(files: &Vec<SourceFile>, module: &str) -> (r: bool)
    requires
        forall|j: int| 0 <= j < files.len() ==> scannable_file(#[trigger] files@[j]@),
    ensures
        r == inline_target(file_views(files@), module@),
{
    let ghost fs = file_views(files@);
    let target = chars_of(module);
    let mut k: usize = 0;
    while k < files.len()
        invariant
            k <= files.len(),
            fs == file_views(files@),
            target@ == module@,
            forall|j: int| 0 <= j < files.len() ==> scannable_file(#[trigger] files@[j]@),
            forall|j: int, c: Seq<Seq<char>>|
                0 <= j < k && fs[j].text is Ok && #[trigger] inline_modules(
                    stripped(fs[j].text->Ok_0),
                ).contains(c) ==> inner_module(file_module(fs[j].components), c) != module@,
        decreases files.len() - k,
    {
        let file = &files[k];
        assert(fs[k as int] == file@);
        assert(scannable_file(files@[k as int]@));
        match &file.text {
            Err(_) => {},
            Ok(text) => {
                let src = chars_of(text.as_str());
                let cleaned = strip_comments_and_strings(&src);
                let chains = inline_modules_of(&cleaned);
                let ghost cs = chain_views(chains@);
                let here = chars_of(file_module_path(&file.components).as_str());
                assert(fs[k as int].text == Ok::<Seq<char>, Seq<char>>(text@));
                assert(cs == inline_modules(stripped(fs[k as int].text->Ok_0)));
                let mut q: usize = 0;
                while q < chains.len()
                    invariant
                        q <= chains.len(),
                        k < files.len(),
                        fs == file_views(files@),
                        fs[k as int].text is Ok,
                        cs == inline_modules(stripped(fs[k as int].text->Ok_0)),
                        cs == chain_views(chains@),
                        here@ == file_module(fs[k as int].components),
                        target@ == module@,
                        forall|j: int| 0 <= j < q ==> inner_module(here@, #[trigger] cs[j]) != module@,
                    decreases chains.len() - q,
                {
                    let path = inner_module_of(&here, &chains[q]);
                    assert(cs[q as int] == views(chains@[q as int]@));
                    if chars_eq(&path, &target) {
                        proof {
                            assert(inline_modules(stripped(fs[k as int].text->Ok_0)).contains(cs[q as int]));
                        }
                        return true;
                    }
                    q += 1;
                }
                proof {
                    assert forall|c: Seq<Seq<char>>| #[trigger] inline_modules(
                        stripped(fs[k as int].text->Ok_0),
                    ).contains(c) implies inner_module(file_module(fs[k as int].components), c)
                        != module@ by {
                        let j = choose|j: int| 0 <= j < cs.len() && cs[j] == c;
                    }
                }
            },
        }
        k += 1;
    }
    false
}

/// A faulty file in a prefix of the governed files is the fault of them all.
proof fn lemma_governed_imports_prefix_err(gov: Seq<(SourceFileView, Seq<char>)>, j: int)
    requires
        0 <= j <= gov.len(),
        governed_imports(gov.take(j)) is Err,
    ensures
        governed_imports(gov) == governed_imports(gov.take(j)),
    decreases gov.len() - j,
{
    if j < gov.len() {
        assert(gov.take(j + 1).drop_last() =~= gov.take(j));
        lemma_governed_imports_prefix_err(gov, j + 1);
    } else {
        assert(gov.take(j) =~= gov);
    }
}

/// A faulty boundary in a prefix of the boundaries is the fault of them all.
proof fn lemma_all_violations_prefix_err(
    bs: Seq<BoundaryView>,
    doc: JsonView,
    sources: Seq<CrateSourcesView>,
    j: int,
)
    requires
        0 <= j <= bs.len(),
        all_violations(bs.take(j), doc, sources) is Err,
    ensures
        all_violations(bs, doc, sources) == all_violations(bs.take(j), doc, sources),
    decreases bs.len() - j,
{
    if j < bs.len() {
        assert(bs.take(j + 1).drop_last() =~= bs.take(j));
        lemma_all_violations_prefix_err(bs, doc, sources, j + 1);
    } else {
        assert(bs.take(j) =~= bs);
    }
}

/// Appends the violations of a crate boundary to `violations`, or gives its
/// constitution error.
fn check_crate_boundary(
    metadata: &Json,
    boundary: &CrateBoundary,
    violations: &mut Vec<Violation>,
) -> (r: Result<(), String>)
    ensures
        match crate_boundary_violations(boundary@, metadata@) {
            Ok(ws) => r is Ok && violation_views(final(violations)@) == violation_views(
                old(violations)@,
            ) + ws,
            Err(m) => r matches Err(e) && e@ == m && final(violations)@ == old(violations)@,
        },
{
    let name = boundary.target().package.as_str();
    let package = match find_package(metadata, name) {
        Some(p) => p,
        None => {
            let mut m = chars_of("target crate '");
            append_str(&mut m, name);
            append_str(&mut m, "' not found in the workspace");
            return Err(string_of(&m));
        },
    };
    let rule = boundary.rule();
    let members = member_names_of(metadata);
    let findings = rule.findings(package, &members, boundary.dependency_kind());
    let label = rule.label();
    let ghost fs = string_views(findings@);
    let ghost base = violation_views(violations@);
    let ghost b = boundary@;
    let mut i: usize = 0;
    while i < findings.len()
        invariant
            i <= findings.len(),
            fs == string_views(findings@),
            b == boundary@,
            name@ == b.package,
            label@ == rule_label(b.rule),
            violation_views(violations@) == base + fs.take(i as int).map_values(
                |f: Seq<char>| crate_violation(b, f),
            ),
        decreases findings.len() - i,
    {
        let v = Violation {
            kind: BoundaryKind::Crate,
            target: owned(name),
            rule: owned(label),
            finding: owned(findings[i].as_str()),
            reason: owned(boundary.reason()),
            severity: boundary.severity(),
            baselined: false,
        };
        let ghost before = violation_views(violations@);
        violations.push(v);
        assert(violation_views(violations@) =~= before.push(crate_violation(b, fs[i as int])));
        assert(fs.take(i + 1).map_values(|f: Seq<char>| crate_violation(b, f)) =~= fs.take(
            i as int,
        ).map_values(|f: Seq<char>| crate_violation(b, f)).push(crate_violation(b, fs[i as int])));
        i += 1;
    }
    assert(fs.take(findings.len() as int) =~= fs);
    Ok(())
}

/// Whether `p` is `module` or a module beneath it.
fn at_or_beneath_of(p: &Vec<char>, module: &str) -> (r: bool)
    ensures
        r == at_or_beneath(p@, module@),
{
    let m = chars_of(module);
    let mut beneath = chars_of(module);
    beneath.push(':');
    beneath.push(':');
    assert(beneath@ =~= module@ + seq![':', ':']);
    chars_eq(p, &m) || has_prefix(p, &beneath)
}

/// Whether the import `p` offends the boundary's rule.
fn offends_of(p: &Vec<char>, boundary: &ModuleBoundary) -> (r: bool)
    ensures
        r == offends(p@, boundary@.rule, boundary@.module),
{
    match boundary.rule_of() {
        ModuleRule::MustNotImport { module } => at_or_beneath_of(p, module.as_str()),
        ModuleRule::MustNotBeImportedBy { .. } => at_or_beneath_of(p, boundary.module_str()),
        ModuleRule::RestrictImportsTo { allowed } => {
            let own = at_or_beneath_of(p, boundary.module_str());
            let ghost al = strs(allowed@);
            let mut hit = false;
            let mut i: usize = 0;
            while i < allowed.len() && !hit
                invariant
                    i <= allowed.len(),
                    al == strs(allowed@),
                    hit ==> within_any(p@, al),
                    !hit ==> forall|j: int| 0 <= j < i ==> !at_or_beneath(p@, #[trigger] al[j]),
                decreases allowed.len() - i,
            {
                if at_or_beneath_of(p, allowed[i].as_str()) {
                    assert(at_or_beneath(p@, al[i as int]));
                    hit = true;
                }
                i += 1;
            }
            !own && !hit
        },
    }
}

/// Whether some of `imports` is `target` or beneath it.
fn reaches_any(imports: &Vec<String>, target: &str) -> (r: bool)
    ensures
        r == reaches_into(string_views(imports@), target@),
{
    let ghost ps = string_views(imports@);
    let mut k: usize = 0;
    while k < imports.len()
        invariant
            k <= imports.len(),
            ps == string_views(imports@),
            forall|j: int| 0 <= j < k ==> !at_or_beneath(#[trigger] ps[j], target@),
        decreases imports.len() - k,
    {
        if at_or_beneath_of(&chars_of(imports[k].as_str()), target) {
            assert(at_or_beneath(ps[k as int], target@));
            return true;
        }
        k += 1;
    }
    false
}

/// Whether an import reaches `target` depends only on which imports there are.
proof fn lemma_reaches_same(a: Seq<Seq<char>>, b: Seq<Seq<char>>, target: Seq<char>)
    requires
        forall|p: Seq<char>| #[trigger] a.contains(p) <==> b.contains(p),
    ensures
        reaches_into(a, target) == reaches_into(b, target),
{
    if reaches_into(a, target) {
        let i = choose|i: int| 0 <= i < a.len() && at_or_beneath(#[trigger] a[i], target);
        assert(a.contains(a[i]));
        let j = choose|j: int| 0 <= j < b.len() && b[j] == a[i];
        assert(at_or_beneath(b[j], target));
    }
    if reaches_into(b, target) {
        let i = choose|i: int| 0 <= i < b.len() && at_or_beneath(#[trigger] b[i], target);
        let x = b[i];
        assert(b.contains(x));
        assert(a.contains(x));
        let j = choose|j: int| 0 <= j < a.len() && a[j] == x;
        assert(at_or_beneath(a[j], target));
    }
}

/// A faulty file in a prefix of the observed files is the fault of them all.
proof fn lemma_reaching_importers_prefix_err(
    gov: Seq<(SourceFileView, Seq<char>)>,
    target: Seq<char>,
    j: int,
)
    requires
        0 <= j <= gov.len(),
        reaching_importers(gov.take(j), target) is Err,
    ensures
        reaching_importers(gov, target) == reaching_importers(gov.take(j), target),
    decreases gov.len() - j,
{
    if j < gov.len() {
        assert(gov.take(j + 1).drop_last() =~= gov.take(j));
        lemma_reaching_importers_prefix_err(gov, target, j + 1);
    } else {
        assert(gov.take(j) =~= gov);
    }
}

/// Appends the violations of a module boundary to `violations`, or gives its
/// constitution error. A governed file that cannot be read is an error ("cannot
/// judge"), never a silent skip.
fn check_module_boundary(
    metadata: &Json,
    boundary: &ModuleBoundary,
    sources: &Vec<CrateSources>,
    violations: &mut Vec<Violation>,
) -> (r: Result<(), String>)
    requires
        scannable_sources(sources@.map_values(|c: CrateSources| c@)),
    ensures
        match module_boundary_violations(
            boundary@,
            metadata@,
            sources@.map_values(|c: CrateSources| c@),
        ) {
            Ok(ws) => r is Ok && violation_views(final(violations)@) == violation_views(
                old(violations)@,
            ) + ws,
            Err(m) => r matches Err(e) && e@ == m,
        },
{
    let ghost b = boundary@;
    let label = boundary.rule_of().label();
    if str_eq(boundary.module_str(), "crate") && !matches!(
        boundary.rule_of(),
        ModuleRule::MustNotImport { .. }
    ) {
        let mut m = chars_of("a '");
        append_str(&mut m, label);
        append_str(&mut m, "' boundary on 'crate' can never react: every internal module is beneath crate");
        return Err(string_of(&m));
    }
    let name = boundary.crate_package_str();
    let package = match find_package(metadata, name) {
        Some(p) => p,
        None => {
            let mut m = chars_of("target crate '");
            append_str(&mut m, name);
            append_str(&mut m, "' not found in the workspace");
            return Err(string_of(&m));
        },
    };
    let manifest = match package.get("manifest_path") {
        Some(v) => match v.as_str() {
            Some(s) => s,
            None => {
                let mut m = chars_of("cannot locate src for crate '");
                append_str(&mut m, name);
                append_str(&mut m, "'");
                return Err(string_of(&m));
            },
        },
        None => {
            let mut m = chars_of("cannot locate src for crate '");
            append_str(&mut m, name);
            append_str(&mut m, "'");
            return Err(string_of(&m));
        },
    };
    let empty: Vec<SourceFile> = Vec::new();
    let files: &Vec<SourceFile> = match crate_sources(sources, manifest) {
        None => {
            assert(file_views(empty@) =~= Seq::<SourceFileView>::empty());
            &empty
        },
        Some(None) => {
            let mut m = chars_of("cannot locate src for crate '");
            append_str(&mut m, name);
            append_str(&mut m, "'");
            return Err(string_of(&m));
        },
        Some(Some(fs)) => fs,
    };
    match unreadable_dir_of(sources, manifest) {
        Some((dir, e)) => {
            let mut m = chars_of("cannot read governed source directory '");
            append_str(&mut m, dir.as_str());
            append_str(&mut m, "': ");
            append_str(&mut m, e.as_str());
            return Err(string_of(&m));
        },
        None => {},
    }
    let module = boundary.module_str();
    let observed: &str = match boundary.rule_of() {
        ModuleRule::MustNotBeImportedBy { module } => module.as_str(),
        _ => boundary.module_str(),
    };
    assert(observed@ == observed_module(b));
    let governed_list = governed_files(files, observed);
    let ghost gov = governed(file_views(files@), observed_module(b));
    assert(governed_list@.map_values(|p: (&SourceFile, String)| (p.0@, p.1@)) == gov);
    if governed_list.len() == 0 {
        if is_inline_target(files, observed) {
            let mut m = chars_of("module '");
            append_str(&mut m, observed);
            append_str(&mut m, "' in crate '");
            append_str(&mut m, name);
            append_str(&mut m, "' is an inline `mod` block; only file-based modules can be governed");
            return Err(string_of(&m));
        }
        let mut m = chars_of("module '");
        append_str(&mut m, observed);
        append_str(&mut m, "' not found in crate '");
        append_str(&mut m, name);
        append_str(&mut m, "' source (file-based modules only)");
        return Err(string_of(&m));
    }
    let ghost srcs = sources@.map_values(|c: CrateSources| c@);
    assert(module_boundary_violations(b, metadata@, srcs) == file_violations(gov, b));
    assert(gov.take(0) =~= Seq::<(SourceFileView, Seq<char>)>::empty());
    let mut seen: Vec<Vec<char>> = Vec::new();
    let ghost mut all: Seq<Seq<char>> = Seq::empty();
    let mut importers: Vec<Vec<char>> = Vec::new();
    let ghost mut ims: Seq<Seq<char>> = Seq::empty();
    let mut g: usize = 0;
    while g < governed_list.len()
        invariant
            g <= governed_list.len(),
            gov == governed_list@.map_values(|p: (&SourceFile, String)| (p.0@, p.1@)),
            forall|k: int| 0 <= k < governed_list.len() ==> scannable_file(#[trigger] governed_list@[k].0@),
            governed_imports(gov.take(g as int)) == Ok::<Seq<Seq<char>>, Seq<char>>(all),
            reaching_importers(gov.take(g as int), b.module) == Ok::<Seq<Seq<char>>, Seq<char>>(ims),
            strictly_sorted(views(importers@)),
            same_elements(views(importers@), ims),
            module@ == b.module,
            b == boundary@,
            srcs == sources@.map_values(|c: CrateSources| c@),
            module_boundary_violations(b, metadata@, srcs) == file_violations(gov, b),
            strictly_sorted(views(seen@)),
            same_elements(views(seen@), all),
        decreases governed_list.len() - g,
    {
        let file: &SourceFile = governed_list[g].0;
        let current: &str = governed_list[g].1.as_str();
        assert(gov[g as int] == (file@, current@));
        assert(gov.take(g + 1).drop_last() =~= gov.take(g as int));
        assert(gov.take(g + 1).last() == (file@, current@));
        assert(scannable_file(governed_list@[g as int].0@));
        match &file.text {
            Err(e) => {
                let mut m = chars_of("cannot read governed source file '");
                append_str(&mut m, file.display.as_str());
                append_str(&mut m, "': ");
                append_str(&mut m, e.as_str());
                proof {
                    lemma_governed_imports_prefix_err(gov, g + 1);
                    lemma_reaching_importers_prefix_err(gov, b.module, g + 1);
                }
                return Err(string_of(&m));
            },
            Ok(text) => {
                let imports = imported_module_paths(text.as_str(), current);
                let ghost ps = string_views(imports@);
                let ghost il = import_list(text@, current@);
                let ghost start = all;
                let hit = reaches_any(&imports, module);
                proof {
                    lemma_reaches_same(ps, il, b.module);
                }
                if hit {
                    let ghost before = views(importers@);
                    let ghost cv = current@;
                    insert_sorted(&mut importers, chars_of(current));
                    proof {
                        let next = ims.push(cv);
                        assert forall|p: Seq<char>| #[trigger] views(importers@).contains(p)
                            <==> next.contains(p) by {
                            if next.contains(p) {
                                let j = choose|j: int| 0 <= j < next.len() && #[trigger] next[j] == p;
                                if j < ims.len() {
                                    assert(ims[j] == p);
                                }
                            }
                            if ims.contains(p) {
                                let j = choose|j: int| 0 <= j < ims.len() && #[trigger] ims[j] == p;
                                assert(next[j] == p);
                            }
                            if p == cv {
                                assert(next[ims.len() as int] == p);
                            }
                        }
                        ims = next;
                    }
                }
                let mut k: usize = 0;
                while k < imports.len()
                    invariant
                        k <= imports.len(),
                        ps == string_views(imports@),
                        forall|p: Seq<char>| #[trigger] ps.contains(p) <==> il.contains(p),
                        strictly_sorted(views(seen@)),
                        forall|p: Seq<char>| #[trigger]
                            views(seen@).contains(p) <==> start.contains(p) || ps.take(k as int).contains(p),
                    decreases imports.len() - k,
                {
                    let ghost before = views(seen@);
                    let ghost x = ps[k as int];
                    insert_sorted(&mut seen, chars_of(imports[k].as_str()));
                    assert forall|p: Seq<char>| #[trigger]
                        views(seen@).contains(p) <==> start.contains(p) || ps.take(k + 1).contains(p) by {
                        assert(ps.take(k + 1) =~= ps.take(k as int).push(x));
                        let pre = ps.take(k as int);
                        let post = ps.take(k + 1);
                        if post.contains(p) {
                            let j = choose|j: int| 0 <= j < post.len() && #[trigger] post[j] == p;
                            if j < k {
                                assert(pre[j] == p);
                            }
                        }
                        if pre.contains(p) {
                            let j = choose|j: int| 0 <= j < pre.len() && #[trigger] pre[j] == p;
                            assert(post[j] == p);
                        }
                        if p == x {
                            assert(post[k as int] == p);
                        }
                    }
                    k += 1;
                }
                proof {
                    assert(ps.take(imports.len() as int) =~= ps);
                    all = start + il;
                    assert forall|p: Seq<char>| #[trigger] views(seen@).contains(p) <==> all.contains(p) by {
                        if all.contains(p) {
                            let j = choose|j: int| 0 <= j < all.len() && #[trigger] all[j] == p;
                            if j < start.len() {
                                assert(start[j] == p);
                            } else {
                                assert(il[j - start.len()] == p);
                            }
                        }
                        if start.contains(p) {
                            let j = choose|j: int| 0 <= j < start.len() && #[trigger] start[j] == p;
                            assert(all[j] == p);
                        }
                        if il.contains(p) {
                            let j = choose|j: int| 0 <= j < il.len() && #[trigger] il[j] == p;
                            assert(all[start.len() + j] == p);
                        }
                    }
                }
            },
        }
        g += 1;
    }
    assert(gov.take(governed_list.len() as int) =~= gov);
    let ghost base = violation_views(violations@);
    if matches!(boundary.rule_of(), ModuleRule::MustNotBeImportedBy { .. }) {
        proof {
            lemma_sorted_set(views(importers@), ims);
        }
        let ghost ms = views(importers@);
        let mut k: usize = 0;
        while k < importers.len()
            invariant
                k <= importers.len(),
                ms == views(importers@),
                b == boundary@,
                label@ == module_rule_label(b.rule),
                module@ == b.module,
                violation_views(violations@) == base + ms.take(k as int).map_values(
                    |m: Seq<char>| module_violation(b, m),
                ),
            decreases importers.len() - k,
        {
            let importer = &importers[k];
            let v = Violation {
                kind: BoundaryKind::Module,
                target: owned(module),
                rule: owned(label),
                finding: string_of(importer),
                reason: owned(boundary.reason_str()),
                severity: boundary.severity_of(),
                baselined: false,
            };
            let ghost before = violation_views(violations@);
            violations.push(v);
            proof {
                let mv = module_violation(b, importer@);
                assert(violation_views(violations@) =~= before.push(mv));
                assert(ms.take(k + 1).map_values(|m: Seq<char>| module_violation(b, m)) =~= ms.take(
                    k as int,
                ).map_values(|m: Seq<char>| module_violation(b, m)).push(mv));
            }
            k += 1;
        }
        assert(ms.take(importers.len() as int) =~= ms);
        return Ok(());
    }
    proof {
        lemma_sorted_set(views(seen@), all);
    }
    let ghost ps = views(seen@);
    let mut k: usize = 0;
    while k < seen.len()
        invariant
            k <= seen.len(),
            ps == views(seen@),
            b == boundary@,
            label@ == module_rule_label(b.rule),
            module@ == b.module,
            violation_views(violations@) == base + offending(ps.take(k as int), b.rule, b.module).map_values(
                |p: Seq<char>| module_violation(b, p),
            ),
        decreases seen.len() - k,
    {
        let import = &seen[k];
        assert(ps.take(k + 1).drop_last() =~= ps.take(k as int));
        assert(ps.take(k + 1).last() == import@);
        let ghost before_r = offending(ps.take(k as int), b.rule, b.module);
        if offends_of(import, boundary) {
            let v = Violation {
                kind: BoundaryKind::Module,
                target: owned(module),
                rule: owned(label),
                finding: string_of(import),
                reason: owned(boundary.reason_str()),
                severity: boundary.severity_of(),
                baselined: false,
            };
            let ghost before = violation_views(violations@);
            violations.push(v);
            proof {
                let mv = module_violation(b, import@);
                assert(violation_views(violations@) =~= before.push(mv));
                assert(before_r.push(import@).map_values(|p: Seq<char>| module_violation(b, p))
                    =~= before_r.map_values(|p: Seq<char>| module_violation(b, p)).push(mv));
            }
        }
        k += 1;
    }
    assert(ps.take(seen.len() as int) =~= ps);
    Ok(())
}

/// Runs the constitution's boundaries against an observed workspace: resolve each
/// target to a workspace package, observe it, compare it with the rule, react.
/// Violations are reported in declaration order; an unresolvable target, an
/// unlocatable or unreadable source, or an unreadable workspace is a constitution
/// error, and the first one met supersedes every violation.
pub fn check(constitution: &Constitution, workspace: &Workspace) -> (outcome: Outcome)
    requires
        workspace@.scannable(),
    ensures
        outcome@ == evaluation(constitution@, workspace@),
{
    let text = match &workspace.metadata {
        Ok(t) => t,
        Err(e) => {
            let mut m = chars_of("cannot read target workspace at ");
            append_str(&mut m, workspace.manifest.as_str());
            append_str(&mut m, ": ");
            append_str(&mut m, e.as_str());
            return Outcome::ConstitutionError(string_of(&m));
        },
    };
    let metadata = match parse_json(text.as_str()) {
        Ok(doc) => doc,
        Err(e) => {
            let mut m = chars_of("cannot read target workspace at ");
            append_str(&mut m, workspace.manifest.as_str());
            append_str(&mut m, ": ");
            append_str(&mut m, e.as_str());
            return Outcome::ConstitutionError(string_of(&m));
        },
    };
    let ghost srcs = workspace@.sources;
    let ghost doc = metadata@;
    let boundaries = constitution.boundaries();
    let ghost bs = constitution@.boundaries;
    let mut violations: Vec<Violation> = Vec::new();
    let mut i: usize = 0;
    assert(bs.take(0) =~= Seq::<BoundaryView>::empty());
    assert(violation_views(violations@) =~= Seq::<ViolationView>::empty());
    while i < boundaries.len()
        invariant
            i <= boundaries.len(),
            bs == boundary_views(boundaries@),
            srcs == workspace.sources@.map_values(|c: CrateSources| c@),
            scannable_sources(srcs),
            doc == metadata@,
            workspace@.metadata == Ok::<Seq<char>, Seq<char>>(text@),
            json_parse(text@) == Ok::<JsonView, Seq<char>>(doc),
            bs == constitution@.boundaries,
            all_violations(bs.take(i as int), doc, srcs) == Ok::<Seq<ViolationView>, Seq<char>>(
                violation_views(violations@),
            ),
        decreases boundaries.len() - i,
    {
        assert(bs[i as int] == boundaries@[i as int]@);
        assert(bs.take(i + 1).drop_last() =~= bs.take(i as int));
        assert(bs.take(i + 1).last() == boundaries@[i as int]@);
        let ghost before = violation_views(violations@);
        let result = match &boundaries[i] {
            Boundary::Crate(b) => {
                assert(boundary_violations(bs[i as int], doc, srcs) == crate_boundary_violations(
                    b@,
                    doc,
                ));
                check_crate_boundary(&metadata, b, &mut violations)
            },
            Boundary::Module(b) => {
                assert(boundary_violations(bs[i as int], doc, srcs) == module_boundary_violations(
                    b@,
                    doc,
                    srcs,
                ));
                check_module_boundary(&metadata, b, &workspace.sources, &mut violations)
            },
        };
        match result {
            Ok(()) => {
                assert(boundary_violations(bs[i as int], doc, srcs) is Ok);
            },
            Err(e) => {
                assert(boundary_violations(bs[i as int], doc, srcs) == Err::<
                    Seq<ViolationView>,
                    Seq<char>,
                >(e@));
                assert(all_violations(bs.take(i + 1), doc, srcs) == Err::<
                    Seq<ViolationView>,
                    Seq<char>,
                >(e@));
                proof {
                    lemma_all_violations_prefix_err(bs, doc, srcs, i + 1);
                }
                return Outcome::ConstitutionError(e);
            },
        }
        i += 1;
    }
    assert(bs.take(boundaries.len() as int) =~= bs);
    if violations.len() == 0 {
        Outcome::Clean
    } else {
        Outcome::Violations(Report { violations })
    }
}

/// A constitution error supersedes every violation, whatever the order of the
/// boundaries: the boundaries yield violations exactly when none of them has a
/// constitution error.
pub proof fn an_unresolvable_boundary_supersedes_every_violation(
    bs: Seq<BoundaryView>,
    doc: JsonView,
    sources: Seq<CrateSourcesView>,
)
    ensures
        all_violations(bs, doc, sources) is Err <==> exists|i: int|
            0 <= i < bs.len() && (#[trigger] boundary_violations(bs[i], doc, sources)) is Err,
    decreases bs.len(),
{
    if bs.len() > 0 {
        an_unresolvable_boundary_supersedes_every_violation(bs.drop_last(), doc, sources);
        let init = bs.drop_last();
        if exists|i: int| 0 <= i < init.len() && (#[trigger] boundary_violations(init[i], doc, sources)) is Err {
            let i = choose|i: int| 0 <= i < init.len() && (#[trigger] boundary_violations(init[i], doc, sources)) is Err;
            assert(bs[i] == init[i]);
        }
        if exists|i: int| 0 <= i < bs.len() && (#[trigger] boundary_violations(bs[i], doc, sources)) is Err {
            let i = choose|i: int| 0 <= i < bs.len() && (#[trigger] boundary_violations(bs[i], doc, sources)) is Err;
            if i < init.len() {
                assert(init[i] == bs[i]);
            }
        }
        assert(bs[bs.len() - 1] == bs.last());
    }
}


/// The manifest paths of the crates whose modules the boundaries govern, each
/// once, in the order of the first module boundary whose crate is a workspace
/// package with that manifest path.
pub open spec fn governed_manifests(bs: Seq<BoundaryView>, doc: JsonView) -> Seq<Seq<char>>
    decreases bs.len(),
{
    if bs.len() == 0 {
        Seq::empty()
    } else {
        let rest = governed_manifests(bs.drop_last(), doc);
        match bs.last() {
            BoundaryView::Module(m) => match package_named(doc, m.crate_package) {
                Some(p) => match p.get("manifest_path"@).as_str() {
                    Some(manifest) => if rest.contains(manifest) {
                        rest
                    } else {
                        rest.push(manifest)
                    },
                    None => rest,
                },
                None => rest,
            },
            BoundaryView::Crate(_) => rest,
        }
    }
}

/// The manifest paths, as the `cargo metadata` output reports them and each once,
/// of the crates whose sources a check of the constitution reads: what the caller
/// must observe (each crate's `.rs` files under `src/`) before calling [`check`].
/// None when the output is not JSON.
pub fn source_manifests(constitution: &Constitution, metadata: &str) -> (out: Vec<String>)
    ensures
        match json_parse(metadata@) {
            Ok(doc) => strs(out@) == governed_manifests(constitution@.boundaries, doc),
            Err(_) => out@.len() == 0,
        },
{
    let mut out: Vec<String> = Vec::new();
    let doc = match parse_json(metadata) {
        Ok(doc) => doc,
        Err(_) => {
            return out;
        },
    };
    let boundaries = constitution.boundaries();
    let ghost bs = constitution@.boundaries;
    let mut i: usize = 0;
    while i < boundaries.len()
        invariant
            i <= boundaries.len(),
            bs == boundary_views(boundaries@),
            strs(out@) == governed_manifests(bs.take(i as int), doc@),
        decreases boundaries.len() - i,
    {
        assert(bs.take(i + 1).drop_last() =~= bs.take(i as int));
        assert(bs.take(i + 1).last() == boundaries@[i as int]@);
        match &boundaries[i] {
            Boundary::Module(b) => match find_package(&doc, b.crate_package_str()) {
                Some(p) => match p.get("manifest_path") {
                    Some(v) => match v.as_str() {
                        Some(manifest) => {
                            if !holds(&out, manifest) {
                                let ghost before = strs(out@);
                                out.push(owned(manifest));
                                assert(strs(out@) =~= before.push(manifest@));
                            }
                        },
                        None => {},
                    },
                    None => {},
                },
                None => {},
            },
            Boundary::Crate(_) => {},
        }
        i += 1;
    }
    assert(bs.take(boundaries.len() as int) =~= bs);
    out
}


/// The workspace package a boundary targets: the crate of a crate boundary, the
/// crate holding the module of a module boundary.
pub open spec fn boundary_package(b: BoundaryView) -> Seq<char> {
    match b {
        BoundaryView::Crate(cb) => cb.package,
        BoundaryView::Module(mb) => mb.crate_package,
    }
}

/// Whether some boundary targets the package named `name`.
pub open spec fn targeted(bs: Seq<BoundaryView>, name: Seq<char>) -> bool {
    exists|i: int| 0 <= i < bs.len() && boundary_package(#[trigger] bs[i]) == name
}

/// The packages of a `cargo metadata` document (none when it lists none).
pub open spec fn workspace_packages(doc: JsonView) -> Seq<JsonView> {
    match doc.get("packages"@).as_array() {
        Some(packages) => packages,
        None => Seq::empty(),
    }
}

/// The names of the packages that no boundary targets, in package order.
pub open spec fn uncovered_names(packages: Seq<JsonView>, bs: Seq<BoundaryView>) -> Seq<Seq<char>>
    decreases packages.len(),
{
    if packages.len() == 0 {
        Seq::empty()
    } else {
        let rest = uncovered_names(packages.drop_last(), bs);
        match packages.last().get("name"@).as_str() {
            Some(name) => if targeted(bs, name) {
                rest
            } else {
                rest.push(name)
            },
            None => rest,
        }
    }
}

/// A count, saturating at the largest `u32`.
pub open spec fn saturating_count(n: nat) -> nat {
    if n <= u32::MAX {
        n
    } else {
        u32::MAX as nat
    }
}

/// The coverage of a workspace by a constitution: how many workspace crates it
/// has and which of them no boundary targets; none when its metadata cannot be
/// read.
pub open spec fn coverage_of(c: ConstitutionView, ws: WorkspaceView) -> Option<CoverageView> {
    match ws.metadata {
        Err(_) => None,
        Ok(text) => match json_parse(text) {
            Err(_) => None,
            Ok(doc) => Some(
                CoverageView {
                    workspace_crates: saturating_count(workspace_packages(doc).len()),
                    uncovered: uncovered_names(workspace_packages(doc), c.boundaries),
                },
            ),
        },
    }
}

/// Coverage names exactly the uncovered crates: a name is reported uncovered if
/// and only if some workspace package has that name and no boundary (crate or
/// module) targets it.
pub proof fn coverage_names_exactly_the_untargeted_crates(
    packages: Seq<JsonView>,
    bs: Seq<BoundaryView>,
)
    ensures
        forall|n: Seq<char>| #[trigger] uncovered_names(packages, bs).contains(n) <==> (!targeted(
            bs,
            n,
        ) && exists|k: int|
            0 <= k < packages.len() && (#[trigger] packages[k]).get("name"@).as_str() == Some(n)),
    decreases packages.len(),
{
    if packages.len() > 0 {
        let init = packages.drop_last();
        coverage_names_exactly_the_untargeted_crates(init, bs);
        let rest = uncovered_names(init, bs);
        let last = packages.last();
        assert(packages[packages.len() - 1] == last);
        assert forall|n: Seq<char>| #[trigger] uncovered_names(packages, bs).contains(n) <==> (
        !targeted(bs, n) && exists|k: int|
            0 <= k < packages.len() && (#[trigger] packages[k]).get("name"@).as_str() == Some(
                n,
            )) by {
            let all = uncovered_names(packages, bs);
            if exists|k: int|
                0 <= k < init.len() && (#[trigger] init[k]).get("name"@).as_str() == Some(n) {
                let k = choose|k: int|
                    0 <= k < init.len() && (#[trigger] init[k]).get("name"@).as_str() == Some(n);
                assert(packages[k] == init[k]);
            }
            if exists|k: int|
                0 <= k < packages.len() && (#[trigger] packages[k]).get("name"@).as_str() == Some(
                    n,
                ) {
                let k = choose|k: int|
                    0 <= k < packages.len() && (#[trigger] packages[k]).get("name"@).as_str()
                        == Some(n);
                if k < init.len() {
                    assert(init[k] == packages[k]);
                }
            }
            match last.get("name"@).as_str() {
                Some(name) => if !targeted(bs, name) {
                    assert(all == rest.push(name));
                    if all.contains(n) {
                        let j = choose|j: int| 0 <= j < all.len() && all[j] == n;
                        if j < rest.len() {
                            assert(rest[j] == n);
                        }
                    }
                    if rest.contains(n) {
                        let j = choose|j: int| 0 <= j < rest.len() && rest[j] == n;
                        assert(all[j] == n);
                    }
                    if n == name {
                        assert(all[rest.len() as int] == n);
                    }
                },
                None => {},
            }
        }
    }
}

/// Whether some boundary targets the package named `name`.
fn is_targeted(boundaries: &[Boundary], name: &str) -> (r: bool)
    ensures
        r == targeted(boundary_views(boundaries@), name@),
{
    let ghost bs = boundary_views(boundaries@);
    let mut i: usize = 0;
    while i < boundaries.len()
        invariant
            i <= boundaries.len(),
            bs == boundary_views(boundaries@),
            forall|j: int| 0 <= j < i ==> boundary_package(#[trigger] bs[j]) != name@,
        decreases boundaries.len() - i,
    {
        assert(bs[i as int] == boundaries@[i as int]@);
        let package: &str = match &boundaries[i] {
            Boundary::Crate(b) => b.target().package.as_str(),
            Boundary::Module(b) => b.crate_package_str(),
        };
        if str_eq(package, name) {
            assert(boundary_package(bs[i as int]) == name@);
            return true;
        }
        i += 1;
    }
    false
}

/// How much of the workspace the constitution covers: the number of workspace
/// crates and, in package order, those that no boundary targets (neither a crate
/// boundary nor a module boundary names them). None when the workspace metadata
/// cannot be read, for then there is nothing to cover.
pub fn coverage(constitution: &Constitution, workspace: &Workspace) -> (r: Option<Coverage>)
    ensures
        coverage_view(r) == coverage_of(constitution@, workspace@),
{
    let text = match &workspace.metadata {
        Ok(t) => t,
        Err(_) => {
            return None;
        },
    };
    let doc = match parse_json(text.as_str()) {
        Ok(doc) => doc,
        Err(_) => {
            return None;
        },
    };
    let empty: Vec<Json> = Vec::new();
    let packages: &Vec<Json> = match doc.get("packages") {
        Some(v) => match v.as_array() {
            Some(items) => items,
            None => &empty,
        },
        None => &empty,
    };
    let ghost all = items_view(packages@);
    proof {
        lemma_items_view(packages@);
        if packages@.len() == 0 {
            assert(all =~= workspace_packages(doc@));
        }
    }
    assert(all == workspace_packages(doc@));
    let boundaries = constitution.boundaries();
    let ghost bs = constitution@.boundaries;
    let mut uncovered: Vec<String> = Vec::new();
    let mut count: u32 = 0;
    let mut i: usize = 0;
    while i < packages.len()
        invariant
            i <= packages.len(),
            all == items_view(packages@),
            all.len() == packages.len(),
            forall|k: int| 0 <= k < packages.len() ==> #[trigger] all[k] == packages@[k]@,
            bs == boundary_views(boundaries@),
            count == saturating_count(i as nat),
            strs(uncovered@) == uncovered_names(all.take(i as int), bs),
        decreases packages.len() - i,
    {
        assert(all.take(i + 1).drop_last() =~= all.take(i as int));
        assert(all.take(i + 1).last() == packages@[i as int]@);
        if count < u32::MAX {
            count += 1;
        }
        match packages[i].get("name") {
            Some(n) => match n.as_str() {
                Some(name) => {
                    if !is_targeted(boundaries, name) {
                        let ghost before = strs(uncovered@);
                        uncovered.push(owned(name));
                        assert(strs(uncovered@) =~= before.push(name@));
                    }
                },
                None => {},
            },
            None => {},
        }
        i += 1;
    }
    assert(all.take(packages.len() as int) =~= all);
    let r = Some(Coverage { workspace_crates: count, uncovered });
    assert(coverage_view(r) == coverage_of(constitution@, workspace@));
    r
}

/// The paths `offending` keeps are those that offend the rule.
proof fn lemma_offending(paths: Seq<Seq<char>>, rule: ModuleRuleView, module: Seq<char>)
    ensures
        forall|p: Seq<char>| #[trigger] offending(paths, rule, module).contains(p) <==> (paths.contains(
            p,
        ) && offends(p, rule, module)),
    decreases paths.len(),
{
    if paths.len() > 0 {
        let init = paths.drop_last();
        lemma_offending(init, rule, module);
        let rest = offending(init, rule, module);
        assert forall|p: Seq<char>| #[trigger] offending(paths, rule, module).contains(p) <==> (
        paths.contains(p) && offends(p, rule, module)) by {
            if paths.contains(p) {
                let k = choose|k: int| 0 <= k < paths.len() && paths[k] == p;
                if k < init.len() {
                    assert(init[k] == p);
                }
            }
            if init.contains(p) {
                let k = choose|k: int| 0 <= k < init.len() && init[k] == p;
                assert(paths[k] == p);
            }
            assert(paths[paths.len() - 1] == paths.last());
            if offends(paths.last(), rule, module) {
                let t = rest.push(paths.last());
                if t.contains(p) {
                    let k = choose|k: int| 0 <= k < t.len() && t[k] == p;
                    if k < rest.len() {
                        assert(rest[k] == p);
                    }
                }
                if rest.contains(p) {
                    let k = choose|k: int| 0 <= k < rest.len() && rest[k] == p;
                    assert(t[k] == p);
                }
                assert(t[rest.len() as int] == paths.last());
            }
        }
    }
}

/// `offending` keeps a strictly sorted sequence strictly sorted.
proof fn lemma_offending_sorted(paths: Seq<Seq<char>>, rule: ModuleRuleView, module: Seq<char>)
    requires
        strictly_sorted(paths),
    ensures
        strictly_sorted(offending(paths, rule, module)),
    decreases paths.len(),
{
    if paths.len() > 0 {
        let init = paths.drop_last();
        assert(strictly_sorted(init)) by {
            assert forall|i: int, j: int| 0 <= i < j < init.len() implies seq_lt(
                #[trigger] init[i],
                #[trigger] init[j],
            ) by {
                assert(init[i] == paths[i] && init[j] == paths[j]);
            }
        }
        lemma_offending_sorted(init, rule, module);
        lemma_offending(init, rule, module);
        let rest = offending(init, rule, module);
        if offends(paths.last(), rule, module) {
            let t = rest.push(paths.last());
            assert forall|i: int, j: int| 0 <= i < j < t.len() implies seq_lt(
                #[trigger] t[i],
                #[trigger] t[j],
            ) by {
                if j < rest.len() {
                    assert(t[i] == rest[i] && t[j] == rest[j]);
                } else {
                    assert(t[i] == rest[i]);
                    assert(rest.contains(rest[i]));
                    assert(init.contains(rest[i]));
                    let k = choose|k: int| 0 <= k < init.len() && #[trigger] init[k] == rest[i];
                    assert(paths[k] == init[k]);
                    assert(paths[paths.len() - 1] == paths.last());
                    assert(t[j] == paths.last());
                }
            }
        }
    }
}

/// The imports of readable governed files are exactly the imports that one of
/// the files makes.
proof fn lemma_governed_imports(gov: Seq<(SourceFileView, Seq<char>)>)
    requires
        governed_imports(gov) is Ok,
    ensures
        forall|g: int| 0 <= g < gov.len() ==> (#[trigger] gov[g]).0.text is Ok,
        forall|p: Seq<char>|
            #[trigger] governed_imports(gov)->Ok_0.contains(p) <==> exists|g: int|
                0 <= g < gov.len() && #[trigger] import_list(gov[g].0.text->Ok_0, gov[g].1).contains(
                    p,
                ),
    decreases gov.len(),
{
    if gov.len() > 0 {
        let init = gov.drop_last();
        lemma_governed_imports(init);
        let ps = governed_imports(init)->Ok_0;
        let last = gov.last();
        let il = import_list(last.0.text->Ok_0, last.1);
        let all = ps + il;
        assert(governed_imports(gov)->Ok_0 == all);
        assert(gov[gov.len() - 1] == last);
        assert forall|g: int| 0 <= g < gov.len() implies (#[trigger] gov[g]).0.text is Ok by {
            if g < init.len() {
                assert(gov[g] == init[g]);
            }
        }
        assert forall|p: Seq<char>| #[trigger] all.contains(p) <==> exists|g: int|
            0 <= g < gov.len() && #[trigger] import_list(gov[g].0.text->Ok_0, gov[g].1).contains(
                p,
            ) by {
            if all.contains(p) {
                let j = choose|j: int| 0 <= j < all.len() && #[trigger] all[j] == p;
                if j < ps.len() {
                    assert(ps[j] == p);
                    assert(ps.contains(p));
                    let g = choose|g: int| 0 <= g < init.len() && #[trigger] import_list(init[g].0.text->Ok_0, init[g].1).contains(p);
                    assert(gov[g] == init[g]);
                } else {
                    assert(il[j - ps.len()] == p);
                    assert(il.contains(p));
                    assert(import_list(gov[gov.len() - 1].0.text->Ok_0, gov[gov.len() - 1].1).contains(p));
                }
            }
            if exists|g: int| 0 <= g < gov.len() && #[trigger] import_list(gov[g].0.text->Ok_0, gov[g].1).contains(p) {
                let g = choose|g: int| 0 <= g < gov.len() && #[trigger] import_list(gov[g].0.text->Ok_0, gov[g].1).contains(p);
                if g < init.len() {
                    assert(gov[g] == init[g]);
                    assert(import_list(init[g].0.text->Ok_0, init[g].1).contains(p));
                    assert(ps.contains(p));
                    let j = choose|j: int| 0 <= j < ps.len() && #[trigger] ps[j] == p;
                    assert(all[j] == p);
                } else {
                    assert(gov[g] == last);
                    let j = choose|j: int| 0 <= j < il.len() && #[trigger] il[j] == p;
                    assert(all[ps.len() + j] == p);
                }
            }
        }
    }
}

/// A module boundary reports exactly the offending imports of its observed files,
/// each once: every violation is an import that offends the rule (for
/// must-not-import, one of the forbidden module or beneath it), reported against
/// the governed module; the findings are strictly increasing, so none is reported
/// twice however many files make it; and every such import that an observed file
/// makes is reported.
pub proof fn a_module_boundary_reports_exactly_the_forbidden_imports(
    gov: Seq<(SourceFileView, Seq<char>)>,
    b: ModuleBoundaryView,
)
    requires
        !(b.rule is MustNotBeImportedBy),
        file_violations(gov, b) is Ok,
    ensures
        forall|i: int|
            0 <= i < file_violations(gov, b)->Ok_0.len() ==> {
                let v = #[trigger] file_violations(gov, b)->Ok_0[i];
                v == module_violation(b, v.finding) && offends(v.finding, b.rule, b.module)
            },
        forall|i: int, j: int|
            0 <= i < j < file_violations(gov, b)->Ok_0.len() ==> seq_lt(
                (#[trigger] file_violations(gov, b)->Ok_0[i]).finding,
                (#[trigger] file_violations(gov, b)->Ok_0[j]).finding,
            ),
        forall|g: int, p: Seq<char>|
            0 <= g < gov.len() && #[trigger] import_list(gov[g].0.text->Ok_0, gov[g].1).contains(p)
                && offends(p, b.rule, b.module) ==> exists|i: int|
                0 <= i < file_violations(gov, b)->Ok_0.len() && #[trigger] file_violations(
                    gov,
                    b,
                )->Ok_0[i].finding == p,
{
    lemma_governed_imports(gov);
    let ps = governed_imports(gov)->Ok_0;
    let sorted = sorted_set(ps);
    lemma_sorted_set_elements(ps);
    lemma_offending(sorted, b.rule, b.module);
    lemma_offending_sorted(sorted, b.rule, b.module);
    let found = offending(sorted, b.rule, b.module);
    let vs = found.map_values(|p: Seq<char>| module_violation(b, p));
    assert(file_violations(gov, b)->Ok_0 == vs);
    assert forall|i: int| 0 <= i < vs.len() implies {
        let v = #[trigger] vs[i];
        v == module_violation(b, v.finding) && offends(v.finding, b.rule, b.module)
    } by {
        assert(found.contains(found[i]));
    }
    assert forall|i: int, j: int| 0 <= i < j < vs.len() implies seq_lt(
        (#[trigger] vs[i]).finding,
        (#[trigger] vs[j]).finding,
    ) by {
        assert(vs[i].finding == found[i] && vs[j].finding == found[j]);
    }
    assert forall|g: int, p: Seq<char>|
        0 <= g < gov.len() && #[trigger] import_list(gov[g].0.text->Ok_0, gov[g].1).contains(p)
            && offends(p, b.rule, b.module) implies exists|i: int|
        0 <= i < vs.len() && #[trigger] vs[i].finding == p by {
        assert(ps.contains(p));
        assert(sorted.contains(p));
        assert(found.contains(p));
        let k = choose|k: int| 0 <= k < found.len() && found[k] == p;
        assert(vs[k].finding == p);
    }
}

/// When every observed file could be read, the modules that reach `target` are
/// exactly those of the files that import `target` or something beneath it.
proof fn lemma_reaching_importers(gov: Seq<(SourceFileView, Seq<char>)>, target: Seq<char>)
    requires
        forall|g: int| 0 <= g < gov.len() ==> (#[trigger] gov[g]).0.text is Ok,
    ensures
        reaching_importers(gov, target) is Ok,
        forall|m: Seq<char>|
            #[trigger] reaching_importers(gov, target)->Ok_0.contains(m) <==> exists|g: int|
                0 <= g < gov.len() && (#[trigger] gov[g]).1 == m && reaches_into(
                    import_list(gov[g].0.text->Ok_0, gov[g].1),
                    target,
                ),
    decreases gov.len(),
{
    if gov.len() > 0 {
        let init = gov.drop_last();
        assert forall|g: int| 0 <= g < init.len() implies (#[trigger] init[g]).0.text is Ok by {
            assert(init[g] == gov[g]);
        }
        lemma_reaching_importers(init, target);
        let ms = reaching_importers(init, target)->Ok_0;
        let last = gov.last();
        assert(gov[gov.len() - 1] == last);
        let hit = reaches_into(import_list(last.0.text->Ok_0, last.1), target);
        let all = if hit {
            ms.push(last.1)
        } else {
            ms
        };
        assert(reaching_importers(gov, target) == Ok::<Seq<Seq<char>>, Seq<char>>(all));
        assert forall|m: Seq<char>| #[trigger] all.contains(m) <==> exists|g: int|
            0 <= g < gov.len() && (#[trigger] gov[g]).1 == m && reaches_into(
                import_list(gov[g].0.text->Ok_0, gov[g].1),
                target,
            ) by {
            if all.contains(m) {
                let j = choose|j: int| 0 <= j < all.len() && all[j] == m;
                if j < ms.len() {
                    assert(ms[j] == m);
                    assert(ms.contains(m));
                    let g = choose|g: int|
                        0 <= g < init.len() && (#[trigger] init[g]).1 == m && reaches_into(
                            import_list(init[g].0.text->Ok_0, init[g].1),
                            target,
                        );
                    assert(gov[g] == init[g]);
                }
            }
            if exists|g: int|
                0 <= g < gov.len() && (#[trigger] gov[g]).1 == m && reaches_into(
                    import_list(gov[g].0.text->Ok_0, gov[g].1),
                    target,
                ) {
                let g = choose|g: int|
                    0 <= g < gov.len() && (#[trigger] gov[g]).1 == m && reaches_into(
                        import_list(gov[g].0.text->Ok_0, gov[g].1),
                        target,
                    );
                if g < init.len() {
                    assert(init[g] == gov[g]);
                    assert(ms.contains(m));
                    let j = choose|j: int| 0 <= j < ms.len() && ms[j] == m;
                    assert(all[j] == m);
                } else {
                    assert(all[ms.len() as int] == m);
                }
            }
        }
    }
}

/// The inbound rule names exactly the offending importers, each once: every
/// violation names, as its finding, the module of an observed file (one at or
/// beneath the importer) that imports the governed module or something beneath
/// it; every such module is named; and the findings are strictly increasing.
pub proof fn an_inbound_rule_names_exactly_the_importers_that_reach_in(
    gov: Seq<(SourceFileView, Seq<char>)>,
    b: ModuleBoundaryView,
)
    requires
        b.rule is MustNotBeImportedBy,
        forall|g: int| 0 <= g < gov.len() ==> (#[trigger] gov[g]).0.text is Ok,
    ensures
        file_violations(gov, b) is Ok,
        forall|i: int|
            0 <= i < file_violations(gov, b)->Ok_0.len() ==> {
                let v = #[trigger] file_violations(gov, b)->Ok_0[i];
                v == module_violation(b, v.finding) && exists|g: int|
                    0 <= g < gov.len() && (#[trigger] gov[g]).1 == v.finding && reaches_into(
                        import_list(gov[g].0.text->Ok_0, gov[g].1),
                        b.module,
                    )
            },
        forall|g: int|
            0 <= g < gov.len() && reaches_into(
                import_list((#[trigger] gov[g]).0.text->Ok_0, gov[g].1),
                b.module,
            ) ==> exists|i: int|
                0 <= i < file_violations(gov, b)->Ok_0.len() && #[trigger] file_violations(
                    gov,
                    b,
                )->Ok_0[i].finding == gov[g].1,
        forall|i: int, j: int|
            0 <= i < j < file_violations(gov, b)->Ok_0.len() ==> seq_lt(
                (#[trigger] file_violations(gov, b)->Ok_0[i]).finding,
                (#[trigger] file_violations(gov, b)->Ok_0[j]).finding,
            ),
{
    lemma_reaching_importers(gov, b.module);
    let ms = reaching_importers(gov, b.module)->Ok_0;
    let sorted = sorted_set(ms);
    lemma_sorted_set_elements(ms);
    let vs = sorted.map_values(|m: Seq<char>| module_violation(b, m));
    assert(file_violations(gov, b)->Ok_0 == vs);
    assert forall|i: int| 0 <= i < vs.len() implies {
        let v = #[trigger] vs[i];
        v == module_violation(b, v.finding) && exists|g: int|
            0 <= g < gov.len() && (#[trigger] gov[g]).1 == v.finding && reaches_into(
                import_list(gov[g].0.text->Ok_0, gov[g].1),
                b.module,
            )
    } by {
        assert(sorted.contains(sorted[i]));
        assert(ms.contains(sorted[i]));
    }
    assert forall|g: int|
        0 <= g < gov.len() && reaches_into(
            import_list((#[trigger] gov[g]).0.text->Ok_0, gov[g].1),
            b.module,
        ) implies exists|i: int| 0 <= i < vs.len() && #[trigger] vs[i].finding == gov[g].1 by {
        assert(ms.contains(gov[g].1));
        assert(sorted.contains(gov[g].1));
        let k = choose|k: int| 0 <= k < sorted.len() && sorted[k] == gov[g].1;
        assert(vs[k].finding == gov[g].1);
    }
    assert forall|i: int, j: int| 0 <= i < j < vs.len() implies seq_lt(
        (#[trigger] vs[i]).finding,
        (#[trigger] vs[j]).finding,
    ) by {
        assert(vs[i].finding == sorted[i] && vs[j].finding == sorted[j]);
    }
}

/// The violations of a module boundary do not depend on the order in which its
/// governed files are listed (the order in which a directory was read): two
/// listings of the same readable files give the same violations, in the same order.
pub proof fn module_violations_do_not_depend_on_file_order(
    gov1: Seq<(SourceFileView, Seq<char>)>,
    gov2: Seq<(SourceFileView, Seq<char>)>,
    b: ModuleBoundaryView,
)
    requires
        forall|f: (SourceFileView, Seq<char>)| #[trigger] gov1.contains(f) <==> gov2.contains(f),
        governed_imports(gov1) is Ok,
        governed_imports(gov2) is Ok,
    ensures
        file_violations(gov1, b) == file_violations(gov2, b),
{
    lemma_governed_imports(gov1);
    lemma_governed_imports(gov2);
    let ps1 = governed_imports(gov1)->Ok_0;
    let ps2 = governed_imports(gov2)->Ok_0;
    assert forall|p: Seq<char>| #[trigger] ps1.contains(p) <==> ps2.contains(p) by {
        if ps1.contains(p) {
            let g = choose|g: int| 0 <= g < gov1.len() && #[trigger] import_list(gov1[g].0.text->Ok_0, gov1[g].1).contains(p);
            assert(gov1.contains(gov1[g]));
            assert(gov2.contains(gov1[g]));
            let h = choose|h: int| 0 <= h < gov2.len() && gov2[h] == gov1[g];
            assert(import_list(gov2[h].0.text->Ok_0, gov2[h].1).contains(p));
        }
        if ps2.contains(p) {
            let g = choose|g: int| 0 <= g < gov2.len() && #[trigger] import_list(gov2[g].0.text->Ok_0, gov2[g].1).contains(p);
            assert(gov2.contains(gov2[g]));
            assert(gov1.contains(gov2[g]));
            let h = choose|h: int| 0 <= h < gov1.len() && gov1[h] == gov2[g];
            assert(import_list(gov1[h].0.text->Ok_0, gov1[h].1).contains(p));
        }
    }
    lemma_sorted_set_elements(ps1);
    lemma_sorted_set(sorted_set(ps1), ps2);
    if b.rule is MustNotBeImportedBy {
        lemma_reaching_importers(gov1, b.module);
        lemma_reaching_importers(gov2, b.module);
        let ms1 = reaching_importers(gov1, b.module)->Ok_0;
        let ms2 = reaching_importers(gov2, b.module)->Ok_0;
        assert forall|m: Seq<char>| #[trigger] ms1.contains(m) <==> ms2.contains(m) by {
            if ms1.contains(m) {
                let g = choose|g: int|
                    0 <= g < gov1.len() && (#[trigger] gov1[g]).1 == m && reaches_into(
                        import_list(gov1[g].0.text->Ok_0, gov1[g].1),
                        b.module,
                    );
                assert(gov1.contains(gov1[g]));
                assert(gov2.contains(gov1[g]));
                let h = choose|h: int| 0 <= h < gov2.len() && gov2[h] == gov1[g];
                assert((gov2[h]).1 == m);
            }
            if ms2.contains(m) {
                let g = choose|g: int|
                    0 <= g < gov2.len() && (#[trigger] gov2[g]).1 == m && reaches_into(
                        import_list(gov2[g].0.text->Ok_0, gov2[g].1),
                        b.module,
                    );
                assert(gov2.contains(gov2[g]));
                assert(gov1.contains(gov2[g]));
                let h = choose|h: int| 0 <= h < gov1.len() && gov1[h] == gov2[g];
                assert((gov1[h]).1 == m);
            }
        }
        lemma_sorted_set_elements(ms1);
        lemma_sorted_set(sorted_set(ms1), ms2);
    }
}

/// No declared shape, no drift: a constitution without boundaries checks clean
/// against any workspace whose metadata can be read.
pub proof fn no_declared_shape_no_drift(c: ConstitutionView, ws: WorkspaceView)
    requires
        c.boundaries.len() == 0,
        ws.metadata is Ok,
        json_parse(ws.metadata->Ok_0) is Ok,
    ensures
        evaluation(c, ws) == OutcomeView::Clean,
{
}

/// A check exits 2 exactly when the constitution cannot be evaluated: the
/// workspace metadata cannot be read, or some boundary (whatever its place) has an
/// unresolvable target, an unlocatable or unreadable source, or an unknown module.
pub proof fn a_check_exits_2_exactly_when_the_constitution_cannot_be_evaluated(
    c: ConstitutionView,
    ws: WorkspaceView,
)
    ensures
        (evaluation(c, ws).exit_code() == 2) <==> (ws.metadata is Err || json_parse(
            ws.metadata->Ok_0,
        ) is Err || exists|i: int|
            0 <= i < c.boundaries.len() && (#[trigger] boundary_violations(
                c.boundaries[i],
                json_parse(ws.metadata->Ok_0)->Ok_0,
                ws.sources,
            )) is Err),
{
    if ws.metadata is Ok && json_parse(ws.metadata->Ok_0) is Ok {
        an_unresolvable_boundary_supersedes_every_violation(
            c.boundaries,
            json_parse(ws.metadata->Ok_0)->Ok_0,
            ws.sources,
        );
    }
}

} // verus!
