//! Projections: the declared constitution rendered as text for a reader and as
//! JSON for a machine, and an outcome rendered as a JSON report. A projection is a
//! view of the Rust source of truth, never a second source and never a reaction.
use vstd::prelude::*;
use crate::baseline::{entry_doc, entry_json};
use crate::json::{
    Json, JsonView, items_view, items_within, json_parse, json_render, lemma_array_within,
    lemma_empty_within, lemma_object_within, lemma_scalar_within, members_view, members_within,
    nests_within, push_item, push_member, read_ok, render_json,
};
use crate::metadata::table_word;
use crate::model::{
    Boundary, DependencyKind, ModuleRuleView, BoundaryView, Constitution, ConstitutionView, CrateBoundaryView, ModuleBoundaryView,
    ModuleRule, Rule, RuleView, Severity, boundary_views, module_rule_label, rule_label, strs,
};
use crate::report::{
    BoundaryKind, Coverage, CoverageView, IdView, Outcome, OutcomeView, Violation, ViolationId,
    ViolationView, any_fails, violation_views,
};
use crate::text::{append_str, chars_of, decimal, decimal_u64, extend_chars, owned, string_of};

verus! {

/// The word a severity is shown as.
pub open spec fn severity_word(severity: Severity) -> Seq<char> {
    match severity {
        Severity::Enforce => "enforce"@,
        Severity::Warn => "warn"@,
    }
}

/// The word a severity is shown as: `enforce` or `warn`.
pub fn severity_label(severity: Severity) -> (r: &'static str)
    ensures
        r@ == severity_word(severity),
{
    match severity {
        Severity::Enforce => "enforce",
        Severity::Warn => "warn",
    }
}

/// The names joined by `", "`.
pub open spec fn joined(names: Seq<Seq<char>>) -> Seq<char>
    decreases names.len(),
{
    if names.len() == 0 {
        Seq::empty()
    } else if names.len() == 1 {
        names[0]
    } else {
        joined(names.drop_last()) + ", "@ + names.last()
    }
}

/// The human-readable text of a crate rule with its parameters.
pub open spec fn rule_text(rule: RuleView) -> Seq<char> {
    match rule {
        RuleView::DenyExternal(allowed) => if allowed.len() == 0 {
            "deny external dependencies"@
        } else {
            "deny external dependencies (allow: "@ + joined(allowed) + ")"@
        },
        RuleView::Forbid(crates) => "forbid dependency on: "@ + joined(crates),
        RuleView::Restrict(allowed) => if allowed.len() == 0 {
            "restrict dependencies to nothing"@
        } else {
            "restrict dependencies to: "@ + joined(allowed)
        },
        RuleView::RestrictWorkspace(allowed) => if allowed.len() == 0 {
            "restrict workspace dependencies to nothing"@
        } else {
            "restrict workspace dependencies to: "@ + joined(allowed)
        },
    }
}

/// The text of a crate rule names every crate of its list, in order, separated
/// by `", "`: a one-crate list shows that crate after the rule's words, and one
/// more crate at the end of a non-empty list adds `", "` and its name at the end
/// of the list (before the closing bracket of the deny-external allowlist).
pub proof fn a_rule_text_names_every_crate_in_order(cs: Seq<Seq<char>>, c: Seq<char>)
    ensures
        rule_text(RuleView::Forbid(seq![c])) == "forbid dependency on: "@ + c,
        cs.len() > 0 ==> rule_text(RuleView::Forbid(cs.push(c))) == rule_text(RuleView::Forbid(cs))
            + ", "@ + c,
        rule_text(RuleView::Restrict(seq![c])) == "restrict dependencies to: "@ + c,
        cs.len() > 0 ==> rule_text(RuleView::Restrict(cs.push(c))) == rule_text(
            RuleView::Restrict(cs),
        ) + ", "@ + c,
        rule_text(RuleView::RestrictWorkspace(seq![c])) == "restrict workspace dependencies to: "@
            + c,
        cs.len() > 0 ==> rule_text(RuleView::RestrictWorkspace(cs.push(c))) == rule_text(
            RuleView::RestrictWorkspace(cs),
        ) + ", "@ + c,
        rule_text(RuleView::DenyExternal(seq![c])) == "deny external dependencies (allow: "@ + c
            + ")"@,
        cs.len() > 0 ==> rule_text(RuleView::DenyExternal(cs.push(c))) == rule_text(
            RuleView::DenyExternal(cs),
        ).drop_last() + ", "@ + c + ")"@,
{
    reveal_strlit(")");
    assert(seq![c].len() == 1 && seq![c][0] == c);
    if cs.len() > 0 {
        let t = cs.push(c);
        assert(t.drop_last() =~= cs);
        assert(t.last() == c);
        assert(joined(t) == joined(cs) + ", "@ + c);
        let p1 = "forbid dependency on: "@;
        assert(p1 + joined(t) =~= p1 + joined(cs) + ", "@ + c);
        let p2 = "restrict dependencies to: "@;
        assert(p2 + joined(t) =~= p2 + joined(cs) + ", "@ + c);
        let p3 = "restrict workspace dependencies to: "@;
        assert(p3 + joined(t) =~= p3 + joined(cs) + ", "@ + c);
        let p4 = "deny external dependencies (allow: "@;
        assert((p4 + joined(cs) + ")"@).drop_last() =~= p4 + joined(cs));
        assert(p4 + joined(t) + ")"@ =~= p4 + joined(cs) + ", "@ + c + ")"@);
    }
}

/// The human-readable text of a module rule with its parameter.
pub open spec fn module_rule_text(rule: ModuleRuleView) -> Seq<char> {
    match rule {
        ModuleRuleView::MustNotImport(forbidden) => "must not import "@ + forbidden,
        ModuleRuleView::RestrictImportsTo(allowed) => if allowed.len() == 0 {
            "may import nothing outside itself"@
        } else {
            "may import only: "@ + joined(allowed)
        },
        ModuleRuleView::MustNotBeImportedBy(importer) => "must not be imported by "@ + importer,
    }
}

/// What the text of a crate rule adds for the dependency table it observes:
/// nothing for the normal one.
pub open spec fn kind_text(kind: DependencyKind) -> Seq<char> {
    match table_word(kind) {
        Some(w) => " ("@ + w + " dependencies)"@,
        None => Seq::empty(),
    }
}

/// The text block of one boundary: its severity and target, then its rule (with
/// the dependency table a crate rule observes, unless the normal one) and reason.
pub open spec fn boundary_text(b: BoundaryView) -> Seq<char> {
    let (severity, target, rule, reason) = match b {
        BoundaryView::Crate(c) => (
            c.severity,
            "crate "@ + c.package,
            rule_text(c.rule) + kind_text(c.kind),
            c.reason,
        ),
        BoundaryView::Module(m) => (
            m.severity,
            "module "@ + m.module + " in "@ + m.crate_package,
            module_rule_text(m.rule),
            m.reason,
        ),
    };
    "\n["@ + severity_word(severity) + "] "@ + target + "\n  rule:   "@ + rule + "\n  reason: "@
        + reason + "\n"@
}

/// The text blocks of the boundaries, in order.
pub open spec fn boundaries_text(bs: Seq<BoundaryView>) -> Seq<char>
    decreases bs.len(),
{
    if bs.len() == 0 {
        Seq::empty()
    } else {
        boundaries_text(bs.drop_last()) + boundary_text(bs.last())
    }
}

/// The text projection of a constitution: a header with its name and boundary
/// count, then one block per boundary.
pub open spec fn constitution_text_of(c: ConstitutionView) -> Seq<char> {
    let n = c.boundaries.len();
    let noun = if n == 1 {
        "boundary"@
    } else {
        "boundaries"@
    };
    "Constitution: "@ + c.name + "  ("@ + decimal(n) + " "@ + noun + ")\n"@ + boundaries_text(
        c.boundaries,
    )
}

/// Appends the names of `names`, joined by `", "`, to `out`.
fn append_joined(out: &mut Vec<char>, names: &Vec<String>)
    ensures
        final(out)@ == old(out)@ + joined(strs(names@)),
{
    let ghost ns = strs(names@);
    let ghost start = out@;
    let mut i: usize = 0;
    while i < names.len()
        invariant
            i <= names.len(),
            ns == strs(names@),
            out@ == start + joined(ns.take(i as int)),
        decreases names.len() - i,
    {
        assert(ns.take(i + 1).drop_last() =~= ns.take(i as int));
        assert(ns.take(i + 1).last() == names@[i as int]@);
        if i > 0 {
            append_str(out, ", ");
        } else {
            assert(ns.take(i as int) =~= Seq::<Seq<char>>::empty());
            assert(ns.take(1)[0] == names@[0]@);
        }
        append_str(out, names[i].as_str());
        i += 1;
    }
    assert(ns.take(names.len() as int) =~= ns);
}

impl Rule {
    /// The human-readable rule text with its parameters, for the text projection.
    pub fn text(&self) -> (out: String)
        ensures
            out@ == rule_text(self@),
    {
        let mut v: Vec<char> = Vec::new();
        match self {
            Rule::DenyExternalDependencies { allowed } => {
                if allowed.len() == 0 {
                    append_str(&mut v, "deny external dependencies");
                } else {
                    append_str(&mut v, "deny external dependencies (allow: ");
                    append_joined(&mut v, allowed);
                    append_str(&mut v, ")");
                }
            },
            Rule::ForbidDependencyOn { crates } => {
                append_str(&mut v, "forbid dependency on: ");
                append_joined(&mut v, crates);
            },
            Rule::RestrictDependenciesTo { allowed } => {
                if allowed.len() == 0 {
                    append_str(&mut v, "restrict dependencies to nothing");
                } else {
                    append_str(&mut v, "restrict dependencies to: ");
                    append_joined(&mut v, allowed);
                }
            },
            Rule::RestrictWorkspaceDependenciesTo { allowed } => {
                if allowed.len() == 0 {
                    append_str(&mut v, "restrict workspace dependencies to nothing");
                } else {
                    append_str(&mut v, "restrict workspace dependencies to: ");
                    append_joined(&mut v, allowed);
                }
            },
        }
        string_of(&v)
    }
}

impl ModuleRule {
    /// The human-readable rule text with its parameter, for the text projection.
    pub fn text(&self) -> (out: String)
        ensures
            out@ == module_rule_text(self@),
    {
        match self {
            ModuleRule::MustNotImport { module } => {
                let mut v = chars_of("must not import ");
                append_str(&mut v, module.as_str());
                string_of(&v)
            },
            ModuleRule::RestrictImportsTo { allowed } => {
                let mut v: Vec<char> = Vec::new();
                if allowed.len() == 0 {
                    append_str(&mut v, "may import nothing outside itself");
                } else {
                    append_str(&mut v, "may import only: ");
                    append_joined(&mut v, allowed);
                }
                string_of(&v)
            },
            ModuleRule::MustNotBeImportedBy { module } => {
                let mut v = chars_of("must not be imported by ");
                append_str(&mut v, module.as_str());
                string_of(&v)
            },
        }
    }
}

/// Renders the declared constitution as a human-readable projection — the law as
/// the code declares it. An empty constitution renders its name and
/// `(0 boundaries)`.
#[verifier::rlimit(40)]
pub fn constitution_text(constitution: &Constitution) -> (out: String)
    ensures
        out@ == constitution_text_of(constitution@),
{
    let boundaries = constitution.boundaries();
    let ghost bs = constitution@.boundaries;
    let n = boundaries.len();
    let mut v = chars_of("Constitution: ");
    append_str(&mut v, constitution.name());
    append_str(&mut v, "  (");
    let digits = decimal_u64(n as u64);
    extend_chars(&mut v, &digits);
    append_str(&mut v, " ");
    if n == 1 {
        append_str(&mut v, "boundary");
    } else {
        append_str(&mut v, "boundaries");
    }
    append_str(&mut v, ")\n");
    let ghost header = v@;
    let mut i: usize = 0;
    while i < n
        invariant
            i <= n == boundaries.len(),
            bs == boundary_views(boundaries@),
            v@ == header + boundaries_text(bs.take(i as int)),
        decreases n - i,
    {
        assert(bs.take(i + 1).drop_last() =~= bs.take(i as int));
        assert(bs.take(i + 1).last() == boundaries@[i as int]@);
        let ghost before = v@;
        match &boundaries[i] {
            Boundary::Crate(b) => {
                append_str(&mut v, "\n[");
                append_str(&mut v, severity_label(b.severity()));
                append_str(&mut v, "] ");
                append_str(&mut v, "crate ");
                append_str(&mut v, b.target().package.as_str());
                append_str(&mut v, "\n  rule:   ");
                let rule = b.rule().text();
                append_str(&mut v, rule.as_str());
                let word = match b.dependency_kind() {
                    DependencyKind::Normal => None,
                    DependencyKind::Dev => Some("dev"),
                    DependencyKind::Build => Some("build"),
                };
                if let Some(w) = word {
                    append_str(&mut v, " (");
                    append_str(&mut v, w);
                    append_str(&mut v, " dependencies)");
                }
                append_str(&mut v, "\n  reason: ");
                append_str(&mut v, b.reason());
                append_str(&mut v, "\n");
                assert(v@ =~= before + boundary_text(boundaries@[i as int]@));
            },
            Boundary::Module(b) => {
                append_str(&mut v, "\n[");
                append_str(&mut v, severity_label(b.severity_of()));
                append_str(&mut v, "] ");
                append_str(&mut v, "module ");
                append_str(&mut v, b.module_str());
                append_str(&mut v, " in ");
                append_str(&mut v, b.crate_package_str());
                append_str(&mut v, "\n  rule:   ");
                let rule = b.rule_of().text();
                append_str(&mut v, rule.as_str());
                append_str(&mut v, "\n  reason: ");
                append_str(&mut v, b.reason_str());
                append_str(&mut v, "\n");
                assert(v@ =~= before + boundary_text(boundaries@[i as int]@));
            },
        }
        i += 1;
    }
    assert(bs.take(n as int) =~= bs);
    string_of(&v)
}


/// A JSON array of strings.
pub open spec fn strings_doc(names: Seq<Seq<char>>) -> JsonView {
    JsonView::Array(names.map_values(|s: Seq<char>| JsonView::Str(s)))
}

/// The JSON fields of a crate boundary: its kind, target, rule label, severity
/// and reason, then the rule's parameters. Deny-external's `allowed` exceptions
/// appear only when there are some; restrict-to's `only` always appears (`[]` when
/// empty); forbid lists its `crates`. A rule pointed at the dev or build table
/// carries its `dependency_kind`.
pub open spec fn crate_boundary_doc(b: CrateBoundaryView) -> JsonView {
    let base = Map::empty().insert("kind"@, JsonView::Str("crate"@)).insert(
        "target"@,
        JsonView::Str(b.package),
    ).insert("rule"@, JsonView::Str(rule_label(b.rule))).insert(
        "severity"@,
        JsonView::Str(severity_word(b.severity)),
    ).insert("reason"@, JsonView::Str(b.reason));
    let with_params = match b.rule {
        RuleView::DenyExternal(allowed) => if allowed.len() == 0 {
            base
        } else {
            base.insert("allowed"@, strings_doc(allowed))
        },
        RuleView::Forbid(crates) => base.insert("crates"@, strings_doc(crates)),
        RuleView::Restrict(allowed) => base.insert("only"@, strings_doc(allowed)),
        RuleView::RestrictWorkspace(allowed) => base.insert("only"@, strings_doc(allowed)),
    };
    JsonView::Object(
        match table_word(b.kind) {
            Some(w) => with_params.insert("dependency_kind"@, JsonView::Str(w)),
            None => with_params,
        },
    )
}

/// The JSON fields of a module boundary: its kind, the governed module as
/// target, its crate, rule label, severity, reason, and the rule's parameter: the
/// `forbidden` module, the `only` allowlist, or the `importer`.
pub open spec fn module_boundary_doc(b: ModuleBoundaryView) -> JsonView {
    let base = Map::empty().insert("kind"@, JsonView::Str("module"@)).insert(
        "target"@,
        JsonView::Str(b.module),
    ).insert("crate"@, JsonView::Str(b.crate_package)).insert(
        "rule"@,
        JsonView::Str(module_rule_label(b.rule)),
    ).insert("severity"@, JsonView::Str(severity_word(b.severity))).insert(
        "reason"@,
        JsonView::Str(b.reason),
    );
    JsonView::Object(
        match b.rule {
            ModuleRuleView::MustNotImport(forbidden) => base.insert(
                "forbidden"@,
                JsonView::Str(forbidden),
            ),
            ModuleRuleView::RestrictImportsTo(allowed) => base.insert("only"@, strings_doc(allowed)),
            ModuleRuleView::MustNotBeImportedBy(importer) => base.insert(
                "importer"@,
                JsonView::Str(importer),
            ),
        },
    )
}

/// The JSON projection of one boundary.
pub open spec fn boundary_doc(b: BoundaryView) -> JsonView {
    match b {
        BoundaryView::Crate(c) => crate_boundary_doc(c),
        BoundaryView::Module(m) => module_boundary_doc(m),
    }
}

/// The JSON projection of a constitution: its name and its boundaries in order.
pub open spec fn constitution_doc(c: ConstitutionView) -> JsonView {
    JsonView::Object(
        Map::empty().insert("constitution"@, JsonView::Str(c.name)).insert(
            "boundaries"@,
            JsonView::Array(c.boundaries.map_values(|b: BoundaryView| boundary_doc(b))),
        ),
    )
}

/// A JSON array of the strings `names`.
fn strings_json(names: &Vec<String>) -> (j: Json)
    ensures
        j@ == strings_doc(strs(names@)),
        nests_within(j, 1),
{
    let ghost ns = strs(names@);
    let mut items: Vec<Json> = Vec::new();
    proof {
        lemma_empty_within(0);
    }
    let mut i: usize = 0;
    while i < names.len()
        invariant
            i <= names.len(),
            ns == strs(names@),
            items_view(items@) == ns.take(i as int).map_values(|s: Seq<char>| JsonView::Str(s)),
            items_within(items@, 0),
        decreases names.len() - i,
    {
        let item = Json::Str(owned(names[i].as_str()));
        proof {
            lemma_scalar_within(item, 0);
        }
        push_item(&mut items, item);
        assert(ns.take(i + 1).map_values(|s: Seq<char>| JsonView::Str(s)) =~= ns.take(
            i as int,
        ).map_values(|s: Seq<char>| JsonView::Str(s)).push(JsonView::Str(ns[i as int])));
        i += 1;
    }
    assert(ns.take(names.len() as int) =~= ns);
    let j = Json::Array(items);
    proof {
        lemma_array_within(j, 0);
    }
    j
}

/// A JSON string holding `s`.
fn string_json(s: &str) -> (j: Json)
    ensures
        j@ == JsonView::Str(s@),
        forall|k: nat| #[trigger] nests_within(j, k),
{
    let j = Json::Str(owned(s));
    proof {
        assert forall|k: nat| #[trigger] nests_within(j, k) by {
            lemma_scalar_within(j, k);
        }
    }
    j
}

impl Rule {
    /// Appends the rule's JSON parameter fields to an object's members: `allowed`
    /// for deny-external (only when non-empty), `crates` for forbid, `only` for
    /// restrict-to (always, `[]` when empty).
    pub fn json_params(&self, members: &mut Vec<(String, Json)>)
        ensures
            JsonView::Object(members_view(final(members)@)) == match self@ {
                RuleView::DenyExternal(allowed) => if allowed.len() == 0 {
                    JsonView::Object(members_view(old(members)@))
                } else {
                    JsonView::Object(
                        members_view(old(members)@).insert("allowed"@, strings_doc(allowed)),
                    )
                },
                RuleView::Forbid(crates) => JsonView::Object(
                    members_view(old(members)@).insert("crates"@, strings_doc(crates)),
                ),
                RuleView::Restrict(allowed) => JsonView::Object(
                    members_view(old(members)@).insert("only"@, strings_doc(allowed)),
                ),
                RuleView::RestrictWorkspace(allowed) => JsonView::Object(
                    members_view(old(members)@).insert("only"@, strings_doc(allowed)),
                ),
            },
            members_within(old(members)@, 1) ==> members_within(final(members)@, 1),
    {
        match self {
            Rule::DenyExternalDependencies { allowed } => {
                if allowed.len() > 0 {
                    push_member(members, "allowed", strings_json(allowed));
                }
            },
            Rule::ForbidDependencyOn { crates } => {
                push_member(members, "crates", strings_json(crates));
            },
            Rule::RestrictDependenciesTo { allowed } => {
                push_member(members, "only", strings_json(allowed));
            },
            Rule::RestrictWorkspaceDependenciesTo { allowed } => {
                push_member(members, "only", strings_json(allowed));
            },
        }
    }
}

/// The JSON projection of one boundary.
pub fn boundary_json(boundary: &Boundary) -> (j: Json)
    ensures
        j@ == boundary_doc(boundary@),
        nests_within(j, 2),
{
    let mut ms: Vec<(String, Json)> = Vec::new();
    proof {
        lemma_empty_within(1);
    }
    match boundary {
        Boundary::Crate(b) => {
            push_member(&mut ms, "kind", string_json("crate"));
            push_member(&mut ms, "target", string_json(b.target().package.as_str()));
            push_member(&mut ms, "rule", string_json(b.rule().label()));
            push_member(&mut ms, "severity", string_json(severity_label(b.severity())));
            push_member(&mut ms, "reason", string_json(b.reason()));
            b.rule().json_params(&mut ms);
            match b.dependency_kind() {
                DependencyKind::Normal => {},
                DependencyKind::Dev => push_member(&mut ms, "dependency_kind", string_json("dev")),
                DependencyKind::Build => push_member(
                    &mut ms,
                    "dependency_kind",
                    string_json("build"),
                ),
            }
        },
        Boundary::Module(b) => {
            push_member(&mut ms, "kind", string_json("module"));
            push_member(&mut ms, "target", string_json(b.module_str()));
            push_member(&mut ms, "crate", string_json(b.crate_package_str()));
            push_member(&mut ms, "rule", string_json(b.rule_of().label()));
            push_member(&mut ms, "severity", string_json(severity_label(b.severity_of())));
            push_member(&mut ms, "reason", string_json(b.reason_str()));
            match b.rule_of() {
                ModuleRule::MustNotImport { module } => push_member(
                    &mut ms,
                    "forbidden",
                    string_json(module.as_str()),
                ),
                ModuleRule::RestrictImportsTo { allowed } => push_member(
                    &mut ms,
                    "only",
                    strings_json(allowed),
                ),
                ModuleRule::MustNotBeImportedBy { module } => push_member(
                    &mut ms,
                    "importer",
                    string_json(module.as_str()),
                ),
            }
        },
    }
    let j = Json::Object(ms);
    proof {
        lemma_object_within(j, 1);
    }
    j
}

/// Renders the declared constitution as a JSON projection: its name under
/// `constitution` and its boundaries, in order, under `boundaries`. What it writes
/// reads back as that document.
pub fn constitution_json(constitution: &Constitution) -> (out: String)
    ensures
        out@ == json_render(constitution_doc(constitution@)),
        json_parse(out@) == read_ok(constitution_doc(constitution@)),
{
    let boundaries = constitution.boundaries();
    let ghost bs = constitution@.boundaries;
    let mut items: Vec<Json> = Vec::new();
    proof {
        lemma_empty_within(2);
    }
    let mut i: usize = 0;
    while i < boundaries.len()
        invariant
            i <= boundaries.len(),
            bs == boundary_views(boundaries@),
            items_view(items@) == bs.take(i as int).map_values(|b: BoundaryView| boundary_doc(b)),
            items_within(items@, 2),
        decreases boundaries.len() - i,
    {
        let item = boundary_json(&boundaries[i]);
        push_item(&mut items, item);
        assert(bs.take(i + 1).map_values(|b: BoundaryView| boundary_doc(b)) =~= bs.take(
            i as int,
        ).map_values(|b: BoundaryView| boundary_doc(b)).push(boundary_doc(bs[i as int])));
        i += 1;
    }
    assert(bs.take(boundaries.len() as int) =~= bs);
    let list = Json::Array(items);
    proof {
        lemma_array_within(list, 2);
        lemma_empty_within(3);
    }
    let mut ms: Vec<(String, Json)> = Vec::new();
    push_member(&mut ms, "constitution", string_json(constitution.name()));
    push_member(&mut ms, "boundaries", list);
    let doc = Json::Object(ms);
    proof {
        lemma_object_within(doc, 3);
    }
    render_json(&doc)
}


/// The word a violation's kind is shown as.
pub open spec fn kind_word(kind: BoundaryKind) -> Seq<char> {
    match kind {
        BoundaryKind::Crate => "crate"@,
        BoundaryKind::Module => "module"@,
    }
}

/// The JSON projection of a violation: its kind, target, rule, finding, reason
/// (the repair hint), severity, and whether a baseline records it.
pub open spec fn violation_doc(v: ViolationView) -> JsonView {
    JsonView::Object(
        Map::empty().insert("kind"@, JsonView::Str(kind_word(v.kind))).insert(
            "target"@,
            JsonView::Str(v.target),
        ).insert("rule"@, JsonView::Str(v.rule)).insert(
            "finding"@,
            JsonView::Str(v.finding),
        ).insert("reason"@, JsonView::Str(v.reason)).insert(
            "severity"@,
            JsonView::Str(severity_word(v.severity)),
        ).insert("baselined"@, JsonView::Bool(v.baselined)),
    )
}

/// The JSON projection of a coverage summary.
pub open spec fn coverage_doc(c: CoverageView) -> JsonView {
    JsonView::Object(
        Map::empty().insert("workspace_crates"@, JsonView::Int(c.workspace_crates as int)).insert(
            "uncovered"@,
            JsonView::Array(c.uncovered.map_values(|n: Seq<char>| JsonView::Str(n))),
        ),
    )
}

/// The JSON report of an outcome: its label, its exit code, its violations, the
/// stale baseline entries, the error message of a constitution error (`null`
/// otherwise), and, when the constitution could be evaluated and coverage is
/// given, the coverage summary.
pub open spec fn report_doc(o: OutcomeView, stale: Seq<IdView>, cov: Option<CoverageView>) -> JsonView {
    let (label, vs, error) = match o {
        OutcomeView::Clean => ("clean"@, Seq::<ViolationView>::empty(), JsonView::Null),
        OutcomeView::Violations(vs) => ("violations"@, vs, JsonView::Null),
        OutcomeView::ConstitutionError(m) => (
            "constitution_error"@,
            Seq::<ViolationView>::empty(),
            JsonView::Str(m),
        ),
    };
    let fields = Map::empty().insert("outcome"@, JsonView::Str(label)).insert(
        "exit_code"@,
        JsonView::Int(o.exit_code() as int),
    ).insert("violations"@, JsonView::Array(vs.map_values(|v: ViolationView| violation_doc(v)))).insert(
        "stale_baseline"@,
        JsonView::Array(stale.map_values(|e: IdView| entry_doc(e))),
    ).insert("error"@, error);
    JsonView::Object(
        match cov {
            Some(c) => if o is ConstitutionError {
                fields
            } else {
                fields.insert("coverage"@, coverage_doc(c))
            },
            None => fields,
        },
    )
}

/// The JSON report's `exit_code` is the outcome's own exit code, whatever the
/// outcome: `0` for a clean run and for violations that are all warnings or all
/// baselined, `1` as soon as one enforced violation is not baselined, `2` for a
/// constitution error.
pub proof fn the_json_report_carries_the_outcome_exit_code(
    o: OutcomeView,
    stale: Seq<IdView>,
    cov: Option<CoverageView>,
)
    ensures
        report_doc(o, stale, cov).get("exit_code"@) == JsonView::Int(o.exit_code() as int),
        report_doc(o, stale, cov).get("exit_code"@) == JsonView::Int(
            match o {
                OutcomeView::Clean => 0int,
                OutcomeView::Violations(vs) => if exists|i: int|
                    0 <= i < vs.len() && (#[trigger] vs[i]).severity == Severity::Enforce
                        && !vs[i].baselined {
                    1int
                } else {
                    0int
                },
                OutcomeView::ConstitutionError(_) => 2int,
            },
        ),
{
    reveal_strlit("exit_code");
    reveal_strlit("violations");
    reveal_strlit("stale_baseline");
    reveal_strlit("error");
    reveal_strlit("coverage");
    if let OutcomeView::Violations(vs) = o {
        if any_fails(vs) {
            let i = choose|i: int| 0 <= i < vs.len() && #[trigger] vs[i].fails();
            assert(vs[i].severity == Severity::Enforce && !vs[i].baselined);
        } else {
            assert forall|i: int| 0 <= i < vs.len() implies !((#[trigger] vs[i]).severity
                == Severity::Enforce && !vs[i].baselined) by {
                assert(!vs[i].fails());
            }
        }
    }
    assert("exit_code"@[0] != "violations"@[0]);
    assert("exit_code"@[1] != "stale_baseline"@[1]);
    assert("exit_code"@ != "error"@);
    assert("exit_code"@ != "coverage"@);
}

/// The JSON projection of a coverage summary.
fn coverage_json(c: &Coverage) -> (j: Json)
    ensures
        j@ == coverage_doc(c@),
        nests_within(j, 2),
{
    let ghost us = c@.uncovered;
    let mut items: Vec<Json> = Vec::new();
    proof {
        lemma_empty_within(0);
    }
    let mut i: usize = 0;
    while i < c.uncovered.len()
        invariant
            i <= c.uncovered.len(),
            us == c@.uncovered,
            items_view(items@) == us.take(i as int).map_values(|n: Seq<char>| JsonView::Str(n)),
            items_within(items@, 0),
        decreases c.uncovered.len() - i,
    {
        push_item(&mut items, string_json(c.uncovered[i].as_str()));
        assert(us.take(i + 1).map_values(|n: Seq<char>| JsonView::Str(n)) =~= us.take(
            i as int,
        ).map_values(|n: Seq<char>| JsonView::Str(n)).push(JsonView::Str(us[i as int])));
        i += 1;
    }
    assert(us.take(c.uncovered.len() as int) =~= us);
    let list = Json::Array(items);
    let count = Json::Int(c.workspace_crates as i64);
    proof {
        lemma_array_within(list, 0);
        lemma_scalar_within(count, 1);
        lemma_empty_within(1);
    }
    let mut ms: Vec<(String, Json)> = Vec::new();
    push_member(&mut ms, "workspace_crates", count);
    push_member(&mut ms, "uncovered", list);
    let j = Json::Object(ms);
    proof {
        lemma_object_within(j, 1);
    }
    j
}

/// The JSON projection of a violation.
fn violation_json(violation: &Violation) -> (j: Json)
    ensures
        j@ == violation_doc(violation@),
        nests_within(j, 1),
{
    let mut ms: Vec<(String, Json)> = Vec::new();
    proof {
        lemma_empty_within(0);
    }
    let kind = match violation.kind {
        BoundaryKind::Crate => "crate",
        BoundaryKind::Module => "module",
    };
    push_member(&mut ms, "kind", string_json(kind));
    push_member(&mut ms, "target", string_json(violation.target.as_str()));
    push_member(&mut ms, "rule", string_json(violation.rule.as_str()));
    push_member(&mut ms, "finding", string_json(violation.finding.as_str()));
    push_member(&mut ms, "reason", string_json(violation.reason.as_str()));
    push_member(&mut ms, "severity", string_json(severity_label(violation.severity)));
    let baselined = Json::Bool(violation.baselined);
    proof {
        lemma_scalar_within(baselined, 0);
    }
    push_member(&mut ms, "baselined", baselined);
    let j = Json::Object(ms);
    proof {
        lemma_object_within(j, 0);
    }
    j
}

/// Renders an outcome as a JSON document for machine consumption: a faithful
/// projection of the outcome, each violation with its kind and its reason as the
/// repair hint, `exit_code` mirroring the process exit, and `stale_baseline`
/// listing the baseline entries that match no current violation. What it writes
/// reads back as that document.
pub fn report_json(outcome: &Outcome, stale: &[ViolationId], coverage: Option<&Coverage>) -> (out:
    String)
    ensures
        out@ == json_render(
            report_doc(
                outcome@,
                stale@.map_values(|e: ViolationId| e@),
                match coverage {
                    Some(c) => Some(c@),
                    None => None,
                },
            ),
        ),
        json_parse(out@) == read_ok(
            report_doc(
                outcome@,
                stale@.map_values(|e: ViolationId| e@),
                match coverage {
                    Some(c) => Some(c@),
                    None => None,
                },
            ),
        ),
{
    let ghost vs: Seq<ViolationView> = match outcome@ {
        OutcomeView::Violations(vs) => vs,
        _ => Seq::empty(),
    };
    let empty: Vec<Violation> = Vec::new();
    let (label, list): (&str, &Vec<Violation>) = match outcome {
        Outcome::Clean => ("clean", &empty),
        Outcome::Violations(report) => ("violations", &report.violations),
        Outcome::ConstitutionError(_) => ("constitution_error", &empty),
    };
    assert(violation_views(list@) == vs);
    let mut items: Vec<Json> = Vec::new();
    proof {
        lemma_empty_within(1);
    }
    let mut i: usize = 0;
    while i < list.len()
        invariant
            i <= list.len(),
            vs == violation_views(list@),
            items_view(items@) == vs.take(i as int).map_values(|v: ViolationView| violation_doc(v)),
            items_within(items@, 1),
        decreases list.len() - i,
    {
        push_item(&mut items, violation_json(&list[i]));
        assert(vs.take(i + 1).map_values(|v: ViolationView| violation_doc(v)) =~= vs.take(
            i as int,
        ).map_values(|v: ViolationView| violation_doc(v)).push(violation_doc(vs[i as int])));
        i += 1;
    }
    assert(vs.take(list.len() as int) =~= vs);
    let ghost es = stale@.map_values(|e: ViolationId| e@);
    let mut entries: Vec<Json> = Vec::new();
    let mut k: usize = 0;
    while k < stale.len()
        invariant
            k <= stale.len(),
            es == stale@.map_values(|e: ViolationId| e@),
            items_view(entries@) == es.take(k as int).map_values(|e: IdView| entry_doc(e)),
            items_within(entries@, 1),
        decreases stale.len() - k,
    {
        let entry = entry_json(&stale[k]);
        assert(nests_within(entry, 1));
        push_item(&mut entries, entry);
        assert(es.take(k + 1).map_values(|e: IdView| entry_doc(e)) =~= es.take(
            k as int,
        ).map_values(|e: IdView| entry_doc(e)).push(entry_doc(es[k as int])));
        k += 1;
    }
    assert(es.take(stale.len() as int) =~= es);
    let violations = Json::Array(items);
    let stale_list = Json::Array(entries);
    let error = match outcome {
        Outcome::ConstitutionError(message) => Json::Str(owned(message.as_str())),
        _ => Json::Null,
    };
    let code = Json::Int(outcome.exit_code() as i64);
    proof {
        lemma_array_within(violations, 1);
        lemma_array_within(stale_list, 1);
        lemma_scalar_within(error, 2);
        lemma_scalar_within(code, 2);
        lemma_empty_within(2);
    }
    let mut ms: Vec<(String, Json)> = Vec::new();
    push_member(&mut ms, "outcome", string_json(label));
    push_member(&mut ms, "exit_code", code);
    push_member(&mut ms, "violations", violations);
    push_member(&mut ms, "stale_baseline", stale_list);
    push_member(&mut ms, "error", error);
    match coverage {
        Some(c) => {
            if !matches!(outcome, Outcome::ConstitutionError(_)) {
                push_member(&mut ms, "coverage", coverage_json(c));
            }
        },
        None => {},
    }
    let doc = Json::Object(ms);
    proof {
        lemma_object_within(doc, 2);
    }
    render_json(&doc)
}

} // verus!
