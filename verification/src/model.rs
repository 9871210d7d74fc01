//! The governed shape, declared in Rust: a constitution of crate and module
//! boundaries, each with a rule, a human reason, and a severity; and the fluent
//! builders that declare them.
use vstd::prelude::*;
use crate::text::owned;
use vstd::std_specs::convert::IntoSpec;

verus! {

/// The views of a sequence of strings.
pub open spec fn strs(v: Seq<String>) -> Seq<Seq<char>> {
    v.map_values(|s: String| s@)
}

/// The views of a slice of string slices.
pub open spec fn str_refs(v: Seq<&str>) -> Seq<Seq<char>> {
    v.map_values(|s: &str| s@)
}

/// Owned copies of `items`, in order.
pub fn owned_all(items: &[&str]) -> (out: Vec<String>)
    ensures
        strs(out@) == str_refs(items@),
{
    let mut out: Vec<String> = Vec::new();
    let mut i: usize = 0;
    while i < items.len()
        invariant
            i <= items.len(),
            strs(out@) == str_refs(items@).take(i as int),
        decreases items.len() - i,
    {
        let s = owned(items[i]);
        let ghost before = strs(out@);
        out.push(s);
        assert(strs(out@) =~= before.push(items@[i as int]@));
        assert(str_refs(items@).take(i + 1) =~= str_refs(items@).take(i as int).push(
            items@[i as int]@,
        ));
        i += 1;
    }
    assert(str_refs(items@).take(items.len() as int) =~= str_refs(items@));
    out
}

/// How strongly a boundary reacts. `Enforce` fails the reaction (exit 1); `Warn`
/// reports the violation as advisory without failing — the first rung of adoption,
/// so a dirty project can observe a boundary before enforcing it.
#[derive(Debug, Clone, Copy, PartialEq, Eq, Structural, Default)]
#[non_exhaustive]
pub enum Severity {
    /// Violations fail the reaction (exit 1). The default.
    #[default]
    Enforce,
    /// Violations are reported as advisory but do not fail.
    Warn,
}

/// Which dependency table of a crate a crate rule observes: the normal
/// `[dependencies]` (the default), `[dev-dependencies]`, or `[build-dependencies]`.
#[derive(Debug, Clone, Copy, PartialEq, Eq, Structural, Default)]
#[non_exhaustive]
pub enum DependencyKind {
    /// The normal `[dependencies]` table. The default.
    #[default]
    Normal,
    /// The `[dev-dependencies]` table.
    Dev,
    /// The `[build-dependencies]` table.
    Build,
}

/// A crate identified by its package name.
#[derive(Debug, Clone, PartialEq, Eq)]
pub struct CrateTarget {
    /// The crate's package name, as it appears in `cargo metadata`.
    pub package: String,
}

/// What a crate boundary forbids.
#[derive(Debug, Clone, PartialEq, Eq)]
#[non_exhaustive]
pub enum Rule {
    /// Deny external (registry/git) dependencies, except any named in `allowed`.
    DenyExternalDependencies {
        /// External crate names permitted despite the deny rule.
        allowed: Vec<String>,
    },
    /// Forbid a normal dependency on any of these crates (external or internal).
    ForbidDependencyOn {
        /// The forbidden crate names.
        crates: Vec<String>,
    },
    /// Restrict normal dependencies to a closed allowlist: any normal dependency
    /// (external or internal) whose name is not in `allowed` is a violation. An
    /// empty allowlist forbids every normal dependency.
    RestrictDependenciesTo {
        /// The closed allowlist of permitted dependency names.
        allowed: Vec<String>,
    },
    /// Restrict the normal dependencies on other workspace members (the packages
    /// `cargo metadata` lists) to a closed allowlist; dependencies outside the
    /// workspace are not governed. An empty allowlist forbids every workspace
    /// dependency, so a newly added workspace crate is governed by default.
    RestrictWorkspaceDependenciesTo {
        /// The workspace crates that may be depended on.
        allowed: Vec<String>,
    },
}

/// The model of a crate rule: its variant and its list of crate names.
pub enum RuleView {
    DenyExternal(Seq<Seq<char>>),
    Forbid(Seq<Seq<char>>),
    Restrict(Seq<Seq<char>>),
    RestrictWorkspace(Seq<Seq<char>>),
}

impl View for Rule {
    type V = RuleView;

    open spec fn view(&self) -> RuleView {
        match self {
            Rule::DenyExternalDependencies { allowed } => RuleView::DenyExternal(strs(allowed@)),
            Rule::ForbidDependencyOn { crates } => RuleView::Forbid(strs(crates@)),
            Rule::RestrictDependenciesTo { allowed } => RuleView::Restrict(strs(allowed@)),
            Rule::RestrictWorkspaceDependenciesTo { allowed } => RuleView::RestrictWorkspace(
                strs(allowed@),
            ),
        }
    }
}

/// The label of a crate rule, which names it in a violation, in the baseline
/// identity, and in the projections.
pub open spec fn rule_label(rule: RuleView) -> Seq<char> {
    match rule {
        RuleView::DenyExternal(_) => "deny external dependencies"@,
        RuleView::Forbid(_) => "forbid dependency on"@,
        RuleView::Restrict(_) => "restrict dependencies to"@,
        RuleView::RestrictWorkspace(_) => "restrict workspace dependencies to"@,
    }
}

/// The label of a module rule, which names it in a violation, in the baseline
/// identity, and in the projections.
pub open spec fn module_rule_label(rule: ModuleRuleView) -> Seq<char> {
    match rule {
        ModuleRuleView::MustNotImport(_) => "module must not import"@,
        ModuleRuleView::RestrictImportsTo(_) => "module imports restricted to"@,
        ModuleRuleView::MustNotBeImportedBy(_) => "module must not be imported by"@,
    }
}

impl Rule {
    /// The rule's label: the single source of the violation `rule` string, the
    /// baseline identity, and the projections.
    pub fn label(&self) -> (r: &'static str)
        ensures
            r@ == rule_label(self@),
    {
        match self {
            Rule::DenyExternalDependencies { .. } => "deny external dependencies",
            Rule::ForbidDependencyOn { .. } => "forbid dependency on",
            Rule::RestrictDependenciesTo { .. } => "restrict dependencies to",
            Rule::RestrictWorkspaceDependenciesTo { .. } => "restrict workspace dependencies to",
        }
    }
}

impl ModuleRule {
    /// The rule's label, feeding the violation `rule` string and the projections.
    pub fn label(&self) -> (r: &'static str)
        ensures
            r@ == module_rule_label(self@),
    {
        match self {
            ModuleRule::MustNotImport { .. } => "module must not import",
            ModuleRule::RestrictImportsTo { .. } => "module imports restricted to",
            ModuleRule::MustNotBeImportedBy { .. } => "module must not be imported by",
        }
    }
}

/// A boundary attached to one crate target, with a human-readable reason.
#[derive(Debug, Clone, PartialEq, Eq)]
pub struct CrateBoundary {
    target: CrateTarget,
    rule: Rule,
    reason: String,
    severity: Severity,
    dependency_kind: DependencyKind,
}

/// The model of a crate boundary.
pub struct CrateBoundaryView {
    pub package: Seq<char>,
    pub rule: RuleView,
    pub reason: Seq<char>,
    pub severity: Severity,
    pub kind: DependencyKind,
}

impl View for CrateBoundary {
    type V = CrateBoundaryView;

    closed spec fn view(&self) -> CrateBoundaryView {
        CrateBoundaryView {
            package: self.target.package@,
            rule: self.rule@,
            reason: self.reason@,
            severity: self.severity,
            kind: self.dependency_kind,
        }
    }
}

/// What a module boundary forbids.
#[derive(Debug, Clone, PartialEq, Eq)]
#[non_exhaustive]
pub enum ModuleRule {
    /// The governed module must not import this module (or anything beneath it).
    MustNotImport {
        /// The forbidden module path (e.g. `"crate::projection"`).
        module: String,
    },
    /// The governed module may import only its own subtree and the modules of
    /// this closed allowlist (each with its subtree): any other internal import is
    /// a violation, so a newly added module is governed by default.
    RestrictImportsTo {
        /// The modules the governed module may import.
        allowed: Vec<String>,
    },
    /// No module at or beneath this one may import the governed module (or
    /// anything beneath it): the inbound direction, who may reach in. Each
    /// violation names an importing module.
    MustNotBeImportedBy {
        /// The importer module path (e.g. `"crate::http"`).
        module: String,
    },
}

/// The model of a module rule.
pub enum ModuleRuleView {
    MustNotImport(Seq<char>),
    RestrictImportsTo(Seq<Seq<char>>),
    MustNotBeImportedBy(Seq<char>),
}

impl View for ModuleRule {
    type V = ModuleRuleView;

    open spec fn view(&self) -> ModuleRuleView {
        match self {
            ModuleRule::MustNotImport { module } => ModuleRuleView::MustNotImport(module@),
            ModuleRule::RestrictImportsTo { allowed } => ModuleRuleView::RestrictImportsTo(
                strs(allowed@),
            ),
            ModuleRule::MustNotBeImportedBy { module } => ModuleRuleView::MustNotBeImportedBy(
                module@,
            ),
        }
    }
}

/// A boundary over the intra-crate module import graph — the layering Cargo cannot
/// see. Observed from the target crate's source `use` declarations.
#[derive(Debug, Clone, PartialEq, Eq)]
pub struct ModuleBoundary {
    crate_package: String,
    module: String,
    rule: ModuleRule,
    reason: String,
    severity: Severity,
}

/// The model of a module boundary.
pub struct ModuleBoundaryView {
    pub crate_package: Seq<char>,
    pub module: Seq<char>,
    pub rule: ModuleRuleView,
    pub reason: Seq<char>,
    pub severity: Severity,
}

impl View for ModuleBoundary {
    type V = ModuleBoundaryView;

    closed spec fn view(&self) -> ModuleBoundaryView {
        ModuleBoundaryView {
            crate_package: self.crate_package@,
            module: self.module@,
            rule: self.rule@,
            reason: self.reason@,
            severity: self.severity,
        }
    }
}

/// One boundary, of either kind.
#[derive(Debug, Clone, PartialEq, Eq)]
#[non_exhaustive]
pub enum Boundary {
    /// A rule on a crate target, observed via `cargo metadata`.
    Crate(CrateBoundary),
    /// A rule on an intra-crate module, observed from source `use` declarations.
    Module(ModuleBoundary),
}

/// The model of a boundary.
pub enum BoundaryView {
    Crate(CrateBoundaryView),
    Module(ModuleBoundaryView),
}

impl View for Boundary {
    type V = BoundaryView;

    open spec fn view(&self) -> BoundaryView {
        match self {
            Boundary::Crate(b) => BoundaryView::Crate(b@),
            Boundary::Module(b) => BoundaryView::Module(b@),
        }
    }
}

impl From<CrateBoundary> for Boundary {
    fn from(boundary: CrateBoundary) -> (r: Self) {
        Boundary::Crate(boundary)
    }
}

impl vstd::std_specs::convert::FromSpecImpl<CrateBoundary> for Boundary {
    open spec fn obeys_from_spec() -> bool {
        true
    }

    open spec fn from_spec(boundary: CrateBoundary) -> Self {
        Boundary::Crate(boundary)
    }
}

impl From<ModuleBoundary> for Boundary {
    fn from(boundary: ModuleBoundary) -> (r: Self) {
        Boundary::Module(boundary)
    }
}

impl vstd::std_specs::convert::FromSpecImpl<ModuleBoundary> for Boundary {
    open spec fn obeys_from_spec() -> bool {
        true
    }

    open spec fn from_spec(boundary: ModuleBoundary) -> Self {
        Boundary::Module(boundary)
    }
}

/// The governed shape, declared in Rust (the single source of truth).
#[derive(Debug, Clone, PartialEq, Eq)]
pub struct Constitution {
    name: String,
    boundaries: Vec<Boundary>,
}

/// The model of a constitution: its name and its boundaries in declaration order.
pub struct ConstitutionView {
    pub name: Seq<char>,
    pub boundaries: Seq<BoundaryView>,
}

/// The models of a sequence of boundaries.
pub open spec fn boundary_views(bs: Seq<Boundary>) -> Seq<BoundaryView> {
    bs.map_values(|b: Boundary| b@)
}

impl View for Constitution {
    type V = ConstitutionView;

    closed spec fn view(&self) -> ConstitutionView {
        ConstitutionView { name: self.name@, boundaries: boundary_views(self.boundaries@) }
    }
}

impl Constitution {
    /// Begin a constitution for a project (the name is a label, not a path).
    pub fn new(name: &str) -> (c: Self)
        ensures
            c@.name == name@,
            c@.boundaries.len() == 0,
    {
        Constitution { name: owned(name), boundaries: Vec::new() }
    }

    /// Add one boundary — a [`CrateBoundary`] or a [`ModuleBoundary`].
    pub fn boundary<B: Into<Boundary>>(self, boundary: B) -> (c: Self)
        ensures
            c@.name == self@.name,
            B::obeys_into_spec() ==> c@.boundaries == self@.boundaries.push(
                boundary.into_spec()@,
            ),
    {
        let boundary: Boundary = boundary.into();
        let ghost b = boundary@;
        let mut c = self;
        let ghost before = c.boundaries@;
        c.boundaries.push(boundary);
        assert(boundary_views(c.boundaries@) =~= boundary_views(before).push(b));
        c
    }

    /// The constitution's name (a label, not a path).
    pub fn name(&self) -> (r: &str)
        ensures
            r@ == self@.name,
    {
        self.name.as_str()
    }

    /// The declared boundaries, in declaration order.
    pub fn boundaries(&self) -> (r: &[Boundary])
        ensures
            boundary_views(r@) == self@.boundaries,
    {
        self.boundaries.as_slice()
    }
}

impl CrateBoundary {
    /// Begin a crate boundary for the crate named `package`.
    pub fn crate_(package: &str) -> (b: CrateBoundaryBuilder)
        ensures
            b@ == package@,
    {
        CrateBoundaryBuilder { target: CrateTarget { package: owned(package) } }
    }

    /// The crate this boundary governs.
    pub fn target(&self) -> (r: &CrateTarget)
        ensures
            r.package@ == self@.package,
    {
        &self.target
    }

    /// The rule the boundary enforces.
    pub fn rule(&self) -> (r: &Rule)
        ensures
            r@ == self@.rule,
    {
        &self.rule
    }

    /// The human-readable reason recorded with the boundary (the repair hint).
    pub fn reason(&self) -> (r: &str)
        ensures
            r@ == self@.reason,
    {
        self.reason.as_str()
    }

    /// The boundary's severity (`enforce` or `warn`).
    pub fn severity(&self) -> (r: Severity)
        ensures
            r == self@.severity,
    {
        self.severity
    }

    /// The dependency table the rule observes.
    pub fn dependency_kind(&self) -> (r: DependencyKind)
        ensures
            r == self@.kind,
    {
        self.dependency_kind
    }
}

/// Fluent builder: `CrateBoundary::crate_("x").deny_external_dependencies().because("…")`.
pub struct CrateBoundaryBuilder {
    target: CrateTarget,
}

impl View for CrateBoundaryBuilder {
    /// The target package.
    type V = Seq<char>;

    closed spec fn view(&self) -> Seq<char> {
        self.target.package@
    }
}

impl View for DenyExternalDraft {
    /// The target package, the allowlist, the severity, and the dependency table.
    type V = (Seq<char>, Seq<Seq<char>>, Severity, DependencyKind);

    closed spec fn view(&self) -> (Seq<char>, Seq<Seq<char>>, Severity, DependencyKind) {
        (self.target.package@, strs(self.allowed@), self.severity, self.dependency_kind)
    }
}

impl View for CrateBoundaryDraft {
    /// The target package, the rule, the severity, and the dependency table.
    type V = (Seq<char>, RuleView, Severity, DependencyKind);

    closed spec fn view(&self) -> (Seq<char>, RuleView, Severity, DependencyKind) {
        (self.target.package@, self.rule@, self.severity, self.dependency_kind)
    }
}

/// A deny-external boundary awaiting an optional allowlist, severity, dependency
/// table, and reason.
pub struct DenyExternalDraft {
    target: CrateTarget,
    allowed: Vec<String>,
    severity: Severity,
    dependency_kind: DependencyKind,
}

/// A crate boundary awaiting its severity, dependency table, and reason.
pub struct CrateBoundaryDraft {
    target: CrateTarget,
    rule: Rule,
    severity: Severity,
    dependency_kind: DependencyKind,
}

impl CrateBoundaryBuilder {
    /// Deny external dependencies. Chain [`DenyExternalDraft::allow_external`] to
    /// name exceptions, and [`DenyExternalDraft::warn`] to make it advisory, before
    /// [`DenyExternalDraft::because`].
    pub fn deny_external_dependencies(self) -> (d: DenyExternalDraft)
        ensures
            d@ == (self@, Seq::<Seq<char>>::empty(), Severity::Enforce, DependencyKind::Normal),
    {
        let d = DenyExternalDraft {
            target: self.target,
            allowed: Vec::new(),
            severity: Severity::Enforce,
            dependency_kind: DependencyKind::Normal,
        };
        assert(strs(d.allowed@) =~= Seq::<Seq<char>>::empty());
        d
    }

    /// Forbid a normal dependency on any of `crates`, whether it resolves to an
    /// external source or to an internal workspace path (crate-to-crate layering).
    pub fn forbid_dependency_on(self, crates: &[&str]) -> (d: CrateBoundaryDraft)
        ensures
            d@ == (self@, RuleView::Forbid(str_refs(crates@)), Severity::Enforce, DependencyKind::Normal),
    {
        CrateBoundaryDraft {
            target: self.target,
            rule: Rule::ForbidDependencyOn { crates: owned_all(crates) },
            severity: Severity::Enforce,
            dependency_kind: DependencyKind::Normal,
        }
    }

    /// Restrict this crate's normal dependencies to a closed allowlist: any normal
    /// dependency (external or internal) not named in `allowed` is a violation. An
    /// empty allowlist forbids every normal dependency.
    pub fn restrict_dependencies_to(self, allowed: &[&str]) -> (d: CrateBoundaryDraft)
        ensures
            d@ == (self@, RuleView::Restrict(str_refs(allowed@)), Severity::Enforce, DependencyKind::Normal),
    {
        CrateBoundaryDraft {
            target: self.target,
            rule: Rule::RestrictDependenciesTo { allowed: owned_all(allowed) },
            severity: Severity::Enforce,
            dependency_kind: DependencyKind::Normal,
        }
    }

    /// Restrict this crate's dependencies on other workspace members to a closed
    /// allowlist: a normal dependency on a workspace crate not named in `allowed`
    /// is a violation; dependencies outside the workspace are not governed.
    pub fn restrict_workspace_dependencies_to(self, allowed: &[&str]) -> (d: CrateBoundaryDraft)
        ensures
            d@ == (self@, RuleView::RestrictWorkspace(str_refs(allowed@)), Severity::Enforce, DependencyKind::Normal),
    {
        CrateBoundaryDraft {
            target: self.target,
            rule: Rule::RestrictWorkspaceDependenciesTo { allowed: owned_all(allowed) },
            severity: Severity::Enforce,
            dependency_kind: DependencyKind::Normal,
        }
    }

    /// Forbid every dependency on another workspace member: the empty-allowlist
    /// form of [`CrateBoundaryBuilder::restrict_workspace_dependencies_to`].
    pub fn forbid_all_workspace_dependencies(self) -> (d: CrateBoundaryDraft)
        ensures
            d@ == (self@, RuleView::RestrictWorkspace(Seq::<Seq<char>>::empty()), Severity::Enforce, DependencyKind::Normal),
    {
        let allowed: Vec<String> = Vec::new();
        assert(strs(allowed@) =~= Seq::<Seq<char>>::empty());
        CrateBoundaryDraft {
            target: self.target,
            rule: Rule::RestrictWorkspaceDependenciesTo { allowed },
            severity: Severity::Enforce,
            dependency_kind: DependencyKind::Normal,
        }
    }
}

impl DenyExternalDraft {
    /// Allow these external dependencies as named exceptions to the deny rule.
    pub fn allow_external(self, crates: &[&str]) -> (d: Self)
        ensures
            d@ == (self@.0, self@.1 + str_refs(crates@), self@.2, self@.3),
    {
        let mut d = self;
        let extra = owned_all(crates);
        let ghost before = strs(d.allowed@);
        let ghost pkg = d.target.package@;
        let ghost sev = d.severity;
        let ghost kind = d.dependency_kind;
        let mut i: usize = 0;
        while i < extra.len()
            invariant
                i <= extra.len(),
                d.target.package@ == pkg,
                d.severity == sev,
                d.dependency_kind == kind,
                strs(d.allowed@) == before + strs(extra@).take(i as int),
            decreases extra.len() - i,
        {
            let s = owned(extra[i].as_str());
            let ghost prev = strs(d.allowed@);
            d.allowed.push(s);
            assert(strs(d.allowed@) =~= prev.push(extra@[i as int]@));
            assert(strs(extra@).take(i + 1) =~= strs(extra@).take(i as int).push(
                extra@[i as int]@,
            ));
            i += 1;
        }
        assert(strs(extra@).take(extra.len() as int) =~= strs(extra@));
        d
    }

    /// Make this boundary advisory: its violations are reported but do not fail CI.
    pub fn warn(self) -> (d: Self)
        ensures
            d@ == (self@.0, self@.1, Severity::Warn, self@.3),
    {
        let mut d = self;
        d.severity = Severity::Warn;
        d
    }

    /// Point the rule at another dependency table (`Dev` or `Build`; `Normal` is
    /// the default).
    pub fn dependency_kind(self, kind: DependencyKind) -> (d: Self)
        ensures
            d@ == (self@.0, self@.1, self@.2, kind),
    {
        let mut d = self;
        d.dependency_kind = kind;
        d
    }

    /// Finish the boundary, recording the human-readable `reason` (the repair hint).
    pub fn because(self, reason: &str) -> (b: CrateBoundary)
        ensures
            b@ == (CrateBoundaryView {
                package: self@.0,
                rule: RuleView::DenyExternal(self@.1),
                reason: reason@,
                severity: self@.2,
                kind: self@.3,
            }),
    {
        CrateBoundary {
            target: self.target,
            rule: Rule::DenyExternalDependencies { allowed: self.allowed },
            reason: owned(reason),
            severity: self.severity,
            dependency_kind: self.dependency_kind,
        }
    }
}

impl CrateBoundaryDraft {
    /// Make this boundary advisory: its violations are reported but do not fail CI.
    pub fn warn(self) -> (d: Self)
        ensures
            d@ == (self@.0, self@.1, Severity::Warn, self@.3),
    {
        let mut d = self;
        d.severity = Severity::Warn;
        d
    }

    /// Point the rule at another dependency table (`Dev` or `Build`; `Normal` is
    /// the default).
    pub fn dependency_kind(self, kind: DependencyKind) -> (d: Self)
        ensures
            d@ == (self@.0, self@.1, self@.2, kind),
    {
        let mut d = self;
        d.dependency_kind = kind;
        d
    }

    /// Finish the boundary, recording the human-readable `reason` (the repair hint).
    pub fn because(self, reason: &str) -> (b: CrateBoundary)
        ensures
            b@ == (CrateBoundaryView {
                package: self@.0,
                rule: self@.1,
                reason: reason@,
                severity: self@.2,
                kind: self@.3,
            }),
    {
        CrateBoundary {
            target: self.target,
            rule: self.rule,
            reason: owned(reason),
            severity: self.severity,
            dependency_kind: self.dependency_kind,
        }
    }
}

impl ModuleBoundary {
    /// Begin a module boundary within the crate named `package`.
    pub fn in_crate(package: &str) -> (b: ModuleBoundaryBuilder)
        ensures
            b@ == package@,
    {
        ModuleBoundaryBuilder { crate_package: owned(package) }
    }
}

/// Fluent builder for a [`ModuleBoundary`].
pub struct ModuleBoundaryBuilder {
    crate_package: String,
}

impl View for ModuleBoundaryBuilder {
    /// The crate.
    type V = Seq<char>;

    closed spec fn view(&self) -> Seq<char> {
        self.crate_package@
    }
}

impl View for ModuleTargetDraft {
    /// The crate and the governed module.
    type V = (Seq<char>, Seq<char>);

    closed spec fn view(&self) -> (Seq<char>, Seq<char>) {
        (self.crate_package@, self.module@)
    }
}

impl View for ModuleBoundaryDraft {
    /// The crate, the governed module, the rule, and the severity.
    type V = (Seq<char>, Seq<char>, ModuleRuleView, Severity);

    closed spec fn view(&self) -> (Seq<char>, Seq<char>, ModuleRuleView, Severity) {
        (self.crate_package@, self.module@, self.rule@, self.severity)
    }
}

impl ModuleBoundaryBuilder {
    /// The module whose imports are governed (e.g. `"crate::kernel"`).
    pub fn module(self, module: &str) -> (d: ModuleTargetDraft)
        ensures
            d@ == (self@, module@),
    {
        ModuleTargetDraft { crate_package: self.crate_package, module: owned(module) }
    }
}

/// A module boundary awaiting its rule.
pub struct ModuleTargetDraft {
    crate_package: String,
    module: String,
}

impl ModuleTargetDraft {
    /// Forbid the governed module from importing `module` (or anything beneath it).
    pub fn must_not_import(self, module: &str) -> (d: ModuleBoundaryDraft)
        ensures
            d@ == (self@.0, self@.1, ModuleRuleView::MustNotImport(module@), Severity::Enforce),
    {
        ModuleBoundaryDraft {
            crate_package: self.crate_package,
            module: self.module,
            rule: ModuleRule::MustNotImport { module: owned(module) },
            severity: Severity::Enforce,
        }
    }

    /// Restrict the governed module's imports to its own subtree and the modules
    /// of `allowed` (each with its subtree). On `crate` itself the rule could never
    /// react, and checking it is a constitution error.
    pub fn restrict_imports_to(self, allowed: &[&str]) -> (d: ModuleBoundaryDraft)
        ensures
            d@ == (
                self@.0,
                self@.1,
                ModuleRuleView::RestrictImportsTo(str_refs(allowed@)),
                Severity::Enforce,
            ),
    {
        ModuleBoundaryDraft {
            crate_package: self.crate_package,
            module: self.module,
            rule: ModuleRule::RestrictImportsTo { allowed: owned_all(allowed) },
            severity: Severity::Enforce,
        }
    }

    /// Forbid the modules at or beneath `module` from importing the governed
    /// module (or anything beneath it); each violation names an importing module.
    /// On `crate` itself the rule could never react, and checking it is a
    /// constitution error.
    pub fn must_not_be_imported_by(self, module: &str) -> (d: ModuleBoundaryDraft)
        ensures
            d@ == (
                self@.0,
                self@.1,
                ModuleRuleView::MustNotBeImportedBy(module@),
                Severity::Enforce,
            ),
    {
        ModuleBoundaryDraft {
            crate_package: self.crate_package,
            module: self.module,
            rule: ModuleRule::MustNotBeImportedBy { module: owned(module) },
            severity: Severity::Enforce,
        }
    }
}

/// A module boundary awaiting its severity and reason.
pub struct ModuleBoundaryDraft {
    crate_package: String,
    module: String,
    rule: ModuleRule,
    severity: Severity,
}

impl ModuleBoundaryDraft {
    /// Make this boundary advisory: its violations are reported but do not fail CI.
    pub fn warn(self) -> (d: Self)
        ensures
            d@ == (self@.0, self@.1, self@.2, Severity::Warn),
    {
        let mut d = self;
        d.severity = Severity::Warn;
        d
    }

    /// Finish the boundary, recording the human-readable `reason` (the repair hint).
    pub fn because(self, reason: &str) -> (b: ModuleBoundary)
        ensures
            b@ == (ModuleBoundaryView {
                crate_package: self@.0,
                module: self@.1,
                rule: self@.2,
                reason: reason@,
                severity: self@.3,
            }),
    {
        ModuleBoundary {
            crate_package: self.crate_package,
            module: self.module,
            rule: self.rule,
            reason: owned(reason),
            severity: self.severity,
        }
    }
}

impl ModuleBoundary {
    pub(crate) fn crate_package_str(&self) -> (r: &str)
        ensures
            r@ == self@.crate_package,
    {
        self.crate_package.as_str()
    }

    pub(crate) fn module_str(&self) -> (r: &str)
        ensures
            r@ == self@.module,
    {
        self.module.as_str()
    }

    pub(crate) fn reason_str(&self) -> (r: &str)
        ensures
            r@ == self@.reason,
    {
        self.reason.as_str()
    }

    pub(crate) fn rule_of(&self) -> (r: &ModuleRule)
        ensures
            r@ == self@.rule,
    {
        &self.rule
    }

    pub(crate) fn severity_of(&self) -> (r: Severity)
        ensures
            r == self@.severity,
    {
        self.severity
    }
}

} // verus!
