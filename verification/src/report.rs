//! The result of one evaluation: violations, their baseline identity, and the
//! outcome whose exit code separates drift (1) from misconfiguration (2).
use vstd::prelude::*;
use crate::model::Severity;
use crate::text::owned;

verus! {

/// Which kind of boundary produced a violation.
#[derive(Debug, Clone, Copy, PartialEq, Eq, Structural)]
#[non_exhaustive]
pub enum BoundaryKind {
    /// The violation came from a crate boundary.
    Crate,
    /// The violation came from a module boundary.
    Module,
}

/// One violated boundary. `severity` is the producing boundary's severity;
/// `baselined` is set when the violation is recorded in the active baseline, so it
/// does not fail the reaction.
#[derive(Debug, Clone, PartialEq, Eq)]
pub struct Violation {
    /// Which kind of boundary produced this violation.
    pub kind: BoundaryKind,
    /// The governed target (crate name, or module path for a module boundary).
    pub target: String,
    /// The rule label that was violated.
    pub rule: String,
    /// The offending finding (e.g. the dependency name, or the imported module path).
    pub finding: String,
    /// The boundary's reason — the repair hint.
    pub reason: String,
    /// The producing boundary's severity.
    pub severity: Severity,
    /// Whether this violation is recorded in the active baseline (so it does not fail).
    pub baselined: bool,
}

/// The model of a violation.
pub struct ViolationView {
    pub kind: BoundaryKind,
    pub target: Seq<char>,
    pub rule: Seq<char>,
    pub finding: Seq<char>,
    pub reason: Seq<char>,
    pub severity: Severity,
    pub baselined: bool,
}

/// The model of a violation identity.
pub struct IdView {
    pub target: Seq<char>,
    pub rule: Seq<char>,
    pub finding: Seq<char>,
}

impl ViolationView {
    /// The `(target, rule, finding)` identity.
    pub open spec fn id(self) -> IdView {
        IdView { target: self.target, rule: self.rule, finding: self.finding }
    }

    /// Whether the violation fails the reaction: enforced and not baselined.
    pub open spec fn fails(self) -> bool {
        self.severity == Severity::Enforce && !self.baselined
    }
}

impl View for Violation {
    type V = ViolationView;

    open spec fn view(&self) -> ViolationView {
        ViolationView {
            kind: self.kind,
            target: self.target@,
            rule: self.rule@,
            finding: self.finding@,
            reason: self.reason@,
            severity: self.severity,
            baselined: self.baselined,
        }
    }
}

/// A violation's identity for baseline matching: `(target, rule, finding)`. Reason
/// and severity are excluded so editing them does not turn a known violation new.
#[derive(Debug, Clone, PartialEq, Eq, PartialOrd, Ord)]
pub struct ViolationId {
    /// The governed target (crate name or module path).
    pub target: String,
    /// The violated rule's label.
    pub rule: String,
    /// The offending finding.
    pub finding: String,
}

impl View for ViolationId {
    type V = IdView;

    open spec fn view(&self) -> IdView {
        IdView { target: self.target@, rule: self.rule@, finding: self.finding@ }
    }
}

impl ViolationId {
    /// A copy of this identity.
    pub fn copy(&self) -> (r: ViolationId)
        ensures
            r@ == self@,
    {
        ViolationId {
            target: owned(self.target.as_str()),
            rule: owned(self.rule.as_str()),
            finding: owned(self.finding.as_str()),
        }
    }
}

impl Violation {
    /// The `(target, rule, finding)` identity used to match against a baseline.
    pub fn id(&self) -> (r: ViolationId)
        ensures
            r@ == self@.id(),
    {
        ViolationId {
            target: owned(self.target.as_str()),
            rule: owned(self.rule.as_str()),
            finding: owned(self.finding.as_str()),
        }
    }
}

/// All violations from one evaluation.
#[derive(Debug, Clone, PartialEq, Eq)]
pub struct Report {
    /// Every violation found in one evaluation.
    pub violations: Vec<Violation>,
}

/// The models of a sequence of violations.
pub open spec fn violation_views(vs: Seq<Violation>) -> Seq<ViolationView> {
    vs.map_values(|v: Violation| v@)
}

impl View for Report {
    type V = Seq<ViolationView>;

    open spec fn view(&self) -> Seq<ViolationView> {
        violation_views(self.violations@)
    }
}

/// How much of the workspace the constitution covers: the number of workspace
/// crates, and the names of those no boundary targets, in package order.
#[derive(Debug, Clone, PartialEq, Eq)]
pub struct Coverage {
    /// How many workspace crates there are (saturating at `u32::MAX`).
    pub workspace_crates: u32,
    /// The workspace crates that no boundary targets.
    pub uncovered: Vec<String>,
}

/// The model of a coverage summary.
pub struct CoverageView {
    pub workspace_crates: nat,
    pub uncovered: Seq<Seq<char>>,
}

impl View for Coverage {
    type V = CoverageView;

    open spec fn view(&self) -> CoverageView {
        CoverageView {
            workspace_crates: self.workspace_crates as nat,
            uncovered: self.uncovered@.map_values(|s: String| s@),
        }
    }
}

/// The model of an optional coverage summary.
pub open spec fn coverage_view(c: Option<Coverage>) -> Option<CoverageView> {
    match c {
        Some(c) => Some(c@),
        None => None,
    }
}

/// The reaction's outcome. Exit codes separate architectural drift (1) from a
/// misconfiguration (2), so a mistyped crate name is not reported as drift.
#[derive(Debug, Clone, PartialEq, Eq)]
#[non_exhaustive]
pub enum Outcome {
    /// No boundary was violated (exit 0).
    Clean,
    /// One or more boundaries were violated; carries the full report (exit 1 if any
    /// non-baselined enforce violation exists, else exit 0).
    Violations(Report),
    /// The constitution could not be evaluated — a misconfiguration or scan error
    /// (exit 2). Carries a human-readable message.
    ConstitutionError(String),
}

/// The model of an outcome.
pub enum OutcomeView {
    Clean,
    Violations(Seq<ViolationView>),
    ConstitutionError(Seq<char>),
}

impl View for Outcome {
    type V = OutcomeView;

    open spec fn view(&self) -> OutcomeView {
        match self {
            Outcome::Clean => OutcomeView::Clean,
            Outcome::Violations(r) => OutcomeView::Violations(r@),
            Outcome::ConstitutionError(m) => OutcomeView::ConstitutionError(m@),
        }
    }
}

/// Whether some violation of `vs` fails the reaction.
pub open spec fn any_fails(vs: Seq<ViolationView>) -> bool {
    exists|i: int| 0 <= i < vs.len() && #[trigger] vs[i].fails()
}

impl OutcomeView {
    /// `0` clean, warn-only, or fully baselined; `1` when a non-baselined
    /// enforce-severity violation exists; `2` for a constitution/scan error.
    pub open spec fn exit_code(self) -> u8 {
        match self {
            OutcomeView::Clean => 0,
            OutcomeView::Violations(vs) => if any_fails(vs) {
                1
            } else {
                0
            },
            OutcomeView::ConstitutionError(_) => 2,
        }
    }
}

impl Outcome {
    /// `0` clean, warn-only, or fully baselined; `1` when a non-baselined
    /// enforce-severity violation exists; `2` for a constitution/scan error.
    pub fn exit_code(&self) -> (code: u8)
        ensures
            code == self@.exit_code(),
    {
        match self {
            Outcome::Clean => 0,
            Outcome::Violations(report) => {
                let mut i: usize = 0;
                while i < report.violations.len()
                    invariant
                        i <= report.violations.len(),
                        self@ == OutcomeView::Violations(report@),
                        forall|k: int| 0 <= k < i ==> !(#[trigger] report@[k]).fails(),
                    decreases report.violations.len() - i,
                {
                    let v = &report.violations[i];
                    if v.severity == Severity::Enforce && !v.baselined {
                        assert(report@[i as int].fails());
                        assert(any_fails(report@));
                        return 1;
                    }
                    i += 1;
                }
                assert(!any_fails(report@));
                0
            },
            Outcome::ConstitutionError(_) => 2,
        }
    }
}

/// A run whose violations are all advisory (`warn`) exits `0`: a warn boundary
/// reports but never fails the reaction.
pub proof fn warn_only_never_fails(vs: Seq<ViolationView>)
    requires
        forall|i: int| 0 <= i < vs.len() ==> (#[trigger] vs[i]).severity == Severity::Warn,
    ensures
        OutcomeView::Violations(vs).exit_code() == 0,
{
    assert(!any_fails(vs));
}

/// A single enforced violation that is not baselined makes the run exit `1`,
/// whatever warn violations accompany it.
pub proof fn an_enforced_violation_fails(vs: Seq<ViolationView>, i: int)
    requires
        0 <= i < vs.len(),
        vs[i].severity == Severity::Enforce,
        !vs[i].baselined,
    ensures
        OutcomeView::Violations(vs).exit_code() == 1,
{
    assert(vs[i].fails());
}

/// The exit code is `2` exactly for a constitution error, so a misconfiguration is
/// never read as a pass (0) or as drift (1).
pub proof fn only_a_constitution_error_exits_2(o: OutcomeView)
    ensures
        (o.exit_code() == 2) <==> (o is ConstitutionError),
        o.exit_code() <= 2,
{
}

} // verus!
