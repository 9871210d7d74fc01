//! Reading a `cargo metadata` document: the workspace packages, the normal
//! dependencies each declares, and which of them a crate rule flags.
use vstd::prelude::*;
use crate::imports::{
    insert_sorted, lemma_sorted_set, lemma_sorted_set_elements, same_elements, sorted_set,
    strictly_sorted, string_views,
};
use crate::json::{Json, JsonView, items_view, lemma_items_view};
use crate::model::{DependencyKind, Rule, RuleView, strs};
use crate::strip::views;
use crate::text::{chars_of, str_eq, string_of};

verus! {

/// The first of `packages` whose `name` is the string `name`.
pub open spec fn first_named(packages: Seq<JsonView>, name: Seq<char>) -> Option<JsonView>
    decreases packages.len(),
{
    if packages.len() == 0 {
        None
    } else if packages[0].get("name"@).as_str() == Some(name) {
        Some(packages[0])
    } else {
        first_named(packages.drop_first(), name)
    }
}

/// The workspace package named `name` in a `cargo metadata` document.
pub open spec fn package_named(doc: JsonView, name: Seq<char>) -> Option<JsonView> {
    match doc.get("packages"@).as_array() {
        Some(packages) => first_named(packages, name),
        None => None,
    }
}

/// The dependency entries a package declares (none when they are not an array).
pub open spec fn dependency_entries(package: JsonView) -> Seq<JsonView> {
    match package.get("dependencies"@).as_array() {
        Some(deps) => deps,
        None => Seq::empty(),
    }
}

/// The `kind` that `cargo metadata` records for a dependency table: `null` for
/// the normal one, `"dev"` and `"build"` for the others.
pub open spec fn table_word(kind: DependencyKind) -> Option<Seq<char>> {
    match kind {
        DependencyKind::Normal => None,
        DependencyKind::Dev => Some("dev"@),
        DependencyKind::Build => Some("build"@),
    }
}

/// A dependency of the table `kind`.
pub open spec fn is_of_kind(dep: JsonView, kind: DependencyKind) -> bool {
    dep.get("kind"@).as_str() == table_word(kind)
}

/// An external dependency: any non-null `source` (registry, git, alternative
/// registry); a path dependency inside the workspace has a null one.
pub open spec fn is_external(dep: JsonView) -> bool {
    !(dep.get("source"@) is Null)
}

/// The names of the dependencies of the table `kind` among `deps` (only the
/// external ones when `external_only`), in declaration order, with repetitions.
pub open spec fn dependency_names(
    deps: Seq<JsonView>,
    external_only: bool,
    kind: DependencyKind,
) -> Seq<Seq<char>>
    decreases deps.len(),
{
    if deps.len() == 0 {
        Seq::empty()
    } else {
        let rest = dependency_names(deps.drop_last(), external_only, kind);
        let dep = deps.last();
        if is_of_kind(dep, kind) && (!external_only || is_external(dep)) {
            match dep.get("name"@).as_str() {
                Some(name) => rest.push(name),
                None => rest,
            }
        } else {
            rest
        }
    }
}

/// The distinct names of a package's external normal dependencies, sorted.
pub open spec fn external_dependencies_of(package: JsonView) -> Seq<Seq<char>> {
    sorted_set(dependency_names(dependency_entries(package), true, DependencyKind::Normal))
}

/// The distinct names of a package's normal dependencies, sorted.
pub open spec fn normal_dependencies_of(package: JsonView) -> Seq<Seq<char>> {
    sorted_set(dependency_names(dependency_entries(package), false, DependencyKind::Normal))
}

/// The distinct names of a package's dependencies of the table `kind` (only the
/// external ones when `external_only`), sorted.
pub open spec fn dependencies_of(package: JsonView, external_only: bool, kind: DependencyKind) -> Seq<
    Seq<char>,
> {
    sorted_set(dependency_names(dependency_entries(package), external_only, kind))
}

/// Whether the rule flags a dependency named `name`, where `members` are the
/// workspace members.
pub open spec fn flags(rule: RuleView, name: Seq<char>, members: Seq<Seq<char>>) -> bool {
    match rule {
        RuleView::DenyExternal(allowed) => !allowed.contains(name),
        RuleView::Forbid(crates) => crates.contains(name),
        RuleView::Restrict(allowed) => !allowed.contains(name),
        RuleView::RestrictWorkspace(allowed) => members.contains(name) && !allowed.contains(name),
    }
}

/// The names of the packages of a `cargo metadata` document: the workspace
/// members, in order.
pub open spec fn member_names(packages: Seq<JsonView>) -> Seq<Seq<char>>
    decreases packages.len(),
{
    if packages.len() == 0 {
        Seq::empty()
    } else {
        let rest = member_names(packages.drop_last());
        match packages.last().get("name"@).as_str() {
            Some(name) => rest.push(name),
            None => rest,
        }
    }
}

/// The workspace members of a `cargo metadata` document.
pub open spec fn workspace_members(doc: JsonView) -> Seq<Seq<char>> {
    match doc.get("packages"@).as_array() {
        Some(packages) => member_names(packages),
        None => Seq::empty(),
    }
}

/// The dependencies of the table `kind` a rule looks at: the external ones for
/// the deny-external rule, every one otherwise.
pub open spec fn observed(rule: RuleView, package: JsonView, kind: DependencyKind) -> Seq<
    Seq<char>,
> {
    dependencies_of(package, rule is DenyExternal, kind)
}

/// The names among `names` that the rule flags, in order.
pub open spec fn flagged(rule: RuleView, names: Seq<Seq<char>>, members: Seq<Seq<char>>) -> Seq<
    Seq<char>,
>
    decreases names.len(),
{
    if names.len() == 0 {
        Seq::empty()
    } else {
        let rest = flagged(rule, names.drop_last(), members);
        if flags(rule, names.last(), members) {
            rest.push(names.last())
        } else {
            rest
        }
    }
}

/// The package's dependencies of the table `kind` that violate the rule, sorted,
/// where `members` are the workspace members.
pub open spec fn rule_findings(
    rule: RuleView,
    package: JsonView,
    members: Seq<Seq<char>>,
    kind: DependencyKind,
) -> Seq<Seq<char>> {
    flagged(rule, observed(rule, package, kind), members)
}

/// The workspace package named `package` in a `cargo metadata` document.
pub fn find_package<'a>(metadata: &'a Json, package: &str) -> (r: Option<&'a Json>)
    ensures
        match r {
            Some(p) => package_named(metadata@, package@) == Some(p@),
            None => package_named(metadata@, package@) is None,
        },
{
    let packages = match metadata.get("packages") {
        Some(v) => match v.as_array() {
            Some(items) => items,
            None => {
                return None;
            },
        },
        None => {
            return None;
        },
    };
    let ghost all = items_view(packages@);
    proof {
        lemma_items_view(packages@);
        assert(all.skip(0) =~= all);
    }
    let mut i: usize = 0;
    while i < packages.len()
        invariant
            i <= packages.len(),
            all == items_view(packages@),
            all.len() == packages.len(),
            forall|k: int| 0 <= k < packages.len() ==> #[trigger] all[k] == packages@[k]@,
            metadata@.get("packages"@).as_array() == Some(all),
            first_named(all, package@) == first_named(all.skip(i as int), package@),
        decreases packages.len() - i,
    {
        let candidate = &packages[i];
        let ghost rest = all.skip(i as int);
        assert(rest[0] == candidate@);
        assert(rest.drop_first() =~= all.skip(i + 1));
        match candidate.get("name") {
            Some(n) => match n.as_str() {
                Some(s) => {
                    if str_eq(s, package) {
                        return Some(candidate);
                    }
                },
                None => {},
            },
            None => {},
        }
        i += 1;
    }
    None
}

/// The names of a package's normal dependencies (only the external ones when
/// `external_only`), distinct and sorted.
fn declared_dependencies(package: &Json, external_only: bool, kind: DependencyKind) -> (out: Vec<
    String,
>)
    ensures
        string_views(out@) == dependencies_of(package@, external_only, kind),
{
    let empty: Vec<Json> = Vec::new();
    let deps: &Vec<Json> = match package.get("dependencies") {
        Some(v) => match v.as_array() {
            Some(items) => items,
            None => &empty,
        },
        None => &empty,
    };
    let ghost all = items_view(deps@);
    proof {
        lemma_items_view(deps@);
        if deps@.len() == 0 {
            assert(all =~= dependency_entries(package@));
        }
    }
    assert(all == dependency_entries(package@));
    let mut found: Vec<Vec<char>> = Vec::new();
    let mut i: usize = 0;
    while i < deps.len()
        invariant
            i <= deps.len(),
            all == items_view(deps@),
            all == dependency_entries(package@),
            all.len() == deps.len(),
            forall|k: int| 0 <= k < deps.len() ==> #[trigger] all[k] == deps@[k]@,
            strictly_sorted(views(found@)),
            same_elements(views(found@), dependency_names(all.take(i as int), external_only, kind)),
        decreases deps.len() - i,
    {
        let dep = &deps[i];
        assert(all.take(i + 1).drop_last() =~= all.take(i as int));
        assert(all.take(i + 1).last() == dep@);
        let ghost before = dependency_names(all.take(i as int), external_only, kind);
        let normal = match dep.get("kind") {
            Some(k) => match k.as_str() {
                None => kind == DependencyKind::Normal,
                Some(word) => match kind {
                    DependencyKind::Normal => false,
                    DependencyKind::Dev => str_eq(word, "dev"),
                    DependencyKind::Build => str_eq(word, "build"),
                },
            },
            None => kind == DependencyKind::Normal,
        };
        let external = match dep.get("source") {
            Some(s) => !s.is_null(),
            None => false,
        };
        if normal && (!external_only || external) {
            match dep.get("name") {
                Some(n) => match n.as_str() {
                    Some(name) => {
                        let chars = chars_of(name);
                        let ghost nv = chars@;
                        insert_sorted(&mut found, chars);
                        assert forall|y: Seq<char>| #[trigger] views(found@).contains(y)
                            <==> before.push(nv).contains(y) by {
                            let s = before.push(nv);
                            if s.contains(y) {
                                let k = choose|k: int| 0 <= k < s.len() && s[k] == y;
                                if k < before.len() {
                                    assert(before[k] == y);
                                }
                            }
                            if before.contains(y) {
                                let k = choose|k: int| 0 <= k < before.len() && before[k] == y;
                                assert(s[k] == y);
                            }
                            if y == nv {
                                assert(s[before.len() as int] == y);
                            }
                        }
                    },
                    None => {},
                },
                None => {},
            }
        }
        i += 1;
    }
    assert(all.take(deps.len() as int) =~= all);
    let mut out: Vec<String> = Vec::new();
    let mut k: usize = 0;
    while k < found.len()
        invariant
            k <= found.len(),
            string_views(out@) == views(found@).take(k as int),
        decreases found.len() - k,
    {
        let s = string_of(&found[k]);
        let ghost before = string_views(out@);
        out.push(s);
        assert(string_views(out@) =~= before.push(found@[k as int]@));
        assert(views(found@).take(k + 1) =~= views(found@).take(k as int).push(found@[k as int]@));
        k += 1;
    }
    assert(views(found@).take(found.len() as int) =~= views(found@));
    proof {
        lemma_sorted_set(string_views(out@), dependency_names(all, external_only, kind));
    }
    out
}

/// Names of the package's normal `[dependencies]` that resolve to an outside
/// source (any non-null `source`), distinct and sorted. Dev and build dependencies
/// and path dependencies are left out; names are package names, and optional and
/// platform-specific dependencies count as declared.
pub fn external_normal_dependencies(package: &Json) -> (out: Vec<String>)
    ensures
        string_views(out@) == external_dependencies_of(package@),
{
    declared_dependencies(package, true, DependencyKind::Normal)
}

/// Names of the package's normal `[dependencies]`, whatever their source (internal
/// path dependencies included), distinct and sorted.
pub fn normal_dependencies(package: &Json) -> (out: Vec<String>)
    ensures
        string_views(out@) == normal_dependencies_of(package@),
{
    declared_dependencies(package, false, DependencyKind::Normal)
}

/// Whether `names` holds `name`.
pub(crate) fn holds(names: &Vec<String>, name: &str) -> (r: bool)
    ensures
        r == strs(names@).contains(name@),
{
    let mut i: usize = 0;
    while i < names.len()
        invariant
            i <= names.len(),
            forall|k: int| 0 <= k < i ==> strs(names@)[k] != name@,
        decreases names.len() - i,
    {
        if str_eq(names[i].as_str(), name) {
            assert(strs(names@)[i as int] == name@);
            return true;
        }
        i += 1;
    }
    false
}

/// The names of the workspace members (the packages) of a `cargo metadata`
/// document, in order.
pub fn member_names_of(metadata: &Json) -> (out: Vec<String>)
    ensures
        strs(out@) == workspace_members(metadata@),
{
    let mut out: Vec<String> = Vec::new();
    let packages = match metadata.get("packages") {
        Some(v) => match v.as_array() {
            Some(items) => items,
            None => {
                return out;
            },
        },
        None => {
            return out;
        },
    };
    let ghost all = items_view(packages@);
    proof {
        lemma_items_view(packages@);
    }
    let mut i: usize = 0;
    while i < packages.len()
        invariant
            i <= packages.len(),
            all == items_view(packages@),
            all.len() == packages.len(),
            forall|k: int| 0 <= k < packages.len() ==> #[trigger] all[k] == packages@[k]@,
            metadata@.get("packages"@).as_array() == Some(all),
            strs(out@) == member_names(all.take(i as int)),
        decreases packages.len() - i,
    {
        assert(all.take(i + 1).drop_last() =~= all.take(i as int));
        assert(all.take(i + 1).last() == packages@[i as int]@);
        match packages[i].get("name") {
            Some(n) => match n.as_str() {
                Some(name) => {
                    let ghost before = strs(out@);
                    out.push(String::from_str(name));
                    assert(strs(out@) =~= before.push(name@));
                },
                None => {},
            },
            None => {},
        }
        i += 1;
    }
    assert(all.take(packages.len() as int) =~= all);
    out
}

impl Rule {
    /// The package's declared dependencies of the table `kind` that violate this
    /// rule, sorted. The deny-external rule looks at external dependencies only;
    /// the forbid and restrict rules at every dependency, internal ones included;
    /// the workspace rule at the dependencies on `members`, the workspace's
    /// packages.
    pub fn findings(&self, package: &Json, members: &Vec<String>, kind: DependencyKind) -> (out:
        Vec<String>)
        ensures
            string_views(out@) == rule_findings(self@, package@, strs(members@), kind),
    {
        let external_only = match self {
            Rule::DenyExternalDependencies { .. } => true,
            _ => false,
        };
        let deps = declared_dependencies(package, external_only, kind);
        let ghost names = string_views(deps@);
        assert(names == observed(self@, package@, kind));
        let mut out: Vec<String> = Vec::new();
        let mut i: usize = 0;
        while i < deps.len()
            invariant
                i <= deps.len(),
                names == string_views(deps@),
                string_views(out@) == flagged(self@, names.take(i as int), strs(members@)),
            decreases deps.len() - i,
        {
            let name = deps[i].as_str();
            assert(names.take(i + 1).drop_last() =~= names.take(i as int));
            assert(names.take(i + 1).last() == name@);
            let flag = match self {
                Rule::DenyExternalDependencies { allowed } => !holds(allowed, name),
                Rule::ForbidDependencyOn { crates } => holds(crates, name),
                Rule::RestrictDependenciesTo { allowed } => !holds(allowed, name),
                Rule::RestrictWorkspaceDependenciesTo { allowed } => holds(members, name) && !holds(
                    allowed,
                    name,
                ),
            };
            if flag {
                let ghost before = string_views(out@);
                out.push(String::from_str(name));
                assert(string_views(out@) =~= before.push(name@));
            }
            i += 1;
        }
        assert(names.take(deps.len() as int) =~= names);
        out
    }
}


/// The names a rule keeps of `names` are those it flags.
proof fn lemma_flagged(rule: RuleView, names: Seq<Seq<char>>, members: Seq<Seq<char>>)
    ensures
        forall|n: Seq<char>| #[trigger] flagged(rule, names, members).contains(n) <==> (names.contains(n)
            && flags(rule, n, members)),
    decreases names.len(),
{
    if names.len() > 0 {
        let init = names.drop_last();
        lemma_flagged(rule, init, members);
        let rest = flagged(rule, init, members);
        assert forall|n: Seq<char>| #[trigger] flagged(rule, names, members).contains(n) <==> (
        names.contains(n) && flags(rule, n, members)) by {
            if names.contains(n) {
                let k = choose|k: int| 0 <= k < names.len() && names[k] == n;
                if k < init.len() {
                    assert(init[k] == n);
                }
            }
            if init.contains(n) {
                let k = choose|k: int| 0 <= k < init.len() && init[k] == n;
                assert(names[k] == n);
            }
            assert(names[names.len() - 1] == names.last());
            if flags(rule, names.last(), members) {
                let t = rest.push(names.last());
                if t.contains(n) {
                    let k = choose|k: int| 0 <= k < t.len() && t[k] == n;
                    if k < rest.len() {
                        assert(rest[k] == n);
                    }
                }
                if rest.contains(n) {
                    let k = choose|k: int| 0 <= k < rest.len() && rest[k] == n;
                    assert(t[k] == n);
                }
                assert(t[rest.len() as int] == names.last());
            }
        }
    }
}

/// A crate rule reports exactly the dependencies it observes that offend it:
/// deny-external each external normal dependency it does not allow, forbid each
/// normal dependency it names, restrict-to each normal dependency outside its
/// allowlist, the workspace rule each normal dependency on a workspace member
/// outside its allowlist; each once, in sorted order.
pub proof fn a_rule_reports_exactly_its_offending_dependencies(
    rule: RuleView,
    package: JsonView,
    members: Seq<Seq<char>>,
    kind: DependencyKind,
)
    ensures
        strictly_sorted(rule_findings(rule, package, members, kind)),
        forall|n: Seq<char>| #[trigger] rule_findings(rule, package, members, kind).contains(n) <==> (
        dependency_names(
            dependency_entries(package),
            rule is DenyExternal,
            kind,
        ).contains(n) && flags(rule, n, members)),
{
    let external = rule is DenyExternal;
    let names = dependency_names(dependency_entries(package), external, kind);
    lemma_sorted_set_elements(names);
    let obs = observed(rule, package, kind);
    assert(obs == sorted_set(names));
    lemma_flagged(rule, obs, members);
    lemma_flagged_sorted(rule, obs, members);
}

/// Keeping some elements of a strictly sorted sequence keeps it strictly sorted.
proof fn lemma_flagged_sorted(rule: RuleView, names: Seq<Seq<char>>, members: Seq<Seq<char>>)
    requires
        strictly_sorted(names),
    ensures
        strictly_sorted(flagged(rule, names, members)),
    decreases names.len(),
{
    if names.len() > 0 {
        let init = names.drop_last();
        assert forall|i: int, j: int| 0 <= i < j < init.len() implies crate::text::seq_lt(
            #[trigger] init[i],
            #[trigger] init[j],
        ) by {
            assert(init[i] == names[i] && init[j] == names[j]);
        }
        lemma_flagged_sorted(rule, init, members);
        lemma_flagged(rule, init, members);
        let rest = flagged(rule, init, members);
        if flags(rule, names.last(), members) {
            let t = rest.push(names.last());
            assert forall|i: int, j: int| 0 <= i < j < t.len() implies crate::text::seq_lt(
                #[trigger] t[i],
                #[trigger] t[j],
            ) by {
                if j == rest.len() {
                    assert(rest.contains(rest[i]));
                    let k = choose|k: int| 0 <= k < init.len() && init[k] == rest[i];
                    assert(names[k] == rest[i]);
                    assert(names.len() - 1 == init.len());
                    assert(names[names.len() - 1] == names.last());
                } else {
                    assert(t[i] == rest[i] && t[j] == rest[j]);
                }
            }
        }
    }
}

/// An allowlisted dependency never violates a deny-external or restrict-to rule,
/// and a dependency a forbid rule does not name never violates it.
pub proof fn an_allowed_dependency_never_violates(
    rule: RuleView,
    package: JsonView,
    members: Seq<Seq<char>>,
    kind: DependencyKind,
    n: Seq<char>,
)
    requires
        !flags(rule, n, members),
    ensures
        !rule_findings(rule, package, members, kind).contains(n),
{
    a_rule_reports_exactly_its_offending_dependencies(rule, package, members, kind);
}

/// The deny-external rule never reports a dependency named anywhere in its
/// allowlist, and reports every external dependency of its table that the
/// allowlist leaves out.
pub proof fn the_external_rule_reports_exactly_what_its_allowlist_leaves_out(
    allowed: Seq<Seq<char>>,
    package: JsonView,
    members: Seq<Seq<char>>,
    kind: DependencyKind,
    n: Seq<char>,
)
    ensures
        allowed.contains(n) ==> !rule_findings(
            RuleView::DenyExternal(allowed),
            package,
            members,
            kind,
        ).contains(n),
        dependency_names(dependency_entries(package), true, kind).contains(n) && !allowed.contains(n)
            ==> rule_findings(RuleView::DenyExternal(allowed), package, members, kind).contains(n),
{
    a_rule_reports_exactly_its_offending_dependencies(
        RuleView::DenyExternal(allowed),
        package,
        members,
        kind,
    );
}

/// Extending the deny-external allowlist removes exactly the newly allowed
/// names from the findings and leaves every other finding in place.
pub proof fn allowing_more_external_crates_removes_exactly_those_findings(
    allowed: Seq<Seq<char>>,
    extra: Seq<Seq<char>>,
    package: JsonView,
    members: Seq<Seq<char>>,
    kind: DependencyKind,
)
    ensures
        forall|n: Seq<char>|
            #[trigger] rule_findings(
                RuleView::DenyExternal(allowed + extra),
                package,
                members,
                kind,
            ).contains(n) <==> (rule_findings(
                RuleView::DenyExternal(allowed),
                package,
                members,
                kind,
            ).contains(n) && !extra.contains(n)),
{
    a_rule_reports_exactly_its_offending_dependencies(
        RuleView::DenyExternal(allowed),
        package,
        members,
        kind,
    );
    a_rule_reports_exactly_its_offending_dependencies(
        RuleView::DenyExternal(allowed + extra),
        package,
        members,
        kind,
    );
    assert forall|n: Seq<char>| (allowed + extra).contains(n) <==> (allowed.contains(n)
        || extra.contains(n)) by {
        let all = allowed + extra;
        if all.contains(n) {
            let k = choose|k: int| 0 <= k < all.len() && all[k] == n;
            if k < allowed.len() {
                assert(allowed[k] == n);
            } else {
                assert(extra[k - allowed.len()] == n);
            }
        }
        if allowed.contains(n) {
            let k = choose|k: int| 0 <= k < allowed.len() && allowed[k] == n;
            assert(all[k] == n);
        }
        if extra.contains(n) {
            let k = choose|k: int| 0 <= k < extra.len() && extra[k] == n;
            assert(all[allowed.len() + k] == n);
        }
    }
}

/// The workspace rule governs only the workspace: a dependency on a crate that
/// is not a workspace member never violates it, whatever its allowlist.
pub proof fn the_workspace_rule_ignores_crates_outside_the_workspace(
    allowed: Seq<Seq<char>>,
    package: JsonView,
    members: Seq<Seq<char>>,
    kind: DependencyKind,
    n: Seq<char>,
)
    requires
        !members.contains(n),
    ensures
        !rule_findings(RuleView::RestrictWorkspace(allowed), package, members, kind).contains(n),
{
    a_rule_reports_exactly_its_offending_dependencies(
        RuleView::RestrictWorkspace(allowed),
        package,
        members,
        kind,
    );
}

/// A rule observes only the dependency table it is pointed at: a dependency that
/// table does not declare never violates it, whatever other tables declare.
pub proof fn a_rule_observes_only_its_dependency_table(
    rule: RuleView,
    package: JsonView,
    members: Seq<Seq<char>>,
    kind: DependencyKind,
    n: Seq<char>,
)
    requires
        !dependency_names(dependency_entries(package), false, kind).contains(n),
    ensures
        !rule_findings(rule, package, members, kind).contains(n),
{
    a_rule_reports_exactly_its_offending_dependencies(rule, package, members, kind);
    if dependency_names(dependency_entries(package), true, kind).contains(n) {
        lemma_external_names_are_names(dependency_entries(package), kind, n);
    }
}

/// An external dependency of a table is a dependency of that table.
proof fn lemma_external_names_are_names(deps: Seq<JsonView>, kind: DependencyKind, n: Seq<char>)
    requires
        dependency_names(deps, true, kind).contains(n),
    ensures
        dependency_names(deps, false, kind).contains(n),
    decreases deps.len(),
{
    if deps.len() > 0 {
        let init = deps.drop_last();
        let ext = dependency_names(deps, true, kind);
        let all = dependency_names(deps, false, kind);
        let k = choose|k: int| 0 <= k < ext.len() && ext[k] == n;
        let ext_init = dependency_names(init, true, kind);
        let all_init = dependency_names(init, false, kind);
        if k < ext_init.len() {
            assert(ext[k] == ext_init[k]);
            assert(ext_init.contains(n));
            lemma_external_names_are_names(init, kind, n);
            let j = choose|j: int| 0 <= j < all_init.len() && all_init[j] == n;
            assert(all[j] == n);
        } else {
            assert(all[all.len() - 1] == n);
        }
    }
}

/// The deny-external rule never reports a dependency that its table does not
/// declare as an external one: an internal path dependency, or one declared only
/// in another table.
pub proof fn the_external_rule_ignores_path_dependencies(
    allowed: Seq<Seq<char>>,
    package: JsonView,
    members: Seq<Seq<char>>,
    kind: DependencyKind,
    n: Seq<char>,
)
    requires
        !dependency_names(dependency_entries(package), true, kind).contains(n),
    ensures
        !rule_findings(RuleView::DenyExternal(allowed), package, members, kind).contains(n),
{
    a_rule_reports_exactly_its_offending_dependencies(
        RuleView::DenyExternal(allowed),
        package,
        members,
        kind,
    );
}

} // verus!
