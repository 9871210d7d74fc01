//! A recorded set of accepted violations: an observation snapshot, not policy.
//! Gating against it fails only on violations it does not record.
use vstd::prelude::*;
use crate::json::{
    Json, JsonView, all_portable, items_view, json_parse, json_render, lemma_items_push,
    lemma_items_view, lemma_members_push, member, members_portable, members_view, parse_json,
    portable, render_json,
};
use crate::order::{ids, insert_id, lemma_sorted_ids_unique, sorted_ids};
use crate::model::Severity;
use crate::report::{
    IdView, OutcomeView, Report, Violation, ViolationId, ViolationView, any_fails, violation_views,
};
use crate::text::{decimal_i64, extend_chars, chars_of, owned, signed_decimal, string_of};

verus! {

/// A recorded set of accepted violation identities, kept sorted and free of
/// repetitions.
#[derive(Debug)]
pub struct Baseline {
    entries: Vec<ViolationId>,
}

impl View for Baseline {
    type V = Seq<IdView>;

    closed spec fn view(&self) -> Seq<IdView> {
        ids(self.entries@)
    }
}

impl Baseline {
    #[verifier::type_invariant]
    spec fn sorted(self) -> bool {
        sorted_ids(ids(self.entries@))
    }
}

/// The distinct identities of `es`, sorted.
pub open spec fn sorted_entries(es: Seq<IdView>) -> Seq<IdView> {
    choose|t: Seq<IdView>| sorted_ids(t) && forall|x: IdView| #[trigger] t.contains(x) <==> es.contains(x)
}

/// A sorted sequence with the identities of `es` is [`sorted_entries`]`(es)`.
pub proof fn lemma_sorted_entries(r: Seq<IdView>, es: Seq<IdView>)
    requires
        sorted_ids(r),
        forall|x: IdView| #[trigger] r.contains(x) <==> es.contains(x),
    ensures
        sorted_entries(es) == r,
{
    let t = sorted_entries(es);
    assert(sorted_ids(t) && forall|x: IdView| #[trigger] t.contains(x) <==> es.contains(x));
    lemma_sorted_ids_unique(t, r);
}

/// The identities of the violations of `vs`, in order.
pub open spec fn report_ids(vs: Seq<ViolationView>) -> Seq<IdView> {
    vs.map_values(|v: ViolationView| v.id())
}

/// The entries of `entries` that match no violation of `current`, in order.
pub open spec fn stale_of(entries: Seq<IdView>, current: Seq<ViolationView>) -> Seq<IdView>
    decreases entries.len(),
{
    if entries.len() == 0 {
        Seq::empty()
    } else {
        let rest = stale_of(entries.drop_last(), current);
        if report_ids(current).contains(entries.last()) {
            rest
        } else {
            rest.push(entries.last())
        }
    }
}

/// `v` marked as baselined when the baseline records its identity.
pub open spec fn mark(v: ViolationView, entries: Seq<IdView>) -> ViolationView {
    ViolationView { baselined: v.baselined || entries.contains(v.id()), ..v }
}

/// The JSON object recording one identity.
pub open spec fn entry_doc(e: IdView) -> JsonView {
    JsonView::Object(
        Map::empty().insert("target"@, JsonView::Str(e.target)).insert(
            "rule"@,
            JsonView::Str(e.rule),
        ).insert("finding"@, JsonView::Str(e.finding)),
    )
}

/// The on-disk JSON form of a baseline: a `version` and its `violations`.
pub open spec fn baseline_doc(entries: Seq<IdView>) -> JsonView {
    JsonView::Object(
        Map::empty().insert("version"@, JsonView::Int(1)).insert(
            "violations"@,
            JsonView::Array(entries.map_values(|e: IdView| entry_doc(e))),
        ),
    )
}

/// Why a text is not a baseline.
pub enum BaselineError {
    /// Not a JSON document; `serde_json`'s message.
    Unparsable(Seq<char>),
    /// A numeric `version` other than 1.
    Version(int),
    /// No numeric `version`.
    MissingVersion,
    /// `violations` is not an array.
    NotArray,
    /// An entry lacks the named string field.
    MissingField(Seq<char>),
}

/// The identity an entry records, or the first of `target`, `rule`, `finding`
/// that it lacks as a string.
pub open spec fn entry_of(item: JsonView) -> Result<IdView, Seq<char>> {
    match item.get("target"@).as_str() {
        None => Err("target"@),
        Some(target) => match item.get("rule"@).as_str() {
            None => Err("rule"@),
            Some(rule) => match item.get("finding"@).as_str() {
                None => Err("finding"@),
                Some(finding) => Ok(IdView { target, rule, finding }),
            },
        },
    }
}

/// The identities the entries record, or the missing field of the first faulty one.
pub open spec fn entries_of(items: Seq<JsonView>) -> Result<Seq<IdView>, Seq<char>>
    decreases items.len(),
{
    if items.len() == 0 {
        Ok(Seq::empty())
    } else {
        match entries_of(items.drop_last()) {
            Err(f) => Err(f),
            Ok(es) => match entry_of(items.last()) {
                Err(f) => Err(f),
                Ok(e) => Ok(es.push(e)),
            },
        }
    }
}

/// The identities a baseline document records, in document order.
pub open spec fn baseline_from_doc(doc: JsonView) -> Result<Seq<IdView>, BaselineError> {
    match doc.get("version"@).as_i64() {
        None => Err(BaselineError::MissingVersion),
        Some(v) => if v != 1 {
            Err(BaselineError::Version(v))
        } else {
            match doc.get("violations"@).as_array() {
                None => Err(BaselineError::NotArray),
                Some(items) => match entries_of(items) {
                    Err(f) => Err(BaselineError::MissingField(f)),
                    Ok(es) => Ok(es),
                },
            }
        },
    }
}

/// The identities a baseline text records, in document order.
pub open spec fn baseline_from_text(text: Seq<char>) -> Result<Seq<IdView>, BaselineError> {
    match json_parse(text) {
        Err(m) => Err(BaselineError::Unparsable(m)),
        Ok(doc) => baseline_from_doc(doc),
    }
}

/// The message reported for a baseline error (that of `serde_json` when the text
/// is not JSON at all).
pub open spec fn baseline_error_message(e: BaselineError) -> Seq<char> {
    match e {
        BaselineError::Version(v) => "unsupported baseline version "@ + signed_decimal(v),
        BaselineError::MissingVersion => "baseline is missing a numeric `version`"@,
        BaselineError::NotArray => "baseline `violations` must be an array"@,
        BaselineError::MissingField(f) => "baseline entry is missing string `"@ + f + "`"@,
        BaselineError::Unparsable(m) => m,
    }
}

pub(crate) fn entry_json(e: &ViolationId) -> (j: Json)
    ensures
        j@ == entry_doc(e@),
        forall|d: nat| d >= 1 ==> #[trigger] portable(j, d),
{
    let mut ms: Vec<(String, Json)> = Vec::new();
    let ghost s0 = ms@;
    let m1 = member("target", Json::Str(owned(e.target.as_str())));
    proof {
        lemma_members_push(ms@, m1);
    }
    ms.push(m1);
    let ghost s1 = ms@;
    let m2 = member("rule", Json::Str(owned(e.rule.as_str())));
    proof {
        lemma_members_push(ms@, m2);
    }
    ms.push(m2);
    let ghost s2 = ms@;
    let m3 = member("finding", Json::Str(owned(e.finding.as_str())));
    proof {
        lemma_members_push(ms@, m3);
    }
    ms.push(m3);
    proof {
        assert(members_view(s0) == Map::<Seq<char>, JsonView>::empty());
        assert forall|d: nat| d >= 1 implies #[trigger] portable(Json::Object(ms), d) by {
            let e = (d - 1) as nat;
            assert(members_portable(s0, e));
            assert(portable(m1.1, e));
            assert(portable(m2.1, e));
            assert(portable(m3.1, e));
            assert(members_portable(s1, e));
            assert(members_portable(s2, e));
            assert(members_portable(ms@, e));
        }
    }
    Json::Object(ms)
}

/// Whether `id` is among the sorted `entries`.
fn has_id(entries: &Vec<ViolationId>, id: &ViolationId) -> (r: bool)
    ensures
        r == ids(entries@).contains(id@),
{
    let mut i: usize = 0;
    while i < entries.len()
        invariant
            i <= entries.len(),
            forall|k: int| 0 <= k < i ==> ids(entries@)[k] != id@,
        decreases entries.len() - i,
    {
        if crate::order::id_same(&entries[i], id) {
            assert(ids(entries@)[i as int] == id@);
            return true;
        }
        i += 1;
    }
    false
}

impl Baseline {
    /// Build a baseline from the current report's violations: their identities,
    /// sorted and without repetitions.
    pub fn of(report: &Report) -> (b: Baseline)
        ensures
            b@ == sorted_entries(report_ids(report@)),
            sorted_ids(b@),
            forall|id: IdView| #[trigger] b@.contains(id) <==> report_ids(report@).contains(id),
    {
        let mut entries: Vec<ViolationId> = Vec::new();
        let mut i: usize = 0;
        let ghost all = report_ids(report@);
        while i < report.violations.len()
            invariant
                i <= report.violations.len(),
                all == report_ids(report@),
                sorted_ids(ids(entries@)),
                forall|id: IdView| #[trigger]
                    ids(entries@).contains(id) <==> all.take(i as int).contains(id),
            decreases report.violations.len() - i,
        {
            let id = report.violations[i].id();
            assert(all[i as int] == report@[i as int].id());
            insert_id(&mut entries, id);
            assert(all.take(i + 1) =~= all.take(i as int).push(all[i as int]));
            assert forall|x: IdView| #[trigger]
                ids(entries@).contains(x) <==> all.take(i + 1).contains(x) by {
                let s = all.take(i as int);
                if s.push(all[i as int]).contains(x) {
                    let k = choose|k: int| 0 <= k < s.len() + 1 && s.push(all[i as int])[k] == x;
                    if k < s.len() {
                        assert(s[k] == x);
                    }
                }
                if s.contains(x) {
                    let k = choose|k: int| 0 <= k < s.len() && s[k] == x;
                    assert(s.push(all[i as int])[k] == x);
                }
                if x == all[i as int] {
                    assert(s.push(all[i as int])[s.len() as int] == x);
                }
            }
            i += 1;
        }
        assert(all.take(report.violations.len() as int) =~= all);
        proof {
            lemma_sorted_entries(ids(entries@), all);
        }
        Baseline { entries }
    }

    /// Whether this baseline records the given violation's identity.
    pub fn contains(&self, violation: &Violation) -> (r: bool)
        ensures
            r == self@.contains(violation@.id()),
    {
        let id = violation.id();
        has_id(&self.entries, &id)
    }

    /// Baseline entries that match no current violation — stale, safe to remove —
    /// in baseline order.
    pub fn stale(&self, report: &Report) -> (r: Vec<&ViolationId>)
        ensures
            r@.map_values(|e: &ViolationId| e@) == stale_of(self@, report@),
    {
        let mut current: Vec<ViolationId> = Vec::new();
        let mut i: usize = 0;
        while i < report.violations.len()
            invariant
                i <= report.violations.len(),
                ids(current@) == report_ids(report@).take(i as int),
            decreases report.violations.len() - i,
        {
            let ghost before = ids(current@);
            current.push(report.violations[i].id());
            assert(ids(current@) =~= before.push(report@[i as int].id()));
            assert(report_ids(report@).take(i + 1) =~= report_ids(report@).take(i as int).push(
                report@[i as int].id(),
            ));
            i += 1;
        }
        assert(report_ids(report@).take(i as int) =~= report_ids(report@));
        let mut out: Vec<&ViolationId> = Vec::new();
        let mut k: usize = 0;
        let ghost es = ids(self.entries@);
        while k < self.entries.len()
            invariant
                k <= self.entries.len(),
                es == ids(self.entries@),
                ids(current@) == report_ids(report@),
                out@.map_values(|e: &ViolationId| e@) == stale_of(es.take(k as int), report@),
            decreases self.entries.len() - k,
        {
            let e = &self.entries[k];
            assert(es.take(k + 1).drop_last() =~= es.take(k as int));
            assert(es.take(k + 1).last() == e@);
            if !has_id(&current, e) {
                let ghost before = out@.map_values(|x: &ViolationId| x@);
                out.push(e);
                assert(out@.map_values(|x: &ViolationId| x@) =~= before.push(e@));
            }
            k += 1;
        }
        assert(es.take(self.entries.len() as int) =~= es);
        out
    }

    /// Serialize to the on-disk JSON form: a `version` and the sorted `violations`.
    /// What it writes, [`Baseline::from_json`] reads back as this same baseline.
    pub fn to_json(&self) -> (out: String)
        ensures
            out@ == json_render(baseline_doc(self@)),
            baseline_from_text(out@) == Ok::<Seq<IdView>, BaselineError>(self@),
    {
        let ghost es = ids(self.entries@);
        let mut items: Vec<Json> = Vec::new();
        let mut k: usize = 0;
        while k < self.entries.len()
            invariant
                k <= self.entries.len(),
                es == ids(self.entries@),
                items_view(items@) == es.take(k as int).map_values(|e: IdView| entry_doc(e)),
                forall|d: nat| d >= 1 ==> #[trigger] all_portable(items@, d),
            decreases self.entries.len() - k,
        {
            let j = entry_json(&self.entries[k]);
            proof {
                lemma_items_push(items@, j);
            }
            items.push(j);
            assert(es.take(k + 1).map_values(|e: IdView| entry_doc(e)) =~= es.take(
                k as int,
            ).map_values(|e: IdView| entry_doc(e)).push(entry_doc(es[k as int])));
            k += 1;
        }
        assert(es.take(k as int) =~= es);
        let mut ms: Vec<(String, Json)> = Vec::new();
        let ghost s0 = ms@;
        let m1 = member("version", Json::Int(1));
        proof {
            lemma_members_push(ms@, m1);
        }
        ms.push(m1);
        let ghost s1 = ms@;
        assert(all_portable(items@, 98));
        let ghost arr = Json::Array(items);
        let m2 = member("violations", Json::Array(items));
        proof {
            lemma_members_push(ms@, m2);
        }
        ms.push(m2);
        let doc = Json::Object(ms);
        proof {
            assert(members_view(s0) == Map::<Seq<char>, JsonView>::empty());
            assert(members_portable(s0, 99));
            assert(portable(m1.1, 99));
            assert(members_portable(s1, 99));
            assert(portable(m2.1, 99));
            assert(members_portable(ms@, 99));
            assert(portable(doc, 100));
            assert(doc@ == baseline_doc(es));
        }
        let out = render_json(&doc);
        proof {
            lemma_doc_reads_back(es);
            use_type_invariant(self);
        }
        out
    }

    /// Parse from the on-disk JSON form. A malformed document or unknown version is
    /// an error, never a silently empty baseline. The entries are sorted and their
    /// repetitions dropped.
    pub fn from_json(text: &str) -> (r: Result<Baseline, String>)
        ensures
            match baseline_from_text(text@) {
                Ok(es) => r matches Ok(b) && b@ == sorted_entries(es) && sorted_ids(b@) && (forall|id: IdView| #[trigger]
                    b@.contains(id) <==> es.contains(id)) && (sorted_ids(es) ==> b@ == es),
                Err(e) => r matches Err(m) && m@ == baseline_error_message(e),
            },
    {
        let doc = match parse_json(text) {
            Ok(doc) => doc,
            Err(message) => {
                return Err(message);
            },
        };
        match doc.get("version") {
            Some(v) => match v.as_i64() {
                Some(1) => {},
                Some(other) => {
                    let mut m = chars_of("unsupported baseline version ");
                    let digits = decimal_i64(other);
                    extend_chars(&mut m, &digits);
                    return Err(string_of(&m));
                },
                None => {
                    return Err(owned("baseline is missing a numeric `version`"));
                },
            },
            None => {
                return Err(owned("baseline is missing a numeric `version`"));
            },
        }
        let items = match doc.get("violations") {
            Some(v) => match v.as_array() {
                Some(items) => items,
                None => {
                    return Err(owned("baseline `violations` must be an array"));
                },
            },
            None => {
                return Err(owned("baseline `violations` must be an array"));
            },
        };
        let ghost all = items_view(items@);
        proof {
            lemma_items_view(items@);
        }
        let mut entries: Vec<ViolationId> = Vec::new();
        let ghost read: Seq<IdView> = Seq::empty();
        let mut k: usize = 0;
        while k < items.len()
            invariant
                k <= items.len(),
                json_parse(text@) == Ok::<JsonView, Seq<char>>(doc@),
                doc@.get("version"@).as_i64() == Some(1int),
                doc@.get("violations"@).as_array() == Some(all),
                all == items_view(items@),
                all.len() == items.len(),
                forall|i: int| 0 <= i < items.len() ==> #[trigger] all[i] == items@[i]@,
                entries_of(all.take(k as int)) == Ok::<Seq<IdView>, Seq<char>>(read),
                sorted_ids(ids(entries@)),
                forall|id: IdView| #[trigger] ids(entries@).contains(id) <==> read.contains(id),
            decreases items.len() - k,
        {
            let item = &items[k];
            assert(all.take(k + 1).drop_last() =~= all.take(k as int));
            assert(all.take(k + 1).last() == item@);
            let target = match field(item, "target") {
                Some(s) => s,
                None => {
                    proof {
                        lemma_entries_prefix_err(all, k + 1);
                    }
                    return Err(missing("target"));
                },
            };
            let rule = match field(item, "rule") {
                Some(s) => s,
                None => {
                    proof {
                        lemma_entries_prefix_err(all, k + 1);
                    }
                    return Err(missing("rule"));
                },
            };
            let finding = match field(item, "finding") {
                Some(s) => s,
                None => {
                    proof {
                        lemma_entries_prefix_err(all, k + 1);
                    }
                    return Err(missing("finding"));
                },
            };
            let id = ViolationId { target, rule, finding };
            let ghost idv = id@;
            insert_id(&mut entries, id);
            proof {
                let old_read = read;
                read = read.push(idv);
                assert forall|x: IdView| #[trigger] ids(entries@).contains(x) <==> read.contains(
                    x,
                ) by {
                    if read.contains(x) {
                        let q = choose|q: int| 0 <= q < read.len() && read[q] == x;
                        if q < old_read.len() {
                            assert(old_read[q] == x);
                        }
                    }
                    if old_read.contains(x) {
                        let q = choose|q: int| 0 <= q < old_read.len() && old_read[q] == x;
                        assert(read[q] == x);
                    }
                    if x == idv {
                        assert(read[old_read.len() as int] == x);
                    }
                }
            }
            k += 1;
        }
        assert(all.take(items.len() as int) =~= all);
        let b = Baseline { entries };
        proof {
            lemma_sorted_entries(ids(b.entries@), read);
            if sorted_ids(read) {
                lemma_sorted_ids_unique(ids(b.entries@), read);
            }
        }
        Ok(b)
    }
}

/// The message for an entry lacking the string field `name`.
fn missing(name: &str) -> (m: String)
    ensures
        m@ == "baseline entry is missing string `"@ + name@ + "`"@,
{
    let mut v = chars_of("baseline entry is missing string `");
    let n = chars_of(name);
    extend_chars(&mut v, &n);
    let tick = chars_of("`");
    extend_chars(&mut v, &tick);
    string_of(&v)
}

/// The string under `name` in `item`, when there is one.
fn field(item: &Json, name: &str) -> (r: Option<String>)
    ensures
        match r {
            Some(s) => item@.get(name@).as_str() == Some(s@),
            None => item@.get(name@).as_str() is None,
        },
{
    match item.get(name) {
        Some(v) => match v.as_str() {
            Some(s) => Some(owned(s)),
            None => None,
        },
        None => None,
    }
}

/// An entry error in a prefix is the error of the whole sequence.
proof fn lemma_entries_prefix_err(all: Seq<JsonView>, j: int)
    requires
        0 <= j <= all.len(),
        entries_of(all.take(j)) is Err,
    ensures
        entries_of(all) == entries_of(all.take(j)),
    decreases all.len() - j,
{
    if j < all.len() {
        assert(all.take(j + 1).drop_last() =~= all.take(j));
        lemma_entries_prefix_err(all, j + 1);
    } else {
        assert(all.take(j) =~= all);
    }
}

/// A baseline document reads back as the entries it was written from.
proof fn lemma_doc_reads_back(es: Seq<IdView>)
    ensures
        baseline_from_doc(baseline_doc(es)) == Ok::<Seq<IdView>, BaselineError>(es),
{
    lemma_keys_differ();
    let items = es.map_values(|e: IdView| entry_doc(e));
    assert(baseline_doc(es).get("violations"@).as_array() == Some(items));
    lemma_entries_read_back(es);
}

proof fn lemma_keys_differ()
    ensures
        "target"@ != "rule"@,
        "target"@ != "finding"@,
        "rule"@ != "finding"@,
        "version"@ != "violations"@,
{
    reveal_strlit("version");
    reveal_strlit("violations");
    reveal_strlit("target");
    reveal_strlit("rule");
    reveal_strlit("finding");
    assert("target"@.len() != "rule"@.len());
    assert("target"@[0] != "finding"@[0]);
    assert("rule"@.len() != "finding"@.len());
    assert("version"@.len() != "violations"@.len());
}

proof fn lemma_entries_read_back(es: Seq<IdView>)
    ensures
        entries_of(es.map_values(|e: IdView| entry_doc(e))) == Ok::<Seq<IdView>, Seq<char>>(es),
    decreases es.len(),
{
    lemma_keys_differ();
    let items = es.map_values(|e: IdView| entry_doc(e));
    if es.len() > 0 {
        lemma_entries_read_back(es.drop_last());
        assert(items.drop_last() =~= es.drop_last().map_values(|e: IdView| entry_doc(e)));
        let e = es.last();
        assert(items.last() == entry_doc(e));
        assert(entry_of(entry_doc(e)) == Ok::<IdView, Seq<char>>(e));
        assert(entries_of(items.drop_last()) == Ok::<Seq<IdView>, Seq<char>>(es.drop_last()));
        assert(entries_of(items) == Ok::<Seq<IdView>, Seq<char>>(es.drop_last().push(e)));
        assert(es.drop_last().push(e) =~= es);
    } else {
        assert(items.len() == 0);
        assert(es =~= Seq::<IdView>::empty());
    }
}

/// Mark each violation the baseline records as `baselined`, so it no longer fails
/// the reaction; violations absent from the baseline are left as they were.
pub fn apply_baseline(report: &mut Report, baseline: &Baseline)
    ensures
        final(report)@ == old(report)@.map_values(|v: ViolationView| mark(v, baseline@)),
{
    let mut marked: Vec<Violation> = Vec::new();
    let mut i: usize = 0;
    let ghost orig = report@;
    while i < report.violations.len()
        invariant
            i <= report.violations.len(),
            report@ == orig,
            violation_views(marked@) == orig.take(i as int).map_values(
                |v: ViolationView| mark(v, baseline@),
            ),
        decreases report.violations.len() - i,
    {
        let v = &report.violations[i];
        let hit = baseline.contains(v);
        let copy = Violation {
            kind: v.kind,
            target: owned(v.target.as_str()),
            rule: owned(v.rule.as_str()),
            finding: owned(v.finding.as_str()),
            reason: owned(v.reason.as_str()),
            severity: v.severity,
            baselined: v.baselined || hit,
        };
        let ghost before = violation_views(marked@);
        marked.push(copy);
        assert(violation_views(marked@) =~= before.push(mark(orig[i as int], baseline@)));
        assert(orig.take(i + 1).map_values(|v: ViolationView| mark(v, baseline@)) =~= orig.take(
            i as int,
        ).map_values(|v: ViolationView| mark(v, baseline@)).push(mark(orig[i as int], baseline@)));
        i += 1;
    }
    assert(orig.take(i as int) =~= orig);
    report.violations = marked;
}


/// A run whose every violation the baseline records exits `0`: a fully baselined
/// run does not fail.
pub proof fn a_fully_baselined_run_does_not_fail(vs: Seq<ViolationView>, entries: Seq<IdView>)
    requires
        forall|i: int| 0 <= i < vs.len() ==> entries.contains(#[trigger] vs[i].id()),
    ensures
        OutcomeView::Violations(vs.map_values(|v: ViolationView| mark(v, entries))).exit_code()
            == 0,
{
    let marked = vs.map_values(|v: ViolationView| mark(v, entries));
    assert forall|i: int| 0 <= i < marked.len() implies !(#[trigger] marked[i]).fails() by {
        assert(entries.contains(vs[i].id()));
    }
    assert(!any_fails(marked));
}

/// Gating against a baseline never raises a run's exit code.
pub proof fn a_baseline_never_raises_the_exit_code(vs: Seq<ViolationView>, entries: Seq<IdView>)
    ensures
        OutcomeView::Violations(vs.map_values(|v: ViolationView| mark(v, entries))).exit_code()
            <= OutcomeView::Violations(vs).exit_code(),
{
    let marked = vs.map_values(|v: ViolationView| mark(v, entries));
    if any_fails(marked) {
        let i = choose|i: int| 0 <= i < marked.len() && #[trigger] marked[i].fails();
        assert(vs[i].fails());
        assert(any_fails(vs));
    }
}

/// An enforced violation that is not baselined and that the baseline does not
/// record still fails the run: a baseline suppresses only what it records.
pub proof fn a_new_enforced_violation_still_fails(
    vs: Seq<ViolationView>,
    entries: Seq<IdView>,
    i: int,
)
    requires
        0 <= i < vs.len(),
        vs[i].severity == Severity::Enforce,
        !vs[i].baselined,
        !entries.contains(vs[i].id()),
    ensures
        OutcomeView::Violations(vs.map_values(|v: ViolationView| mark(v, entries))).exit_code()
            == 1,
{
    let marked = vs.map_values(|v: ViolationView| mark(v, entries));
    assert(marked[i].fails());
}

/// A baseline whose entries all match current violations has no stale entry; in
/// particular a baseline taken of a report has none against that report.
pub proof fn a_fresh_baseline_has_no_stale_entries(entries: Seq<IdView>, vs: Seq<ViolationView>)
    requires
        forall|e: IdView| #[trigger] entries.contains(e) ==> report_ids(vs).contains(e),
    ensures
        stale_of(entries, vs).len() == 0,
    decreases entries.len(),
{
    if entries.len() > 0 {
        assert forall|e: IdView| #[trigger] entries.drop_last().contains(e) implies report_ids(
            vs,
        ).contains(e) by {
            let k = choose|k: int| 0 <= k < entries.drop_last().len() && entries.drop_last()[k] == e;
            assert(entries[k] == e);
            assert(entries.contains(e));
        }
        a_fresh_baseline_has_no_stale_entries(entries.drop_last(), vs);
        assert(entries.contains(entries.last()));
    }
}

/// Every stale entry is an entry of the baseline that matches no current violation.
pub proof fn stale_entries_are_unmatched_entries(entries: Seq<IdView>, vs: Seq<ViolationView>)
    ensures
        forall|e: IdView| #[trigger] stale_of(entries, vs).contains(e) <==> (entries.contains(e)
            && !report_ids(vs).contains(e)),
    decreases entries.len(),
{
    if entries.len() > 0 {
        stale_entries_are_unmatched_entries(entries.drop_last(), vs);
        let rest = stale_of(entries.drop_last(), vs);
        assert forall|e: IdView| #[trigger] stale_of(entries, vs).contains(e) <==> (
        entries.contains(e) && !report_ids(vs).contains(e)) by {
            let init = entries.drop_last();
            if entries.contains(e) {
                let k = choose|k: int| 0 <= k < entries.len() && entries[k] == e;
                if k < init.len() {
                    assert(init[k] == e);
                }
            }
            if init.contains(e) {
                let k = choose|k: int| 0 <= k < init.len() && init[k] == e;
                assert(entries[k] == e);
            }
            assert(entries[entries.len() - 1] == entries.last());
            if !report_ids(vs).contains(entries.last()) {
                let s = rest.push(entries.last());
                if s.contains(e) {
                    let k = choose|k: int| 0 <= k < s.len() && s[k] == e;
                    if k < rest.len() {
                        assert(rest[k] == e);
                    }
                }
                if rest.contains(e) {
                    let k = choose|k: int| 0 <= k < rest.len() && rest[k] == e;
                    assert(s[k] == e);
                }
                assert(s[rest.len() as int] == entries.last());
            }
        }
    }
}


/// A violation's identity leaves out its reason and severity: editing either never
/// turns a recorded violation new.
pub proof fn editing_reason_or_severity_keeps_a_violation_recorded(
    v: ViolationView,
    w: ViolationView,
    entries: Seq<IdView>,
)
    requires
        v.target == w.target,
        v.rule == w.rule,
        v.finding == w.finding,
        v.baselined == w.baselined,
    ensures
        mark(v, entries).baselined == mark(w, entries).baselined,
{
    assert(v.id() == w.id());
}

} // verus!
