//! The order on violation identities — lexicographic on `(target, rule, finding)`,
//! as the derived `Ord` of `ViolationId` orders them — and sorted sets under it.
use vstd::prelude::*;
use crate::report::{IdView, ViolationId};
use crate::text::{
    chars_eq, chars_lt, chars_of, seq_lt, lemma_seq_lt_irreflexive, lemma_seq_lt_total,
    lemma_seq_lt_transitive,
};

verus! {

/// Strict lexicographic order on identities.
pub open spec fn id_lt(a: IdView, b: IdView) -> bool {
    ||| seq_lt(a.target, b.target)
    ||| (a.target == b.target && seq_lt(a.rule, b.rule))
    ||| (a.target == b.target && a.rule == b.rule && seq_lt(a.finding, b.finding))
}

/// Strictly increasing under [`id_lt`], hence without repetitions.
pub open spec fn sorted_ids(s: Seq<IdView>) -> bool {
    forall|i: int, j: int| 0 <= i < j < s.len() ==> id_lt(#[trigger] s[i], #[trigger] s[j])
}

/// The models of a sequence of identities.
pub open spec fn ids(v: Seq<ViolationId>) -> Seq<IdView> {
    v.map_values(|x: ViolationId| x@)
}

pub proof fn lemma_id_lt_irreflexive(a: IdView)
    ensures
        !id_lt(a, a),
{
    lemma_seq_lt_irreflexive(a.target);
    lemma_seq_lt_irreflexive(a.rule);
    lemma_seq_lt_irreflexive(a.finding);
}

pub proof fn lemma_id_lt_total(a: IdView, b: IdView)
    ensures
        a == b || id_lt(a, b) || id_lt(b, a),
{
    lemma_seq_lt_total(a.target, b.target);
    lemma_seq_lt_total(a.rule, b.rule);
    lemma_seq_lt_total(a.finding, b.finding);
}

pub proof fn lemma_id_lt_transitive(a: IdView, b: IdView, c: IdView)
    requires
        id_lt(a, b),
        id_lt(b, c),
    ensures
        id_lt(a, c),
{
    if seq_lt(a.target, b.target) {
        if seq_lt(b.target, c.target) {
            lemma_seq_lt_transitive(a.target, b.target, c.target);
        } else {
            assert(b.target == c.target);
        }
    } else {
        assert(a.target == b.target);
        if seq_lt(b.target, c.target) {
        } else {
            assert(b.target == c.target);
            if seq_lt(a.rule, b.rule) {
                if seq_lt(b.rule, c.rule) {
                    lemma_seq_lt_transitive(a.rule, b.rule, c.rule);
                } else {
                    assert(b.rule == c.rule);
                }
            } else {
                assert(a.rule == b.rule);
                if seq_lt(b.rule, c.rule) {
                } else {
                    assert(b.rule == c.rule);
                    lemma_seq_lt_transitive(a.finding, b.finding, c.finding);
                }
            }
        }
    }
}

/// Two strictly sorted sequences with the same elements are equal.
pub proof fn lemma_sorted_ids_unique(s: Seq<IdView>, t: Seq<IdView>)
    requires
        sorted_ids(s),
        sorted_ids(t),
        forall|x: IdView| #[trigger] s.contains(x) <==> t.contains(x),
    ensures
        s == t,
    decreases s.len(),
{
    if s.len() == 0 {
        if t.len() > 0 {
            assert(t.contains(t[0]));
            assert(s.contains(t[0]));
            assert(false);
        }
        assert(s =~= t);
    } else {
        assert(s.contains(s[0]));
        assert(t.contains(s[0]));
        let j = choose|j: int| 0 <= j < t.len() && t[j] == s[0];
        assert(t.contains(t[0]));
        assert(s.contains(t[0]));
        let i = choose|i: int| 0 <= i < s.len() && s[i] == t[0];
        if j > 0 {
            assert(id_lt(t[0], t[j]));
            if i > 0 {
                assert(id_lt(s[0], s[i]));
                lemma_id_lt_transitive(t[0], s[0], s[i]);
            }
            lemma_id_lt_irreflexive(t[0]);
            assert(false);
        }
        assert(s[0] == t[0]);
        let s1 = s.drop_first();
        let t1 = t.drop_first();
        assert forall|x: IdView| #[trigger] s1.contains(x) <==> t1.contains(x) by {
            if s1.contains(x) {
                let k = choose|k: int| 0 <= k < s1.len() && s1[k] == x;
                assert(s[k + 1] == x);
                assert(s.contains(x));
                assert(t.contains(x));
                let m = choose|m: int| 0 <= m < t.len() && t[m] == x;
                if m == 0 {
                    assert(id_lt(s[0], s[k + 1]));
                    lemma_id_lt_irreflexive(x);
                }
                assert(t1[m - 1] == x);
            }
            if t1.contains(x) {
                let k = choose|k: int| 0 <= k < t1.len() && t1[k] == x;
                assert(t[k + 1] == x);
                assert(t.contains(x));
                assert(s.contains(x));
                let m = choose|m: int| 0 <= m < s.len() && s[m] == x;
                if m == 0 {
                    assert(id_lt(t[0], t[k + 1]));
                    lemma_id_lt_irreflexive(x);
                }
                assert(s1[m - 1] == x);
            }
        }
        assert forall|a: int, b: int| 0 <= a < b < s1.len() implies id_lt(
            #[trigger] s1[a],
            #[trigger] s1[b],
        ) by {
            assert(s1[a] == s[a + 1] && s1[b] == s[b + 1]);
        }
        assert forall|a: int, b: int| 0 <= a < b < t1.len() implies id_lt(
            #[trigger] t1[a],
            #[trigger] t1[b],
        ) by {
            assert(t1[a] == t[a + 1] && t1[b] == t[b + 1]);
        }
        lemma_sorted_ids_unique(s1, t1);
        assert(s =~= seq![s[0]] + s1);
        assert(t =~= seq![t[0]] + t1);
    }
}

/// `t` with `x` inserted in order, unless it is already there.
pub open spec fn insert_in_order(t: Seq<IdView>, x: IdView) -> Seq<IdView>
    decreases t.len(),
{
    if t.len() == 0 {
        seq![x]
    } else if t[0] == x {
        t
    } else if id_lt(x, t[0]) {
        seq![x] + t
    } else {
        seq![t[0]] + insert_in_order(t.drop_first(), x)
    }
}

proof fn lemma_insert_in_order(t: Seq<IdView>, x: IdView)
    requires
        sorted_ids(t),
    ensures
        sorted_ids(insert_in_order(t, x)),
        forall|y: IdView| #[trigger]
            insert_in_order(t, x).contains(y) <==> (t.contains(y) || y == x),
    decreases t.len(),
{
    let r = insert_in_order(t, x);
    if t.len() == 0 {
        assert(r[0] == x);
    } else if t[0] == x {
        assert(t.contains(t[0]));
    } else if id_lt(x, t[0]) {
        assert forall|i: int, j: int| 0 <= i < j < r.len() implies id_lt(
            #[trigger] r[i],
            #[trigger] r[j],
        ) by {
            if i == 0 {
                assert(r[j] == t[j - 1]);
                if j - 1 > 0 {
                    assert(id_lt(t[0], t[j - 1]));
                    lemma_id_lt_transitive(x, t[0], t[j - 1]);
                }
            } else {
                assert(r[i] == t[i - 1] && r[j] == t[j - 1]);
            }
        }
        assert forall|y: IdView| #[trigger] r.contains(y) <==> (t.contains(y) || y == x) by {
            if r.contains(y) {
                let k = choose|k: int| 0 <= k < r.len() && r[k] == y;
                if k > 0 {
                    assert(t[k - 1] == y);
                }
            }
            if t.contains(y) {
                let k = choose|k: int| 0 <= k < t.len() && t[k] == y;
                assert(r[k + 1] == y);
            }
            if y == x {
                assert(r[0] == y);
            }
        }
    } else {
        let rest = t.drop_first();
        assert forall|i: int, j: int| 0 <= i < j < rest.len() implies id_lt(
            #[trigger] rest[i],
            #[trigger] rest[j],
        ) by {
            assert(rest[i] == t[i + 1] && rest[j] == t[j + 1]);
        }
        lemma_insert_in_order(rest, x);
        let ins = insert_in_order(rest, x);
        lemma_id_lt_total(x, t[0]);
        assert(id_lt(t[0], x));
        assert forall|y: IdView| #[trigger] ins.contains(y) implies id_lt(t[0], y) by {
            if rest.contains(y) {
                let k = choose|k: int| 0 <= k < rest.len() && rest[k] == y;
                assert(t[k + 1] == y);
            }
        }
        assert forall|i: int, j: int| 0 <= i < j < r.len() implies id_lt(
            #[trigger] r[i],
            #[trigger] r[j],
        ) by {
            assert(r[j] == ins[j - 1]);
            assert(ins.contains(ins[j - 1]));
            if i > 0 {
                assert(r[i] == ins[i - 1]);
            }
        }
        assert forall|y: IdView| #[trigger] r.contains(y) <==> (t.contains(y) || y == x) by {
            if r.contains(y) {
                let k = choose|k: int| 0 <= k < r.len() && r[k] == y;
                if k > 0 {
                    assert(ins[k - 1] == y);
                    assert(ins.contains(y));
                    if rest.contains(y) {
                        let m = choose|m: int| 0 <= m < rest.len() && rest[m] == y;
                        assert(t[m + 1] == y);
                    }
                }
            }
            if t.contains(y) {
                let k = choose|k: int| 0 <= k < t.len() && t[k] == y;
                if k > 0 {
                    assert(rest[k - 1] == y);
                    assert(rest.contains(y));
                    assert(ins.contains(y));
                    let m = choose|m: int| 0 <= m < ins.len() && ins[m] == y;
                    assert(r[m + 1] == y);
                } else {
                    assert(r[0] == y);
                }
            }
            if y == x {
                assert(ins.contains(x));
                let m = choose|m: int| 0 <= m < ins.len() && ins[m] == x;
                assert(r[m + 1] == x);
            }
        }
    }
}

/// Every sequence of identities has a sorted arrangement of its distinct
/// elements.
pub proof fn lemma_sorted_exists(es: Seq<IdView>)
    ensures
        exists|t: Seq<IdView>|
            sorted_ids(t) && forall|x: IdView| #[trigger] t.contains(x) <==> es.contains(x),
    decreases es.len(),
{
    if es.len() == 0 {
        let t = Seq::<IdView>::empty();
        assert(sorted_ids(t) && forall|x: IdView| #[trigger] t.contains(x) <==> es.contains(x));
    } else {
        lemma_sorted_exists(es.drop_last());
        let init = es.drop_last();
        let s = choose|t: Seq<IdView>|
            sorted_ids(t) && forall|x: IdView| #[trigger] t.contains(x) <==> init.contains(x);
        lemma_insert_in_order(s, es.last());
        let t = insert_in_order(s, es.last());
        assert forall|x: IdView| #[trigger] t.contains(x) <==> es.contains(x) by {
            if es.contains(x) {
                let k = choose|k: int| 0 <= k < es.len() && es[k] == x;
                if k < init.len() {
                    assert(init[k] == x);
                    assert(init.contains(x));
                }
            }
            if init.contains(x) {
                let k = choose|k: int| 0 <= k < init.len() && init[k] == x;
                assert(es[k] == x);
            }
            assert(es[es.len() - 1] == es.last());
        }
        assert(sorted_ids(t) && forall|x: IdView| #[trigger] t.contains(x) <==> es.contains(x));
    }
}

/// Whether `a` precedes `b`.
pub fn id_less(a: &ViolationId, b: &ViolationId) -> (r: bool)
    ensures
        r == id_lt(a@, b@),
{
    let at = chars_of(a.target.as_str());
    let bt = chars_of(b.target.as_str());
    if chars_lt(&at, &bt) {
        return true;
    }
    if !chars_eq(&at, &bt) {
        return false;
    }
    let ar = chars_of(a.rule.as_str());
    let br = chars_of(b.rule.as_str());
    if chars_lt(&ar, &br) {
        return true;
    }
    if !chars_eq(&ar, &br) {
        return false;
    }
    let af = chars_of(a.finding.as_str());
    let bf = chars_of(b.finding.as_str());
    chars_lt(&af, &bf)
}

/// Whether `a` and `b` are the same identity.
pub fn id_same(a: &ViolationId, b: &ViolationId) -> (r: bool)
    ensures
        r == (a@ == b@),
{
    let at = chars_of(a.target.as_str());
    let bt = chars_of(b.target.as_str());
    let ar = chars_of(a.rule.as_str());
    let br = chars_of(b.rule.as_str());
    let af = chars_of(a.finding.as_str());
    let bf = chars_of(b.finding.as_str());
    chars_eq(&at, &bt) && chars_eq(&ar, &br) && chars_eq(&af, &bf)
}

/// Inserts `x` into the strictly sorted `v`, unless an equal identity is there.
pub fn insert_id(v: &mut Vec<ViolationId>, x: ViolationId)
    requires
        sorted_ids(ids(old(v)@)),
    ensures
        sorted_ids(ids(final(v)@)),
        forall|y: IdView| #[trigger]
            ids(final(v)@).contains(y) <==> ids(old(v)@).contains(y) || y == x@,
{
    let ghost old_v = ids(v@);
    let mut p: usize = 0;
    while p < v.len() && id_less(&v[p], &x)
        invariant
            p <= v.len(),
            ids(v@) == old_v,
            forall|i: int| 0 <= i < p ==> id_lt(#[trigger] old_v[i], x@),
        decreases v.len() - p,
    {
        p += 1;
    }
    if p < v.len() && id_same(&v[p], &x) {
        assert(old_v[p as int] == x@);
        assert(old_v.contains(x@));
        return;
    }
    proof {
        if p < v.len() {
            lemma_id_lt_total(old_v[p as int], x@);
        }
    }
    let ghost xv = x@;
    v.insert(p, x);
    let ghost nv = ids(v@);
    assert(nv =~= old_v.insert(p as int, xv));
    assert forall|i: int, j: int| 0 <= i < j < nv.len() implies id_lt(
        #[trigger] nv[i],
        #[trigger] nv[j],
    ) by {
        if j < p {
            assert(nv[i] == old_v[i] && nv[j] == old_v[j]);
        } else if j == p {
            assert(nv[i] == old_v[i]);
        } else if i < p {
            assert(nv[j] == old_v[j - 1]);
            if j - 1 > p as int {
                assert(id_lt(old_v[p as int], old_v[j - 1]));
                lemma_id_lt_transitive(xv, old_v[p as int], old_v[j - 1]);
            }
            lemma_id_lt_transitive(old_v[i], xv, old_v[j - 1]);
        } else if i == p {
            assert(nv[j] == old_v[j - 1]);
            if j - 1 > p as int {
                assert(id_lt(old_v[p as int], old_v[j - 1]));
                lemma_id_lt_transitive(xv, old_v[p as int], old_v[j - 1]);
            }
        } else {
            assert(nv[i] == old_v[i - 1] && nv[j] == old_v[j - 1]);
        }
    }
    assert forall|y: IdView| #[trigger] nv.contains(y) <==> old_v.contains(y) || y == xv by {
        if nv.contains(y) {
            let k = choose|k: int| 0 <= k < nv.len() && nv[k] == y;
            if k < p {
                assert(old_v[k] == y);
            } else if k > p {
                assert(old_v[k - 1] == y);
            }
        }
        if old_v.contains(y) {
            let k = choose|k: int| 0 <= k < old_v.len() && old_v[k] == y;
            if k < p {
                assert(nv[k] == y);
            } else {
                assert(nv[k + 1] == y);
            }
        }
        if y == xv {
            assert(nv[p as int] == y);
        }
    }
}

} // verus!
