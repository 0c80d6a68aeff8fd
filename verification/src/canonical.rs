//! The canonical form of a JSON document: every object's members sorted by key,
//! at every depth, so that two documents that differ only in key order agree.
use vstd::prelude::*;
use crate::json::JsonV;
use crate::order::{
    key_before, lemma_key_before_asymmetric, lemma_key_before_irreflexive,
    lemma_key_before_total, lemma_key_before_transitive,
};

verus! {

/// One member of an object in the model: its key and its value.
pub type MemberV = (Seq<char>, JsonV);

/// Inserts `m` before the first member whose key sorts after `m`'s key.
pub open spec fn insert_member(sorted: Seq<MemberV>, m: MemberV) -> Seq<MemberV>
    decreases sorted.len(),
{
    if sorted.len() == 0 {
        seq![m]
    } else if key_before(m.0, sorted[0].0) {
        seq![m] + sorted
    } else {
        seq![sorted[0]] + insert_member(sorted.drop_first(), m)
    }
}

/// Insertion sort of the members by key, taking them in their given order.
pub open spec fn sort_members(members: Seq<MemberV>) -> Seq<MemberV>
    decreases members.len(),
{
    if members.len() == 0 {
        members
    } else {
        insert_member(sort_members(members.drop_last()), members.last())
    }
}

/// The canonical form: arrays keep their order, objects are sorted by key,
/// and every value inside is put in canonical form too.
pub open spec fn canonical_form(v: JsonV) -> JsonV
    decreases v, 1int,
{
    match v {
        JsonV::Array(items) => JsonV::Array(canonical_items(items)),
        JsonV::Object(members) => JsonV::Object(sort_members(canonical_members(members))),
        _ => v,
    }
}

/// The items of an array, each put in canonical form.
pub open spec fn canonical_items(items: Seq<JsonV>) -> Seq<JsonV>
    decreases items, 0int,
{
    Seq::new(
        items.len(),
        |i: int|
            if 0 <= i < items.len() {
                canonical_form(items[i])
            } else {
                JsonV::Null
            },
    )
}

/// The members of an object with each value put in canonical form, before sorting.
pub open spec fn canonical_members(members: Seq<MemberV>) -> Seq<MemberV>
    decreases members, 0int,
{
    Seq::new(
        members.len(),
        |i: int|
            if 0 <= i < members.len() {
                (members[i].0, canonical_form(members[i].1))
            } else {
                (Seq::empty(), JsonV::Null)
            },
    )
}

/// Keys strictly increase along `members`.
pub open spec fn keys_increasing(members: Seq<MemberV>) -> bool {
    forall|i: int, j: int|
        0 <= i < j < members.len() ==> key_before(
            (#[trigger] members[i]).0,
            (#[trigger] members[j]).0,
        )
}

/// No key occurs twice in `members`.
pub open spec fn keys_distinct(members: Seq<MemberV>) -> bool {
    forall|i: int, j: int|
        0 <= i < j < members.len() ==> (#[trigger] members[i]).0 != (#[trigger] members[j]).0
}

/// Every object, at every depth, lists its members in increasing key order.
pub open spec fn is_canonical(v: JsonV) -> bool
    decreases v,
{
    match v {
        JsonV::Array(items) => forall|i: int|
            0 <= i < items.len() ==> is_canonical(#[trigger] items[i]),
        JsonV::Object(members) => {
            &&& keys_increasing(members)
            &&& forall|i: int| 0 <= i < members.len() ==> is_canonical((#[trigger] members[i]).1)
        },
        _ => true,
    }
}

/// `a` and `b` hold the same data: arrays agree item by item, and objects hold
/// the same keys with the same values, in whatever order.
pub open spec fn same_up_to_key_order(a: JsonV, b: JsonV) -> bool
    decreases a,
{
    match a {
        JsonV::Array(x) => match b {
            JsonV::Array(y) => x.len() == y.len() && forall|i: int|
                0 <= i < x.len() ==> same_up_to_key_order(#[trigger] x[i], y[i]),
            _ => false,
        },
        JsonV::Object(x) => match b {
            JsonV::Object(y) => {
                &&& forall|i: int| 0 <= i < x.len() ==> member_found_in(#[trigger] x[i], y)
                &&& forall|j: int| 0 <= j < y.len() ==> member_found_from(x, #[trigger] y[j])
            },
            _ => false,
        },
        _ => a == b,
    }
}

/// Some member of `y` has `m`'s key and the same data as `m`'s value.
pub open spec fn member_found_in(m: MemberV, y: Seq<MemberV>) -> bool
    decreases m,
{
    exists|j: int|
        0 <= j < y.len() && (#[trigger] y[j]).0 == m.0 && same_up_to_key_order(m.1, y[j].1)
}

/// Some member of `x` has `m`'s key and the same data as `m`'s value.
pub open spec fn member_found_from(x: Seq<MemberV>, m: MemberV) -> bool
    decreases x,
{
    exists|i: int|
        0 <= i < x.len() && (#[trigger] x[i]).0 == m.0 && same_up_to_key_order(x[i].1, m.1)
}

} // verus!

verus! {

proof fn lemma_insert_member_contents(s: Seq<MemberV>, m: MemberV)
    ensures
        insert_member(s, m).len() == s.len() + 1,
        forall|e: MemberV| #[trigger]
            insert_member(s, m).contains(e) <==> (s.contains(e) || e == m),
    decreases s.len(),
{
    if s.len() == 0 {
        assert forall|e: MemberV| #[trigger]
            insert_member(s, m).contains(e) <==> (s.contains(e) || e == m) by {
            assert(seq![m][0] == m);
        }
    } else if key_before(m.0, s[0].0) {
        assert forall|e: MemberV| #[trigger]
            insert_member(s, m).contains(e) <==> (s.contains(e) || e == m) by {
            let r = seq![m] + s;
            assert(insert_member(s, m) == r);
            assert(r[0] == m);
            if s.contains(e) {
                let k: int = choose|k: int| 0 <= k < s.len() && s[k] == e;
                assert(r[k + 1] == e);
            }
            if r.contains(e) {
                let k: int = choose|k: int| 0 <= k < r.len() && r[k] == e;
                if k > 0 {
                    assert(s[k - 1] == e);
                }
            }
        }
    } else {
        let t = s.drop_first();
        lemma_insert_member_contents(t, m);
        let r = seq![s[0]] + insert_member(t, m);
        assert forall|e: MemberV| #[trigger]
            insert_member(s, m).contains(e) <==> (s.contains(e) || e == m) by {
            if s.contains(e) {
                let k: int = choose|k: int| 0 <= k < s.len() && s[k] == e;
                if k == 0 {
                    assert(r[0] == e);
                } else {
                    assert(t[k - 1] == e);
                    assert(insert_member(t, m).contains(e));
                    let q: int = choose|q: int| 0 <= q < insert_member(t, m).len() && insert_member(t, m)[q] == e;
                    assert(r[q + 1] == e);
                }
            }
            if e == m {
                assert(insert_member(t, m).contains(e));
                let q: int = choose|q: int| 0 <= q < insert_member(t, m).len() && insert_member(t, m)[q] == e;
                assert(r[q + 1] == e);
            }
            if r.contains(e) {
                let k: int = choose|k: int| 0 <= k < r.len() && r[k] == e;
                if k == 0 {
                    assert(s[0] == e);
                } else {
                    assert(insert_member(t, m)[k - 1] == e);
                    assert(insert_member(t, m).contains(e));
                    if t.contains(e) {
                        let q: int = choose|q: int| 0 <= q < t.len() && t[q] == e;
                        assert(s[q + 1] == e);
                    }
                }
            }
        }
    }
}

proof fn lemma_sort_members_contents(ms: Seq<MemberV>)
    ensures
        sort_members(ms).len() == ms.len(),
        forall|e: MemberV| #[trigger] sort_members(ms).contains(e) <==> ms.contains(e),
    decreases ms.len(),
{
    if ms.len() > 0 {
        let init = ms.drop_last();
        lemma_sort_members_contents(init);
        lemma_insert_member_contents(sort_members(init), ms.last());
        assert forall|e: MemberV| #[trigger] sort_members(ms).contains(e) <==> ms.contains(e) by {
            if ms.contains(e) {
                let k: int = choose|k: int| 0 <= k < ms.len() && ms[k] == e;
                if k < ms.len() - 1 {
                    assert(init[k] == e);
                    assert(init.contains(e));
                }
            }
            if init.contains(e) {
                let k: int = choose|k: int| 0 <= k < init.len() && init[k] == e;
                assert(ms[k] == e);
            }
        }
    }
}

proof fn lemma_insert_member_increasing(s: Seq<MemberV>, m: MemberV)
    requires
        keys_increasing(s),
        forall|i: int| 0 <= i < s.len() ==> (#[trigger] s[i]).0 != m.0,
    ensures
        keys_increasing(insert_member(s, m)),
    decreases s.len(),
{
    if s.len() == 0 {
    } else if key_before(m.0, s[0].0) {
        let r = seq![m] + s;
        assert forall|i: int, j: int| 0 <= i < j < r.len() implies key_before(
            (#[trigger] r[i]).0,
            (#[trigger] r[j]).0,
        ) by {
            if i == 0 {
                if j > 1 {
                    assert(key_before(s[0].0, s[j - 1].0));
                    lemma_key_before_transitive(m.0, s[0].0, s[j - 1].0);
                }
            } else {
                assert(key_before(s[i - 1].0, s[j - 1].0));
            }
        }
    } else {
        let t = s.drop_first();
        assert(s[0].0 != m.0);
        lemma_key_before_total(m.0, s[0].0);
        assert forall|i: int, j: int| 0 <= i < j < t.len() implies key_before(
            (#[trigger] t[i]).0,
            (#[trigger] t[j]).0,
        ) by {
            assert(key_before(s[i + 1].0, s[j + 1].0));
        }
        assert forall|i: int| 0 <= i < t.len() implies (#[trigger] t[i]).0 != m.0 by {
            assert(s[i + 1].0 != m.0);
        }
        lemma_insert_member_increasing(t, m);
        lemma_insert_member_contents(t, m);
        let it = insert_member(t, m);
        let r = seq![s[0]] + it;
        assert forall|i: int, j: int| 0 <= i < j < r.len() implies key_before(
            (#[trigger] r[i]).0,
            (#[trigger] r[j]).0,
        ) by {
            if i == 0 {
                let e = it[j - 1];
                assert(it.contains(e));
                if e != m {
                    assert(t.contains(e));
                    let q: int = choose|q: int| 0 <= q < t.len() && t[q] == e;
                    assert(key_before(s[0].0, s[q + 1].0));
                }
            } else {
                assert(key_before(it[i - 1].0, it[j - 1].0));
            }
        }
    }
}

proof fn lemma_sort_members_increasing(ms: Seq<MemberV>)
    requires
        keys_distinct(ms),
    ensures
        keys_increasing(sort_members(ms)),
    decreases ms.len(),
{
    if ms.len() > 0 {
        let init = ms.drop_last();
        assert forall|i: int, j: int| 0 <= i < j < init.len() implies (#[trigger] init[i]).0
            != (#[trigger] init[j]).0 by {
            assert(ms[i].0 != ms[j].0);
        }
        lemma_sort_members_increasing(init);
        lemma_sort_members_contents(init);
        let si = sort_members(init);
        assert forall|i: int| 0 <= i < si.len() implies (#[trigger] si[i]).0 != ms.last().0 by {
            assert(si.contains(si[i]));
            assert(init.contains(si[i]));
            let q: int = choose|q: int| 0 <= q < init.len() && init[q] == si[i];
            assert(ms[q].0 != ms[ms.len() - 1].0);
        }
        lemma_insert_member_increasing(si, ms.last());
    }
}

/// Two lists with increasing keys that hold the same members are the same list.
proof fn lemma_increasing_unique(s1: Seq<MemberV>, s2: Seq<MemberV>)
    requires
        keys_increasing(s1),
        keys_increasing(s2),
        forall|e: MemberV| s1.contains(e) <==> s2.contains(e),
    ensures
        s1 == s2,
    decreases s1.len(),
{
    if s1.len() == 0 {
        if s2.len() > 0 {
            assert(s2.contains(s2[0]));
        }
        assert(s1 =~= s2);
    } else {
        assert(s1.contains(s1[0]));
        assert(s2.len() > 0);
        assert(s2.contains(s2[0]));
        let j: int = choose|j: int| 0 <= j < s2.len() && s2[j] == s1[0];
        let k: int = choose|k: int| 0 <= k < s1.len() && s1[k] == s2[0];
        if j > 0 {
            assert(key_before(s2[0].0, s2[j].0));
            if k > 0 {
                assert(key_before(s1[0].0, s1[k].0));
                lemma_key_before_asymmetric(s1[0].0, s2[0].0);
            } else {
                lemma_key_before_irreflexive(s2[0].0);
            }
        }
        assert(s1[0] == s2[0]);
        let t1 = s1.drop_first();
        let t2 = s2.drop_first();
        assert forall|i: int, j: int| 0 <= i < j < t1.len() implies key_before(
            (#[trigger] t1[i]).0,
            (#[trigger] t1[j]).0,
        ) by {
            assert(key_before(s1[i + 1].0, s1[j + 1].0));
        }
        assert forall|i: int, j: int| 0 <= i < j < t2.len() implies key_before(
            (#[trigger] t2[i]).0,
            (#[trigger] t2[j]).0,
        ) by {
            assert(key_before(s2[i + 1].0, s2[j + 1].0));
        }
        assert forall|e: MemberV| t1.contains(e) <==> t2.contains(e) by {
            if t1.contains(e) {
                let q: int = choose|q: int| 0 <= q < t1.len() && t1[q] == e;
                assert(s1[q + 1] == e);
                assert(s1.contains(e));
                assert(key_before(s1[0].0, s1[q + 1].0));
                lemma_key_before_irreflexive(e.0);
                let p: int = choose|p: int| 0 <= p < s2.len() && s2[p] == e;
                assert(p > 0);
                assert(t2[p - 1] == e);
            }
            if t2.contains(e) {
                let q: int = choose|q: int| 0 <= q < t2.len() && t2[q] == e;
                assert(s2[q + 1] == e);
                assert(s2.contains(e));
                assert(key_before(s2[0].0, s2[q + 1].0));
                lemma_key_before_irreflexive(e.0);
                let p: int = choose|p: int| 0 <= p < s1.len() && s1[p] == e;
                assert(p > 0);
                assert(t1[p - 1] == e);
            }
        }
        lemma_increasing_unique(t1, t2);
        assert(s1 =~= seq![s1[0]] + t1);
        assert(s2 =~= seq![s2[0]] + t2);
    }
}

} // verus!

verus! {

proof fn lemma_increasing_distinct(members: Seq<MemberV>)
    requires
        keys_increasing(members),
    ensures
        keys_distinct(members),
{
    assert forall|i: int, j: int| 0 <= i < j < members.len() implies (#[trigger] members[i]).0
        != (#[trigger] members[j]).0 by {
        lemma_key_before_asymmetric(members[i].0, members[j].0);
    }
}

/// A canonical value is well formed: its keys are increasing, hence distinct.
pub proof fn lemma_canonical_wf(v: JsonV)
    requires
        is_canonical(v),
    ensures
        v.wf(),
    decreases v,
{
    match v {
        JsonV::Array(items) => {
            assert forall|i: int| 0 <= i < items.len() implies (#[trigger] items[i]).wf() by {
                lemma_canonical_wf(items[i]);
            }
        },
        JsonV::Object(members) => {
            lemma_increasing_distinct(members);
            assert forall|i: int| 0 <= i < members.len() implies (
            #[trigger] members[i]).1.wf() by {
                lemma_canonical_wf(members[i].1);
            }
        },
        _ => {},
    }
}

proof fn lemma_canonical_items_props(items: Seq<JsonV>)
    requires
        forall|i: int| 0 <= i < items.len() ==> (#[trigger] items[i]).wf(),
    ensures
        is_canonical(JsonV::Array(canonical_items(items))),
        same_up_to_key_order(JsonV::Array(items), JsonV::Array(canonical_items(items))),
    decreases items,
{
    let citems = canonical_items(items);
    assert(citems.len() == items.len());
    assert forall|i: int| 0 <= i < items.len() implies is_canonical(#[trigger] citems[i])
        && same_up_to_key_order(items[i], citems[i]) by {
        lemma_canonical_form_props(items[i]);
    }
}

proof fn lemma_canonical_members_props(members: Seq<MemberV>)
    requires
        keys_distinct(members),
        forall|i: int| 0 <= i < members.len() ==> (#[trigger] members[i]).1.wf(),
    ensures
        is_canonical(JsonV::Object(sort_members(canonical_members(members)))),
        same_up_to_key_order(
            JsonV::Object(members),
            JsonV::Object(sort_members(canonical_members(members))),
        ),
    decreases members,
{
    let cm = canonical_members(members);
    let sorted = sort_members(cm);
    assert forall|i: int| 0 <= i < members.len() implies is_canonical(
        canonical_form(members[i].1),
    ) && same_up_to_key_order(members[i].1, canonical_form(members[i].1)) by {
        assert(members[i].1.wf());
        lemma_canonical_form_props(members[i].1);
    }
    assert forall|i: int, j: int| 0 <= i < j < cm.len() implies (#[trigger] cm[i]).0
        != (#[trigger] cm[j]).0 by {
        assert(members[i].0 != members[j].0);
    }
    lemma_sort_members_increasing(cm);
    lemma_sort_members_contents(cm);
    assert forall|j: int| 0 <= j < sorted.len() implies is_canonical(
        (#[trigger] sorted[j]).1,
    ) by {
        assert(sorted.contains(sorted[j]));
        assert(cm.contains(sorted[j]));
        let i: int = choose|i: int| 0 <= i < cm.len() && cm[i] == sorted[j];
        assert(cm[i].1 == canonical_form(members[i].1));
    }
    assert forall|i: int| 0 <= i < members.len() implies member_found_in(
        #[trigger] members[i],
        sorted,
    ) by {
        assert(cm[i] == (members[i].0, canonical_form(members[i].1)));
        assert(cm.contains(cm[i]));
        assert(sorted.contains(cm[i]));
        let j: int = choose|j: int| 0 <= j < sorted.len() && sorted[j] == cm[i];
        assert(sorted[j].0 == members[i].0);
    }
    assert forall|j: int| 0 <= j < sorted.len() implies member_found_from(
        members,
        #[trigger] sorted[j],
    ) by {
        assert(sorted.contains(sorted[j]));
        assert(cm.contains(sorted[j]));
        let i: int = choose|i: int| 0 <= i < cm.len() && cm[i] == sorted[j];
        assert(cm[i] == (members[i].0, canonical_form(members[i].1)));
        assert(members[i].0 == sorted[j].0);
    }
    assert(same_up_to_key_order(JsonV::Object(members), JsonV::Object(sorted)));
}

pub proof fn lemma_canonical_form_props(v: JsonV)
    requires
        v.wf(),
    ensures
        is_canonical(canonical_form(v)),
        same_up_to_key_order(v, canonical_form(v)),
    decreases v,
{
    match v {
        JsonV::Array(items) => {
            lemma_canonical_items_props(items);
            assert(canonical_form(v) == JsonV::Array(canonical_items(items)));
        },
        JsonV::Object(members) => {
            assert(keys_distinct(members));
            lemma_canonical_members_props(members);
            assert(canonical_form(v) == JsonV::Object(sort_members(canonical_members(members))));
        },
        _ => {},
    }
}

pub proof fn lemma_canonical_form_respects(a: JsonV, b: JsonV)
    requires
        a.wf(),
        b.wf(),
        same_up_to_key_order(a, b),
    ensures
        canonical_form(a) == canonical_form(b),
    decreases a,
{
    match a {
        JsonV::Array(x) => {
            if let JsonV::Array(y) = b {
                assert forall|i: int| 0 <= i < x.len() implies canonical_form(x[i]) == canonical_form(
                    y[i],
                ) by {
                    lemma_canonical_form_respects(x[i], y[i]);
                }
                if let JsonV::Array(cx) = canonical_form(a) {
                    if let JsonV::Array(cy) = canonical_form(b) {
                        assert(cx =~= cy);
                    }
                }
            }
        },
        JsonV::Object(x) => {
            if let JsonV::Object(y) = b {
                let cx = canonical_members(x);
                let cy = canonical_members(y);
                assert forall|e: MemberV| cx.contains(e) <==> cy.contains(e) by {
                    if cx.contains(e) {
                        let i: int = choose|i: int| 0 <= i < cx.len() && cx[i] == e;
                        assert(cx[i] == (x[i].0, canonical_form(x[i].1)));
                        assert(member_found_in(x[i], y));
                        let j: int = choose|j: int|
                            0 <= j < y.len() && y[j].0 == x[i].0 && same_up_to_key_order(
                                x[i].1,
                                y[j].1,
                            );
                        lemma_canonical_form_respects(x[i].1, y[j].1);
                        assert(cy[j] == (y[j].0, canonical_form(y[j].1)));
                        assert(cy[j] == e);
                    }
                    if cy.contains(e) {
                        let j: int = choose|j: int| 0 <= j < cy.len() && cy[j] == e;
                        assert(cy[j] == (y[j].0, canonical_form(y[j].1)));
                        assert(member_found_from(x, y[j]));
                        let i: int = choose|i: int|
                            0 <= i < x.len() && x[i].0 == y[j].0 && same_up_to_key_order(
                                x[i].1,
                                y[j].1,
                            );
                        lemma_canonical_form_respects(x[i].1, y[j].1);
                        assert(cx[i] == (x[i].0, canonical_form(x[i].1)));
                        assert(cx[i] == e);
                    }
                }
                assert forall|i: int, j: int| 0 <= i < j < cx.len() implies (#[trigger] cx[i]).0
                    != (#[trigger] cx[j]).0 by {
                    assert(x[i].0 != x[j].0);
                }
                assert forall|i: int, j: int| 0 <= i < j < cy.len() implies (#[trigger] cy[i]).0
                    != (#[trigger] cy[j]).0 by {
                    assert(y[i].0 != y[j].0);
                }
                lemma_sort_members_increasing(cx);
                lemma_sort_members_contents(cx);
                lemma_sort_members_increasing(cy);
                lemma_sort_members_contents(cy);
                lemma_increasing_unique(sort_members(cx), sort_members(cy));
            }
        },
        _ => {},
    }
}

pub proof fn lemma_canonical_fixed(v: JsonV)
    requires
        is_canonical(v),
    ensures
        canonical_form(v) == v,
    decreases v,
{
    match v {
        JsonV::Array(items) => {
            assert forall|i: int| 0 <= i < items.len() implies canonical_form(items[i])
                == items[i] by {
                lemma_canonical_fixed(items[i]);
            }
            if let JsonV::Array(c) = canonical_form(v) {
                assert(c =~= items);
            }
        },
        JsonV::Object(members) => {
            let cm = canonical_members(members);
            assert forall|i: int| 0 <= i < members.len() implies canonical_form(members[i].1)
                == members[i].1 by {
                lemma_canonical_fixed(members[i].1);
            }
            assert(cm =~= members);
            lemma_increasing_distinct(members);
            lemma_sort_members_increasing(members);
            lemma_sort_members_contents(members);
            lemma_increasing_unique(sort_members(members), members);
        },
        _ => {},
    }
}

} // verus!

