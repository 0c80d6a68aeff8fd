//! Putting JSON values in canonical form.
use vstd::prelude::*;
use crate::canonical::{
    canonical_form, canonical_items, canonical_members, insert_member, is_canonical,
    lemma_canonical_form_props, same_up_to_key_order, sort_members, MemberV,
};
use crate::json::{items_view, members_view, Json};
use crate::order::{key_before, key_less};

verus! {

proof fn lemma_insert_member_at(s: Seq<MemberV>, m: MemberV, p: int)
    requires
        0 <= p <= s.len(),
        forall|k: int| 0 <= k < p ==> !key_before(m.0, (#[trigger] s[k]).0),
        p < s.len() ==> key_before(m.0, s[p].0),
    ensures
        insert_member(s, m) == s.insert(p, m),
    decreases s.len(),
{
    if s.len() == 0 {
        assert(s.insert(p, m) =~= seq![m]);
    } else if p == 0 {
        assert(s.insert(p, m) =~= seq![m] + s);
    } else {
        let t = s.drop_first();
        assert(!key_before(m.0, s[0].0));
        assert forall|k: int| 0 <= k < p - 1 implies !key_before(m.0, (#[trigger] t[k]).0) by {
            assert(t[k] == s[k + 1]);
        }
        lemma_insert_member_at(t, m, p - 1);
        assert(s.insert(p, m) =~= seq![s[0]] + t.insert(p - 1, m));
    }
}

/// Inserts `member` into `sorted` before the first member whose key sorts after its key.
fn insert_sorted(sorted: &mut Vec<(String, Json)>, member: (String, Json))
    ensures
        members_view(final(sorted)@) == insert_member(
            members_view(old(sorted)@),
            (member.0@, member.1@),
        ),
{
    let ghost s = members_view(sorted@);
    let ghost m = (member.0@, member.1@);
    let mut p: usize = 0;
    let mut found = false;
    while !found && p < sorted.len()
        invariant
            p <= sorted@.len(),
            s == members_view(sorted@),
            m == (member.0@, member.1@),
            forall|k: int| 0 <= k < p ==> !key_before(m.0, (#[trigger] s[k]).0),
            found ==> p < sorted@.len() && key_before(m.0, s[p as int].0),
        decreases sorted@.len() - p + (if found { 0int } else { 1int }),
    {
        assert(s[p as int] == (sorted@[p as int].0@, sorted@[p as int].1@));
        if key_less(member.0.as_str(), sorted[p].0.as_str()) {
            found = true;
        } else {
            p = p + 1;
        }
    }
    proof {
        lemma_insert_member_at(s, m, p as int);
    }
    sorted.insert(p, member);
    proof {
        assert(members_view(sorted@) =~= s.insert(p as int, m));
    }
}

/// Puts a JSON value in canonical form: the members of every object are sorted
/// by key, at every depth; everything else is kept as it is.
#[verifier::loop_isolation(false)]
pub fn canonicalize(value: &Json) -> (r: Json)
    ensures
        r@ == canonical_form(value@),
        value@.wf() ==> is_canonical(r@) && same_up_to_key_order(value@, r@),
    decreases value,
{
    proof {
        if value@.wf() {
            lemma_canonical_form_props(value@);
        }
    }
    match value {
        Json::Null => Json::Null,
        Json::Bool(b) => Json::Bool(*b),
        Json::Number(t) => Json::Number(t.clone()),
        Json::Str(s) => Json::Str(s.clone()),
        Json::Array(items) => {
            let ghost iv = items_view(items@);
            let mut out: Vec<Json> = Vec::new();
            let mut i: usize = 0;
            while i < items.len()
                invariant
                    i <= items@.len(),
                    iv == items_view(items@),
                    out@.len() == i,
                    forall|k: int| 0 <= k < i ==> (#[trigger] out@[k])@ == canonical_form(iv[k]),
                decreases items@.len() - i,
            {
                proof {
                    assert(decreases_to!(items => items@[i as int]));
                }
                let c = canonicalize(&items[i]);
                out.push(c);
                i = i + 1;
            }
            proof {
                assert(items_view(out@) =~= canonical_items(iv));
            }
            Json::Array(out)
        },
        Json::Object(members) => {
            let ghost mv = members_view(members@);
            let ghost cm = canonical_members(mv);
            let mut sorted: Vec<(String, Json)> = Vec::new();
            let mut i: usize = 0;
            proof {
                assert(cm.take(0) =~= Seq::<MemberV>::empty());
                assert(members_view(sorted@) =~= sort_members(cm.take(0)));
            }
            while i < members.len()
                invariant
                    i <= members@.len(),
                    mv == members_view(members@),
                    cm == canonical_members(mv),
                    members_view(sorted@) == sort_members(cm.take(i as int)),
                decreases members@.len() - i,
            {
                proof {
                    assert(decreases_to!(members => members@[i as int]));
                }
                let c = canonicalize(&members[i].1);
                let k = members[i].0.clone();
                insert_sorted(&mut sorted, (k, c));
                proof {
                    assert(cm.take(i + 1).drop_last() =~= cm.take(i as int));
                    assert(cm.take(i + 1).last() == cm[i as int]);
                }
                i = i + 1;
            }
            proof {
                assert(cm.take(members@.len() as int) =~= cm);
            }
            Json::Object(sorted)
        },
    }
}

} // verus!
