use vstd::prelude::*;

use crate::db::{merge_outcome, Slot};
use crate::record::{consistent, merged, RecordView};

verus! {

/// The store after merge-storing each version of `s` in turn at `slot`, or
/// `None` if one of those merge-stores is refused.
pub open spec fn merge_all(m: Map<Slot, RecordView>, slot: Slot, s: Seq<RecordView>) -> Option<
    Map<Slot, RecordView>,
>
    decreases s.len(),
{
    if s.len() == 0 {
        Some(m)
    } else {
        match merge_all(m, slot, s.drop_last()) {
            Some(m1) => merge_outcome(m1, slot, s.last()),
            None => None,
        }
    }
}

/// Every two versions of `s` are consistent with each other.
pub open spec fn mutually_consistent(s: Seq<RecordView>) -> bool {
    forall|i: int, j: int| 0 <= i < s.len() && 0 <= j < s.len() ==> consistent(#[trigger] s[i], #[trigger] s[j])
}

/// Some version of `s` reveals field `f`.
pub open spec fn revealed_in(s: Seq<RecordView>, f: int) -> bool {
    exists|j: int| 0 <= j < s.len() && (#[trigger] s[j]).fields[f] is Some
}

/// Field `f` as revealed by some version of `s`, or concealed if none does.
pub open spec fn joined_field(s: Seq<RecordView>, f: int) -> Option<Seq<u8>> {
    if revealed_in(s, f) {
        s[choose|j: int| 0 <= j < s.len() && (#[trigger] s[j]).fields[f] is Some].fields[f]
    } else {
        None
    }
}

/// The fully revealed object: every field that any version of `s` reveals.
pub open spec fn join(s: Seq<RecordView>) -> RecordView {
    RecordView { root: s[0].root, fields: Seq::new(s[0].fields.len(), |f: int| joined_field(s, f)) }
}

proof fn lemma_merge_all_is_join(m: Map<Slot, RecordView>, slot: Slot, s: Seq<RecordView>)
    requires
        s.len() > 0,
        mutually_consistent(s),
        !m.contains_key(slot),
    ensures
        merge_all(m, slot, s) == Some(m.insert(slot, join(s))),
    decreases s.len(),
{
    let n = s.len() as int;
    let x = s.last();
    let p = s.drop_last();
    assert(consistent(s[0], s[n - 1]));
    if n == 1 {
        assert(p.len() == 0);
        assert(merge_all(m, slot, p) == Some(m));
        assert forall|f: int| 0 <= f < x.fields.len() implies joined_field(s, f) == x.fields[f] by {
            if x.fields[f] is Some {
                assert(s[0].fields[f] is Some);
            }
        }
        assert(join(s).fields =~= x.fields);
        assert(merged(x, x).fields =~= x.fields);
    } else {
        assert forall|i: int, j: int| 0 <= i < p.len() && 0 <= j < p.len() implies consistent(
            #[trigger] p[i],
            #[trigger] p[j],
        ) by {
            assert(p[i] == s[i] && p[j] == s[j]);
        }
        lemma_merge_all_is_join(m, slot, p);
        let jp = join(p);
        assert(p[0] == s[0]);
        assert forall|f: int| 0 <= f < x.fields.len() && x.fields[f] is Some && jp.fields[f] is Some implies x.fields[f]
            == jp.fields[f] by {
            let j = choose|j: int| 0 <= j < p.len() && (#[trigger] p[j]).fields[f] is Some;
            assert(p[j] == s[j]);
            assert(consistent(s[j], s[n - 1]));
        }
        assert(consistent(x, jp));
        assert forall|f: int| 0 <= f < x.fields.len() implies #[trigger] merged(x, jp).fields[f] == joined_field(s, f) by {
            if x.fields[f] is Some {
                assert(s[n - 1].fields[f] is Some);
                let j = choose|j: int| 0 <= j < s.len() && (#[trigger] s[j]).fields[f] is Some;
                assert(consistent(s[j], s[n - 1]));
            } else {
                if revealed_in(s, f) {
                    let j = choose|j: int| 0 <= j < s.len() && (#[trigger] s[j]).fields[f] is Some;
                    assert(j != n - 1);
                    assert(p[j] == s[j]);
                    assert(revealed_in(p, f));
                    let k = choose|k: int| 0 <= k < p.len() && (#[trigger] p[k]).fields[f] is Some;
                    assert(p[k] == s[k]);
                    assert(consistent(s[j], s[k]));
                } else {
                    assert forall|j: int| 0 <= j < p.len() implies !((#[trigger] p[j]).fields[f] is Some) by {
                        assert(p[j] == s[j]);
                    }
                }
            }
        }
        assert(merged(x, jp).fields =~= join(s).fields);
        assert(m.insert(slot, jp).insert(slot, merged(x, jp)) =~= m.insert(slot, join(s)));
    }
}

proof fn lemma_join_same_versions(s1: Seq<RecordView>, s2: Seq<RecordView>)
    requires
        s1.len() > 0,
        s1.to_set() == s2.to_set(),
        mutually_consistent(s1),
        mutually_consistent(s2),
    ensures
        join(s1) == join(s2),
{
    assert(s1.to_set().contains(s1[0]));
    assert(s2.contains(s1[0]));
    let j0 = choose|j: int| 0 <= j < s2.len() && s2[j] == s1[0];
    assert(consistent(s2[0], s2[j0]));
    assert forall|f: int| 0 <= f < s1[0].fields.len() implies joined_field(s1, f) == joined_field(s2, f) by {
        if revealed_in(s1, f) {
            let a = choose|j: int| 0 <= j < s1.len() && (#[trigger] s1[j]).fields[f] is Some;
            assert(s1.to_set().contains(s1[a]));
            assert(s2.contains(s1[a]));
            let b = choose|j: int| 0 <= j < s2.len() && s2[j] == s1[a];
            assert(s2[b].fields[f] is Some);
            assert(revealed_in(s2, f));
            let c = choose|j: int| 0 <= j < s2.len() && (#[trigger] s2[j]).fields[f] is Some;
            assert(consistent(s2[b], s2[c]));
            assert(consistent(s2[j0], s2[b]));
        } else if revealed_in(s2, f) {
            let c = choose|j: int| 0 <= j < s2.len() && (#[trigger] s2[j]).fields[f] is Some;
            assert(s2.to_set().contains(s2[c]));
            assert(s1.contains(s2[c]));
            let a = choose|j: int| 0 <= j < s1.len() && s1[j] == s2[c];
            assert(s1[a].fields[f] is Some);
        }
    }
    assert(join(s1).fields =~= join(s2).fields);
}

/// Merge-storing mutually consistent versions of one object at a fresh slot
/// succeeds whatever their order, and every order (indeed every sequence of
/// the same versions) leaves the same, fully revealed object.
pub proof fn lemma_merge_order_independent(
    m: Map<Slot, RecordView>,
    slot: Slot,
    s1: Seq<RecordView>,
    s2: Seq<RecordView>,
)
    requires
        !m.contains_key(slot),
        s1.len() > 0,
        s1.to_set() == s2.to_set(),
        mutually_consistent(s1),
    ensures
        merge_all(m, slot, s1) is Some,
        merge_all(m, slot, s1) == merge_all(m, slot, s2),
        merge_all(m, slot, s1)->0[slot] == join(s1),
{
    assert(s1.to_set().contains(s1[0]));
    assert(s2.contains(s1[0]));
    assert forall|i: int, j: int| 0 <= i < s2.len() && 0 <= j < s2.len() implies consistent(
        #[trigger] s2[i],
        #[trigger] s2[j],
    ) by {
        assert(s2.to_set().contains(s2[i]));
        assert(s2.to_set().contains(s2[j]));
        assert(s1.contains(s2[i]));
        assert(s1.contains(s2[j]));
        let a = choose|a: int| 0 <= a < s1.len() && s1[a] == s2[i];
        let b = choose|b: int| 0 <= b < s1.len() && s1[b] == s2[j];
        assert(consistent(s1[a], s1[b]));
    }
    lemma_merge_all_is_join(m, slot, s1);
    lemma_merge_all_is_join(m, slot, s2);
    lemma_join_same_versions(s1, s2);
}

} // verus!
