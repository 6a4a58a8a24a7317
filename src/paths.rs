use vstd::prelude::*;

use crate::tree::{
    array_records, decimal, object_records, records_of, JsonValue, Record,
};

verus! {

broadcast use {vstd::std_specs::vec::group_vec_axioms, vstd::seq::group_seq_axioms};

/// `Null` yields no record, wherever it stands.
pub proof fn lemma_null_yields_nothing(anc: Record)
    ensures
        records_of(JsonValue::Null, anc) == Seq::<Record>::empty(),
{
    assert(records_of(JsonValue::Null, anc) =~= Seq::<Record>::empty());
}

/// A `Null` element of an array adds no record to those of the elements before it.
pub proof fn lemma_null_element_yields_nothing(items: Seq<JsonValue>, anc: Record, i: nat)
    requires
        i < items.len(),
        items[i as int] is Null,
    ensures
        array_records(items, anc, i + 1) == array_records(items, anc, i),
{
    let e = records_of(items[i as int], anc.push(decimal(i)));
    assert(e =~= Seq::<Record>::empty());
    assert(array_records(items, anc, i + 1) == array_records(items, anc, i) + e);
    assert(array_records(items, anc, i + 1) =~= array_records(items, anc, i));
}

/// A member whose value is `Null` adds no record to those of the members before it.
pub proof fn lemma_null_member_yields_nothing(members: Seq<(String, JsonValue)>, anc: Record, i: nat)
    requires
        i < members.len(),
        members[i as int].1 is Null,
    ensures
        object_records(members, anc, i + 1) == object_records(members, anc, i),
{
    let e = records_of(members[i as int].1, anc.push(members[i as int].0@));
    assert(e =~= Seq::<Record>::empty());
    assert(object_records(members, anc, i + 1) == object_records(members, anc, i) + e);
    assert(object_records(members, anc, i + 1) =~= object_records(members, anc, i));
}

/// An empty array and an empty object yield no record, whatever the path above them.
pub proof fn lemma_empty_containers_yield_nothing(
    items: Vec<JsonValue>,
    members: Vec<(String, JsonValue)>,
    anc: Record,
)
    requires
        items@.len() == 0,
        members@.len() == 0,
    ensures
        records_of(JsonValue::Array(items), anc) == Seq::<Record>::empty(),
        records_of(JsonValue::Object(members), anc) == Seq::<Record>::empty(),
{
    assert(records_of(JsonValue::Array(items), anc) =~= Seq::<Record>::empty());
    assert(records_of(JsonValue::Object(members), anc) =~= Seq::<Record>::empty());
}

/// The nesting depth of each leaf of `v`, in the order the walk reaches them:
/// a scalar at the root has depth 0, and each array or object adds one.
pub open spec fn leaf_depths(v: JsonValue) -> Seq<nat>
    decreases v, 0nat,
{
    match v {
        JsonValue::Null => seq![],
        JsonValue::Bool(_) | JsonValue::Number(_) | JsonValue::String(_) => seq![0nat],
        JsonValue::Array(items) => array_depths(items@, items@.len()),
        JsonValue::Object(members) => object_depths(members@, members@.len()),
    }
}

pub open spec fn deeper(d: Seq<nat>) -> Seq<nat> {
    d.map_values(|x: nat| x + 1)
}

pub open spec fn array_depths(items: Seq<JsonValue>, n: nat) -> Seq<nat>
    decreases items, n,
{
    if n == 0 || n > items.len() {
        seq![]
    } else {
        array_depths(items, (n - 1) as nat) + deeper(leaf_depths(items[n - 1]))
    }
}

pub open spec fn object_depths(members: Seq<(String, JsonValue)>, n: nat) -> Seq<nat>
    decreases members, n,
{
    if n == 0 || n > members.len() {
        seq![]
    } else {
        object_depths(members, (n - 1) as nat) + deeper(leaf_depths(members[n - 1].1))
    }
}

/// Every record starts with the path above `v`, and the record of a leaf at
/// depth `d` below it holds `d + 1` more elements; below the root, `d + 1` in all.
pub proof fn lemma_record_shape(v: JsonValue, anc: Record)
    ensures
        records_of(v, anc).len() == leaf_depths(v).len(),
        forall|k: int|
            0 <= k < records_of(v, anc).len() ==> {
                &&& #[trigger] records_of(v, anc)[k].len() == anc.len() + leaf_depths(v)[k] + 1
                &&& records_of(v, anc)[k].subrange(0, anc.len() as int) == anc
            },
    decreases v, 0nat,
{
    match v {
        JsonValue::Array(items) => lemma_array_shape(items@, anc, items@.len()),
        JsonValue::Object(members) => lemma_object_shape(members@, anc, members@.len()),
        JsonValue::Null => {},
        _ => {
            assert(records_of(v, anc)[0].subrange(0, anc.len() as int) =~= anc);
        },
    }
}

proof fn lemma_array_shape(items: Seq<JsonValue>, anc: Record, n: nat)
    ensures
        array_records(items, anc, n).len() == array_depths(items, n).len(),
        forall|k: int|
            0 <= k < array_records(items, anc, n).len() ==> {
                &&& #[trigger] array_records(items, anc, n)[k].len() == anc.len() + array_depths(
                    items,
                    n,
                )[k] + 1
                &&& array_records(items, anc, n)[k].subrange(0, anc.len() as int) == anc
            },
    decreases items, n,
{
    if n > 0 && n <= items.len() {
        let sub = anc.push(decimal((n - 1) as nat));
        let child = items[n - 1];
        lemma_array_shape(items, anc, (n - 1) as nat);
        lemma_record_shape(child, sub);
        let a = array_records(items, anc, (n - 1) as nat);
        let b = records_of(child, sub);
        assert forall|k: int| 0 <= k < (a + b).len() implies {
            &&& #[trigger] (a + b)[k].len() == anc.len() + array_depths(items, n)[k] + 1
            &&& (a + b)[k].subrange(0, anc.len() as int) == anc
        } by {
            if k >= a.len() {
                let j = k - a.len();
                assert(b[j].subrange(0, sub.len() as int) == sub);
                assert(b[j].subrange(0, anc.len() as int) =~= sub.subrange(0, anc.len() as int));
                assert(sub.subrange(0, anc.len() as int) =~= anc);
            }
        }
    }
}

proof fn lemma_object_shape(members: Seq<(String, JsonValue)>, anc: Record, n: nat)
    ensures
        object_records(members, anc, n).len() == object_depths(members, n).len(),
        forall|k: int|
            0 <= k < object_records(members, anc, n).len() ==> {
                &&& #[trigger] object_records(members, anc, n)[k].len() == anc.len()
                    + object_depths(members, n)[k] + 1
                &&& object_records(members, anc, n)[k].subrange(0, anc.len() as int) == anc
            },
    decreases members, n,
{
    if n > 0 && n <= members.len() {
        let sub = anc.push(members[n - 1].0@);
        let child = members[n - 1].1;
        lemma_object_shape(members, anc, (n - 1) as nat);
        lemma_record_shape(child, sub);
        let a = object_records(members, anc, (n - 1) as nat);
        let b = records_of(child, sub);
        assert forall|k: int| 0 <= k < (a + b).len() implies {
            &&& #[trigger] (a + b)[k].len() == anc.len() + object_depths(members, n)[k] + 1
            &&& (a + b)[k].subrange(0, anc.len() as int) == anc
        } by {
            if k >= a.len() {
                let j = k - a.len();
                assert(b[j].subrange(0, sub.len() as int) == sub);
                assert(b[j].subrange(0, anc.len() as int) =~= sub.subrange(0, anc.len() as int));
                assert(sub.subrange(0, anc.len() as int) =~= anc);
            }
        }
    }
}

/// The index of the array element that the `k`-th record of the first `n`
/// elements comes from.
pub open spec fn element_of(items: Seq<JsonValue>, anc: Record, n: nat, k: int) -> nat
    decreases n,
{
    if n == 0 || n > items.len() {
        0
    } else if k < array_records(items, anc, (n - 1) as nat).len() {
        element_of(items, anc, (n - 1) as nat, k)
    } else {
        (n - 1) as nat
    }
}

/// Below an array, the segment after the path above it is the decimal,
/// zero-based index of the element a record comes from, and these indices
/// never decrease from one record to the next.
pub proof fn lemma_array_indices(items: Vec<JsonValue>, anc: Record)
    ensures
        forall|k: int|
            0 <= k < records_of(JsonValue::Array(items), anc).len() ==> #[trigger] element_of(
                items@,
                anc,
                items@.len(),
                k,
            ) < items@.len(),
        forall|k: int|
            0 <= k < records_of(JsonValue::Array(items), anc).len() ==> #[trigger] records_of(
                JsonValue::Array(items),
                anc,
            )[k][anc.len() as int] == decimal(element_of(items@, anc, items@.len(), k)),
        forall|k1: int, k2: int|
            0 <= k1 <= k2 < records_of(JsonValue::Array(items), anc).len() ==> #[trigger] element_of(
                items@,
                anc,
                items@.len(),
                k1,
            ) <= #[trigger] element_of(items@, anc, items@.len(), k2),
{
    lemma_array_indices_upto(items@, anc, items@.len());
    assert(records_of(JsonValue::Array(items), anc) == array_records(items@, anc, items@.len()));
}

proof fn lemma_array_indices_upto(items: Seq<JsonValue>, anc: Record, n: nat)
    requires
        n <= items.len(),
    ensures
        forall|k: int|
            0 <= k < array_records(items, anc, n).len() ==> #[trigger] element_of(items, anc, n, k)
                < n,
        forall|k: int|
            0 <= k < array_records(items, anc, n).len() ==> #[trigger] array_records(
                items,
                anc,
                n,
            )[k][anc.len() as int] == decimal(element_of(items, anc, n, k)),
        forall|k1: int, k2: int|
            0 <= k1 <= k2 < array_records(items, anc, n).len() ==> #[trigger] element_of(
                items,
                anc,
                n,
                k1,
            ) <= #[trigger] element_of(items, anc, n, k2),
    decreases n,
{
    if n > 0 {
        let sub = anc.push(decimal((n - 1) as nat));
        lemma_array_indices_upto(items, anc, (n - 1) as nat);
        lemma_record_shape(items[n - 1], sub);
        let a = array_records(items, anc, (n - 1) as nat);
        let b = records_of(items[n - 1], sub);
        assert(array_records(items, anc, n) == a + b);
        lemma_array_shape(items, anc, n);
        assert forall|k: int| 0 <= k < array_records(items, anc, n).len() implies #[trigger] element_of(
            items,
            anc,
            n,
            k,
        ) < n && array_records(items, anc, n)[k][anc.len() as int] == decimal(
            element_of(items, anc, n, k),
        ) by {
            if k < a.len() {
                assert((a + b)[k] == a[k]);
                assert(element_of(items, anc, n, k) == element_of(items, anc, (n - 1) as nat, k));
                assert(a[k][anc.len() as int] == decimal(element_of(items, anc, (n - 1) as nat, k)));
                assert(element_of(items, anc, (n - 1) as nat, k) < n - 1);
            } else {
                let j = k - a.len();
                assert((a + b)[k] == b[j]);
                assert(element_of(items, anc, n, k) == n - 1);
                assert(b[j].subrange(0, sub.len() as int) == sub);
                assert(b[j][anc.len() as int] == b[j].subrange(0, sub.len() as int)[anc.len() as int]);
            }
        }
        assert forall|k1: int, k2: int|
            0 <= k1 <= k2 < array_records(items, anc, n).len() implies #[trigger] element_of(
            items,
            anc,
            n,
            k1,
        ) <= #[trigger] element_of(items, anc, n, k2) by {
            if k2 < a.len() {
                assert(element_of(items, anc, (n - 1) as nat, k1) <= element_of(
                    items,
                    anc,
                    (n - 1) as nat,
                    k2,
                ));
            } else if k1 < a.len() {
                assert(a[k1][anc.len() as int] == decimal(element_of(items, anc, (n - 1) as nat, k1)));
                assert(element_of(items, anc, (n - 1) as nat, k1) < n - 1);
            }
        }
    } else {
        assert(array_records(items, anc, n) =~= Seq::<Record>::empty());
    }
}

} // verus!
