use vstd::prelude::*;

verus! {

broadcast use {vstd::std_specs::vec::group_vec_axioms, vstd::seq::group_seq_axioms};

/// A parsed JSON document. Object members keep the order in which the
/// document's map yields them; keys within one object are distinct.
pub enum JsonValue {
    Null,
    Bool(bool),
    /// The number's canonical decimal text.
    Number(String),
    String(String),
    Array(Vec<JsonValue>),
    Object(Vec<(String, JsonValue)>),
}

/// A path record as text: one sequence of characters per segment.
pub type Record = Seq<Seq<char>>;

/// The characters of each string, in order.
pub open spec fn texts(v: Seq<String>) -> Seq<Seq<char>> {
    v.map_values(|s: String| s@)
}

pub open spec fn digit_char(d: nat) -> char {
    if d == 0 { '0' } else if d == 1 { '1' } else if d == 2 { '2' } else if d == 3 { '3' }
    else if d == 4 { '4' } else if d == 5 { '5' } else if d == 6 { '6' } else if d == 7 { '7' }
    else if d == 8 { '8' } else { '9' }
}

/// Decimal digits of `n`, most significant first, without sign or leading zeros.
pub open spec fn decimal(n: nat) -> Seq<char>
    decreases n,
{
    if n < 10 {
        seq![digit_char(n)]
    } else {
        decimal(n / 10).push(digit_char(n % 10))
    }
}

pub open spec fn bool_text(b: bool) -> Seq<char> {
    if b { seq!['t', 'r', 'u', 'e'] } else { seq!['f', 'a', 'l', 's', 'e'] }
}

/// The records that a walk of `v` below the path `anc` delivers, in order.
pub open spec fn records_of(v: JsonValue, anc: Record) -> Seq<Record>
    decreases v, 0nat,
{
    match v {
        JsonValue::Null => seq![],
        JsonValue::Bool(b) => seq![anc.push(bool_text(b))],
        JsonValue::Number(n) => seq![anc.push(n@)],
        JsonValue::String(s) => seq![anc.push(s@)],
        JsonValue::Array(items) => array_records(items@, anc, items@.len()),
        JsonValue::Object(members) => object_records(members@, anc, members@.len()),
    }
}

/// Records of the first `n` elements of an array below `anc`.
pub open spec fn array_records(items: Seq<JsonValue>, anc: Record, n: nat) -> Seq<Record>
    decreases items, n,
{
    if n == 0 || n > items.len() {
        seq![]
    } else {
        array_records(items, anc, (n - 1) as nat) + records_of(
            items[n - 1],
            anc.push(decimal((n - 1) as nat)),
        )
    }
}

/// Records of the first `n` members of an object below `anc`.
pub open spec fn object_records(members: Seq<(String, JsonValue)>, anc: Record, n: nat) -> Seq<Record>
    decreases members, n,
{
    if n == 0 || n > members.len() {
        seq![]
    } else {
        object_records(members, anc, (n - 1) as nat) + records_of(
            members[n - 1].1,
            anc.push(members[n - 1].0@),
        )
    }
}

/// Number of scalar leaves (booleans, numbers, strings) in `v`; `Null` counts none.
pub open spec fn leaf_count(v: JsonValue) -> nat
    decreases v, 0nat,
{
    match v {
        JsonValue::Null => 0,
        JsonValue::Bool(_) | JsonValue::Number(_) | JsonValue::String(_) => 1,
        JsonValue::Array(items) => array_count(items@, items@.len()),
        JsonValue::Object(members) => object_count(members@, members@.len()),
    }
}

/// Leaves among the first `n` elements of an array.
pub open spec fn array_count(items: Seq<JsonValue>, n: nat) -> nat
    decreases items, n,
{
    if n == 0 || n > items.len() {
        0
    } else {
        array_count(items, (n - 1) as nat) + leaf_count(items[n - 1])
    }
}

/// Leaves among the first `n` members of an object.
pub open spec fn object_count(members: Seq<(String, JsonValue)>, n: nat) -> nat
    decreases members, n,
{
    if n == 0 || n > members.len() {
        0
    } else {
        object_count(members, (n - 1) as nat) + leaf_count(members[n - 1].1)
    }
}

/// The walk delivers one record per leaf, whatever the path above it.
pub proof fn lemma_records_len(v: JsonValue, anc: Record)
    ensures
        records_of(v, anc).len() == leaf_count(v),
    decreases v, 0nat,
{
    match v {
        JsonValue::Array(items) => lemma_array_records_len(items@, anc, items@.len()),
        JsonValue::Object(members) => lemma_object_records_len(members@, anc, members@.len()),
        _ => {},
    }
}

pub proof fn lemma_array_records_len(items: Seq<JsonValue>, anc: Record, n: nat)
    ensures
        array_records(items, anc, n).len() == array_count(items, n),
    decreases items, n,
{
    if n > 0 && n <= items.len() {
        lemma_array_records_len(items, anc, (n - 1) as nat);
        lemma_records_len(items[n - 1], anc.push(decimal((n - 1) as nat)));
    }
}

pub proof fn lemma_object_records_len(members: Seq<(String, JsonValue)>, anc: Record, n: nat)
    ensures
        object_records(members, anc, n).len() == object_count(members, n),
    decreases members, n,
{
    if n > 0 && n <= members.len() {
        lemma_object_records_len(members, anc, (n - 1) as nat);
        lemma_records_len(members[n - 1].1, anc.push(members[n - 1].0@));
    }
}

/// Counts over a prefix never exceed the count over a longer prefix.
pub proof fn lemma_array_count_mono(items: Seq<JsonValue>, i: nat, n: nat)
    requires
        i <= n <= items.len(),
    ensures
        array_count(items, i) <= array_count(items, n),
    decreases n - i,
{
    if i < n {
        lemma_array_count_mono(items, i, (n - 1) as nat);
    }
}

pub proof fn lemma_object_count_mono(members: Seq<(String, JsonValue)>, i: nat, n: nat)
    requires
        i <= n <= members.len(),
    ensures
        object_count(members, i) <= object_count(members, n),
    decreases n - i,
{
    if i < n {
        lemma_object_count_mono(members, i, (n - 1) as nat);
    }
}

/// The records of a shorter prefix of an array start those of a longer one.
pub proof fn lemma_array_records_prefix(items: Seq<JsonValue>, anc: Record, i: nat, n: nat)
    requires
        i <= n <= items.len(),
    ensures
        array_records(items, anc, i).len() <= array_records(items, anc, n).len(),
        array_records(items, anc, n).take(array_records(items, anc, i).len() as int)
            == array_records(items, anc, i),
    decreases n - i,
{
    if i < n {
        lemma_array_records_prefix(items, anc, i, (n - 1) as nat);
        let a = array_records(items, anc, (n - 1) as nat);
        let b = records_of(items[n - 1], anc.push(decimal((n - 1) as nat)));
        let k = array_records(items, anc, i).len() as int;
        assert((a + b).take(k) =~= a.take(k));
    } else {
        let a = array_records(items, anc, n);
        assert(a.take(a.len() as int) =~= a);
    }
}

/// The records of a shorter prefix of an object start those of a longer one.
pub proof fn lemma_object_records_prefix(members: Seq<(String, JsonValue)>, anc: Record, i: nat, n: nat)
    requires
        i <= n <= members.len(),
    ensures
        object_records(members, anc, i).len() <= object_records(members, anc, n).len(),
        object_records(members, anc, n).take(object_records(members, anc, i).len() as int)
            == object_records(members, anc, i),
    decreases n - i,
{
    if i < n {
        lemma_object_records_prefix(members, anc, i, (n - 1) as nat);
        let a = object_records(members, anc, (n - 1) as nat);
        let b = records_of(members[n - 1].1, anc.push(members[n - 1].0@));
        let k = object_records(members, anc, i).len() as int;
        assert((a + b).take(k) =~= a.take(k));
    } else {
        let a = object_records(members, anc, n);
        assert(a.take(a.len() as int) =~= a);
    }
}

/// `new` is `old` followed by some of `recs`, but not all of them: what a
/// walk that stopped at a failed delivery has delivered.
pub open spec fn delivered_proper_prefix(old: Seq<Record>, new: Seq<Record>, recs: Seq<Record>) -> bool {
    &&& old.len() <= new.len() < old.len() + recs.len()
    &&& new == old + recs.take(new.len() - old.len())
}

/// The number of leaves of `v`, or `None` where it does not fit in a `u32`.
pub fn leaf_total(v: &JsonValue) -> (r: Option<u32>)
    ensures
        r matches Some(n) ==> n == leaf_count(*v),
        r is None ==> leaf_count(*v) > u32::MAX,
    decreases v, 1nat,
{
    match v {
        JsonValue::Null => Some(0),
        JsonValue::Bool(_) | JsonValue::Number(_) | JsonValue::String(_) => Some(1),
        JsonValue::Array(items) => array_total(items),
        JsonValue::Object(members) => object_total(members),
    }
}

fn array_total(items: &Vec<JsonValue>) -> (r: Option<u32>)
    ensures
        r matches Some(n) ==> n == array_count(items@, items@.len()),
        r is None ==> array_count(items@, items@.len()) > u32::MAX,
    decreases items, 0nat,
{
    let mut tot: u32 = 0;
    let mut i: usize = 0;
    while i < items.len()
        invariant
            i <= items.len(),
            tot == array_count(items@, i as nat),
        decreases items.len() - i,
    {
        assert(decreases_to!(items => items[i as int]));
        match leaf_total(&items[i]) {
            Some(cnt) => {
                if cnt > u32::MAX - tot {
                    proof {
                        lemma_array_count_mono(items@, (i + 1) as nat, items@.len());
                    }
                    return None;
                }
                tot = tot + cnt;
            },
            None => {
                proof {
                    lemma_array_count_mono(items@, (i + 1) as nat, items@.len());
                }
                return None;
            },
        }
        i = i + 1;
    }
    Some(tot)
}

fn object_total(members: &Vec<(String, JsonValue)>) -> (r: Option<u32>)
    ensures
        r matches Some(n) ==> n == object_count(members@, members@.len()),
        r is None ==> object_count(members@, members@.len()) > u32::MAX,
    decreases members, 0nat,
{
    let mut tot: u32 = 0;
    let mut i: usize = 0;
    while i < members.len()
        invariant
            i <= members.len(),
            tot == object_count(members@, i as nat),
        decreases members.len() - i,
    {
        assert(decreases_to!(members => members[i as int].1)) by {
            assert(decreases_to!(members => members[i as int]));
        }
        match leaf_total(&members[i].1) {
            Some(cnt) => {
                if cnt > u32::MAX - tot {
                    proof {
                        lemma_object_count_mono(members@, (i + 1) as nat, members@.len());
                    }
                    return None;
                }
                tot = tot + cnt;
            },
            None => {
                proof {
                    lemma_object_count_mono(members@, (i + 1) as nat, members@.len());
                }
                return None;
            },
        }
        i = i + 1;
    }
    Some(tot)
}

} // verus!
