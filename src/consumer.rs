use vstd::prelude::*;

use crate::item::StringItem;
use crate::tree::{
    array_count, array_records, bool_text, decimal, delivered_proper_prefix, leaf_count, object_count,
    object_records, records_of, texts, JsonValue, Record,
};
use crate::tree::{
    lemma_array_count_mono, lemma_array_records_prefix, lemma_object_count_mono,
    lemma_object_records_prefix,
};

verus! {

broadcast use {vstd::std_specs::vec::group_vec_axioms, vstd::seq::group_seq_axioms};

/// A sink for finished path records. The walking methods are provided;
/// an implementor supplies `consume`, which emits one record.
pub trait StringVecConsumer: Sized {
    /// The records accepted so far, in order of delivery.
    spec fn delivered(&self) -> Seq<Record>;

    /// Whether this sink accepts every record; it stays so.
    spec fn never_fails(&self) -> bool;

    /// The error of the last delivery that failed, if any.
    spec fn last_error(&self) -> Option<String>;

    /// Emits one record. On success it counts for one leaf; on failure
    /// nothing counts as delivered.
    fn consume(&mut self, v: Vec<String>) -> (r: Result<u32, String>)
        ensures
            r matches Ok(n) ==> n == 1 && final(self).delivered() == old(self).delivered().push(
                texts(v@),
            ),
            r is Err ==> final(self).delivered() == old(self).delivered(),
            old(self).never_fails() ==> r is Ok,
            final(self).never_fails() == old(self).never_fails(),
            r matches Err(e) ==> final(self).last_error() == Some(e),
            r is Ok ==> final(self).last_error() == old(self).last_error(),
    ;

    /// Delivers `ancestor` with the item's text appended.
    fn consume_item(&mut self, i: StringItem, ancestor: Vec<String>) -> (r: Result<u32, String>)
        ensures
            r matches Ok(n) ==> n == 1 && final(self).delivered() == old(self).delivered().push(
                texts(ancestor@).push(i@),
            ),
            r is Err ==> final(self).delivered() == old(self).delivered(),
            old(self).never_fails() ==> r is Ok,
            final(self).never_fails() == old(self).never_fails(),
            r matches Err(e) ==> final(self).last_error() == Some(e),
            r is Ok ==> final(self).last_error() == old(self).last_error(),
    {
        let mut ancestor = ancestor;
        let ghost anc = ancestor@;
        ancestor.push(i.into_string());
        proof {
            assert(texts(ancestor@) =~= texts(anc).push(i@));
        }
        self.consume(ancestor)
    }

    /// Delivers a boolean leaf as `true` or `false`.
    fn consume_bool(&mut self, b: bool, ancestor: Vec<String>) -> (r: Result<u32, String>)
        ensures
            r matches Ok(n) ==> n == 1 && final(self).delivered() == old(self).delivered().push(
                texts(ancestor@).push(bool_text(b)),
            ),
            r is Err ==> final(self).delivered() == old(self).delivered(),
            old(self).never_fails() ==> r is Ok,
            final(self).never_fails() == old(self).never_fails(),
            r matches Err(e) ==> final(self).last_error() == Some(e),
            r is Ok ==> final(self).last_error() == old(self).last_error(),
    {
        let item = StringItem::from_bool(b);
        self.consume_item(item, ancestor)
    }

    /// Delivers a number leaf by its canonical text.
    fn consume_number(&mut self, n: String, ancestor: Vec<String>) -> (r: Result<u32, String>)
        ensures
            r matches Ok(c) ==> c == 1 && final(self).delivered() == old(self).delivered().push(
                texts(ancestor@).push(n@),
            ),
            r is Err ==> final(self).delivered() == old(self).delivered(),
            old(self).never_fails() ==> r is Ok,
            final(self).never_fails() == old(self).never_fails(),
            r matches Err(e) ==> final(self).last_error() == Some(e),
            r is Ok ==> final(self).last_error() == old(self).last_error(),
    {
        let item = StringItem::from_string(n);
        self.consume_item(item, ancestor)
    }

    /// Delivers a string leaf verbatim.
    fn consume_string(&mut self, s: String, ancestor: Vec<String>) -> (r: Result<u32, String>)
        ensures
            r matches Ok(c) ==> c == 1 && final(self).delivered() == old(self).delivered().push(
                texts(ancestor@).push(s@),
            ),
            r is Err ==> final(self).delivered() == old(self).delivered(),
            old(self).never_fails() ==> r is Ok,
            final(self).never_fails() == old(self).never_fails(),
            r matches Err(e) ==> final(self).last_error() == Some(e),
            r is Ok ==> final(self).last_error() == old(self).last_error(),
    {
        let item = StringItem::from_string(s);
        self.consume_item(item, ancestor)
    }
}

/// Something that ends a path: given the path above it, it completes one
/// record and hands it to a consumer.
pub trait StringVecSource<C: StringVecConsumer>: Sized {
    /// The text this source appends as the record's last element.
    spec fn terminal(&self) -> Seq<char>;

    /// Delivers `ancestor` with this source's text appended.
    fn to_consumer(self, ancestor: Vec<String>, c: &mut C) -> (r: Result<u32, String>)
        ensures
            r matches Ok(n) ==> n == 1 && final(c).delivered() == old(c).delivered().push(
                texts(ancestor@).push(self.terminal()),
            ),
            r is Err ==> final(c).delivered() == old(c).delivered(),
            old(c).never_fails() ==> r is Ok,
            final(c).never_fails() == old(c).never_fails(),
            r matches Err(e) ==> final(c).last_error() == Some(e),
            r is Ok ==> final(c).last_error() == old(c).last_error(),
    ;
}

impl<C: StringVecConsumer> StringVecSource<C> for StringItem {
    open spec fn terminal(&self) -> Seq<char> {
        self@
    }

    fn to_consumer(self, ancestor: Vec<String>, c: &mut C) -> (r: Result<u32, String>) {
        c.consume_item(self, ancestor)
    }
}

/// Finishes a parse: a failure is handed back as it is and nothing is
/// delivered; a document is walked from the root with an empty path.
pub fn consume_parsed<C: StringVecConsumer>(c: &mut C, parsed: Result<JsonValue, String>) -> (r: Result<u32, String>)
    requires
        parsed matches Ok(v) ==> leaf_count(v) <= u32::MAX,
    ensures
        parsed matches Err(e) ==> r == Err::<u32, String>(e) && *final(c) == *old(c),
        parsed matches Ok(v) ==> {
            &&& r matches Ok(n) ==> n == leaf_count(v) && final(c).delivered() == old(c).delivered() + records_of(v, seq![])
            &&& r is Err ==> delivered_proper_prefix(
                old(c).delivered(),
                final(c).delivered(),
                records_of(v, seq![]),
            )
            &&& old(c).never_fails() ==> r is Ok
            &&& r matches Err(e) ==> final(c).last_error() == Some(e)
            &&& r is Ok ==> final(c).last_error() == old(c).last_error()
        },
        final(c).never_fails() == old(c).never_fails(),
{
    match parsed {
        Err(e) => Err(e),
        Ok(v) => {
            let root: Vec<String> = Vec::new();
            proof {
                assert(texts(root@) =~= seq![]);
            }
            consume_value(c, root, v)
        },
    }
}

/// Walks `v` below `ancestor`, delivering one record per leaf in
/// document order, and returns the number of leaves. The first failure
/// ends the walk and is returned.
pub fn consume_value<C: StringVecConsumer>(c: &mut C, ancestor: Vec<String>, v: JsonValue) -> (r: Result<u32, String>)
    requires
        leaf_count(v) <= u32::MAX,
    ensures
        r matches Ok(n) ==> n == leaf_count(v) && final(c).delivered() == old(c).delivered() + records_of(v, texts(ancestor@)),
        r is Err ==> delivered_proper_prefix(
            old(c).delivered(),
            final(c).delivered(),
            records_of(v, texts(ancestor@)),
        ),
        old(c).never_fails() ==> r is Ok,
        final(c).never_fails() == old(c).never_fails(),
        r matches Err(e) ==> final(c).last_error() == Some(e),
        r is Ok ==> final(c).last_error() == old(c).last_error(),
    decreases v, 1nat,
{
    match v {
        JsonValue::Null => {
            assert(c.delivered() =~= c.delivered() + records_of(v, texts(ancestor@)));
            Ok(0)
        },
        JsonValue::Bool(b) => c.consume_bool(b, ancestor),
        JsonValue::Number(n) => c.consume_number(n, ancestor),
        JsonValue::String(s) => c.consume_string(s, ancestor),
        JsonValue::Array(items) => consume_vec(c, ancestor, items),
        JsonValue::Object(members) => consume_map(c, ancestor, members),
    }
}

/// Walks each element of an array, index ascending, below
/// `ancestor` extended by the element's decimal index.
pub fn consume_vec<C: StringVecConsumer>(c: &mut C, ancestor: Vec<String>, v: Vec<JsonValue>) -> (r: Result<u32, String>)
    requires
        array_count(v@, v@.len()) <= u32::MAX,
    ensures
        r matches Ok(n) ==> n == array_count(v@, v@.len()) && final(c).delivered() == old(c).delivered() + array_records(v@, texts(ancestor@), v@.len()),
        r is Err ==> delivered_proper_prefix(
            old(c).delivered(),
            final(c).delivered(),
            array_records(v@, texts(ancestor@), v@.len()),
        ),
        old(c).never_fails() ==> r is Ok,
        final(c).never_fails() == old(c).never_fails(),
        r matches Err(e) ==> final(c).last_error() == Some(e),
        r is Ok ==> final(c).last_error() == old(c).last_error(),
    decreases v, 0nat,
{
    let ghost whole = v;
    let ghost items = v@;
    let ghost anc = texts(ancestor@);
    let ghost start = c.delivered();
    let n = v.len();
    // Elements are moved out front to back by popping a reversed copy.
    let mut rest = v;
    let mut rev: Vec<JsonValue> = Vec::new();
    while rest.len() > 0
        invariant
            rest@.len() + rev@.len() == items.len(),
            rest@ == items.take(rest@.len() as int),
            forall|j: int| 0 <= j < rev@.len() ==> rev@[j] == items[items.len() - 1 - j],
        decreases rest@.len(),
    {
        let x = rest.pop().unwrap();
        rev.push(x);
    }
    let mut tot: u32 = 0;
    let mut i: usize = 0;
    while i < n
        invariant
            start == old(c).delivered(),
            c.never_fails() == old(c).never_fails(),
            c.last_error() == old(c).last_error(),
            whole == v,
            items == whole@,
            n == items.len(),
            i <= n,
            rev@.len() == n - i,
            forall|j: int| 0 <= j < rev@.len() ==> rev@[j] == items[n - 1 - j],
            texts(ancestor@) == anc,
            array_count(items, n as nat) <= u32::MAX,
            tot == array_count(items, i as nat),
            c.delivered() == start + array_records(items, anc, i as nat),
        decreases n - i,
    {
        let item = rev.pop().unwrap();
        assert(item == whole[i as int]);
        assert(decreases_to!(whole => item));
        let key: String = StringItem::from_index(i).into_string();
        let mut dup = ancestor.clone();
        dup.push(key);
        proof {
            assert(texts(dup@) =~= anc.push(decimal(i as nat)));
            lemma_array_count_mono(items, (i + 1) as nat, n as nat);
        }
        let ghost before = c.delivered();
        match consume_value(c, dup, item) {
            Ok(cnt) => {
                tot = tot + cnt;
            },
            Err(e) => {
                proof {
                    let done = array_records(items, anc, i as nat);
                    let more = records_of(items[i as int], anc.push(decimal(i as nat)));
                    let all = array_records(items, anc, n as nat);
                    let now = c.delivered();
                    let k = now.len() - before.len();
                    lemma_array_records_prefix(items, anc, (i + 1) as nat, n as nat);
                    assert(array_records(items, anc, (i + 1) as nat) == done + more);
                    assert(now =~= start + (done + more).take(done.len() + k));
                    assert((done + more).take(done.len() + k) =~= all.take(done.len() + k));
                }
                return Err(e);
            },
        }
        assert(c.delivered() =~= start + array_records(items, anc, (i + 1) as nat));
        i = i + 1;
    }
    Ok(tot)
}

/// Walks each member of an object, in the order held, below
/// `ancestor` extended by the member's key.
pub fn consume_map<C: StringVecConsumer>(c: &mut C, ancestor: Vec<String>, m: Vec<(String, JsonValue)>) -> (r: Result<u32, String>)
    requires
        object_count(m@, m@.len()) <= u32::MAX,
    ensures
        r matches Ok(n) ==> n == object_count(m@, m@.len()) && final(c).delivered() == old(c).delivered() + object_records(m@, texts(ancestor@), m@.len()),
        r is Err ==> delivered_proper_prefix(
            old(c).delivered(),
            final(c).delivered(),
            object_records(m@, texts(ancestor@), m@.len()),
        ),
        old(c).never_fails() ==> r is Ok,
        final(c).never_fails() == old(c).never_fails(),
        r matches Err(e) ==> final(c).last_error() == Some(e),
        r is Ok ==> final(c).last_error() == old(c).last_error(),
    decreases m, 0nat,
{
    let ghost whole = m;
    let ghost items = m@;
    let ghost anc = texts(ancestor@);
    let ghost start = c.delivered();
    let n = m.len();
    // Members are moved out front to back by popping a reversed copy.
    let mut rest = m;
    let mut rev: Vec<(String, JsonValue)> = Vec::new();
    while rest.len() > 0
        invariant
            rest@.len() + rev@.len() == items.len(),
            rest@ == items.take(rest@.len() as int),
            forall|j: int| 0 <= j < rev@.len() ==> rev@[j] == items[items.len() - 1 - j],
        decreases rest@.len(),
    {
        let x = rest.pop().unwrap();
        rev.push(x);
    }
    let mut tot: u32 = 0;
    let mut i: usize = 0;
    while i < n
        invariant
            start == old(c).delivered(),
            c.never_fails() == old(c).never_fails(),
            c.last_error() == old(c).last_error(),
            whole == m,
            items == whole@,
            n == items.len(),
            i <= n,
            rev@.len() == n - i,
            forall|j: int| 0 <= j < rev@.len() ==> rev@[j] == items[n - 1 - j],
            texts(ancestor@) == anc,
            object_count(items, n as nat) <= u32::MAX,
            tot == object_count(items, i as nat),
            c.delivered() == start + object_records(items, anc, i as nat),
        decreases n - i,
    {
        let pair = rev.pop().unwrap();
        assert(pair == whole[i as int]);
        let (key, item) = pair;
        assert(decreases_to!(whole => item)) by {
            assert(decreases_to!(whole => whole[i as int]));
            assert(decreases_to!(pair => item));
        }
        let ghost key_text = key@;
        let mut dup = ancestor.clone();
        dup.push(key);
        proof {
            assert(texts(dup@) =~= anc.push(items[i as int].0@));
            lemma_object_count_mono(items, (i + 1) as nat, n as nat);
        }
        let ghost before = c.delivered();
        match consume_value(c, dup, item) {
            Ok(cnt) => {
                tot = tot + cnt;
            },
            Err(e) => {
                proof {
                    let done = object_records(items, anc, i as nat);
                    let more = records_of(items[i as int].1, anc.push(items[i as int].0@));
                    let all = object_records(items, anc, n as nat);
                    let now = c.delivered();
                    let k = now.len() - before.len();
                    lemma_object_records_prefix(items, anc, (i + 1) as nat, n as nat);
                    assert(object_records(items, anc, (i + 1) as nat) == done + more);
                    assert(now =~= start + (done + more).take(done.len() + k));
                    assert((done + more).take(done.len() + k) =~= all.take(done.len() + k));
                }
                return Err(e);
            },
        }
        assert(c.delivered() =~= start + object_records(items, anc, (i + 1) as nat));
        i = i + 1;
    }
    Ok(tot)
}

/// Hands `s` the path so far, so that it delivers its own record.
pub fn consume_source<C: StringVecConsumer, S: StringVecSource<C>>(c: &mut C, s: S, ancestor: Vec<String>) -> (r: Result<u32, String>)
    ensures
        r matches Ok(n) ==> n == 1 && final(c).delivered() == old(c).delivered().push(
            texts(ancestor@).push(s.terminal()),
        ),
        r is Err ==> final(c).delivered() == old(c).delivered(),
        old(c).never_fails() ==> r is Ok,
        final(c).never_fails() == old(c).never_fails(),
        r matches Err(e) ==> final(c).last_error() == Some(e),
        r is Ok ==> final(c).last_error() == old(c).last_error(),
{
    s.to_consumer(ancestor, c)
}

} // verus!
