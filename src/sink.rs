use vstd::prelude::*;
use vstd::string::StringExecFns;

use crate::consumer::StringVecConsumer;
use crate::tree::{texts, Record};

verus! {

#[verifier::external_type_specification]
#[verifier::external_body]
pub struct ExJsonError(serde_json::Error);

/// The compact JSON text of an array of strings, as serde_json writes it.
pub uninterp spec fn json_text_of(items: Seq<Seq<char>>) -> Seq<char>;

/// Relies on serde_json::to_string: a `Vec<String>` becomes a JSON array of
/// string literals; the text depends on the strings alone. Strings serialize
/// without error and the buffer written to is a `Vec<u8>`, so it succeeds.
#[verifier::external_body]
fn encode_record(v: &Vec<String>) -> (r: Result<String, serde_json::Error>)
    ensures
        r is Ok,
        r matches Ok(t) ==> t@ == json_text_of(texts(v@)),
{
    serde_json::to_string(v)
}

/// One line of output: a record's JSON text and a line feed.
pub open spec fn line_of(rec: Record) -> Seq<char> {
    json_text_of(rec).push('\n')
}

/// The output for a sequence of records, one line each, in order.
pub open spec fn lines_of(recs: Seq<Record>) -> Seq<char>
    decreases recs.len(),
{
    if recs.len() == 0 {
        seq![]
    } else {
        lines_of(recs.drop_last()) + line_of(recs.last())
    }
}

/// The output of one more record follows the output so far.
pub proof fn lemma_lines_of_push(recs: Seq<Record>, rec: Record)
    ensures
        lines_of(recs.push(rec)) == lines_of(recs) + line_of(rec),
{
    assert(recs.push(rec).drop_last() =~= recs);
}

/// The record sink that writes each record as one line of JSON text.
pub struct StringsWriter {
    out: String,
    sent: Ghost<Seq<Record>>,
}

impl StringsWriter {
    #[verifier::type_invariant]
    closed spec fn output_matches(&self) -> bool {
        self.out@ == lines_of(self.sent@)
    }

    /// The text written so far: one line per delivered record.
    pub fn output(&self) -> (r: &String)
        ensures
            r@ == lines_of(self.delivered()),
    {
        proof {
            use_type_invariant(self);
        }
        &self.out
    }
}

/// A JSON-lines sink with nothing written yet.
pub fn new_string_consumer() -> (r: StringsWriter)
    ensures
        r.delivered() == Seq::<Record>::empty(),
{
    StringsWriter { out: String::new(), sent: Ghost(Seq::empty()) }
}

impl StringVecConsumer for StringsWriter {
    closed spec fn delivered(&self) -> Seq<Record> {
        self.sent@
    }

    /// Encoding a list of strings cannot fail.
    open spec fn never_fails(&self) -> bool {
        true
    }

    open spec fn last_error(&self) -> Option<String> {
        None
    }

    fn consume(&mut self, v: Vec<String>) -> (r: Result<u32, String>) {
        proof {
            use_type_invariant(&*self);
        }
        let text = encode_record(&v).unwrap();
        proof {
            lemma_lines_of_push(self.sent@, texts(v@));
            reveal_strlit("\n");
        }
        let mut taken = StringsWriter { out: String::new(), sent: Ghost(Seq::empty()) };
        std::mem::swap(self, &mut taken);
        let StringsWriter { out, sent } = taken;
        let mut out = out;
        out.append(text.as_str());
        out.append("\n");
        assert(out@ =~= lines_of(sent@) + line_of(texts(v@)));
        *self = StringsWriter { out, sent: Ghost(sent@.push(texts(v@))) };
        Ok(1)
    }
}

/// A sink that keeps every record in memory.
pub struct RecordCollector {
    pub records: Vec<Vec<String>>,
}

impl RecordCollector {
    pub fn new() -> (r: Self)
        ensures
            r.delivered() == Seq::<Record>::empty(),
    {
        let r = RecordCollector { records: Vec::new() };
        proof {
            assert(r.delivered() =~= Seq::<Record>::empty());
        }
        r
    }
}

impl StringVecConsumer for RecordCollector {
    open spec fn delivered(&self) -> Seq<Record> {
        self.records@.map_values(|rec: Vec<String>| texts(rec@))
    }

    open spec fn never_fails(&self) -> bool {
        true
    }

    open spec fn last_error(&self) -> Option<String> {
        None
    }

    fn consume(&mut self, v: Vec<String>) -> (r: Result<u32, String>) {
        let ghost pre = self.records@;
        self.records.push(v);
        proof {
            assert(self.records@.map_values(|rec: Vec<String>| texts(rec@)) =~= pre.map_values(
                |rec: Vec<String>| texts(rec@),
            ).push(texts(v@)));
        }
        Ok(1)
    }
}

} // verus!
