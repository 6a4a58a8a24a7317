//! Flattens a JSON document into path records: for every non-null leaf, the
//! object keys and array indices leading to it, followed by the leaf's text.
//! Each record goes to a pluggable sink; the default sink writes one JSON
//! array of strings per line.

pub mod consumer;
pub mod item;
pub mod paths;
pub mod sink;
pub mod tree;

pub use consumer::{
    consume_map, consume_parsed, consume_source, consume_value, consume_vec, StringVecConsumer,
    StringVecSource,
};
pub use item::{decimal_string, StringItem};
pub use sink::{new_string_consumer, RecordCollector, StringsWriter};
pub use tree::{leaf_total, JsonValue};
