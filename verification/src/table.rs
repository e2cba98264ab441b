//! A parsed master-data table: the records of a JSON array, or a single
//! value as the one record, with the records indexed by their `id`.

use std::collections::HashMap;

use vstd::prelude::*;

use crate::json::JsonValue;
use crate::masterdata::json_tables::{id_positions, lemma_id_positions, table_row};

verus! {

broadcast use vstd::std_specs::hash::group_hash_axioms;

/// A parsed master-data table.
pub struct Table {
    records: Vec<JsonValue>,
    id_index: HashMap<i64, usize>,
}

impl Table {
    /// The records of the table.
    pub closed spec fn records_spec(&self) -> Seq<JsonValue> {
        self.records@
    }

    /// The index holds the position of the last record of each `id`.
    #[verifier::type_invariant]
    spec fn index_matches_records(&self) -> bool {
        self.id_index@ == id_positions(self.records@, self.records@.len() as int)
    }

    /// The table of a parsed value: the records of an array, or any other
    /// value as the one record.
    pub fn from_value(raw: JsonValue) -> (t: Self)
        ensures
            match raw {
                JsonValue::Array(records) => t.records_spec() == records@,
                _ => t.records_spec() == seq![raw],
            },
    {
        let records = match raw {
            JsonValue::Array(records) => records,
            other => {
                let mut records: Vec<JsonValue> = Vec::new();
                records.push(other);
                records
            },
        };
        let mut id_index: HashMap<i64, usize> = HashMap::new();
        let mut k: usize = 0;
        while k < records.len()
            invariant
                k <= records@.len(),
                id_index@ == id_positions(records@, k as int),
            decreases records.len() - k,
        {
            match records[k].get("id") {
                Some(v) => match v.as_i64() {
                    Some(id) => {
                        id_index.insert(id, k);
                    },
                    None => {},
                },
                None => {},
            }
            k = k + 1;
        }
        Table { records, id_index }
    }

    /// The last record whose `id` is `id`.
    pub fn by_id(&self, id: i64) -> (r: Option<&JsonValue>)
        ensures
            match r {
                Some(record) => table_row(self.records_spec(), id) == Some(*record),
                None => table_row(self.records_spec(), id) is None,
            },
    {
        proof {
            use_type_invariant(self);
            assert(self.records@.len() == self.records.len());
            lemma_id_positions(self.records@, self.records@.len() as int, id);
        }
        match self.id_index.get(&id) {
            Some(position) => Some(&self.records[*position]),
            None => None,
        }
    }

    /// All records.
    pub fn all(&self) -> (r: &[JsonValue])
        ensures
            r@ == self.records_spec(),
    {
        self.records.as_slice()
    }

    /// The number of records.
    pub fn len(&self) -> (n: usize)
        ensures
            n == self.records_spec().len(),
    {
        self.records.len()
    }

    /// Whether the table has no records.
    pub fn is_empty(&self) -> (r: bool)
        ensures
            r == (self.records_spec().len() == 0),
    {
        self.records.len() == 0
    }
}

} // verus!
