//! Table schemas: named, typed columns, one of them the primary key.

use vstd::prelude::*;
use crate::types::DataType;

verus! {

/// One column of a table.
#[derive(Debug)]
pub struct Column {
    pub name: String,
    pub data_type: DataType,
    pub is_primary_key: bool,
}

/// A table's name and columns.
#[derive(Debug)]
pub struct Schema {
    pub name: String,
    pub columns: Vec<Column>,
}

impl Schema {
    /// Some column is marked as the primary key.
    pub open spec fn has_primary_key(self) -> bool {
        exists|i: int| 0 <= i < self.columns@.len() && (#[trigger] self.columns@[i]).is_primary_key
    }

    /// Bundles a name and columns into a schema.
    pub fn new(name: String, columns: Vec<Column>) -> (r: Schema)
        ensures
            r.name == name,
            r.columns == columns,
    {
        Schema { name, columns }
    }

    /// The index of the first primary-key column.
    pub fn primary_key_index(&self) -> (r: usize)
        requires
            self.has_primary_key(),
        ensures
            r < self.columns@.len(),
            self.columns@[r as int].is_primary_key,
            forall|j: int| 0 <= j < r ==> !(#[trigger] self.columns@[j]).is_primary_key,
    {
        let mut i: usize = 0;
        while i < self.columns.len()
            invariant
                i <= self.columns@.len(),
                self.has_primary_key(),
                forall|j: int| 0 <= j < i ==> !(#[trigger] self.columns@[j]).is_primary_key,
            decreases self.columns@.len() - i,
        {
            if self.columns[i].is_primary_key {
                return i;
            }
            i = i + 1;
        }
        proof {
            assert(false);
        }
        0
    }
}

} // verus!
