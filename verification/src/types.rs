//! The value model: what a table cell can hold.

use vstd::prelude::*;

verus! {

/// The column types the engine stores.
#[derive(Debug, Clone, Copy, PartialEq, Eq, Structural)]
pub enum DataType {
    Integer,
    Varchar,
    Boolean,
}

/// A single stored value.  Text travels as its raw bytes: the engine
/// stores and hands back bytes; decoding them into text is the embedding
/// program's concern.
#[derive(Debug, Clone, PartialEq, Eq)]
pub enum Value {
    Integer(i32),
    Varchar(Vec<u8>),
    Boolean(bool),
}

impl Value {
    /// Text fits the two-byte length prefix of the row format.
    pub open spec fn wf(self) -> bool {
        match self {
            Value::Varchar(s) => s@.len() <= 0xFFFF,
            _ => true,
        }
    }

    /// How many bytes the value occupies in a serialized row: four for an
    /// integer, one for a boolean, two (the length) plus the bytes for
    /// text.
    pub open spec fn spec_serialize_size(self) -> int {
        match self {
            Value::Integer(_) => 4,
            Value::Varchar(s) => 2 + s@.len() as int,
            Value::Boolean(_) => 1,
        }
    }

    /// How many bytes this value serializes to.
    pub fn serialize_size(&self) -> (r: usize)
        requires
            self.wf(),
        ensures
            r == self.spec_serialize_size(),
    {
        match self {
            Value::Integer(_) => 4,
            Value::Varchar(s) => 2 + s.len(),
            Value::Boolean(_) => 1,
        }
    }
}

} // verus!
