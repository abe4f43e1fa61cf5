//! Rows: sequences of values serialized into tuple bytes.
//!
//! The row format is positional: each value's bytes follow the previous
//! value's, with no header.  Integers take four little-endian bytes,
//! booleans one byte, and text a two-byte little-endian length followed by
//! the bytes themselves.  Decoding therefore needs the schema.

use vstd::prelude::*;
use crate::schema::{Column, Schema};
use crate::types::{DataType, Value};

verus! {

/// The two little-endian bytes of `v` (its low 16 bits).
pub open spec fn enc_u16(v: int) -> Seq<u8> {
    seq![(v % 0x100) as u8, ((v / 0x100) % 0x100) as u8]
}

/// The 16-bit value encoded little-endian at `b[off .. off + 2]`.
pub open spec fn dec_u16(b: Seq<u8>, off: int) -> int {
    b[off] + b[off + 1] * 0x100
}

/// The four little-endian bytes of the 32-bit two's complement of `v`.
pub open spec fn enc_i32(v: i32) -> Seq<u8> {
    let u = v as u32;
    seq![
        (u % 0x100) as u8,
        ((u / 0x100) % 0x100) as u8,
        ((u / 0x10000) % 0x100) as u8,
        (u / 0x1000000) as u8,
    ]
}

/// A value's serialized bytes.
pub open spec fn enc_value(v: Value) -> Seq<u8> {
    match v {
        Value::Integer(x) => enc_i32(x),
        Value::Varchar(s) => enc_u16(s@.len() as int) + s@,
        Value::Boolean(b) => seq![if b {
            1u8
        } else {
            0u8
        }],
    }
}

/// A row's serialized bytes: each value's bytes in order.
pub open spec fn enc_row(vals: Seq<Value>) -> Seq<u8>
    decreases vals.len(),
{
    if vals.len() == 0 {
        Seq::empty()
    } else {
        enc_row(vals.drop_last()) + enc_value(vals.last())
    }
}

/// The byte offset where field `i` starts when `data` is decoded against
/// `cols`.
pub open spec fn field_off(data: Seq<u8>, cols: Seq<Column>, i: int) -> int
    decreases i,
{
    if i <= 0 {
        0
    } else {
        let p = field_off(data, cols, i - 1);
        p + match cols[i - 1].data_type {
            DataType::Integer => 4,
            DataType::Boolean => 1,
            DataType::Varchar => 2 + dec_u16(data, p),
        }
    }
}

/// Whether `data` decodes against `cols`: every field's bytes lie inside
/// the buffer.
pub open spec fn decode_ok(data: Seq<u8>, cols: Seq<Column>) -> bool {
    forall|i: int| 0 <= i < cols.len() ==> #[trigger] field_off(data, cols, i + 1) <= data.len()
}

/// What value field `i` of `data` decodes to.
pub open spec fn decoded(data: Seq<u8>, cols: Seq<Column>, i: int, v: Value) -> bool {
    match cols[i].data_type {
        DataType::Integer => v matches Value::Integer(x) && x as u32 as int == le32_of(
            data,
            field_off(data, cols, i),
        ),
        DataType::Boolean => v matches Value::Boolean(b) && b == (data[field_off(data, cols, i)]
            == 1),
        DataType::Varchar => v matches Value::Varchar(s) && s@ == data.subrange(
            field_off(data, cols, i) + 2,
            field_off(data, cols, i) + 2 + dec_u16(data, field_off(data, cols, i)),
        ),
    }
}

/// The 32-bit value encoded little-endian at `b[off .. off + 4]`.
pub open spec fn le32_of(b: Seq<u8>, off: int) -> int {
    b[off] + b[off + 1] * 0x100 + b[off + 2] * 0x10000 + b[off + 3] * 0x1000000
}

/// A row of values.
pub struct Row {
    pub values: Vec<Value>,
}

impl Row {
    /// Every value fits the row format.
    pub open spec fn wf(self) -> bool {
        forall|i: int| 0 <= i < self.values@.len() ==> (#[trigger] self.values@[i]).wf()
    }

    /// Bundles values into a row.
    pub fn new(values: Vec<Value>) -> (r: Row)
        ensures
            r.values == values,
    {
        Row { values }
    }

    /// Serializes the row into its byte form.
    pub fn serialize(&self) -> (r: Vec<u8>)
        requires
            self.wf(),
        ensures
            r@ == enc_row(self.values@),
    {
        let mut buffer: Vec<u8> = Vec::new();
        let mut i: usize = 0;
        while i < self.values.len()
            invariant
                i <= self.values@.len(),
                self.wf(),
                buffer@ == enc_row(self.values@.take(i as int)),
            decreases self.values@.len() - i,
        {
            let ghost prev = buffer@;
            match &self.values[i] {
                Value::Integer(val) => {
                    let u = *val as u32;
                    buffer.push((u % 0x100) as u8);
                    buffer.push(((u / 0x100) % 0x100) as u8);
                    buffer.push(((u / 0x10000) % 0x100) as u8);
                    buffer.push((u / 0x1000000) as u8);
                    proof {
                        assert(buffer@ =~= prev + enc_value(self.values@[i as int]));
                    }
                },
                Value::Boolean(val) => {
                    buffer.push(
                        if *val {
                            1
                        } else {
                            0
                        },
                    );
                    proof {
                        assert(buffer@ =~= prev + enc_value(self.values@[i as int]));
                    }
                },
                Value::Varchar(val) => {
                    let len16 = val.len() as u16;
                    buffer.push((len16 % 0x100) as u8);
                    buffer.push((len16 / 0x100) as u8);
                    let mut j: usize = 0;
                    while j < val.len()
                        invariant
                            j <= val@.len(),
                            val@.len() <= 0xFFFF,
                            len16 == val@.len(),
                            buffer@ == prev + enc_u16(val@.len() as int) + val@.subrange(
                                0,
                                j as int,
                            ),
                        decreases val@.len() - j,
                    {
                        buffer.push(val[j]);
                        j = j + 1;
                        proof {
                            assert(buffer@ =~= prev + enc_u16(val@.len() as int) + val@.subrange(
                                0,
                                j as int,
                            ));
                        }
                    }
                    proof {
                        assert(val@.subrange(0, val@.len() as int) =~= val@);
                        assert(buffer@ =~= prev + enc_value(self.values@[i as int]));
                    }
                },
            }
            i = i + 1;
            proof {
                assert(self.values@.take(i as int).drop_last() =~= self.values@.take(i as int - 1));
                assert(self.values@.take(i as int).last() == self.values@[i as int - 1]);
                assert(buffer@ == enc_row(self.values@.take(i as int)));
            }
        }
        proof {
            assert(self.values@.take(self.values@.len() as int) =~= self.values@);
        }
        buffer
    }

    /// Rebuilds a row from its byte form, walking the schema's column
    /// types.  The buffer must hold every field the schema announces.
    pub fn deserialize(data: &[u8], schema: &Schema) -> (r: Row)
        requires
            decode_ok(data@, schema.columns@),
        ensures
            r.values@.len() == schema.columns@.len(),
            forall|i: int|
                0 <= i < schema.columns@.len() ==> decoded(
                    data@,
                    schema.columns@,
                    i,
                    #[trigger] r.values@[i],
                ),
    {
        let mut values: Vec<Value> = Vec::new();
        let mut offset: usize = 0;
        let mut i: usize = 0;
        let n_total = data.len();
        proof {
            assert(field_off(data@, schema.columns@, 0) == 0);
        }
        while i < schema.columns.len()
            invariant
                i <= schema.columns@.len(),
                decode_ok(data@, schema.columns@),
                values@.len() == i,
                offset == field_off(data@, schema.columns@, i as int),
                offset <= data@.len(),
                data@.len() == n_total,
                forall|j: int|
                    0 <= j < i ==> decoded(data@, schema.columns@, j, #[trigger] values@[j]),
            decreases schema.columns@.len() - i,
        {
            proof {
                assert(field_off(data@, schema.columns@, i as int + 1) <= data@.len());
            }
            match schema.columns[i].data_type {
                DataType::Integer => {
                    let b0 = data[offset] as u32;
                    let b1 = data[offset + 1] as u32;
                    let b2 = data[offset + 2] as u32;
                    let b3 = data[offset + 3] as u32;
                    let u = b0 + b1 * 0x100 + b2 * 0x10000 + b3 * 0x1000000;
                    proof {
                        assert(u as i32 as u32 == u) by (bit_vector);
                    }
                    values.push(Value::Integer(u as i32));
                    offset = offset + 4;
                },
                DataType::Varchar => {
                    let n = data[offset] as usize + data[offset + 1] as usize * 0x100;
                    let mut s: Vec<u8> = Vec::new();
                    let mut j: usize = 0;
                    while j < n
                        invariant
                            j <= n,
                            offset + 2 + n <= data@.len(),
                            data@.len() == n_total,
                            s@ == data@.subrange(offset + 2, offset + 2 + j as int),
                        decreases n - j,
                    {
                        s.push(data[offset + 2 + j]);
                        j = j + 1;
                        proof {
                            assert(s@ =~= data@.subrange(offset + 2, offset + 2 + j as int));
                        }
                    }
                    values.push(Value::Varchar(s));
                    offset = offset + 2 + n;
                },
                DataType::Boolean => {
                    values.push(Value::Boolean(data[offset] == 1));
                    offset = offset + 1;
                },
            }
            i = i + 1;
        }
        Row { values }
    }
}

/// Whether value `v` is of column type `t`.
pub open spec fn value_has_type(v: Value, t: DataType) -> bool {
    match t {
        DataType::Integer => v is Integer,
        DataType::Varchar => v is Varchar,
        DataType::Boolean => v is Boolean,
    }
}

/// One more value extends the encoding by that value's bytes.
proof fn lemma_enc_row_take_step(vals: Seq<Value>, i: int)
    requires
        0 <= i < vals.len(),
    ensures
        enc_row(vals.take(i + 1)) == enc_row(vals.take(i)) + enc_value(vals[i]),
{
    assert(vals.take(i + 1).drop_last() =~= vals.take(i));
    assert(vals.take(i + 1).last() == vals[i]);
}

/// The encoding of a prefix of the values is a prefix of the encoding.
proof fn lemma_enc_row_prefix(vals: Seq<Value>, i: int)
    requires
        0 <= i <= vals.len(),
    ensures
        enc_row(vals.take(i)).len() <= enc_row(vals).len(),
        forall|j: int|
            0 <= j < enc_row(vals.take(i)).len() ==> enc_row(vals)[j] == #[trigger] enc_row(
                vals.take(i),
            )[j],
    decreases vals.len() - i,
{
    if i == vals.len() {
        assert(vals.take(i) =~= vals);
    } else {
        lemma_enc_row_prefix(vals, i + 1);
        lemma_enc_row_take_step(vals, i);
        assert forall|j: int| 0 <= j < enc_row(vals.take(i)).len() implies enc_row(vals)[j]
            == #[trigger] enc_row(vals.take(i))[j] by {
            assert(enc_row(vals.take(i + 1))[j] == enc_row(vals.take(i))[j]);
            assert(enc_row(vals)[j] == enc_row(vals.take(i + 1))[j]);
        }
    }
}

/// Decoding field offsets line up with the encoded prefixes.
proof fn lemma_field_off_align(vals: Seq<Value>, cols: Seq<Column>, i: int)
    requires
        vals.len() == cols.len(),
        forall|k: int|
            0 <= k < vals.len() ==> (#[trigger] vals[k]).wf() && value_has_type(
                vals[k],
                cols[k].data_type,
            ),
        0 <= i <= vals.len(),
    ensures
        field_off(enc_row(vals), cols, i) == enc_row(vals.take(i)).len(),
    decreases i,
{
    let data = enc_row(vals);
    if i == 0 {
        assert(vals.take(0) =~= Seq::<Value>::empty());
    } else {
        lemma_field_off_align(vals, cols, i - 1);
        lemma_enc_row_take_step(vals, i - 1);
        lemma_enc_row_prefix(vals, i);
        let p = enc_row(vals.take(i - 1)).len() as int;
        match vals[i - 1] {
            Value::Integer(_) => {},
            Value::Boolean(_) => {},
            Value::Varchar(sv) => {
                // The two length-prefix bytes sit at `p`, and they decode to
                // the text's length.
                let n = sv@.len() as int;
                assert(enc_row(vals.take(i))[p] == enc_value(vals[i - 1])[0]);
                assert(enc_row(vals.take(i))[p + 1] == enc_value(vals[i - 1])[1]);
                assert(data[p] == (n % 0x100) as u8);
                assert(data[p + 1] == ((n / 0x100) % 0x100) as u8);
                assert(dec_u16(data, p) == n % 0x100 + ((n / 0x100) % 0x100) * 0x100);
                assert(n == n % 0x100 + ((n / 0x100) % 0x100) * 0x100) by {
                    assert(n == 0x100 * (n / 0x100) + n % 0x100) by {
                        vstd::arithmetic::div_mod::lemma_fundamental_div_mod(n, 0x100);
                    }
                    assert(n / 0x100 < 0x100);
                }
            },
        }
    }
}

/// Law: a serialized row decodes back to itself against a schema whose
/// column types match its values: the buffer passes `decode_ok` and every
/// field decodes to the value it came from.
pub proof fn lemma_row_round_trip(vals: Seq<Value>, cols: Seq<Column>)
    requires
        vals.len() == cols.len(),
        forall|k: int|
            0 <= k < vals.len() ==> (#[trigger] vals[k]).wf() && value_has_type(
                vals[k],
                cols[k].data_type,
            ),
    ensures
        decode_ok(enc_row(vals), cols),
        forall|i: int|
            0 <= i < cols.len() ==> decoded(enc_row(vals), cols, i, #[trigger] vals[i]),
{
    let data = enc_row(vals);
    assert forall|i: int| 0 <= i < cols.len() implies #[trigger] field_off(data, cols, i + 1)
        <= data.len() by {
        lemma_field_off_align(vals, cols, i + 1);
        lemma_enc_row_prefix(vals, i + 1);
    }
    assert forall|i: int| 0 <= i < cols.len() implies decoded(
        data,
        cols,
        i,
        #[trigger] vals[i],
    ) by {
        lemma_field_off_align(vals, cols, i);
        lemma_enc_row_take_step(vals, i);
        lemma_enc_row_prefix(vals, i + 1);
        let off = enc_row(vals.take(i)).len() as int;
        let ev = enc_value(vals[i]);
        assert forall|j: int| 0 <= j < ev.len() implies data[off + j] == ev[j] by {
            assert(enc_row(vals.take(i + 1))[off + j] == ev[j]);
            assert(data[off + j] == enc_row(vals.take(i + 1))[off + j]);
        }
        match vals[i] {
            Value::Integer(x) => {
                let u = x as u32;
                assert(data[off] == (u % 0x100) as u8);
                assert(data[off + 1] == ((u / 0x100) % 0x100) as u8);
                assert(data[off + 2] == ((u / 0x10000) % 0x100) as u8);
                assert(data[off + 3] == (u / 0x1000000) as u8);
                assert(u == (u % 0x100) + ((u / 0x100) % 0x100) * 0x100 + ((u / 0x10000) % 0x100)
                    * 0x10000 + (u / 0x1000000) * 0x1000000) by (bit_vector);
                assert(le32_of(data, off) == u);
            },
            Value::Boolean(_) => {
                assert(data[off] == ev[0]);
            },
            Value::Varchar(sv) => {
                let n = sv@.len() as int;
                assert(data[off + 0] == ev[0] && ev[0] == (n % 0x100) as u8);
                assert(data[off + 1] == ev[1] && ev[1] == ((n / 0x100) % 0x100) as u8);
                assert(data[off] == (n % 0x100) as u8);
                assert(n == n % 0x100 + ((n / 0x100) % 0x100) * 0x100) by {
                    assert(n == 0x100 * (n / 0x100) + n % 0x100) by {
                        vstd::arithmetic::div_mod::lemma_fundamental_div_mod(n, 0x100);
                    }
                    assert(n / 0x100 < 0x100);
                }
                assert(dec_u16(data, off) == n);
                assert forall|j: int| 0 <= j < n implies data[off + 2 + j] == sv@[j] by {
                    assert(data[off + (2 + j)] == ev[2 + j]);
                    assert(ev[2 + j] == sv@[j]);
                }
                assert(data.subrange(off + 2, off + 2 + n) =~= sv@);
            },
        }
    }
}

} // verus!
