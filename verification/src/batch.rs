//! Columnar batches over an inferred schema.
//!
//! Records are JSON objects; each is turned into one row of cells, one
//! cell per schema column. A missing member becomes `NULL` (every
//! emitted column is nullable), a member whose value does not fit the
//! column's type is coerced to text where the column is text — nested
//! arrays and objects as serialized JSON — and is otherwise a fatal
//! type error. Rows are grouped into batches of a fixed size, and every
//! batch declares the one inferred schema.

use vstd::prelude::*;
use crate::errors::ApitapError;
use crate::json::{json_text, json_to_string, JsonValue, obj_get};
use crate::schema::{DataType, Schema, schema_view};
use crate::strutil::{i64_to_chars, int_chars};

verus! {

/// One cell of a row. A `Float` carries the number's literal text.
#[derive(Debug)]
pub enum CellValue {
    Null,
    Bool(bool),
    Int(i64),
    Float(String),
    Text(String),
}

/// The mathematical content of a cell.
pub enum CellRep {
    Null,
    Bool(bool),
    Int(int),
    Float(Seq<char>),
    Text(Seq<char>),
}

/// The content of a cell.
pub open spec fn cell_view(c: CellValue) -> CellRep {
    match c {
        CellValue::Null => CellRep::Null,
        CellValue::Bool(b) => CellRep::Bool(b),
        CellValue::Int(n) => CellRep::Int(n as int),
        CellValue::Float(s) => CellRep::Float(s@),
        CellValue::Text(s) => CellRep::Text(s@),
    }
}

/// The content of a row.
pub open spec fn row_view(r: Seq<CellValue>) -> Seq<CellRep> {
    r.map_values(|c: CellValue| cell_view(c))
}

/// The content of a list of rows.
pub open spec fn rows_view(rs: Seq<Vec<CellValue>>) -> Seq<Seq<CellRep>> {
    rs.map_values(|r: Vec<CellValue>| row_view(r@))
}

/// The cell a value lands in under a column type: a matching scalar is
/// kept, anything is coerced to text in a text column — nested values
/// as serialized JSON, integers in a float column as their digits — and
/// anything else is a type mismatch.
pub open spec fn coerce_spec(v: JsonValue, t: DataType) -> Option<CellRep> {
    match v {
        JsonValue::Null => Some(CellRep::Null),
        JsonValue::Bool(b) => match t {
            DataType::Boolean => Some(CellRep::Bool(b)),
            DataType::Utf8 => Some(
                CellRep::Text(
                    if b {
                        "true"@
                    } else {
                        "false"@
                    },
                ),
            ),
            _ => None,
        },
        JsonValue::Int(n) => match t {
            DataType::Int64 => Some(CellRep::Int(n as int)),
            DataType::Float64 => Some(CellRep::Float(int_chars(n as int))),
            DataType::Utf8 => Some(CellRep::Text(int_chars(n as int))),
            _ => None,
        },
        JsonValue::Float(s) => match t {
            DataType::Float64 => Some(CellRep::Float(s@)),
            DataType::Utf8 => Some(CellRep::Text(s@)),
            _ => None,
        },
        JsonValue::Str(s) => match t {
            DataType::Utf8 => Some(CellRep::Text(s@)),
            _ => None,
        },
        JsonValue::Array(_) => match t {
            DataType::Utf8 => Some(CellRep::Text(json_text(v))),
            _ => None,
        },
        JsonValue::Object(_) => match t {
            DataType::Utf8 => Some(CellRep::Text(json_text(v))),
            _ => None,
        },
    }
}

/// Coerce one value into a column of the given type.
pub fn coerce_value(v: &JsonValue, t: DataType) -> (r: Result<CellValue, ApitapError>)
    ensures
        match r {
            Ok(c) => coerce_spec(*v, t) == Some(cell_view(c)),
            Err(e) => coerce_spec(*v, t) is None && e is DataTypeError,
        },
{
    let mismatch = ApitapError::DataTypeError(
        String::from_str("value does not fit the column type"),
    );
    match v {
        JsonValue::Null => Ok(CellValue::Null),
        JsonValue::Bool(b) => match t {
            DataType::Boolean => Ok(CellValue::Bool(*b)),
            DataType::Utf8 => Ok(
                CellValue::Text(
                    if *b {
                        String::from_str("true")
                    } else {
                        String::from_str("false")
                    },
                ),
            ),
            _ => Err(mismatch),
        },
        JsonValue::Int(n) => match t {
            DataType::Int64 => Ok(CellValue::Int(*n)),
            DataType::Float64 => Ok(
                CellValue::Float(crate::strutil::chars_to_string(&i64_to_chars(*n))),
            ),
            DataType::Utf8 => Ok(
                CellValue::Text(crate::strutil::chars_to_string(&i64_to_chars(*n))),
            ),
            _ => Err(mismatch),
        },
        JsonValue::Float(s) => match t {
            DataType::Float64 => Ok(CellValue::Float(s.clone())),
            DataType::Utf8 => Ok(CellValue::Text(s.clone())),
            _ => Err(mismatch),
        },
        JsonValue::Str(s) => match t {
            DataType::Utf8 => Ok(CellValue::Text(s.clone())),
            _ => Err(mismatch),
        },
        JsonValue::Array(_) => match t {
            DataType::Utf8 => Ok(CellValue::Text(json_to_string(v))),
            _ => Err(mismatch),
        },
        JsonValue::Object(_) => match t {
            DataType::Utf8 => Ok(CellValue::Text(json_to_string(v))),
            _ => Err(mismatch),
        },
    }
}

/// The row one record yields under a schema: one cell per column, in
/// schema order; a missing member is `NULL`. `None` when the record is
/// not an object or a member does not fit its column.
pub open spec fn row_of_record(
    rec: JsonValue,
    sv: Seq<(Seq<char>, DataType, bool)>,
    i: int,
) -> Option<Seq<CellRep>>
    decreases sv.len() - i,
    when 0 <= i
{
    match rec {
        JsonValue::Object(members) => {
            if i >= sv.len() {
                Some(Seq::empty())
            } else {
                let cell = match obj_get(members@, sv[i].0) {
                    Some(v) => coerce_spec(v, sv[i].1),
                    None => Some(CellRep::Null),
                };
                match cell {
                    Some(c) => match row_of_record(rec, sv, i + 1) {
                        Some(rest) => Some(seq![c] + rest),
                        None => None,
                    },
                    None => None,
                }
            }
        },
        _ => None,
    }
}

/// Find an object member without disturbing the object.
fn get_member<'a>(members: &'a Vec<(String, JsonValue)>, key: &String) -> (r: Option<
    &'a JsonValue,
>)
    ensures
        match r {
            Some(v) => obj_get(members@, key@) == Some(*v),
            None => obj_get(members@, key@) is None,
        },
{
    let mut k: usize = 0;
    proof {
        assert(members@.skip(0) =~= members@);
    }
    while k < members.len()
        invariant
            k <= members@.len(),
            obj_get(members@, key@) == obj_get(members@.skip(k as int), key@),
        decreases members@.len() - k,
    {
        proof {
            assert(members@.skip(k as int)[0] == members@[k as int]);
            assert(members@.skip(k as int).skip(1) =~= members@.skip(k as int + 1));
        }
        if members[k].0.eq(key) {
            return Some(&members[k].1);
        }
        k = k + 1;
    }
    proof {
        assert(members@.skip(k as int).len() == 0);
    }
    None
}

/// Turn one record into a row under the schema.
pub fn record_to_row(rec: &JsonValue, schema: &Schema) -> (r: Result<Vec<CellValue>, ApitapError>)
    ensures
        match r {
            Ok(row) => row_of_record(*rec, schema_view(schema), 0) == Some(row_view(row@)),
            Err(e) => row_of_record(*rec, schema_view(schema), 0) is None && (e is DataTypeError
                || e is PipelineError),
        },
{
    match rec {
        JsonValue::Object(members) => {
            let ghost sv = schema_view(schema);
            let mut row: Vec<CellValue> = Vec::new();
            let mut i: usize = 0;
            while i < schema.fields.len()
                invariant
                    i <= schema.fields@.len(),
                    sv == schema_view(schema),
                    sv.len() == schema.fields@.len(),
                    rec is Object && rec->Object_0 == members,
                    row_of_record(*rec, sv, 0) == (match row_of_record(*rec, sv, i as int) {
                        Some(rest) => Some(row_view(row@) + rest),
                        None => None::<Seq<CellRep>>,
                    }),
                decreases schema.fields@.len() - i,
            {
                let ghost i0 = i as int;
                proof {
                    assert(sv[i0] == (schema.fields@[i0].name@, schema.fields@[i0].data_type,
                    schema.fields@[i0].nullable));
                }
                let field = &schema.fields[i];
                let cell = match get_member(members, &field.name) {
                    Some(v) => match coerce_value(v, field.data_type) {
                        Ok(c) => c,
                        Err(e) => {
                            proof {
                                assert(row_of_record(*rec, sv, i0) is None);
                                assert(row_of_record(*rec, sv, 0) is None);
                            }
                            return Err(e);
                        },
                    },
                    None => CellValue::Null,
                };
                let ghost gc = cell_view(cell);
                proof {
                    assert(row_of_record(*rec, sv, i0) == (match row_of_record(
                        *rec,
                        sv,
                        i0 + 1,
                    ) {
                        Some(rest) => Some(seq![gc] + rest),
                        None => None::<Seq<CellRep>>,
                    }));
                }
                let ghost row0 = row@;
                row.push(cell);
                i = i + 1;
                proof {
                    assert(row_view(row@) =~= row_view(row0).push(gc));
                    if row_of_record(*rec, sv, i as int) is Some {
                        let rest = row_of_record(*rec, sv, i as int)->Some_0;
                        assert(row_view(row0).push(gc) + rest =~= row_view(row0) + (seq![gc]
                            + rest));
                    }
                }
            }
            proof {
                assert(row_of_record(*rec, sv, i as int) == Some(Seq::<CellRep>::empty()));
                assert(row_view(row@) + Seq::<CellRep>::empty() =~= row_view(row@));
            }
            Ok(row)
        },
        _ => Err(
            ApitapError::PipelineError(String::from_str("record is not a JSON object")),
        ),
    }
}

/// One batch: the schema it declares and its rows.
#[derive(Debug)]
pub struct Batch {
    pub schema: Schema,
    pub rows: Vec<Vec<CellValue>>,
}

/// The rows every record of a slice yields, in order.
pub open spec fn rows_of_records(
    records: Seq<JsonValue>,
    sv: Seq<(Seq<char>, DataType, bool)>,
    i: int,
) -> Option<Seq<Seq<CellRep>>>
    decreases records.len() - i,
    when 0 <= i
{
    if i >= records.len() {
        Some(Seq::empty())
    } else {
        match row_of_record(records[i], sv, 0) {
            Some(row) => match rows_of_records(records, sv, i + 1) {
                Some(rest) => Some(seq![row] + rest),
                None => None,
            },
            None => None,
        }
    }
}

/// The concatenation of every batch's row contents.
pub open spec fn batches_rows(batches: Seq<Batch>) -> Seq<Seq<CellRep>>
    decreases batches.len(),
{
    if batches.len() == 0 {
        Seq::empty()
    } else {
        rows_view(batches[0].rows@) + batches_rows(batches.skip(1))
    }
}

/// Every batch declares the given schema.
pub open spec fn batches_schema_stable(
    batches: Seq<Batch>,
    sv: Seq<(Seq<char>, DataType, bool)>,
) -> bool {
    forall|j: int| 0 <= j < batches.len() ==> schema_view(&(#[trigger] batches[j]).schema) == sv
}

/// Group the records' rows into batches of at most `batch_size` rows.
///
/// Every batch declares the one given schema, and the batches' rows,
/// concatenated in order, are exactly the records' rows in order: the
/// sampling prefix is re-emitted, nothing is dropped or reordered.
pub fn build_batches(records: &Vec<JsonValue>, schema: &Schema, batch_size: usize) -> (r: Result<
    Vec<Batch>,
    ApitapError,
>)
    requires
        batch_size >= 1,
    ensures
        match r {
            Ok(batches) => {
                &&& rows_of_records(records@, schema_view(schema), 0) matches Some(all)
                &&& batches_rows(batches@) == all
                &&& batches_schema_stable(batches@, schema_view(schema))
                &&& forall|j: int|
                    0 <= j < batches@.len() ==> 1 <= (#[trigger] batches@[j]).rows@.len()
                        <= batch_size
            },
            Err(_) => rows_of_records(records@, schema_view(schema), 0) is None,
        },
{
    let ghost sv = schema_view(schema);
    let mut batches: Vec<Batch> = Vec::new();
    let mut current: Vec<Vec<CellValue>> = Vec::new();
    let mut i: usize = 0;
    while i < records.len()
        invariant
            i <= records@.len(),
            sv == schema_view(schema),
            current@.len() < batch_size,
            batch_size >= 1,
            batches_schema_stable(batches@, sv),
            forall|j: int|
                0 <= j < batches@.len() ==> 1 <= (#[trigger] batches@[j]).rows@.len()
                    <= batch_size,
            rows_of_records(records@, sv, 0) == (match rows_of_records(records@, sv, i as int) {
                Some(rest) => Some(batches_rows(batches@) + rows_view(current@) + rest),
                None => None::<Seq<Seq<CellRep>>>,
            }),
        decreases records@.len() - i,
    {
        let ghost i0 = i as int;
        let row = match record_to_row(&records[i], schema) {
            Ok(row) => row,
            Err(e) => {
                proof {
                    assert(rows_of_records(records@, sv, i0) is None);
                }
                return Err(e);
            },
        };
        let ghost grow = row_view(row@);
        proof {
            assert(rows_of_records(records@, sv, i0) == (match rows_of_records(
                records@,
                sv,
                i0 + 1,
            ) {
                Some(rest) => Some(seq![grow] + rest),
                None => None::<Seq<Seq<CellRep>>>,
            }));
        }
        let ghost cur0 = rows_view(current@);
        current.push(row);
        proof {
            assert(rows_view(current@) =~= cur0.push(grow));
        }
        i = i + 1;
        if current.len() == batch_size {
            let ghost b0 = batches@;
            batches.push(Batch { schema: schema.clone(), rows: current });
            current = Vec::new();
            proof {
                lemma_batches_rows_push(b0, batches@[batches@.len() - 1]);
                assert(rows_view(Seq::<Vec<CellValue>>::empty()) =~= Seq::<Seq<CellRep>>::empty());
                if rows_of_records(records@, sv, i as int) is Some {
                    let rest = rows_of_records(records@, sv, i as int)->Some_0;
                    assert((batches_rows(b0) + cur0.push(grow)) + rest =~= batches_rows(b0) + (
                    cur0 + (seq![grow] + rest)));
                    assert(batches_rows(batches@) + rows_view(Seq::<Vec<CellValue>>::empty())
                        + rest =~= batches_rows(b0) + cur0.push(grow) + rest);
                }
            }
        } else {
            proof {
                if rows_of_records(records@, sv, i as int) is Some {
                    let rest = rows_of_records(records@, sv, i as int)->Some_0;
                    assert(batches_rows(batches@) + cur0.push(grow) + rest =~= batches_rows(
                        batches@,
                    ) + cur0 + (seq![grow] + rest));
                }
            }
        }
    }
    if current.len() > 0 {
        let ghost b0 = batches@;
        let ghost curv = rows_view(current@);
        batches.push(Batch { schema: schema.clone(), rows: current });
        proof {
            lemma_batches_rows_push(b0, batches@[batches@.len() - 1]);
            assert(rows_of_records(records@, sv, i as int) == Some(Seq::<Seq<CellRep>>::empty()));
            assert(batches_rows(b0) + curv + Seq::<Seq<CellRep>>::empty() =~= batches_rows(b0)
                + curv);
        }
    } else {
        proof {
            assert(rows_of_records(records@, sv, i as int) == Some(Seq::<Seq<CellRep>>::empty()));
            assert(rows_view(current@) =~= Seq::<Seq<CellRep>>::empty());
            assert(batches_rows(batches@) + Seq::<Seq<CellRep>>::empty() + Seq::<
                Seq<CellRep>,
            >::empty() =~= batches_rows(batches@));
        }
    }
    Ok(batches)
}

proof fn lemma_batches_rows_push(batches: Seq<Batch>, b: Batch)
    ensures
        batches_rows(batches.push(b)) == batches_rows(batches) + rows_view(b.rows@),
    decreases batches.len(),
{
    if batches.len() == 0 {
        assert(batches.push(b).skip(1) =~= Seq::<Batch>::empty());
        assert(batches.push(b)[0] == b);
        assert(batches_rows(batches.push(b)) == rows_view(b.rows@) + batches_rows(
            Seq::<Batch>::empty(),
        ));
        assert(rows_view(b.rows@) + Seq::<Seq<CellRep>>::empty() =~= rows_view(b.rows@));
        assert(Seq::<Seq<CellRep>>::empty() + rows_view(b.rows@) =~= rows_view(b.rows@));
    } else {
        assert(batches.push(b).skip(1) =~= batches.skip(1).push(b));
        assert(batches.push(b)[0] == batches[0]);
        lemma_batches_rows_push(batches.skip(1), b);
        assert(rows_view(batches[0].rows@) + (batches_rows(batches.skip(1)) + rows_view(b.rows@))
            =~= (rows_view(batches[0].rows@) + batches_rows(batches.skip(1))) + rows_view(
            b.rows@,
        ));
    }
}

/// Whether a cell holds exactly the content of a scalar value.
pub open spec fn cell_json_matches(c: CellRep, v: JsonValue) -> bool {
    match (c, v) {
        (CellRep::Null, JsonValue::Null) => true,
        (CellRep::Bool(a), JsonValue::Bool(b)) => a == b,
        (CellRep::Int(a), JsonValue::Int(b)) => a == b as int,
        (CellRep::Float(s), JsonValue::Float(x)) => s == x@,
        (CellRep::Text(s), JsonValue::Str(x)) => s == x@,
        _ => false,
    }
}

/// Decode one cell back to a scalar JSON value.
pub fn cell_to_json(c: &CellValue) -> (r: JsonValue)
    ensures
        match c {
            CellValue::Null => r is Null,
            CellValue::Bool(b) => r == JsonValue::Bool(*b),
            CellValue::Int(n) => r == JsonValue::Int(*n),
            CellValue::Float(s) => r matches JsonValue::Float(t) && t@ == s@,
            CellValue::Text(s) => r matches JsonValue::Str(t) && t@ == s@,
        },
{
    match c {
        CellValue::Null => JsonValue::Null,
        CellValue::Bool(b) => JsonValue::Bool(*b),
        CellValue::Int(n) => JsonValue::Int(*n),
        CellValue::Float(s) => JsonValue::Float(s.clone()),
        CellValue::Text(s) => JsonValue::Str(s.clone()),
    }
}

/// Scalars survive the trip into a cell and back: a scalar value that
/// lands in a column of exactly its own type yields a cell that still
/// holds the value's content, so decoding the cell reproduces the
/// original scalar. Together with [`build_batches`]'s guarantee that the
/// batches' rows are exactly the records' rows in order, a batch of
/// scalar-typed records reproduces the original records.
pub proof fn lemma_scalar_cell_round_trip(v: JsonValue, t: DataType)
    requires
        match v {
            JsonValue::Null => true,
            JsonValue::Bool(_) => t == DataType::Boolean,
            JsonValue::Int(_) => t == DataType::Int64,
            JsonValue::Float(_) => t == DataType::Float64,
            JsonValue::Str(_) => t == DataType::Utf8,
            _ => false,
        },
    ensures
        coerce_spec(v, t) matches Some(c) && cell_json_matches(c, v),
{
}

} // verus!
