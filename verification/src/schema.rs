//! Schema inference over sampled JSON records.
//!
//! Each record that is a JSON object contributes its members to a set of
//! tracked fields, in order of first appearance. A field's type is the
//! merge of everything observed under its key: `null` only marks the
//! field nullable, numbers split into integers and floats, text absorbs
//! any scalar, and arrays and objects are carried as serialized JSON
//! text. The emitted schema declares every column nullable, so records
//! past the sample window that lack a field stay writable.

use vstd::prelude::*;
use crate::errors::ApitapError;
use crate::json::JsonValue;

verus! {

/// The running type of one tracked field.
#[derive(Clone, Copy, Debug, PartialEq, Eq, Structural)]
pub enum FieldType {
    Unknown,
    Boolean,
    Int64,
    Float64,
    Text,
    List,
    Struct,
}

/// The column type a field is emitted with.
#[derive(Clone, Copy, Debug, PartialEq, Eq, Structural)]
pub enum DataType {
    Boolean,
    Int64,
    Float64,
    Utf8,
}

/// The merge of two observed field types.
pub open spec fn merge_spec(a: FieldType, b: FieldType) -> FieldType {
    match (a, b) {
        (FieldType::Unknown, t) => t,
        (t, FieldType::Unknown) => t,
        (FieldType::Boolean, FieldType::Boolean) => FieldType::Boolean,
        (FieldType::Int64, FieldType::Int64) => FieldType::Int64,
        (FieldType::Int64, FieldType::Float64) => FieldType::Float64,
        (FieldType::Float64, FieldType::Int64) => FieldType::Float64,
        (FieldType::Float64, FieldType::Float64) => FieldType::Float64,
        (FieldType::Text, _) => FieldType::Text,
        (_, FieldType::Text) => FieldType::Text,
        (FieldType::List, FieldType::List) => FieldType::List,
        (FieldType::Struct, FieldType::Struct) => FieldType::Struct,
        _ => FieldType::Text,
    }
}

impl FieldType {
    /// Merge another observation into this type.
    pub fn merge(self, other: FieldType) -> (r: FieldType)
        ensures
            r == merge_spec(self, other),
    {
        match (self, other) {
            (FieldType::Unknown, t) => t,
            (t, FieldType::Unknown) => t,
            (FieldType::Boolean, FieldType::Boolean) => FieldType::Boolean,
            (FieldType::Int64, FieldType::Int64) => FieldType::Int64,
            (FieldType::Int64, FieldType::Float64) => FieldType::Float64,
            (FieldType::Float64, FieldType::Int64) => FieldType::Float64,
            (FieldType::Float64, FieldType::Float64) => FieldType::Float64,
            (FieldType::Text, _) => FieldType::Text,
            (_, FieldType::Text) => FieldType::Text,
            (FieldType::List, FieldType::List) => FieldType::List,
            (FieldType::Struct, FieldType::Struct) => FieldType::Struct,
            _ => FieldType::Text,
        }
    }
}

/// The merge of observed types does not depend on the order of its two
/// arguments.
pub proof fn lemma_merge_commutative(a: FieldType, b: FieldType)
    ensures
        merge_spec(a, b) == merge_spec(b, a),
{
}

/// What has been observed under one key.
#[derive(Clone, Copy, Debug, PartialEq, Eq, Structural)]
pub struct FieldInference {
    pub data_type: FieldType,
    pub is_nullable: bool,
}

/// A fresh inference: nothing observed yet.
pub open spec fn inference_new_spec() -> FieldInference {
    FieldInference { data_type: FieldType::Unknown, is_nullable: false }
}

/// The inference after observing one value: `null` marks the field
/// nullable, every other value merges its type in; arrays and objects
/// count as text, carried as serialized JSON.
pub open spec fn observe_spec(f: FieldInference, v: JsonValue) -> FieldInference {
    match v {
        JsonValue::Null => FieldInference { data_type: f.data_type, is_nullable: true },
        JsonValue::Bool(_) => FieldInference {
            data_type: merge_spec(f.data_type, FieldType::Boolean),
            ..f
        },
        JsonValue::Int(_) => FieldInference {
            data_type: merge_spec(f.data_type, FieldType::Int64),
            ..f
        },
        JsonValue::Float(_) => FieldInference {
            data_type: merge_spec(f.data_type, FieldType::Float64),
            ..f
        },
        JsonValue::Str(_) => FieldInference {
            data_type: merge_spec(f.data_type, FieldType::Text),
            ..f
        },
        JsonValue::Array(_) => FieldInference {
            data_type: merge_spec(f.data_type, FieldType::Text),
            ..f
        },
        JsonValue::Object(_) => FieldInference {
            data_type: merge_spec(f.data_type, FieldType::Text),
            ..f
        },
    }
}

/// The column type an inference is emitted with.
pub open spec fn to_data_type_spec(f: FieldInference) -> DataType {
    match f.data_type {
        FieldType::Unknown => DataType::Utf8,
        FieldType::Boolean => DataType::Boolean,
        FieldType::Int64 => DataType::Int64,
        FieldType::Float64 => DataType::Float64,
        FieldType::Text => DataType::Utf8,
        FieldType::List => DataType::Utf8,
        FieldType::Struct => DataType::Utf8,
    }
}

impl FieldInference {
    /// A fresh inference: nothing observed yet.
    pub fn new() -> (r: Self)
        ensures
            r == inference_new_spec(),
    {
        FieldInference { data_type: FieldType::Unknown, is_nullable: false }
    }

    /// Observe one value under this field's key.
    pub fn observe(&mut self, value: &JsonValue)
        ensures
            *final(self) == observe_spec(*old(self), *value),
    {
        match value {
            JsonValue::Null => {
                self.is_nullable = true;
            },
            JsonValue::Bool(_) => {
                self.data_type = self.data_type.merge(FieldType::Boolean);
            },
            JsonValue::Int(_) => {
                self.data_type = self.data_type.merge(FieldType::Int64);
            },
            JsonValue::Float(_) => {
                self.data_type = self.data_type.merge(FieldType::Float64);
            },
            JsonValue::Str(_) => {
                self.data_type = self.data_type.merge(FieldType::Text);
            },
            JsonValue::Array(_) => {
                self.data_type = self.data_type.merge(FieldType::Text);
            },
            JsonValue::Object(_) => {
                self.data_type = self.data_type.merge(FieldType::Text);
            },
        }
    }

    /// The column type this inference is emitted with.
    pub fn to_data_type(&self) -> (r: DataType)
        ensures
            r == to_data_type_spec(*self),
    {
        match self.data_type {
            FieldType::Unknown => DataType::Utf8,
            FieldType::Boolean => DataType::Boolean,
            FieldType::Int64 => DataType::Int64,
            FieldType::Float64 => DataType::Float64,
            FieldType::Text => DataType::Utf8,
            FieldType::List => DataType::Utf8,
            FieldType::Struct => DataType::Utf8,
        }
    }
}

/// One emitted column.
#[derive(Debug)]
pub struct Field {
    pub name: String,
    pub data_type: DataType,
    pub nullable: bool,
}

impl Field {
    /// The mathematical content of a column: name, type, nullability.
    pub open spec fn view_spec(&self) -> (Seq<char>, DataType, bool) {
        (self.name@, self.data_type, self.nullable)
    }
}

impl Clone for Field {
    /// A copy with the same name, type and nullability.
    fn clone(&self) -> (r: Self)
        ensures
            r.view_spec() == self.view_spec(),
    {
        Field { name: self.name.clone(), data_type: self.data_type, nullable: self.nullable }
    }
}

/// An inferred schema: the emitted columns, in order of first appearance.
#[derive(Debug)]
pub struct Schema {
    pub fields: Vec<Field>,
}

/// The mathematical contents of a column list.
pub open spec fn field_views(fields: Seq<Field>) -> Seq<(Seq<char>, DataType, bool)> {
    fields.map_values(|f: Field| f.view_spec())
}

/// The mathematical content of a schema.
pub open spec fn schema_view(s: &Schema) -> Seq<(Seq<char>, DataType, bool)> {
    field_views(s.fields@)
}

impl Clone for Schema {
    /// A copy with the same columns.
    fn clone(&self) -> (r: Self)
        ensures
            schema_view(&r) == schema_view(self),
    {
        let mut fields: Vec<Field> = Vec::new();
        let mut i: usize = 0;
        while i < self.fields.len()
            invariant
                i <= self.fields@.len(),
                field_views(fields@) == field_views(self.fields@.subrange(0, i as int)),
            decreases self.fields@.len() - i,
        {
            let ghost pre = fields@;
            let f = self.fields[i].clone();
            let ghost gf = f;
            proof {
                assert(gf.view_spec() == self.fields@[i as int].view_spec());
            }
            fields.push(f);
            i = i + 1;
            proof {
                assert(fields@ == pre.push(gf));
                assert(field_views(pre).len() == pre.len());
                assert(field_views(self.fields@.subrange(0, i - 1)).len() == i - 1);
                assert(pre.len() == i - 1);
                assert forall|j: int| 0 <= j < i implies field_views(fields@)[j] == field_views(
                    self.fields@.subrange(0, i as int),
                )[j] by {
                    assert(field_views(fields@)[j] == fields@[j].view_spec());
                    assert(field_views(self.fields@.subrange(0, i as int))[j] == self.fields@[
                        j].view_spec());
                    if j < i - 1 {
                        assert(field_views(pre)[j] == field_views(
                            self.fields@.subrange(0, i - 1),
                        )[j]);
                        assert(field_views(pre)[j] == pre[j].view_spec());
                        assert(field_views(self.fields@.subrange(0, i - 1))[j] == self.fields@[
                            j].view_spec());
                    }
                }
                assert(field_views(fields@) =~= field_views(
                    self.fields@.subrange(0, i as int),
                ));
            }
        }
        proof {
            assert(self.fields@.subrange(0, self.fields@.len() as int) =~= self.fields@);
        }
        Schema { fields }
    }
}

/// The columns a projection selects, in projection order.
pub open spec fn projected_view(
    sv: Seq<(Seq<char>, DataType, bool)>,
    ix: Seq<usize>,
) -> Seq<(Seq<char>, DataType, bool)> {
    ix.map_values(|k: usize| sv[k as int])
}

/// Re-project a schema: keep the full schema without a projection, or
/// select the named column indices in order. An index past the schema
/// is rejected.
pub fn project_schema(schema: &Schema, projections: &Option<Vec<usize>>) -> (r: Result<
    Schema,
    ApitapError,
>)
    ensures
        match r {
            Ok(p) => match projections {
                Some(ix) => (forall|j: int|
                    0 <= j < ix@.len() ==> (#[trigger] ix@[j]) < schema.fields@.len())
                    && schema_view(&p) == projected_view(schema_view(schema), ix@),
                None => schema_view(&p) == schema_view(schema),
            },
            Err(e) => {
                &&& projections matches Some(ix)
                &&& !(forall|j: int|
                    0 <= j < ix@.len() ==> (#[trigger] ix@[j]) < schema.fields@.len())
                &&& e is PipelineError
            },
        },
{
    match projections {
        Some(ix) => {
            let ghost sv = schema_view(schema);
            let mut fields: Vec<Field> = Vec::new();
            let mut i: usize = 0;
            while i < ix.len()
                invariant
                    i <= ix@.len(),
                    sv == schema_view(schema),
                    sv.len() == schema.fields@.len(),
                    (projections matches Some(ixr) && ixr@ == ix@),
                    forall|j: int| 0 <= j < i ==> (#[trigger] ix@[j]) < schema.fields@.len(),
                    field_views(fields@) == projected_view(sv, ix@.subrange(0, i as int)),
                decreases ix@.len() - i,
            {
                let k = ix[i];
                if k >= schema.fields.len() {
                    proof {
                        assert(projections is Some);
                        assert(ix@[i as int] >= schema.fields@.len());
                    }
                    return Err(
                        ApitapError::PipelineError(
                            String::from_str("projection index out of range"),
                        ),
                    );
                }
                let ghost pre = fields@;
                let f = schema.fields[k].clone();
                let ghost gf = f;
                fields.push(f);
                i = i + 1;
                proof {
                    assert(fields@ == pre.push(gf));
                    assert(gf.view_spec() == sv[ix@[i - 1] as int]);
                    assert(field_views(pre).len() == pre.len());
                    assert(projected_view(sv, ix@.subrange(0, i - 1)).len() == i - 1);
                    assert forall|j: int|
                        0 <= j < i implies field_views(fields@)[j] == projected_view(
                        sv,
                        ix@.subrange(0, i as int),
                    )[j] by {
                        assert(field_views(fields@)[j] == fields@[j].view_spec());
                        assert(projected_view(sv, ix@.subrange(0, i as int))[j] == sv[ix@[
                            j] as int]);
                        if j < i - 1 {
                            assert(field_views(pre)[j] == projected_view(
                                sv,
                                ix@.subrange(0, i - 1),
                            )[j]);
                            assert(field_views(pre)[j] == pre[j].view_spec());
                            assert(projected_view(sv, ix@.subrange(0, i - 1))[j] == sv[ix@[
                                j] as int]);
                        }
                    }
                    assert(field_views(fields@) =~= projected_view(sv, ix@.subrange(0, i as int)));
                }
            }
            proof {
                assert(ix@.subrange(0, ix@.len() as int) =~= ix@);
            }
            Ok(Schema { fields })
        },
        None => Ok(schema.clone()),
    }
}

/// The index of the first tracked field with the given name, or the
/// length when none has it.
pub open spec fn key_index(acc: Seq<(String, FieldInference)>, key: Seq<char>) -> int
    decreases acc.len(),
{
    if acc.len() == 0 {
        0
    } else if acc[0].0@ == key {
        0
    } else {
        1 + key_index(acc.skip(1), key)
    }
}

pub proof fn lemma_key_index_bounds(acc: Seq<(String, FieldInference)>, key: Seq<char>)
    ensures
        0 <= key_index(acc, key) <= acc.len(),
        key_index(acc, key) < acc.len() ==> acc[key_index(acc, key)].0@ == key,
    decreases acc.len(),
{
    if acc.len() > 0 && acc[0].0@ != key {
        lemma_key_index_bounds(acc.skip(1), key);
    }
}

/// The tracked fields after observing one member.
pub open spec fn observe_one_spec(
    acc: Seq<(String, FieldInference)>,
    key: String,
    v: JsonValue,
) -> Seq<(String, FieldInference)> {
    let i = key_index(acc, key@);
    if i < acc.len() {
        acc.update(i, (acc[i].0, observe_spec(acc[i].1, v)))
    } else {
        acc.push((key, observe_spec(inference_new_spec(), v)))
    }
}

/// The tracked fields after observing an object's members from `j` on.
pub open spec fn observe_members_spec(
    acc: Seq<(String, FieldInference)>,
    members: Seq<(String, JsonValue)>,
    j: int,
) -> Seq<(String, FieldInference)>
    decreases members.len() - j,
    when 0 <= j
{
    if j >= members.len() {
        acc
    } else {
        observe_members_spec(observe_one_spec(acc, members[j].0, members[j].1), members, j + 1)
    }
}

/// The tracked fields after observing one record. Only objects
/// contribute.
pub open spec fn observe_record_spec(
    acc: Seq<(String, FieldInference)>,
    rec: JsonValue,
) -> Seq<(String, FieldInference)> {
    match rec {
        JsonValue::Object(members) => observe_members_spec(acc, members@, 0),
        _ => acc,
    }
}

/// The tracked fields after observing the first `n` records.
pub open spec fn infer_fold(values: Seq<JsonValue>, n: int) -> Seq<(String, FieldInference)>
    decreases n,
    when n >= 0
{
    if n <= 0 {
        Seq::empty()
    } else {
        observe_record_spec(infer_fold(values, n - 1), values[n - 1])
    }
}

/// The schema the tracked fields emit: every column nullable.
pub open spec fn emitted_schema(acc: Seq<(String, FieldInference)>) -> Seq<
    (Seq<char>, DataType, bool),
> {
    acc.map_values(|p: (String, FieldInference)| (p.0@, to_data_type_spec(p.1), true))
}

/// Find a tracked field by name.
fn find_key(acc: &Vec<(String, FieldInference)>, key: &String) -> (r: usize)
    ensures
        r as int == key_index(acc@, key@),
{
    let mut k: usize = 0;
    proof {
        assert(acc@.skip(0) =~= acc@);
    }
    while k < acc.len()
        invariant
            k <= acc@.len(),
            key_index(acc@, key@) == k as int + key_index(acc@.skip(k as int), key@),
        decreases acc@.len() - k,
    {
        proof {
            assert(acc@.skip(k as int)[0] == acc@[k as int]);
            assert(acc@.skip(k as int).skip(1) =~= acc@.skip(k as int + 1));
            lemma_key_index_bounds(acc@.skip(k as int + 1), key@);
        }
        if acc[k].0.eq(key) {
            return k;
        }
        k = k + 1;
    }
    proof {
        assert(acc@.skip(k as int).len() == 0);
    }
    k
}

/// Observe one member of a record.
fn observe_one(acc: &mut Vec<(String, FieldInference)>, key: &String, v: &JsonValue)
    ensures
        final(acc)@ == observe_one_spec(old(acc)@, *key, *v),
{
    proof {
        lemma_key_index_bounds(acc@, key@);
    }
    let i = find_key(acc, key);
    if i < acc.len() {
        let mut inf = acc[i].1;
        inf.observe(v);
        let name = acc[i].0.clone();
        acc.set(i, (name, inf));
        proof {
            assert(acc@ =~~= observe_one_spec(old(acc)@, *key, *v));
        }
    } else {
        let mut inf = FieldInference::new();
        inf.observe(v);
        acc.push((key.clone(), inf));
        proof {
            assert(acc@ =~~= observe_one_spec(old(acc)@, *key, *v));
        }
    }
}

/// Observe one record: each member of an object, nothing otherwise.
fn observe_record(acc: &mut Vec<(String, FieldInference)>, rec: &JsonValue)
    ensures
        final(acc)@ == observe_record_spec(old(acc)@, *rec),
{
    match rec {
        JsonValue::Object(members) => {
            let ghost acc0 = acc@;
            let mut j: usize = 0;
            while j < members.len()
                invariant
                    j <= members@.len(),
                    observe_members_spec(acc@, members@, j as int) == observe_members_spec(
                        acc0,
                        members@,
                        0,
                    ),
                decreases members@.len() - j,
            {
                let pair = &members[j];
                observe_one(acc, &pair.0, &pair.1);
                j = j + 1;
            }
        },
        _ => {},
    }
}

/// Emit the tracked fields as a schema: every column nullable, in
/// tracking order.
fn emit_fields(acc: &Vec<(String, FieldInference)>) -> (r: Schema)
    ensures
        schema_view(&r) == emitted_schema(acc@),
{
    let mut fields: Vec<Field> = Vec::new();
    let mut i: usize = 0;
    while i < acc.len()
        invariant
            i <= acc@.len(),
            field_views(fields@) == emitted_schema(acc@.subrange(0, i as int)),
        decreases acc@.len() - i,
    {
        let ghost pre = fields@;
        let pair = &acc[i];
        let f = Field { name: pair.0.clone(), data_type: pair.1.to_data_type(), nullable: true };
        let ghost gf = f;
        proof {
            assert(gf.view_spec() == (acc@[i as int].0@, to_data_type_spec(acc@[i as int].1), true));
        }
        fields.push(f);
        i = i + 1;
        proof {
            assert(fields@ == pre.push(gf));
            assert(field_views(pre).len() == pre.len());
            assert(emitted_schema(acc@.subrange(0, i - 1)).len() == i - 1);
            assert(pre.len() == i - 1);
            assert forall|j: int| 0 <= j < i implies field_views(fields@)[j] == emitted_schema(
                acc@.subrange(0, i as int),
            )[j] by {
                assert(field_views(fields@)[j] == fields@[j].view_spec());
                assert(emitted_schema(acc@.subrange(0, i as int))[j] == (
                    acc@[j].0@,
                    to_data_type_spec(acc@[j].1),
                    true,
                ));
                if j < i - 1 {
                    assert(field_views(pre)[j] == emitted_schema(acc@.subrange(0, i - 1))[j]);
                    assert(field_views(pre)[j] == pre[j].view_spec());
                    assert(emitted_schema(acc@.subrange(0, i - 1))[j] == (
                        acc@[j].0@,
                        to_data_type_spec(acc@[j].1),
                        true,
                    ));
                }
            }
            assert(field_views(fields@) =~= emitted_schema(acc@.subrange(0, i as int)));
        }
    }
    proof {
        assert(acc@.subrange(0, acc@.len() as int) =~= acc@);
    }
    Schema { fields }
}

/// Infer the schema from the first `min_samples` records of a stream's
/// prefix (or fewer when the stream ended earlier); the rest of the
/// records are not consulted. Fields appear in order of first
/// appearance; every emitted column is nullable. A window in which no
/// record is an object with members is rejected.
pub fn infer_schema_sample(values: &Vec<JsonValue>, min_samples: usize) -> (r: Result<
    Schema,
    ApitapError,
>)
    ensures
        ({
            let n: int = if values@.len() <= min_samples {
                values@.len() as int
            } else {
                min_samples as int
            };
            match r {
                Ok(s) => infer_fold(values@, n).len() > 0 && schema_view(&s) == emitted_schema(
                    infer_fold(values@, n),
                ),
                Err(e) => {
                    &&& infer_fold(values@, n).len() == 0
                    &&& e matches ApitapError::PipelineError(m)
                    &&& m@ == "No fields found in JSON stream"@
                },
            }
        }),
{
    let limit = if values.len() <= min_samples {
        values.len()
    } else {
        min_samples
    };
    let mut acc: Vec<(String, FieldInference)> = Vec::new();
    let mut n: usize = 0;
    while n < limit
        invariant
            n <= limit <= values@.len(),
            acc@ == infer_fold(values@, n as int),
        decreases limit - n,
    {
        observe_record(&mut acc, &values[n]);
        n = n + 1;
    }
    if acc.len() == 0 {
        return Err(ApitapError::PipelineError(String::from_str("No fields found in JSON stream")));
    }
    Ok(emit_fields(&acc))
}

/// Infer the schema of a record sample.
///
/// Fields appear in order of first appearance across the sampled
/// records; every emitted column is nullable. An empty sample, or one in
/// which no record is an object with members, is rejected.
pub fn infer_schema_from_values(values: &Vec<JsonValue>) -> (r: Result<Schema, ApitapError>)
    ensures
        match r {
            Ok(s) => {
                &&& values@.len() > 0
                &&& infer_fold(values@, values@.len() as int).len() > 0
                &&& schema_view(&s) == emitted_schema(infer_fold(values@, values@.len() as int))
            },
            Err(e) => {
                &&& e matches ApitapError::PipelineError(m)
                &&& (values@.len() == 0 && m@ == "No values provided for schema inference"@) || (
                values@.len() > 0 && infer_fold(values@, values@.len() as int).len() == 0 && m@
                    == "No fields found in JSON stream"@)
            },
        },
{
    if values.len() == 0 {
        return Err(
            ApitapError::PipelineError(
                String::from_str("No values provided for schema inference"),
            ),
        );
    }
    let mut acc: Vec<(String, FieldInference)> = Vec::new();
    let mut n: usize = 0;
    while n < values.len()
        invariant
            n <= values@.len(),
            acc@ == infer_fold(values@, n as int),
        decreases values@.len() - n,
    {
        observe_record(&mut acc, &values[n]);
        n = n + 1;
    }
    if acc.len() == 0 {
        return Err(ApitapError::PipelineError(String::from_str("No fields found in JSON stream")));
    }
    Ok(emit_fields(&acc))
}

} // verus!
