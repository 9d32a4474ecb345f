//! The relational sink writer's logic.
//!
//! Batches are persisted either by appending in stream order or by
//! merging on a primary-key column with last-write-wins semantics.
//! The SQL statements the writer issues — `CREATE TABLE`, multi-row
//! `INSERT`, and `INSERT ... ON CONFLICT ... DO UPDATE` — are built
//! here as text; executing them against a database happens outside the
//! library. An in-memory writer realises the same semantics over a row
//! vector and is the model the merge laws are stated on.

use vstd::prelude::*;
use crate::batch::{Batch, CellRep, CellValue, cell_view, row_view, rows_view};
use crate::errors::ApitapError;
use crate::schema::{DataType, Schema, schema_view};
use crate::strutil::{chars_to_string, i64_to_chars, push_chars, str_to_chars};

verus! {

/// How rows are persisted: appended unconditionally, or upserted by
/// primary key.
#[derive(Debug, Clone, Copy, PartialEq, Eq, Structural)]
pub enum WriteMode {
    /// Upsert: insert new rows, update rows whose key exists.
    Merge,
    /// Insert every row, never updating.
    Append,
}

/// One executed query's result, ready for a writer: the destination
/// table, the schema, and the row batches in emission order.
#[derive(Debug)]
pub struct QueryResultStream {
    pub table_name: String,
    pub schema: Schema,
    pub row_batches: Vec<Batch>,
}

/// A destination for query results. The engine drives one writer per
/// run: `begin`, then the batches, then `commit`, or `rollback` on a
/// failure; `on_error` reports a per-query failure without retrying.
pub trait DataWriter {
    fn write_stream(&mut self, result: &QueryResultStream, write_mode: WriteMode) -> Result<
        (),
        ApitapError,
    >;

    fn merge(&mut self, result: &QueryResultStream) -> Result<(), ApitapError>;

    fn on_error(&mut self, table: &String, error: &String) -> Result<(), ApitapError>;

    fn begin(&mut self) -> Result<(), ApitapError>;

    fn commit(&mut self) -> Result<(), ApitapError>;

    fn rollback(&mut self) -> Result<(), ApitapError>;
}

/// The index of the first row whose key column holds `key`, or the
/// length when none does.
pub open spec fn key_idx(sink: Seq<Seq<CellRep>>, key: CellRep, pk: int) -> int
    decreases sink.len(),
{
    if sink.len() == 0 {
        0
    } else if 0 <= pk < sink[0].len() && sink[0][pk] == key {
        0
    } else {
        1 + key_idx(sink.skip(1), key, pk)
    }
}

/// Whether a row has the key column and holds `key` there.
pub open spec fn row_has_key(row: Seq<CellRep>, key: CellRep, pk: int) -> bool {
    0 <= pk < row.len() && row[pk] == key
}

pub proof fn lemma_key_idx_char(sink: Seq<Seq<CellRep>>, key: CellRep, pk: int)
    ensures
        0 <= key_idx(sink, key, pk) <= sink.len(),
        key_idx(sink, key, pk) < sink.len() ==> row_has_key(sink[key_idx(sink, key, pk)], key, pk),
        forall|j: int| 0 <= j < key_idx(sink, key, pk) ==> !row_has_key(#[trigger] sink[j], key, pk),
        key_idx(sink, key, pk) == sink.len() ==> forall|j: int|
            0 <= j < sink.len() ==> !row_has_key(#[trigger] sink[j], key, pk),
    decreases sink.len(),
{
    if sink.len() > 0 {
        lemma_key_idx_char(sink.skip(1), key, pk);
        assert forall|j: int| 1 <= j < sink.len() implies sink.skip(1)[j - 1] == sink[j] by {}
    }
}

/// A first match is the key index.
pub proof fn lemma_key_idx_is_first(sink: Seq<Seq<CellRep>>, key: CellRep, pk: int, i: int)
    requires
        0 <= i < sink.len(),
        row_has_key(sink[i], key, pk),
        forall|j: int| 0 <= j < i ==> !row_has_key(#[trigger] sink[j], key, pk),
    ensures
        key_idx(sink, key, pk) == i,
{
    lemma_key_idx_char(sink, key, pk);
    let ki = key_idx(sink, key, pk);
    if ki < i {
        assert(row_has_key(sink[ki], key, pk));
        assert(false);
    }
    if ki > i {
        assert(!row_has_key(sink[i], key, pk));
        assert(false);
    }
}

/// Upsert one row: replace the first row with the same key, or append.
pub open spec fn merge_row_spec(sink: Seq<Seq<CellRep>>, row: Seq<CellRep>, pk: int) -> Seq<
    Seq<CellRep>,
>
    recommends
        0 <= pk < row.len(),
{
    let i = key_idx(sink, row[pk], pk);
    if i < sink.len() {
        sink.update(i, row)
    } else {
        sink.push(row)
    }
}

/// Upsert a batch of rows, in order: last write wins.
pub open spec fn merge_rows_spec(sink: Seq<Seq<CellRep>>, batch: Seq<Seq<CellRep>>, pk: int) -> Seq<
    Seq<CellRep>,
>
    decreases batch.len(),
{
    if batch.len() == 0 {
        sink
    } else {
        merge_rows_spec(merge_row_spec(sink, batch[0], pk), batch.skip(1), pk)
    }
}

/// Every row has the key column, and no two rows share a key.
pub open spec fn distinct_keys(batch: Seq<Seq<CellRep>>, pk: int) -> bool {
    (forall|j: int| 0 <= j < batch.len() ==> 0 <= pk < (#[trigger] batch[j]).len()) && (forall|
        j: int,
        k: int,
    |
        0 <= j < k < batch.len() ==> (#[trigger] batch[j])[pk] != (#[trigger] batch[k])[pk])
}

/// Merging rows whose keys differ from `key` moves neither the first
/// row holding `key` nor its content.
proof fn lemma_merge_stable(
    sink: Seq<Seq<CellRep>>,
    batch: Seq<Seq<CellRep>>,
    pk: int,
    key: CellRep,
    i: int,
)
    requires
        key_idx(sink, key, pk) == i,
        i < sink.len(),
        forall|j: int| 0 <= j < batch.len() ==> 0 <= pk < (#[trigger] batch[j]).len(),
        forall|j: int| 0 <= j < batch.len() ==> (#[trigger] batch[j])[pk] != key,
    ensures
        key_idx(merge_rows_spec(sink, batch, pk), key, pk) == i,
        merge_rows_spec(sink, batch, pk)[i] == sink[i],
        merge_rows_spec(sink, batch, pk).len() >= sink.len(),
    decreases batch.len(),
{
    lemma_key_idx_char(sink, key, pk);
    if batch.len() > 0 {
        let row = batch[0];
        let s1 = merge_row_spec(sink, row, pk);
        lemma_key_idx_char(sink, row[pk], pk);
        let q = key_idx(sink, row[pk], pk);
        assert(q != i) by {
            if q < sink.len() {
                assert(row_has_key(sink[q], row[pk], pk));
                assert(row_has_key(sink[i], key, pk));
            }
        }
        assert(s1[i] == sink[i]);
        assert forall|j: int| 0 <= j < i implies !row_has_key(#[trigger] s1[j], key, pk) by {
            if j == q {
                assert(s1[j] == row);
            } else {
                assert(s1[j] == sink[j]);
            }
        }
        assert(row_has_key(s1[i], key, pk));
        lemma_key_idx_is_first(s1, key, pk, i);
        lemma_merge_stable(s1, batch.skip(1), pk, key, i);
    }
}

/// Re-merging a batch of distinct keys changes nothing: the merge of a
/// batch is idempotent. Re-running a merge-mode load with identical
/// source data leaves the sink as it was.
pub proof fn lemma_merge_idempotent(sink: Seq<Seq<CellRep>>, batch: Seq<Seq<CellRep>>, pk: int)
    requires
        distinct_keys(batch, pk),
    ensures
        merge_rows_spec(merge_rows_spec(sink, batch, pk), batch, pk) == merge_rows_spec(
            sink,
            batch,
            pk,
        ),
    decreases batch.len(),
{
    if batch.len() > 0 {
        let row = batch[0];
        let rest = batch.skip(1);
        let s1 = merge_row_spec(sink, row, pk);
        let fin = merge_rows_spec(s1, rest, pk);
        lemma_key_idx_char(sink, row[pk], pk);
        let q0 = key_idx(sink, row[pk], pk);
        let q: int = if q0 < sink.len() {
            q0
        } else {
            sink.len() as int
        };
        assert(s1[q] == row);
        assert forall|j: int| 0 <= j < q implies !row_has_key(#[trigger] s1[j], row[pk], pk) by {
            assert(s1[j] == sink[j]);
        }
        assert(row_has_key(s1[q], row[pk], pk));
        lemma_key_idx_is_first(s1, row[pk], pk, q);
        assert forall|j: int| 0 <= j < rest.len() implies (#[trigger] rest[j])[pk] != row[pk] by {
            assert(rest[j] == batch[j + 1]);
        }
        assert forall|j: int| 0 <= j < rest.len() implies 0 <= pk < (#[trigger] rest[j]).len() by {
            assert(rest[j] == batch[j + 1]);
        }
        lemma_merge_stable(s1, rest, pk, row[pk], q);
        assert(key_idx(fin, row[pk], pk) == q && fin[q] == row);
        assert(merge_row_spec(fin, row, pk) == fin.update(q, row));
        assert(fin.update(q, row) =~= fin);
        assert(distinct_keys(rest, pk)) by {
            assert forall|j: int, k: int| 0 <= j < k < rest.len() implies (#[trigger] rest[j])[pk]
                != (#[trigger] rest[k])[pk] by {
                assert(rest[j] == batch[j + 1] && rest[k] == batch[k + 1]);
            }
            assert forall|j: int| 0 <= j < rest.len() implies 0 <= pk < (#[trigger] rest[j]).len() by {
                assert(rest[j] == batch[j + 1]);
            }
        }
        lemma_merge_idempotent(s1, rest, pk);
        assert(merge_rows_spec(merge_rows_spec(sink, batch, pk), batch, pk) == merge_rows_spec(
            merge_row_spec(fin, row, pk),
            rest,
            pk,
        ));
        assert(merge_row_spec(fin, row, pk) == fin);
    }
}

/// Merging never breaks key distinctness of the sink.
pub proof fn lemma_merge_keeps_distinct(sink: Seq<Seq<CellRep>>, batch: Seq<Seq<CellRep>>, pk: int)
    requires
        distinct_keys(sink, pk),
        forall|j: int| 0 <= j < batch.len() ==> 0 <= pk < (#[trigger] batch[j]).len(),
    ensures
        distinct_keys(merge_rows_spec(sink, batch, pk), pk),
    decreases batch.len(),
{
    if batch.len() > 0 {
        let row = batch[0];
        let s1 = merge_row_spec(sink, row, pk);
        lemma_key_idx_char(sink, row[pk], pk);
        let q0 = key_idx(sink, row[pk], pk);
        assert(distinct_keys(s1, pk)) by {
            if q0 < sink.len() {
                assert forall|j: int| 0 <= j < s1.len() implies 0 <= pk < (#[trigger] s1[j]).len() by {
                    if j != q0 {
                        assert(s1[j] == sink[j]);
                    } else {
                        assert(s1[j] == row);
                    }
                }
                assert forall|j: int, k: int| 0 <= j < k < s1.len() implies (#[trigger] s1[j])[pk]
                    != (#[trigger] s1[k])[pk] by {
                    if j == q0 {
                        assert(s1[j][pk] == row[pk] && s1[k] == sink[k]);
                        assert(sink[q0][pk] == row[pk]);
                    } else if k == q0 {
                        assert(s1[k][pk] == row[pk] && s1[j] == sink[j]);
                        assert(sink[q0][pk] == row[pk]);
                    } else {
                        assert(s1[j] == sink[j] && s1[k] == sink[k]);
                    }
                }
            } else {
                assert forall|j: int| 0 <= j < s1.len() implies 0 <= pk < (#[trigger] s1[j]).len() by {
                    if j < sink.len() {
                        assert(s1[j] == sink[j]);
                    } else {
                        assert(s1[j] == row);
                    }
                }
                assert forall|j: int, k: int| 0 <= j < k < s1.len() implies (#[trigger] s1[j])[pk]
                    != (#[trigger] s1[k])[pk] by {
                    if k == sink.len() {
                        assert(s1[k] == row && s1[j] == sink[j]);
                        assert(!row_has_key(sink[j], row[pk], pk));
                    } else {
                        assert(s1[j] == sink[j] && s1[k] == sink[k]);
                    }
                }
            }
        }
        lemma_merge_keeps_distinct(s1, batch.skip(1), pk);
    }
}

/// `row_view` commutes with `push`.
pub proof fn lemma_row_view_push(s: Seq<CellValue>, c: CellValue)
    ensures
        row_view(s.push(c)) == row_view(s).push(cell_view(c)),
{
    assert forall|j: int| 0 <= j < s.len() + 1 implies row_view(s.push(c))[j] == row_view(s).push(
        cell_view(c),
    )[j] by {
        if j < s.len() {
            assert(s.push(c)[j] == s[j]);
        } else {
            assert(s.push(c)[j] == c);
        }
    }
    assert(row_view(s.push(c)) =~= row_view(s).push(cell_view(c)));
}

/// `rows_view` commutes with `push`.
pub proof fn lemma_rows_view_push(s: Seq<Vec<CellValue>>, r: Vec<CellValue>)
    ensures
        rows_view(s.push(r)) == rows_view(s).push(row_view(r@)),
{
    assert forall|j: int| 0 <= j < s.len() + 1 implies rows_view(s.push(r))[j] == rows_view(
        s,
    ).push(row_view(r@))[j] by {
        if j < s.len() {
            assert(s.push(r)[j] == s[j]);
        } else {
            assert(s.push(r)[j] == r);
        }
    }
    assert(rows_view(s.push(r)) =~= rows_view(s).push(row_view(r@)));
}

/// `rows_view` commutes with `update`.
pub proof fn lemma_rows_view_update(s: Seq<Vec<CellValue>>, i: int, r: Vec<CellValue>)
    requires
        0 <= i < s.len(),
    ensures
        rows_view(s.update(i, r)) == rows_view(s).update(i, row_view(r@)),
{
    assert forall|j: int| 0 <= j < s.len() implies rows_view(s.update(i, r))[j] == rows_view(
        s,
    ).update(i, row_view(r@))[j] by {
        if j == i {
            assert(s.update(i, r)[j] == r);
        } else {
            assert(s.update(i, r)[j] == s[j]);
        }
    }
    assert(rows_view(s.update(i, r)) =~= rows_view(s).update(i, row_view(r@)));
}

/// The sink contents after appending a sequence of batches in order.
pub open spec fn append_all(sink: Seq<Seq<CellRep>>, batches: Seq<Seq<Seq<CellRep>>>) -> Seq<
    Seq<CellRep>,
>
    decreases batches.len(),
{
    if batches.len() == 0 {
        sink
    } else {
        append_all(sink + batches[0], batches.skip(1))
    }
}

/// Append mode preserves fetch order: appending batches one after the
/// other leaves the sink holding its old rows followed by every batch's
/// rows flattened in arrival order — no row moves ahead of an earlier
/// one.
pub proof fn lemma_append_order(sink: Seq<Seq<CellRep>>, batches: Seq<Seq<Seq<CellRep>>>)
    ensures
        append_all(sink, batches) == sink + batches.flatten(),
    decreases batches.len(),
{
    if batches.len() == 0 {
        assert(batches.flatten() =~= Seq::<Seq<CellRep>>::empty());
        assert(sink + Seq::<Seq<CellRep>>::empty() =~= sink);
    } else {
        lemma_append_order(sink + batches[0], batches.skip(1));
        assert(batches.flatten() == batches[0] + batches.skip(1).flatten()) by {
            assert(batches.drop_first() =~= batches.skip(1));
            assert(batches.first() == batches[0]);
        }
        assert((sink + batches[0]) + batches.skip(1).flatten() =~= sink + (batches[0]
            + batches.skip(1).flatten()));
    }
}

/// Equality of cell contents.
pub fn cell_eq(a: &CellValue, b: &CellValue) -> (r: bool)
    ensures
        r == (cell_view(*a) == cell_view(*b)),
{
    match (a, b) {
        (CellValue::Null, CellValue::Null) => true,
        (CellValue::Bool(x), CellValue::Bool(y)) => x == y,
        (CellValue::Int(x), CellValue::Int(y)) => x == y,
        (CellValue::Float(x), CellValue::Float(y)) => x.eq(y),
        (CellValue::Text(x), CellValue::Text(y)) => x.eq(y),
        _ => false,
    }
}

/// A copy of a cell with the same content.
pub fn clone_cell(c: &CellValue) -> (r: CellValue)
    ensures
        cell_view(r) == cell_view(*c),
{
    match c {
        CellValue::Null => CellValue::Null,
        CellValue::Bool(b) => CellValue::Bool(*b),
        CellValue::Int(n) => CellValue::Int(*n),
        CellValue::Float(s) => CellValue::Float(s.clone()),
        CellValue::Text(s) => CellValue::Text(s.clone()),
    }
}

/// A copy of a row with the same contents.
pub fn clone_row(r: &Vec<CellValue>) -> (out: Vec<CellValue>)
    ensures
        row_view(out@) == row_view(r@),
{
    let mut out: Vec<CellValue> = Vec::new();
    let mut i: usize = 0;
    while i < r.len()
        invariant
            i <= r@.len(),
            row_view(out@) == row_view(r@.subrange(0, i as int)),
        decreases r@.len() - i,
    {
        let ghost pre = out@;
        let c = clone_cell(&r[i]);
        let ghost gc = c;
        out.push(c);
        i = i + 1;
        proof {
            lemma_row_view_push(pre, gc);
            lemma_row_view_push(r@.subrange(0, i - 1), r@[i - 1]);
            assert(r@.subrange(0, i - 1).push(r@[i - 1]) =~= r@.subrange(0, i as int));
        }
    }
    proof {
        assert(r@.subrange(0, r@.len() as int) =~= r@);
        assert(row_view(out@) =~= row_view(r@));
    }
    out
}

/// Upsert every row of `batch` into `sink`, in order, by the key column
/// `pk`: a row replaces the first row sharing its key, or is appended.
pub fn merge_into(sink: &mut Vec<Vec<CellValue>>, batch: &Vec<Vec<CellValue>>, pk: usize) -> (r:
    Result<(), ApitapError>)
    ensures
        match r {
            Ok(_) => {
                &&& (forall|j: int|
                    0 <= j < batch@.len() ==> pk < (#[trigger] batch@[j]).len())
                &&& rows_view(final(sink)@) == merge_rows_spec(
                    rows_view(old(sink)@),
                    rows_view(batch@),
                    pk as int,
                )
            },
            Err(e) => {
                &&& e is MergeError
                &&& exists|j: int| 0 <= j < batch@.len() && pk >= (#[trigger] batch@[j]).len()
            },
        },
{
    let mut b: usize = 0;
    proof {
        assert(rows_view(batch@).skip(0) =~= rows_view(batch@));
    }
    while b < batch.len()
        invariant
            b <= batch@.len(),
            forall|j: int| 0 <= j < b ==> pk < (#[trigger] batch@[j]).len(),
            merge_rows_spec(rows_view(old(sink)@), rows_view(batch@), pk as int)
                == merge_rows_spec(rows_view(sink@), rows_view(batch@).skip(b as int), pk as int),
        decreases batch@.len() - b,
    {
        let ghost b0 = b as int;
        let row = &batch[b];
        if pk >= row.len() {
            proof {
                assert(rows_view(batch@)[b0] == row_view(batch@[b0]@));
            }
            return Err(
                ApitapError::MergeError(
                    String::from_str("row does not carry the primary key column"),
                ),
            );
        }
        proof {
            assert(rows_view(batch@).skip(b0)[0] == rows_view(batch@)[b0]);
            assert(rows_view(batch@).skip(b0).skip(1) =~= rows_view(batch@).skip(b0 + 1));
            assert(rows_view(batch@)[b0] == row_view(batch@[b0]@));
        }
        let ghost sink0 = rows_view(sink@);
        let ghost grow = row_view(row@);
        let ghost target = merge_row_spec(sink0, grow, pk as int);
        proof {
            lemma_key_idx_char(sink0, grow[pk as int], pk as int);
        }
        let mut k: usize = 0;
        let mut found = false;
        while k < sink.len() && !found
            invariant
                k <= sink@.len(),
                rows_view(sink@) == sink0,
                grow == row_view(row@),
                pk < row@.len(),
                !found ==> forall|j: int|
                    0 <= j < k ==> !row_has_key(#[trigger] sink0[j], grow[pk as int], pk as int),
                found ==> k < sink@.len() && row_has_key(sink0[k as int], grow[pk as int], pk as int)
                    && (forall|j: int|
                    0 <= j < k ==> !row_has_key(#[trigger] sink0[j], grow[pk as int], pk as int)),
            decreases sink@.len() - k + (if found { 0int } else { 1int }),
        {
            proof {
                assert(rows_view(sink@)[k as int] == row_view(sink@[k as int]@));
            }
            if pk < sink[k].len() && cell_eq(&sink[k][pk], &row[pk]) {
                found = true;
            } else {
                proof {
                    assert(!row_has_key(sink0[k as int], grow[pk as int], pk as int));
                }
                k = k + 1;
            }
        }
        if found {
            proof {
                lemma_key_idx_is_first(sink0, grow[pk as int], pk as int, k as int);
                assert(target == sink0.update(k as int, grow));
            }
            let ghost pre = sink@;
            let new_row = clone_row(row);
            let ghost gnr = new_row;
            sink.set(k, new_row);
            proof {
                lemma_rows_view_update(pre, k as int, gnr);
                assert(rows_view(sink@) =~= sink0.update(k as int, grow));
            }
        } else {
            proof {
                assert(key_idx(sink0, grow[pk as int], pk as int) == sink0.len()) by {
                    lemma_key_idx_char(sink0, grow[pk as int], pk as int);
                    if key_idx(sink0, grow[pk as int], pk as int) < sink0.len() {
                        assert(row_has_key(
                            sink0[key_idx(sink0, grow[pk as int], pk as int)],
                            grow[pk as int],
                            pk as int,
                        ));
                    }
                }
                assert(target == sink0.push(grow));
            }
            let ghost pre = sink@;
            let new_row = clone_row(row);
            let ghost gnr = new_row;
            sink.push(new_row);
            proof {
                lemma_rows_view_push(pre, gnr);
                assert(rows_view(sink@) =~= sink0.push(grow));
            }
        }
        b = b + 1;
    }
    proof {
        assert(rows_view(batch@).skip(b as int).len() == 0);
        assert(merge_rows_spec(rows_view(sink@), rows_view(batch@).skip(b as int), pk as int)
            == rows_view(sink@));
    }
    Ok(())
}

/// De-duplicate a chunk by primary key before sending: last write wins,
/// rows keep the position of their key's first appearance.
pub fn dedup_last_wins(rows: &Vec<Vec<CellValue>>, pk: usize) -> (r: Result<
    Vec<Vec<CellValue>>,
    ApitapError,
>)
    ensures
        match r {
            Ok(out) => {
                &&& rows_view(out@) == merge_rows_spec(
                    Seq::empty(),
                    rows_view(rows@),
                    pk as int,
                )
                &&& distinct_keys(rows_view(out@), pk as int)
            },
            Err(e) => e is MergeError,
        },
{
    let mut out: Vec<Vec<CellValue>> = Vec::new();
    match merge_into(&mut out, rows, pk) {
        Ok(_) => {
            proof {
                assert(rows_view(Seq::<Vec<CellValue>>::empty()) =~= Seq::<Seq<CellRep>>::empty());
                assert(distinct_keys(Seq::<Seq<CellRep>>::empty(), pk as int));
                lemma_merge_keeps_distinct(
                    Seq::<Seq<CellRep>>::empty(),
                    rows_view(rows@),
                    pk as int,
                );
            }
            Ok(out)
        },
        Err(e) => Err(e),
    }
}

/// The index of the first schema column with the given name.
pub open spec fn col_idx(sv: Seq<(Seq<char>, DataType, bool)>, name: Seq<char>) -> int
    decreases sv.len(),
{
    if sv.len() == 0 {
        0
    } else if sv[0].0 == name {
        0
    } else {
        1 + col_idx(sv.skip(1), name)
    }
}

/// Find a schema column by name.
pub fn col_index(schema: &Schema, name: &String) -> (r: Option<usize>)
    ensures
        match r {
            Some(k) => k as int == col_idx(schema_view(schema), name@) && k
                < schema.fields@.len(),
            None => col_idx(schema_view(schema), name@) == schema_view(schema).len(),
        },
{
    let ghost sv = schema_view(schema);
    let mut k: usize = 0;
    proof {
        assert(sv.skip(0) =~= sv);
        assert(sv.len() == schema.fields@.len());
    }
    while k < schema.fields.len()
        invariant
            k <= schema.fields@.len(),
            sv == schema_view(schema),
            sv.len() == schema.fields@.len(),
            col_idx(sv, name@) == k as int + col_idx(sv.skip(k as int), name@),
        decreases schema.fields@.len() - k,
    {
        proof {
            assert(sv.skip(k as int)[0] == sv[k as int]);
            assert(sv[k as int] == (schema.fields@[k as int].name@,
            schema.fields@[k as int].data_type, schema.fields@[k as int].nullable));
            assert(sv.skip(k as int).skip(1) =~= sv.skip(k as int + 1));
            lemma_col_idx_nonneg(sv.skip(k as int + 1), name@);
        }
        if schema.fields[k].name.eq(name) {
            return Some(k);
        }
        k = k + 1;
    }
    proof {
        assert(sv.skip(k as int).len() == 0);
    }
    None
}

proof fn lemma_col_idx_nonneg(sv: Seq<(Seq<char>, DataType, bool)>, name: Seq<char>)
    ensures
        col_idx(sv, name) >= 0,
    decreases sv.len(),
{
    if sv.len() > 0 && sv[0].0 != name {
        lemma_col_idx_nonneg(sv.skip(1), name);
    }
}

/// An in-memory sink realising the writer semantics: rows live in a
/// vector, appends keep stream order, merges upsert by the named key
/// column of each batch's schema.
#[derive(Debug)]
pub struct MemWriter {
    pub table_name: String,
    pub pk_name: Option<String>,
    pub rows: Vec<Vec<CellValue>>,
}

impl MemWriter {
    /// An empty sink for a table.
    pub fn new(table_name: String, pk_name: Option<String>) -> (r: Self)
        ensures
            r.rows@.len() == 0,
            r.pk_name == pk_name,
            r.table_name == table_name,
    {
        MemWriter { table_name, pk_name, rows: Vec::new() }
    }

    /// Append a batch: the sink holds the old rows, then the batch's
    /// rows, in order.
    pub fn append_batch(&mut self, batch: &Vec<Vec<CellValue>>)
        ensures
            rows_view(final(self).rows@) == rows_view(old(self).rows@) + rows_view(batch@),
            final(self).pk_name == old(self).pk_name,
            final(self).table_name == old(self).table_name,
    {
        let mut i: usize = 0;
        while i < batch.len()
            invariant
                i <= batch@.len(),
                rows_view(self.rows@) == rows_view(old(self).rows@) + rows_view(
                    batch@.subrange(0, i as int),
                ),
                self.pk_name == old(self).pk_name,
                self.table_name == old(self).table_name,
            decreases batch@.len() - i,
        {
            let ghost pre = self.rows@;
            let nr = clone_row(&batch[i]);
            let ghost gr = nr;
            self.rows.push(nr);
            i = i + 1;
            proof {
                lemma_rows_view_push(pre, gr);
                lemma_rows_view_push(batch@.subrange(0, i - 1), batch@[i - 1]);
                assert(batch@.subrange(0, i - 1).push(batch@[i - 1]) =~= batch@.subrange(
                    0,
                    i as int,
                ));
                assert(rows_view(pre).push(row_view(gr@)) =~= (rows_view(old(self).rows@)
                    + rows_view(batch@.subrange(0, i - 1))).push(row_view(batch@[i - 1]@)));
                assert((rows_view(old(self).rows@) + rows_view(batch@.subrange(0, i - 1))).push(
                    row_view(batch@[i - 1]@),
                ) =~= rows_view(old(self).rows@) + rows_view(batch@.subrange(0, i - 1)).push(
                    row_view(batch@[i - 1]@),
                ));
            }
        }
        proof {
            assert(batch@.subrange(0, batch@.len() as int) =~= batch@);
            assert(rows_view(self.rows@) =~= rows_view(old(self).rows@) + rows_view(batch@));
        }
    }

    /// Merge a batch by the given key column: upsert in order, last
    /// write wins.
    pub fn merge_batch(&mut self, batch: &Vec<Vec<CellValue>>, pk: usize) -> (r: Result<
        (),
        ApitapError,
    >)
        ensures
            match r {
                Ok(_) => {
                    &&& (forall|j: int|
                        0 <= j < batch@.len() ==> pk < (#[trigger] batch@[j]).len())
                    &&& rows_view(final(self).rows@) == merge_rows_spec(
                        rows_view(old(self).rows@),
                        rows_view(batch@),
                        pk as int,
                    )
                },
                Err(e) => {
                    &&& e is MergeError
                    &&& exists|j: int| 0 <= j < batch@.len() && pk >= (#[trigger] batch@[j]).len()
                },
            },
            final(self).pk_name == old(self).pk_name,
            final(self).table_name == old(self).table_name,
    {
        merge_into(&mut self.rows, batch, pk)
    }
}

/// Every row reaches up to the key column.
pub open spec fn rows_have_col(rows: Seq<Seq<CellRep>>, k: int) -> bool {
    forall|j: int| 0 <= j < rows.len() ==> k < (#[trigger] rows[j]).len()
}

/// The sink contents after one batch is written under a mode, or `None`
/// when a merge cannot proceed: no key is configured, the key is not a
/// column of the batch's schema, or a row stops short of it.
pub open spec fn write_step(
    sink: Seq<Seq<CellRep>>,
    b: &Batch,
    mode: WriteMode,
    pk_name: Option<String>,
) -> Option<Seq<Seq<CellRep>>> {
    match mode {
        WriteMode::Append => Some(sink + rows_view(b.rows@)),
        WriteMode::Merge => match pk_name {
            None => None,
            Some(n) => {
                let k = col_idx(schema_view(&b.schema), n@);
                if k < schema_view(&b.schema).len() && rows_have_col(rows_view(b.rows@), k) {
                    Some(merge_rows_spec(sink, rows_view(b.rows@), k))
                } else {
                    None
                }
            },
        },
    }
}

/// The sink contents after the batches from `i` on are written in
/// order, or `None` as soon as one cannot be.
pub open spec fn write_fold(
    sink: Seq<Seq<CellRep>>,
    batches: Seq<Batch>,
    mode: WriteMode,
    pk_name: Option<String>,
    i: int,
) -> Option<Seq<Seq<CellRep>>>
    decreases batches.len() - i,
    when 0 <= i
{
    if i >= batches.len() {
        Some(sink)
    } else {
        match write_step(sink, &batches[i], mode, pk_name) {
            Some(s2) => write_fold(s2, batches, mode, pk_name, i + 1),
            None => None,
        }
    }
}

/// Re-running a merge write with identical data leaves the sink as it
/// was: for a result of one batch whose rows carry pairwise-distinct
/// keys — what the per-chunk de-duplication guarantees — folding the
/// batch into the already-merged sink changes nothing.
pub proof fn lemma_write_fold_rerun_idempotent(
    sink: Seq<Seq<CellRep>>,
    batches: Seq<Batch>,
    pk_name: Option<String>,
)
    requires
        batches.len() == 1,
        pk_name matches Some(n) && distinct_keys(
            rows_view(batches[0].rows@),
            col_idx(schema_view(&batches[0].schema), n@),
        ),
    ensures
        write_fold(sink, batches, WriteMode::Merge, pk_name, 0) matches Some(s1) ==> write_fold(
            s1,
            batches,
            WriteMode::Merge,
            pk_name,
            0,
        ) == Some(s1),
{
    let n = pk_name->Some_0;
    let k = col_idx(schema_view(&batches[0].schema), n@);
    let rows = rows_view(batches[0].rows@);
    if write_fold(sink, batches, WriteMode::Merge, pk_name, 0) is Some {
        assert(write_step(sink, &batches[0], WriteMode::Merge, pk_name) is Some);
        assert(k < schema_view(&batches[0].schema).len() && rows_have_col(rows, k));
        let s1 = merge_rows_spec(sink, rows, k);
        assert(write_fold(sink, batches, WriteMode::Merge, pk_name, 0) == write_fold(
            s1,
            batches,
            WriteMode::Merge,
            pk_name,
            1,
        ));
        assert(write_fold(s1, batches, WriteMode::Merge, pk_name, 1) == Some(s1));
        assert(write_step(s1, &batches[0], WriteMode::Merge, pk_name) == Some(
            merge_rows_spec(s1, rows, k),
        ));
        lemma_merge_idempotent(sink, rows, k);
        assert(merge_rows_spec(s1, rows, k) == s1);
        assert(write_fold(s1, batches, WriteMode::Merge, pk_name, 0) == write_fold(
            s1,
            batches,
            WriteMode::Merge,
            pk_name,
            1,
        ));
    }
}

impl DataWriter for MemWriter {
    /// Write every batch of the result under the given mode: appends
    /// concatenate in stream order, merges upsert each batch on the
    /// configured key column with last write winning. Success exactly
    /// when every batch can be written; a merge without a usable key is
    /// a merge error.
    fn write_stream(&mut self, result: &QueryResultStream, write_mode: WriteMode) -> (r: Result<
        (),
        ApitapError,
    >)
        ensures
            match r {
                Ok(_) => write_fold(
                    rows_view(old(self).rows@),
                    result.row_batches@,
                    write_mode,
                    old(self).pk_name,
                    0,
                ) == Some(rows_view(final(self).rows@)),
                Err(e) => write_fold(
                    rows_view(old(self).rows@),
                    result.row_batches@,
                    write_mode,
                    old(self).pk_name,
                    0,
                ) is None && e is MergeError,
            },
            (write_mode == WriteMode::Merge && old(self).pk_name is None
                && result.row_batches@.len() > 0) ==> (r is Err && final(self).rows@ == old(
                self,
            ).rows@),
            final(self).pk_name == old(self).pk_name,
            final(self).table_name == old(self).table_name,
    {
        let ghost orig = rows_view(old(self).rows@);
        let ghost batches = result.row_batches@;
        let mut i: usize = 0;
        while i < result.row_batches.len()
            invariant
                i <= batches.len(),
                batches == result.row_batches@,
                orig == rows_view(old(self).rows@),
                (write_mode == WriteMode::Merge && old(self).pk_name is None) ==> (i == 0
                    && self.rows@ == old(self).rows@),
                self.pk_name == old(self).pk_name,
                self.table_name == old(self).table_name,
                write_fold(orig, batches, write_mode, old(self).pk_name, 0) == write_fold(
                    rows_view(self.rows@),
                    batches,
                    write_mode,
                    old(self).pk_name,
                    i as int,
                ),
            decreases batches.len() - i,
        {
            let ghost cur = rows_view(self.rows@);
            let ghost gi = i as int;
            let b = &result.row_batches[i];
            match write_mode {
                WriteMode::Append => {
                    self.append_batch(&b.rows);
                    proof {
                        assert(write_step(cur, &batches[gi], write_mode, old(self).pk_name)
                            == Some(rows_view(self.rows@)));
                    }
                },
                WriteMode::Merge => {
                    let pk_name = match &self.pk_name {
                        Some(n) => n.clone(),
                        None => {
                            proof {
                                assert(write_step(cur, &batches[gi], write_mode, old(
                                    self,
                                ).pk_name) is None);
                            }
                            return Err(
                                ApitapError::MergeError(
                                    String::from_str("merge mode requires a primary key"),
                                ),
                            );
                        },
                    };
                    let pk = match col_index(&b.schema, &pk_name) {
                        Some(k) => k,
                        None => {
                            proof {
                                assert(write_step(cur, &batches[gi], write_mode, old(
                                    self,
                                ).pk_name) is None);
                                assert(write_fold(cur, batches, write_mode, old(self).pk_name, gi)
                                    is None);
                            }
                            return Err(
                                ApitapError::MergeError(
                                    String::from_str(
                                        "primary key column is not part of the schema",
                                    ),
                                ),
                            );
                        },
                    };
                    let r = self.merge_batch(&b.rows, pk);
                    match r {
                        Ok(_) => {
                            proof {
                                assert forall|j: int|
                                    0 <= j < rows_view(batches[gi].rows@).len() implies pk < (
                                #[trigger] rows_view(batches[gi].rows@)[j]).len() by {
                                    assert(rows_view(batches[gi].rows@)[j] == row_view(
                                        batches[gi].rows@[j]@,
                                    ));
                                }
                                assert(write_step(cur, &batches[gi], write_mode, old(
                                    self,
                                ).pk_name) == Some(rows_view(self.rows@)));
                            }
                        },
                        Err(e) => {
                            proof {
                                let bad = choose|j: int|
                                    0 <= j < batches[gi].rows@.len() && pk >= (
                                    #[trigger] batches[gi].rows@[j]).len();
                                assert(rows_view(batches[gi].rows@)[bad] == row_view(
                                    batches[gi].rows@[bad]@,
                                ));
                                assert(!rows_have_col(rows_view(batches[gi].rows@), pk as int));
                                assert(write_step(cur, &batches[gi], write_mode, old(
                                    self,
                                ).pk_name) is None);
                                assert(write_fold(cur, batches, write_mode, old(self).pk_name, gi)
                                    is None);
                            }
                            return Err(e);
                        },
                    }
                },
            }
            i = i + 1;
        }
        Ok(())
    }

    /// Merge every batch of the result: the same fold under merge mode.
    fn merge(&mut self, result: &QueryResultStream) -> (r: Result<(), ApitapError>)
        ensures
            match r {
                Ok(_) => write_fold(
                    rows_view(old(self).rows@),
                    result.row_batches@,
                    WriteMode::Merge,
                    old(self).pk_name,
                    0,
                ) == Some(rows_view(final(self).rows@)),
                Err(e) => write_fold(
                    rows_view(old(self).rows@),
                    result.row_batches@,
                    WriteMode::Merge,
                    old(self).pk_name,
                    0,
                ) is None && e is MergeError,
            },
            final(self).pk_name == old(self).pk_name,
            final(self).table_name == old(self).table_name,
    {
        self.write_stream(result, WriteMode::Merge)
    }

    /// Report a failure without retrying; the sink is untouched.
    fn on_error(&mut self, _table: &String, _error: &String) -> (r: Result<(), ApitapError>)
        ensures
            r is Ok,
            *final(self) == *old(self),
    {
        Ok(())
    }

    /// Transaction-start hook; the in-memory sink has nothing to open.
    fn begin(&mut self) -> (r: Result<(), ApitapError>)
        ensures
            r is Ok,
            *final(self) == *old(self),
    {
        Ok(())
    }

    /// Transaction-commit hook; the in-memory sink has nothing to close.
    fn commit(&mut self) -> (r: Result<(), ApitapError>)
        ensures
            r is Ok,
            *final(self) == *old(self),
    {
        Ok(())
    }

    /// Transaction-rollback hook; the in-memory sink keeps its rows.
    fn rollback(&mut self) -> (r: Result<(), ApitapError>)
        ensures
            r is Ok,
            *final(self) == *old(self),
    {
        Ok(())
    }
}

} // verus!
