//! SQL statement building for the relational sink.
//!
//! The writer issues three statement shapes: `CREATE TABLE` from an
//! inferred schema, a multi-row `INSERT`, and the merge form
//! `INSERT ... ON CONFLICT (pk) DO UPDATE SET ...`. They are assembled
//! here as text with every value rendered as a literal: strings are
//! quoted with doubled single quotes, numbers render as their digits
//! — a float whose text is not plainly numeric renders as `NULL` — and
//! booleans as `TRUE` and `FALSE`.

use vstd::prelude::*;
use crate::batch::{CellRep, CellValue, cell_view, row_view, rows_view};
use crate::schema::{DataType, Schema, schema_view};
use crate::strutil::{chars_to_string, i64_to_chars, int_chars, push_chars, str_to_chars};

verus! {

/// The views of a list of strings.
pub open spec fn strs_view(s: Seq<String>) -> Seq<Seq<char>> {
    s.map_values(|x: String| x@)
}

/// The parts from `i` on, joined with the separator.
pub open spec fn join_from(parts: Seq<Seq<char>>, sep: Seq<char>, i: int) -> Seq<char>
    decreases parts.len() - i,
    when 0 <= i
{
    if i >= parts.len() {
        Seq::empty()
    } else if i + 1 == parts.len() {
        parts[i]
    } else {
        parts[i] + sep + join_from(parts, sep, i + 1)
    }
}

/// Append a string slice's characters.
fn push_str_chars(out: &mut Vec<char>, s: &str)
    ensures
        final(out)@ == old(out)@ + s@,
{
    let cs = str_to_chars(s);
    push_chars(out, &cs);
}

/// Append the strings joined with the separator.
fn push_joined(out: &mut Vec<char>, parts: &Vec<String>, sep: &str)
    ensures
        final(out)@ == old(out)@ + join_from(strs_view(parts@), sep@, 0),
{
    let ghost o0 = out@;
    let mut i: usize = 0;
    while i < parts.len()
        invariant
            i <= parts@.len(),
            out@ + join_from(strs_view(parts@), sep@, i as int) == o0 + join_from(
                strs_view(parts@),
                sep@,
                0,
            ),
        decreases parts@.len() - i,
    {
        let ghost pre = out@;
        push_str_chars(out, parts[i].as_str());
        proof {
            assert(strs_view(parts@)[i as int] == parts@[i as int]@);
        }
        if i + 1 < parts.len() {
            push_str_chars(out, sep);
            proof {
                assert(out@ =~= pre + (strs_view(parts@)[i as int] + sep@));
                assert((pre + (strs_view(parts@)[i as int] + sep@)) + join_from(
                    strs_view(parts@),
                    sep@,
                    i as int + 1,
                ) =~= pre + (strs_view(parts@)[i as int] + sep@ + join_from(
                    strs_view(parts@),
                    sep@,
                    i as int + 1,
                )));
            }
        } else {
            proof {
                assert(join_from(strs_view(parts@), sep@, i as int) == strs_view(parts@)[i as int]);
            }
        }
        i = i + 1;
    }
    proof {
        assert(join_from(strs_view(parts@), sep@, i as int) =~= Seq::<char>::empty());
        assert(out@ + Seq::<char>::empty() =~= out@);
        assert(o0 + join_from(strs_view(parts@), sep@, 0) =~= out@);
    }
}

/// The escape of one character inside a SQL string literal.
pub open spec fn sql_esc_char(c: char) -> Seq<char> {
    if c == '\'' {
        seq!['\'', '\'']
    } else {
        seq![c]
    }
}

/// The escaped body of a SQL string literal.
pub open spec fn sql_esc(s: Seq<char>) -> Seq<char>
    decreases s.len(),
{
    if s.len() == 0 {
        Seq::empty()
    } else {
        sql_esc_char(s[0]) + sql_esc(s.skip(1))
    }
}

/// Append the escaped body of a SQL string literal.
fn push_sql_escaped(out: &mut Vec<char>, s: &Vec<char>)
    ensures
        final(out)@ == old(out)@ + sql_esc(s@),
{
    let ghost o0 = out@;
    let mut i: usize = 0;
    proof {
        assert(s@.skip(0) =~= s@);
    }
    while i < s.len()
        invariant
            i <= s@.len(),
            out@ + sql_esc(s@.skip(i as int)) == o0 + sql_esc(s@),
        decreases s@.len() - i,
    {
        let ghost pre = out@;
        let c = s[i];
        proof {
            assert(s@.skip(i as int)[0] == s@[i as int]);
            assert(s@.skip(i as int).skip(1) =~= s@.skip(i as int + 1));
        }
        if c == '\'' {
            out.push('\'');
            out.push('\'');
        } else {
            out.push(c);
        }
        i = i + 1;
        proof {
            assert(out@ =~= pre + sql_esc_char(s@[i - 1]));
            assert((pre + sql_esc_char(s@[i - 1])) + sql_esc(s@.skip(i as int)) =~= pre + (
            sql_esc_char(s@[i - 1]) + sql_esc(s@.skip(i as int))));
        }
    }
    proof {
        assert(sql_esc(s@.skip(i as int)) =~= Seq::<char>::empty());
        assert(out@ + Seq::<char>::empty() =~= out@);
    }
}

/// Characters a float literal may carry into SQL unquoted.
pub open spec fn is_sql_num_char(c: char) -> bool {
    ('0' <= c && c <= '9') || c == '-' || c == '+' || c == '.' || c == 'e' || c == 'E'
}

/// A non-empty text of plainly numeric characters.
pub open spec fn numeric_repr(s: Seq<char>) -> bool {
    s.len() > 0 && forall|j: int| 0 <= j < s.len() ==> is_sql_num_char(#[trigger] s[j])
}

/// The SQL literal one cell renders as.
pub open spec fn render_cell(c: CellRep) -> Seq<char> {
    match c {
        CellRep::Null => "NULL"@,
        CellRep::Bool(b) => if b {
            "TRUE"@
        } else {
            "FALSE"@
        },
        CellRep::Int(n) => int_chars(n),
        CellRep::Float(s) => if numeric_repr(s) {
            s
        } else {
            "NULL"@
        },
        CellRep::Text(s) => seq!['\''] + sql_esc(s) + seq!['\''],
    }
}

/// Append one cell's SQL literal.
fn push_cell(out: &mut Vec<char>, c: &CellValue)
    ensures
        final(out)@ == old(out)@ + render_cell(cell_view(*c)),
{
    match c {
        CellValue::Null => push_str_chars(out, "NULL"),
        CellValue::Bool(b) => {
            if *b {
                push_str_chars(out, "TRUE")
            } else {
                push_str_chars(out, "FALSE")
            }
        },
        CellValue::Int(n) => {
            let digits = i64_to_chars(*n);
            push_chars(out, &digits);
        },
        CellValue::Float(s) => {
            let cs = str_to_chars(s.as_str());
            let mut ok = cs.len() > 0;
            let mut j: usize = 0;
            while j < cs.len() && ok
                invariant
                    j <= cs@.len(),
                    ok ==> (cs@.len() > 0 && forall|t: int|
                        0 <= t < j ==> is_sql_num_char(#[trigger] cs@[t])),
                    !ok ==> !numeric_repr(cs@),
                decreases cs@.len() - j + (if ok { 1int } else { 0int }),
            {
                let ch = cs[j];
                if ('0' <= ch && ch <= '9') || ch == '-' || ch == '+' || ch == '.' || ch == 'e'
                    || ch == 'E' {
                    j = j + 1;
                } else {
                    proof {
                        assert(!is_sql_num_char(cs@[j as int]));
                    }
                    ok = false;
                }
            }
            if ok {
                proof {
                    assert(numeric_repr(cs@));
                }
                push_chars(out, &cs);
            } else {
                push_str_chars(out, "NULL");
            }
        },
        CellValue::Text(s) => {
            let cs = str_to_chars(s.as_str());
            out.push('\'');
            push_sql_escaped(out, &cs);
            out.push('\'');
            proof {
                assert(old(out)@ + (seq!['\''] + sql_esc(cs@)) + seq!['\''] =~= old(out)@ + (
                seq!['\''] + sql_esc(cs@) + seq!['\'']));
            }
        },
    }
}

/// The cells of a row from `i` on, rendered and comma-joined.
pub open spec fn cells_text(row: Seq<CellRep>, i: int) -> Seq<char>
    decreases row.len() - i,
    when 0 <= i
{
    if i >= row.len() {
        Seq::empty()
    } else if i + 1 == row.len() {
        render_cell(row[i])
    } else {
        render_cell(row[i]) + ", "@ + cells_text(row, i + 1)
    }
}

/// One row's value tuple.
pub open spec fn row_tuple(row: Seq<CellRep>) -> Seq<char> {
    seq!['('] + cells_text(row, 0) + seq![')']
}

/// Append one row's value tuple.
fn push_row_tuple(out: &mut Vec<char>, row: &Vec<CellValue>)
    ensures
        final(out)@ == old(out)@ + row_tuple(row_view(row@)),
{
    let ghost rv = row_view(row@);
    out.push('(');
    let ghost o0 = out@;
    let mut i: usize = 0;
    while i < row.len()
        invariant
            i <= row@.len(),
            rv == row_view(row@),
            out@ + cells_text(rv, i as int) == o0 + cells_text(rv, 0),
        decreases row@.len() - i,
    {
        let ghost pre = out@;
        push_cell(out, &row[i]);
        proof {
            assert(rv[i as int] == cell_view(row@[i as int]));
        }
        if i + 1 < row.len() {
            push_str_chars(out, ", ");
            proof {
                assert(out@ =~= pre + (render_cell(rv[i as int]) + ", "@));
                assert((pre + (render_cell(rv[i as int]) + ", "@)) + cells_text(rv, i as int + 1)
                    =~= pre + (render_cell(rv[i as int]) + ", "@ + cells_text(rv, i as int + 1)));
            }
        } else {
            proof {
                assert(cells_text(rv, i as int) == render_cell(rv[i as int]));
            }
        }
        i = i + 1;
    }
    out.push(')');
    proof {
        assert(cells_text(rv, i as int) =~= Seq::<char>::empty());
        assert(o0 + cells_text(rv, 0) =~= o0 + cells_text(rv, 0) + Seq::<char>::empty());
        assert(out@ =~= old(out)@ + (seq!['('] + cells_text(rv, 0) + seq![')']));
    }
}

/// The rows' value tuples from `i` on, comma-joined.
pub open spec fn tuples_text(rows: Seq<Seq<CellRep>>, i: int) -> Seq<char>
    decreases rows.len() - i,
    when 0 <= i
{
    if i >= rows.len() {
        Seq::empty()
    } else if i + 1 == rows.len() {
        row_tuple(rows[i])
    } else {
        row_tuple(rows[i]) + ", "@ + tuples_text(rows, i + 1)
    }
}

/// The text of a multi-row insert.
pub open spec fn insert_sql_spec(
    table: Seq<char>,
    cols: Seq<Seq<char>>,
    rows: Seq<Seq<CellRep>>,
) -> Seq<char> {
    "INSERT INTO "@ + table + " ("@ + join_from(cols, ", "@, 0) + ") VALUES "@ + tuples_text(
        rows,
        0,
    )
}

/// Build the multi-row `INSERT` statement for one chunk of rows.
pub fn build_insert_sql(table: &str, cols: &Vec<String>, rows: &Vec<Vec<CellValue>>) -> (r: String)
    ensures
        r@ == insert_sql_spec(table@, strs_view(cols@), rows_view(rows@)),
{
    let ghost rsv = rows_view(rows@);
    let mut out: Vec<char> = Vec::new();
    push_str_chars(&mut out, "INSERT INTO ");
    push_str_chars(&mut out, table);
    push_str_chars(&mut out, " (");
    push_joined(&mut out, cols, ", ");
    push_str_chars(&mut out, ") VALUES ");
    let ghost o0 = out@;
    let mut i: usize = 0;
    while i < rows.len()
        invariant
            i <= rows@.len(),
            rsv == rows_view(rows@),
            out@ + tuples_text(rsv, i as int) == o0 + tuples_text(rsv, 0),
        decreases rows@.len() - i,
    {
        let ghost pre = out@;
        push_row_tuple(&mut out, &rows[i]);
        proof {
            assert(rsv[i as int] == row_view(rows@[i as int]@));
        }
        if i + 1 < rows.len() {
            push_str_chars(&mut out, ", ");
            proof {
                assert(out@ =~= pre + (row_tuple(rsv[i as int]) + ", "@));
                assert((pre + (row_tuple(rsv[i as int]) + ", "@)) + tuples_text(rsv, i as int + 1)
                    =~= pre + (row_tuple(rsv[i as int]) + ", "@ + tuples_text(rsv, i as int + 1)));
            }
        } else {
            proof {
                assert(tuples_text(rsv, i as int) == row_tuple(rsv[i as int]));
            }
        }
        i = i + 1;
    }
    proof {
        assert(tuples_text(rsv, i as int) =~= Seq::<char>::empty());
        assert(out@ + Seq::<char>::empty() =~= out@);
        assert(out@ =~= insert_sql_spec(table@, strs_view(cols@), rsv));
    }
    chars_to_string(&out)
}

/// The update assignments of the merge form: every column but the key,
/// each set from its excluded row.
pub open spec fn assigns_list(cols: Seq<Seq<char>>, pk: Seq<char>) -> Seq<Seq<char>>
    decreases cols.len(),
{
    if cols.len() == 0 {
        Seq::empty()
    } else {
        let rest = assigns_list(cols.skip(1), pk);
        if cols[0] == pk {
            rest
        } else {
            seq![cols[0] + " = EXCLUDED."@ + cols[0]] + rest
        }
    }
}

/// The text of the merge statement: the insert, then the conflict
/// clause updating every non-key column.
pub open spec fn upsert_sql_spec(
    table: Seq<char>,
    cols: Seq<Seq<char>>,
    pk: Seq<char>,
    rows: Seq<Seq<CellRep>>,
) -> Seq<char> {
    insert_sql_spec(table, cols, rows) + " ON CONFLICT ("@ + pk + ") DO UPDATE SET "@ + join_from(
        assigns_list(cols, pk),
        ", "@,
        0,
    )
}

/// Build the merge statement for one chunk of rows.
pub fn build_upsert_sql(table: &str, cols: &Vec<String>, pk: &String, rows: &Vec<Vec<CellValue>>)
    -> (r: String)
    ensures
        r@ == upsert_sql_spec(table@, strs_view(cols@), pk@, rows_view(rows@)),
{
    let insert = build_insert_sql(table, cols, rows);
    let mut assigns: Vec<String> = Vec::new();
    let mut i: usize = 0;
    proof {
        assert(strs_view(cols@).skip(0) =~= strs_view(cols@));
        assert(strs_view(assigns@) =~= Seq::<Seq<char>>::empty());
        assert(Seq::<Seq<char>>::empty() + assigns_list(strs_view(cols@), pk@) =~= assigns_list(
            strs_view(cols@),
            pk@,
        ));
    }
    while i < cols.len()
        invariant
            i <= cols@.len(),
            assigns_list(strs_view(cols@), pk@) == strs_view(assigns@) + assigns_list(
                strs_view(cols@).skip(i as int),
                pk@,
            ),
        decreases cols@.len() - i,
    {
        proof {
            assert(strs_view(cols@).skip(i as int)[0] == strs_view(cols@)[i as int]);
            assert(strs_view(cols@)[i as int] == cols@[i as int]@);
            assert(strs_view(cols@).skip(i as int).skip(1) =~= strs_view(cols@).skip(i as int + 1));
        }
        let name = &cols[i];
        let ghost pre = strs_view(assigns@);
        if !name.eq(pk) {
            let a = name.clone().concat(" = EXCLUDED.").concat(name.as_str());
            let ghost ga = a;
            assigns.push(a);
            proof {
                assert(strs_view(assigns@) =~= pre.push(ga@));
                assert(ga@ == cols@[i as int]@ + " = EXCLUDED."@ + cols@[i as int]@);
                assert(pre.push(ga@) + assigns_list(strs_view(cols@).skip(i as int + 1), pk@)
                    =~= pre + (seq![ga@] + assigns_list(strs_view(cols@).skip(i as int + 1), pk@)));
            }
        }
        i = i + 1;
    }
    proof {
        assert(assigns_list(strs_view(cols@).skip(i as int), pk@) =~= Seq::<Seq<char>>::empty());
        assert(strs_view(assigns@) + Seq::<Seq<char>>::empty() =~= strs_view(assigns@));
    }
    let mut out: Vec<char> = str_to_chars(insert.as_str());
    push_str_chars(&mut out, " ON CONFLICT (");
    push_str_chars(&mut out, pk.as_str());
    push_str_chars(&mut out, ") DO UPDATE SET ");
    push_joined(&mut out, &assigns, ", ");
    proof {
        assert(out@ =~= upsert_sql_spec(table@, strs_view(cols@), pk@, rows_view(rows@)));
    }
    chars_to_string(&out)
}

/// The SQL type one column type maps to.
pub open spec fn sql_type_of(t: DataType) -> Seq<char> {
    match t {
        DataType::Boolean => "BOOLEAN"@,
        DataType::Int64 => "BIGINT"@,
        DataType::Float64 => "DOUBLE"@,
        DataType::Utf8 => "TEXT"@,
    }
}

/// The column definitions of a schema, in order.
pub open spec fn coldefs_list(sv: Seq<(Seq<char>, DataType, bool)>) -> Seq<Seq<char>>
    decreases sv.len(),
{
    if sv.len() == 0 {
        Seq::empty()
    } else {
        seq![sv[0].0 + " "@ + sql_type_of(sv[0].1)] + coldefs_list(sv.skip(1))
    }
}

/// The text of the create statement: every column with its type — all
/// columns stay nullable — and the primary key clause when a key is
/// set.
pub open spec fn create_sql_spec(
    table: Seq<char>,
    sv: Seq<(Seq<char>, DataType, bool)>,
    pk: Option<Seq<char>>,
) -> Seq<char> {
    "CREATE TABLE IF NOT EXISTS "@ + table + " ("@ + join_from(coldefs_list(sv), ", "@, 0) + (
    match pk {
        Some(k) => ", PRIMARY KEY ("@ + k + ")"@,
        None => Seq::empty(),
    }) + ")"@
}

/// Build the `CREATE TABLE` statement for an inferred schema.
pub fn build_create_table_sql(table: &str, schema: &Schema, pk: &Option<String>) -> (r: String)
    ensures
        r@ == create_sql_spec(
            table@,
            schema_view(schema),
            match pk {
                Some(k) => Some(k@),
                None => None,
            },
        ),
{
    let ghost sv = schema_view(schema);
    let mut defs: Vec<String> = Vec::new();
    let mut i: usize = 0;
    proof {
        assert(sv.skip(0) =~= sv);
        assert(strs_view(defs@) =~= Seq::<Seq<char>>::empty());
        assert(Seq::<Seq<char>>::empty() + coldefs_list(sv) =~= coldefs_list(sv));
    }
    while i < schema.fields.len()
        invariant
            i <= schema.fields@.len(),
            sv == schema_view(schema),
            sv.len() == schema.fields@.len(),
            coldefs_list(sv) == strs_view(defs@) + coldefs_list(sv.skip(i as int)),
        decreases schema.fields@.len() - i,
    {
        proof {
            assert(sv.skip(i as int)[0] == sv[i as int]);
            assert(sv.skip(i as int).skip(1) =~= sv.skip(i as int + 1));
            assert(sv[i as int] == (schema.fields@[i as int].name@,
            schema.fields@[i as int].data_type, schema.fields@[i as int].nullable));
        }
        let field = &schema.fields[i];
        let tname = match field.data_type {
            DataType::Boolean => "BOOLEAN",
            DataType::Int64 => "BIGINT",
            DataType::Float64 => "DOUBLE",
            DataType::Utf8 => "TEXT",
        };
        let d = field.name.clone().concat(" ").concat(tname);
        let ghost gd = d;
        let ghost pre = strs_view(defs@);
        defs.push(d);
        proof {
            assert(strs_view(defs@) =~= pre.push(gd@));
            assert(gd@ == sv[i as int].0 + " "@ + sql_type_of(sv[i as int].1));
            assert(pre.push(gd@) + coldefs_list(sv.skip(i as int + 1)) =~= pre + (seq![gd@]
                + coldefs_list(sv.skip(i as int + 1))));
        }
        i = i + 1;
    }
    proof {
        assert(coldefs_list(sv.skip(i as int)) =~= Seq::<Seq<char>>::empty());
        assert(strs_view(defs@) + Seq::<Seq<char>>::empty() =~= strs_view(defs@));
    }
    let mut out: Vec<char> = Vec::new();
    push_str_chars(&mut out, "CREATE TABLE IF NOT EXISTS ");
    push_str_chars(&mut out, table);
    push_str_chars(&mut out, " (");
    push_joined(&mut out, &defs, ", ");
    match pk {
        Some(k) => {
            push_str_chars(&mut out, ", PRIMARY KEY (");
            push_str_chars(&mut out, k.as_str());
            push_str_chars(&mut out, ")");
        },
        None => {},
    }
    push_str_chars(&mut out, ")");
    proof {
        assert(out@ =~= create_sql_spec(
            table@,
            sv,
            match pk {
                Some(k) => Some(k@),
                None => None,
            },
        ));
    }
    chars_to_string(&out)
}

/// Case-insensitive match of one character against a lowercase letter.
pub open spec fn ci_eq(a: char, lower: char) -> bool {
    a == lower || a as u32 + 32 == lower as u32
}

/// The lowercase word `w` occurs at `i`, case-insensitively.
pub open spec fn kw_at(s: Seq<char>, i: int, w: Seq<char>) -> bool {
    0 <= i && i + w.len() <= s.len() && forall|j: int| 0 <= j < w.len() ==> ci_eq(s[i + j], #[trigger] w[j])
}

fn kw_at_exec(s: &Vec<char>, i: usize, w: &Vec<char>) -> (r: bool)
    requires
        i <= s@.len(),
    ensures
        r == kw_at(s@, i as int, w@),
{
    if w.len() > s.len() - i {
        proof {
            assert(!kw_at(s@, i as int, w@));
        }
        return false;
    }
    let sl: usize = s.len();
    let mut j: usize = 0;
    while j < w.len()
        invariant
            j <= w@.len(),
            i + w@.len() <= s@.len(),
            sl == s@.len(),
            forall|t: int| 0 <= t < j ==> ci_eq(s@[i + t], #[trigger] w@[t]),
        decreases w@.len() - j,
    {
        proof {
            assert(i + j < sl);
        }
        let a = s[i + j];
        let lower = w[j];
        let same = a == lower || (a as u32 as u64) + 32 == lower as u32 as u64;
        if !same {
            proof {
                assert(!ci_eq(s@[i + j], w@[j as int]));
            }
            return false;
        }
        j = j + 1;
    }
    true
}

/// The shape of a query the engine can honor without a SQL engine: the
/// keywords `SELECT`, `*` and `FROM` (case-insensitive) separated by
/// whitespace, the exact table name, then at most one trailing `;` —
/// the identity query over the virtual table.
pub open spec fn select_star_spec(s: Seq<char>, table: Seq<char>) -> bool {
    let i0 = crate::template::skip_ws(s, 0);
    let i1 = i0 + 6;
    let j1 = crate::template::skip_ws(s, i1);
    let j2 = crate::template::skip_ws(s, j1 + 1);
    let j3 = crate::template::skip_ws(s, j2 + 4);
    let j4 = j3 + table.len();
    let tail = crate::template::skip_ws(s, j4);
    &&& kw_at(s, i0, "select"@)
    &&& j1 > i1
    &&& j1 < s.len() && s[j1] == '*'
    &&& j2 > j1 + 1
    &&& kw_at(s, j2, "from"@)
    &&& j3 > j2 + 4
    &&& table.len() > 0
    &&& j4 <= s.len() && s.subrange(j3, j4) == table
    &&& (tail == s.len() || (tail < s.len() && s[tail] == ';' && crate::template::skip_ws(
        s,
        tail + 1,
    ) == s.len()))
}

/// Whether the rewritten SQL is the identity query over the destination
/// table: `SELECT * FROM <table>`, keywords in either case, with an
/// optional trailing semicolon.
pub fn is_select_star(sql: &str, table: &str) -> (r: bool)
    ensures
        r == select_star_spec(sql@, table@),
{
    proof {
        reveal_strlit("select");
        reveal_strlit("from");
    }
    let s = str_to_chars(sql);
    let t = str_to_chars(table);
    let sl: usize = s.len();
    let kw_select = str_to_chars("select");
    let kw_from = str_to_chars("from");
    let i0 = crate::template::skip_ws_exec(&s, 0);
    if !kw_at_exec(&s, i0, &kw_select) {
        return false;
    }
    proof {
        assert(kw_select@.len() == 6);
        assert(i0 + 6 <= sl);
    }
    let i1 = i0 + 6;
    let j1 = crate::template::skip_ws_exec(&s, i1);
    if !(j1 > i1 && j1 < s.len() && s[j1] == '*') {
        return false;
    }
    let j2 = crate::template::skip_ws_exec(&s, j1 + 1);
    if !(j2 > j1 + 1 && kw_at_exec(&s, j2, &kw_from)) {
        return false;
    }
    proof {
        assert(kw_from@.len() == 4);
        assert(j2 + 4 <= sl);
    }
    let j3 = crate::template::skip_ws_exec(&s, j2 + 4);
    if !(j3 > j2 + 4) {
        return false;
    }
    if t.len() == 0 || t.len() > s.len() - j3 {
        return false;
    }
    if !crate::strutil::matches_at(&s, j3, &t) {
        return false;
    }
    proof {
        assert(j3 + t@.len() <= sl);
    }
    let j4 = j3 + t.len();
    let tail = crate::template::skip_ws_exec(&s, j4);
    proof {
        assert(s@.subrange(j3 as int, j4 as int) == t@);
    }
    if tail == s.len() {
        return true;
    }
    if s[tail] == ';' {
        let after = crate::template::skip_ws_exec(&s, tail + 1);
        return after == s.len();
    }
    false
}

/// The bounds of consecutive chunks of at most `size` rows: half-open
/// intervals covering `0..len` in order.
pub fn chunk_bounds(len: usize, size: usize) -> (r: Vec<(usize, usize)>)
    requires
        size >= 1,
    ensures
        len == 0 ==> r@.len() == 0,
        len > 0 ==> r@.len() >= 1 && r@[0].0 == 0 && r@[r@.len() - 1].1 == len,
        forall|j: int|
            0 <= j < r@.len() ==> (#[trigger] r@[j]).0 < r@[j].1 <= len && r@[j].1 - r@[j].0
                <= size,
        forall|j: int| 0 <= j < r@.len() - 1 ==> (#[trigger] r@[j]).1 == r@[j + 1].0,
{
    let mut r: Vec<(usize, usize)> = Vec::new();
    let mut start: usize = 0;
    while start < len
        invariant
            start <= len,
            size >= 1,
            start == 0 ==> r@.len() == 0,
            start > 0 ==> r@.len() >= 1 && r@[0].0 == 0 && r@[r@.len() - 1].1 == start,
            forall|j: int|
                0 <= j < r@.len() ==> (#[trigger] r@[j]).0 < r@[j].1 <= len && r@[j].1 - r@[j].0
                    <= size,
            forall|j: int| 0 <= j < r@.len() - 1 ==> (#[trigger] r@[j]).1 == r@[j + 1].0,
        decreases len - start,
    {
        let end = if len - start > size {
            start + size
        } else {
            len
        };
        r.push((start, end));
        start = end;
    }
    r
}

} // verus!
