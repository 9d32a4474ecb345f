use apitap::batch::{build_batches, cell_to_json, record_to_row, CellValue};
use apitap::fetch::{
    page_params, retry_delay_ms, run_fetch_sim, should_retry, FetchEngine, FetchStats, Pagination,
    Retry, SimPage,
};
use apitap::json::{extract_records, json_to_string, JsonValue};
use apitap::schema::{infer_schema_from_values, DataType, FieldInference, FieldType};
use apitap::sql::{build_create_table_sql, build_insert_sql, build_upsert_sql, chunk_bounds, is_select_star};
use apitap::pipeline::{QueryConfig, WriteConfig};
use apitap::writer::{cell_eq, dedup_last_wins, DataWriter, MemWriter, QueryResultStream, WriteMode};

fn obj(fields: Vec<(&str, JsonValue)>) -> JsonValue {
    JsonValue::Object(fields.into_iter().map(|(k, v)| (k.to_string(), v)).collect())
}

fn record(id: i64, v: &str) -> JsonValue {
    obj(vec![("id", JsonValue::Int(id)), ("v", JsonValue::Str(v.to_string()))])
}

fn retry_once() -> Retry {
    Retry { max_attempts: 3, base_delay_ms: 100, multiplier_hundredths: 200, max_delay_ms: 1000 }
}

#[test]
fn test_field_type_merge_rules() {
    assert_eq!(FieldType::Unknown.merge(FieldType::Int64), FieldType::Int64);
    assert_eq!(FieldType::Int64.merge(FieldType::Float64), FieldType::Float64);
    assert_eq!(FieldType::Float64.merge(FieldType::Int64), FieldType::Float64);
    assert_eq!(FieldType::Text.merge(FieldType::Int64), FieldType::Text);
    assert_eq!(FieldType::Boolean.merge(FieldType::Text), FieldType::Text);
    assert_eq!(FieldType::Boolean.merge(FieldType::Boolean), FieldType::Boolean);
    assert_eq!(FieldType::Boolean.merge(FieldType::Int64), FieldType::Text);
}

#[test]
fn test_field_inference_null_only_sets_nullable() {
    let mut f = FieldInference::new();
    f.observe(&JsonValue::Int(1));
    assert!(!f.is_nullable);
    assert_eq!(f.data_type, FieldType::Int64);
    f.observe(&JsonValue::Null);
    assert!(f.is_nullable);
    assert_eq!(f.data_type, FieldType::Int64, "null must not change the type");
    assert_eq!(f.to_data_type(), DataType::Int64);
}

#[test]
fn test_infer_schema_field_order_and_types() {
    let values = vec![
        obj(vec![("a", JsonValue::Int(1)), ("b", JsonValue::Str("x".into()))]),
        obj(vec![("c", JsonValue::Bool(true)), ("a", JsonValue::Float("1.5".into()))]),
    ];
    let schema = infer_schema_from_values(&values).unwrap();
    let names: Vec<&str> = schema.fields.iter().map(|f| f.name.as_str()).collect();
    assert_eq!(names, vec!["a", "b", "c"]);
    assert_eq!(schema.fields[0].data_type, DataType::Float64);
    assert_eq!(schema.fields[1].data_type, DataType::Utf8);
    assert_eq!(schema.fields[2].data_type, DataType::Boolean);
    assert!(schema.fields.iter().all(|f| f.nullable));
}

#[test]
fn test_infer_schema_errors() {
    let empty: Vec<JsonValue> = vec![];
    let e = infer_schema_from_values(&empty).unwrap_err();
    assert_eq!(e.message(), "Pipeline error: No values provided for schema inference");

    let no_fields = vec![JsonValue::Int(1), JsonValue::Str("x".into())];
    let e2 = infer_schema_from_values(&no_fields).unwrap_err();
    assert_eq!(e2.message(), "Pipeline error: No fields found in JSON stream");
}

#[test]
fn test_schema_stability_across_batches() {
    let records: Vec<JsonValue> = (0..600).map(|i| record(i, "x")).collect();
    let schema = infer_schema_from_values(&records).unwrap();
    let batches = build_batches(&records, &schema, 256).unwrap();
    assert_eq!(batches.len(), 3);
    assert_eq!(batches[0].rows.len(), 256);
    assert_eq!(batches[2].rows.len(), 88);
    for b in &batches {
        let names: Vec<&str> = b.schema.fields.iter().map(|f| f.name.as_str()).collect();
        let expect: Vec<&str> = schema.fields.iter().map(|f| f.name.as_str()).collect();
        assert_eq!(names, expect);
        for (bf, sf) in b.schema.fields.iter().zip(schema.fields.iter()) {
            assert_eq!(bf.data_type, sf.data_type);
            assert_eq!(bf.nullable, sf.nullable);
        }
    }
}

#[test]
fn test_record_to_row_coercion_and_round_trip() {
    let rec = obj(vec![
        ("i", JsonValue::Int(7)),
        ("s", JsonValue::Str("hi".into())),
        ("b", JsonValue::Bool(true)),
        ("f", JsonValue::Float("2.5".into())),
    ]);
    let schema = infer_schema_from_values(&vec![rec]).unwrap();
    let rec2 = obj(vec![
        ("i", JsonValue::Int(7)),
        ("s", JsonValue::Str("hi".into())),
        ("b", JsonValue::Bool(true)),
        ("f", JsonValue::Float("2.5".into())),
    ]);
    let row = record_to_row(&rec2, &schema).unwrap();
    let decoded: Vec<JsonValue> = row.iter().map(cell_to_json).collect();
    match &decoded[0] {
        JsonValue::Int(n) => assert_eq!(*n, 7),
        other => panic!("expected an integer, got {:?}", other),
    }
    match &decoded[1] {
        JsonValue::Str(s) => assert_eq!(s, "hi"),
        other => panic!("expected text, got {:?}", other),
    }
    match &decoded[2] {
        JsonValue::Bool(b) => assert!(*b),
        other => panic!("expected a boolean, got {:?}", other),
    }
    match &decoded[3] {
        JsonValue::Float(s) => assert_eq!(s, "2.5"),
        other => panic!("expected a float, got {:?}", other),
    }
}

#[test]
fn test_record_to_row_missing_member_is_null() {
    let sample = vec![record(1, "x")];
    let schema = infer_schema_from_values(&sample).unwrap();
    let short = obj(vec![("id", JsonValue::Int(2))]);
    let row = record_to_row(&short, &schema).unwrap();
    assert!(matches!(row[1], CellValue::Null));
}

#[test]
fn test_nested_value_lands_as_json_text() {
    let sample = vec![obj(vec![("a", JsonValue::Array(vec![
        JsonValue::Int(1),
        JsonValue::Bool(true),
        JsonValue::Null,
    ]))])];
    let schema = infer_schema_from_values(&sample).unwrap();
    assert_eq!(schema.fields[0].data_type, DataType::Utf8);
    let row = record_to_row(&sample[0], &schema).unwrap();
    match &row[0] {
        CellValue::Text(s) => assert_eq!(s, "[1,true,null]"),
        other => panic!("expected text, got {:?}", other),
    }
}

#[test]
fn test_type_mismatch_is_fatal() {
    let sample = vec![obj(vec![("flag", JsonValue::Bool(true))])];
    let schema = infer_schema_from_values(&sample).unwrap();
    assert_eq!(schema.fields[0].data_type, DataType::Boolean);
    let late = obj(vec![("flag", JsonValue::Int(1))]);
    let e = record_to_row(&late, &schema).unwrap_err();
    assert!(e.message().starts_with("Data Type Error"));
}

#[test]
fn test_json_to_string_nested() {
    let v = obj(vec![
        ("a", JsonValue::Array(vec![JsonValue::Int(1), JsonValue::Str("x\"y".into())])),
        ("b", JsonValue::Null),
    ]);
    assert_eq!(json_to_string(&v), "{\"a\":[1,\"x\\\"y\"],\"b\":null}");
}

#[test]
fn test_extract_records_data_path() {
    let body = obj(vec![("data", obj(vec![("items", JsonValue::Array(vec![
        record(1, "a"),
        record(2, "b"),
    ]))]))]);
    let records = extract_records(body, &Some("data.items".to_string())).unwrap();
    assert_eq!(records.len(), 2);
}

#[test]
fn test_extract_records_missing_path_is_empty() {
    let body = obj(vec![("data", obj(vec![("other", JsonValue::Int(1))]))]);
    let records = extract_records(body, &Some("data.items".to_string())).unwrap();
    assert!(records.is_empty());
}

#[test]
fn test_extract_records_non_array_errors() {
    let body = obj(vec![("data", obj(vec![("items", JsonValue::Int(3))]))]);
    let e = extract_records(body, &Some("data.items".to_string())).unwrap_err();
    assert!(e.message().contains("did not resolve to an array"));

    let root = obj(vec![("x", JsonValue::Int(1))]);
    let e2 = extract_records(root, &None).unwrap_err();
    assert!(e2.message().contains("root is not an array"));
}

#[test]
fn test_extract_records_root_array() {
    let body = JsonValue::Array(vec![record(1, "a")]);
    let records = extract_records(body, &None).unwrap();
    assert_eq!(records.len(), 1);
}

#[test]
fn test_page_params_limit_offset() {
    let p = Pagination::LimitOffset {
        limit_param: "limit".to_string(),
        offset_param: "offset".to_string(),
    };
    let params = page_params(&p, 2, 50).unwrap();
    assert_eq!(params[0], ("limit".to_string(), "50".to_string()));
    assert_eq!(params[1], ("offset".to_string(), "100".to_string()));
}

#[test]
fn test_page_params_page_number() {
    let p = Pagination::PageNumber {
        page_param: "page".to_string(),
        per_page_param: "per_page".to_string(),
    };
    let params = page_params(&p, 0, 50).unwrap();
    assert_eq!(params[0], ("page".to_string(), "1".to_string()));
    assert_eq!(params[1], ("per_page".to_string(), "50".to_string()));
}

#[test]
fn test_should_retry_statuses() {
    let r = retry_once();
    assert!(should_retry(None, 1, &r));
    assert!(should_retry(Some(429), 1, &r));
    assert!(should_retry(Some(500), 1, &r));
    assert!(should_retry(Some(599), 1, &r));
    assert!(!should_retry(Some(404), 1, &r));
    assert!(!should_retry(Some(429), 3, &r), "attempts exhausted");
}

#[test]
fn test_retry_delay_backoff() {
    let r = retry_once();
    assert_eq!(retry_delay_ms(&r, 1), 100);
    assert_eq!(retry_delay_ms(&r, 2), 200);
    assert_eq!(retry_delay_ms(&r, 3), 400);
    assert_eq!(retry_delay_ms(&r, 4), 800);
    assert_eq!(retry_delay_ms(&r, 5), 1000, "capped at the maximum");
}

#[test]
fn test_fetch_completeness_concrete() {
    let pages = vec![
        SimPage { count: 50, attempts: 1, failed: false },
        SimPage { count: 50, attempts: 1, failed: false },
        SimPage { count: 50, attempts: 1, failed: false },
        SimPage { count: 17, attempts: 1, failed: false },
    ];
    let (stats, ok) = run_fetch_sim(&pages, 50);
    assert!(ok);
    assert_eq!(stats.total_items, 167);
    assert_eq!(stats.pages_fetched, 4);
    assert_eq!(stats.retries, 0);
}

#[test]
fn test_empty_response_terminates() {
    let pages = vec![SimPage { count: 0, attempts: 1, failed: false }];
    let (stats, ok) = run_fetch_sim(&pages, 50);
    assert!(ok);
    assert_eq!(stats.total_items, 0);
    assert_eq!(stats.pages_fetched, 1);
}

#[test]
fn test_page_number_empty_first_page_no_writes() {
    let pages = vec![SimPage { count: 0, attempts: 1, failed: false }];
    let (stats, ok) = run_fetch_sim(&pages, 50);
    assert!(ok);
    assert_eq!(stats.total_items, 0);
    assert_eq!(stats.pages_fetched, 1);

    let mut sink = MemWriter::new("t".to_string(), None);
    if stats.total_items > 0 {
        sink.append_batch(&vec![vec![CellValue::Int(1)]]);
    }
    assert!(sink.rows.is_empty(), "an empty run writes nothing");
}

#[test]
fn test_retry_on_429_then_success() {
    let clean = vec![
        SimPage { count: 50, attempts: 1, failed: false },
        SimPage { count: 50, attempts: 1, failed: false },
        SimPage { count: 17, attempts: 1, failed: false },
    ];
    let with_retry = vec![
        SimPage { count: 50, attempts: 1, failed: false },
        SimPage { count: 50, attempts: 2, failed: false },
        SimPage { count: 17, attempts: 1, failed: false },
    ];
    let (s1, ok1) = run_fetch_sim(&clean, 50);
    let (s2, ok2) = run_fetch_sim(&with_retry, 50);
    assert!(ok1 && ok2);
    assert!(s2.retries >= 1);
    assert_eq!(s2.retries, 1);
    assert_eq!(s1.total_items, s2.total_items, "retries leave the total unaffected");
}

#[test]
fn test_retry_accounting() {
    let pages = vec![
        SimPage { count: 50, attempts: 3, failed: false },
        SimPage { count: 50, attempts: 2, failed: false },
        SimPage { count: 7, attempts: 1, failed: false },
    ];
    let (stats, ok) = run_fetch_sim(&pages, 50);
    assert!(ok);
    let attempts_made = 3 + 2 + 1;
    assert_eq!(stats.retries, attempts_made - stats.pages_fetched);
}

#[test]
fn test_failed_page_keeps_stats() {
    let pages = vec![
        SimPage { count: 50, attempts: 1, failed: false },
        SimPage { count: 0, attempts: 3, failed: true },
    ];
    let (stats, ok) = run_fetch_sim(&pages, 50);
    assert!(!ok);
    assert_eq!(stats.total_items, 50);
    assert_eq!(stats.pages_fetched, 1);
    assert_eq!(stats.retries, 2);
}

#[test]
fn test_engine_wave_indices() {
    let engine = FetchEngine::new(50, 3);
    let wave = engine.next_wave();
    assert_eq!(wave, vec![0, 1, 2]);
}

#[test]
fn test_fetch_stats_new_zeroed() {
    let s = FetchStats::new();
    assert_eq!(s.total_items, 0);
    assert_eq!(s.pages_fetched, 0);
    assert_eq!(s.retries, 0);
    assert_eq!(s.elapsed_ms, 0);
}

fn cells(id: i64, v: &str) -> Vec<CellValue> {
    vec![CellValue::Int(id), CellValue::Text(v.to_string())]
}

fn row_eq(a: &[CellValue], b: &[CellValue]) -> bool {
    a.len() == b.len() && a.iter().zip(b.iter()).all(|(x, y)| cell_eq(x, y))
}

#[test]
fn test_append_keeps_order() {
    let mut sink = MemWriter::new("t".to_string(), None);
    sink.append_batch(&vec![cells(1, "a"), cells(2, "b")]);
    sink.append_batch(&vec![cells(3, "c")]);
    assert_eq!(sink.rows.len(), 3);
    assert!(row_eq(&sink.rows[0], &cells(1, "a")));
    assert!(row_eq(&sink.rows[1], &cells(2, "b")));
    assert!(row_eq(&sink.rows[2], &cells(3, "c")));
}

#[test]
fn test_append_in_order_end_to_end() {
    let records: Vec<JsonValue> = (0..167).map(|i| record(i, "x")).collect();
    let schema = infer_schema_from_values(&records).unwrap();
    let batches = build_batches(&records, &schema, 256).unwrap();
    let mut sink = MemWriter::new("t".to_string(), None);
    for b in &batches {
        sink.append_batch(&b.rows);
    }
    assert_eq!(sink.rows.len(), 167);
    assert!(row_eq(&sink.rows[0], &cells(0, "x")));
    assert!(row_eq(&sink.rows[166], &cells(166, "x")));
}

#[test]
fn test_merge_last_write_wins() {
    let mut sink = MemWriter::new("t".to_string(), Some("id".to_string()));
    let batch = vec![cells(1, "a"), cells(1, "b")];
    sink.merge_batch(&batch, 0).unwrap();
    assert_eq!(sink.rows.len(), 1);
    assert!(row_eq(&sink.rows[0], &cells(1, "b")), "the later write wins");
}

#[test]
fn test_merge_rerun_is_idempotent() {
    let mut sink = MemWriter::new("t".to_string(), Some("id".to_string()));
    let batch = dedup_last_wins(&vec![cells(1, "a"), cells(2, "b"), cells(1, "c")], 0).unwrap();
    sink.merge_batch(&batch, 0).unwrap();
    let after_first: Vec<Vec<CellValue>> = sink.rows.iter().map(|r| {
        r.iter().map(|c| match c {
            CellValue::Int(n) => CellValue::Int(*n),
            CellValue::Text(s) => CellValue::Text(s.clone()),
            CellValue::Null => CellValue::Null,
            CellValue::Bool(b) => CellValue::Bool(*b),
            CellValue::Float(s) => CellValue::Float(s.clone()),
        }).collect()
    }).collect();
    sink.merge_batch(&batch, 0).unwrap();
    assert_eq!(sink.rows.len(), after_first.len());
    for (a, b) in sink.rows.iter().zip(after_first.iter()) {
        assert!(row_eq(a, b), "re-running the merge changed the sink");
    }
}

#[test]
fn test_dedup_last_wins_keeps_first_position() {
    let out = dedup_last_wins(&vec![cells(1, "a"), cells(2, "b"), cells(1, "c")], 0).unwrap();
    assert_eq!(out.len(), 2);
    assert!(row_eq(&out[0], &cells(1, "c")));
    assert!(row_eq(&out[1], &cells(2, "b")));
}

#[test]
fn test_merge_without_key_column_errors() {
    let mut sink = MemWriter::new("t".to_string(), Some("id".to_string()));
    let e = sink.merge_batch(&vec![vec![CellValue::Int(1)]], 3).unwrap_err();
    assert!(e.message().contains("Merge Error"));
}

#[test]
fn test_build_insert_sql_exact() {
    let cols = vec!["a".to_string(), "b".to_string()];
    let rows = vec![
        vec![CellValue::Int(1), CellValue::Text("x'y".to_string())],
        vec![CellValue::Null, CellValue::Bool(true)],
    ];
    let sql = build_insert_sql("t", &cols, &rows);
    assert_eq!(sql, "INSERT INTO t (a, b) VALUES (1, 'x''y'), (NULL, TRUE)");
}

#[test]
fn test_build_upsert_sql_exact() {
    let cols = vec!["id".to_string(), "v".to_string()];
    let rows = vec![vec![CellValue::Int(1), CellValue::Text("a".to_string())]];
    let sql = build_upsert_sql("t", &cols, &"id".to_string(), &rows);
    assert_eq!(
        sql,
        "INSERT INTO t (id, v) VALUES (1, 'a') ON CONFLICT (id) DO UPDATE SET v = EXCLUDED.v"
    );
}

#[test]
fn test_build_create_table_sql_exact() {
    let records = vec![record(1, "a")];
    let schema = infer_schema_from_values(&records).unwrap();
    let sql = build_create_table_sql("t", &schema, &Some("id".to_string()));
    assert_eq!(
        sql,
        "CREATE TABLE IF NOT EXISTS t (id BIGINT, v TEXT, PRIMARY KEY (id))"
    );
    let sql2 = build_create_table_sql("t", &schema, &None);
    assert_eq!(sql2, "CREATE TABLE IF NOT EXISTS t (id BIGINT, v TEXT)");
}

#[test]
fn test_float_literal_guard() {
    let rows = vec![vec![CellValue::Float("1.5e3".to_string())]];
    let sql = build_insert_sql("t", &vec!["f".to_string()], &rows);
    assert_eq!(sql, "INSERT INTO t (f) VALUES (1.5e3)");
    let bad = vec![vec![CellValue::Float("1; DROP TABLE x".to_string())]];
    let sql2 = build_insert_sql("t", &vec!["f".to_string()], &bad);
    assert_eq!(sql2, "INSERT INTO t (f) VALUES (NULL)");
}

#[test]
fn test_chunk_bounds_cover() {
    let b = chunk_bounds(120, 50);
    assert_eq!(b, vec![(0, 50), (50, 100), (100, 120)]);
    assert!(chunk_bounds(0, 50).is_empty());
}

#[test]
fn test_write_stream_merge_via_trait() {
    let records = vec![record(1, "a"), record(1, "b")];
    let schema = infer_schema_from_values(&records).unwrap();
    let batches = build_batches(&records, &schema, 256).unwrap();
    let result = QueryResultStream {
        table_name: "users".to_string(),
        schema,
        row_batches: batches,
    };
    let mut writer = MemWriter::new("users".to_string(), Some("id".to_string()));
    writer.begin().unwrap();
    writer.write_stream(&result, WriteMode::Merge).unwrap();
    writer.commit().unwrap();
    assert_eq!(writer.rows.len(), 1);
    assert!(row_eq(&writer.rows[0], &cells(1, "b")), "the later write wins through the trait");
    writer.on_error(&"users".to_string(), &"probe".to_string()).unwrap();
    writer.rollback().unwrap();
}

#[test]
fn test_write_stream_merge_without_key_leaves_sink_unchanged() {
    let records = vec![record(1, "a")];
    let schema = infer_schema_from_values(&records).unwrap();
    let batches = build_batches(&records, &schema, 256).unwrap();
    let result = QueryResultStream {
        table_name: "users".to_string(),
        schema,
        row_batches: batches,
    };
    let mut writer = MemWriter::new("users".to_string(), None);
    writer.append_batch(&vec![cells(9, "z")]);
    let e = writer.write_stream(&result, WriteMode::Merge).unwrap_err();
    assert!(e.message().contains("Merge Error"));
    assert_eq!(writer.rows.len(), 1);
    assert!(row_eq(&writer.rows[0], &cells(9, "z")));
}

#[test]
fn test_query_and_write_config_shapes() {
    let q = QueryConfig { sql: "SELECT * FROM users".to_string(), dest_table: "users".to_string() };
    assert_eq!(q.dest_table, "users");
    let w = WriteConfig {
        writer: MemWriter::new("users".to_string(), None),
        write_mode: WriteMode::Append,
    };
    assert_eq!(w.write_mode, WriteMode::Append);
    assert!(w.writer.rows.is_empty());
}

#[test]
fn test_is_select_star_shapes() {
    assert!(is_select_star("SELECT * FROM users", "users"));
    assert!(is_select_star("  select\t*\nfrom users ;  ", "users"));
    assert!(!is_select_star("SELECT id FROM users", "users"));
    assert!(!is_select_star("SELECT * FROM users WHERE x", "users"));
    assert!(!is_select_star("SELECT * FROM other", "users"));
    assert!(!is_select_star("SELECT * FROM users; SELECT 1", "users"));
    assert!(!is_select_star("", "users"));
}

#[test]
fn test_json_control_chars_escaped() {
    let v = JsonValue::Str("a\u{8}b\u{1f}c".to_string());
    assert_eq!(json_to_string(&v), "\"a\\u0008b\\u001fc\"");
}

#[test]
fn test_write_mode_equality() {
    let mode = WriteMode::Merge;
    assert_eq!(mode, WriteMode::Merge);
    let mode = WriteMode::Append;
    assert_eq!(mode, WriteMode::Append);
}
