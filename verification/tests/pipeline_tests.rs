use apitap::errors::ApitapError;
use apitap::fetch::{Pagination, Retry};
use apitap::pipeline::{
    clean_param, create_config_error, create_fetch_options, create_writer_options,
    extract_destination_table, log_pipeline_complete, log_pipeline_start, plan_fetch, prepare_job,
    Cli, Config, FetchDecision, FetchOpts, Header, MakeWriter, MemTarget, QueryParam,
    RenderCapture, RenderedSql, Source, Target, WriterOpts,
};
use apitap::writer::WriteMode;

fn retry() -> Retry {
    Retry { max_attempts: 3, base_delay_ms: 100, multiplier_hundredths: 150, max_delay_ms: 1000 }
}

fn source(url: &str, headers: Vec<(&str, &str)>, table: Option<&str>) -> Source {
    Source {
        url: url.to_string(),
        headers: if headers.is_empty() {
            None
        } else {
            Some(
                headers
                    .into_iter()
                    .map(|(k, v)| Header { key: k.to_string(), value: v.to_string() })
                    .collect(),
            )
        },
        data_path: None,
        query_params: None,
        pagination: Some(Pagination::LimitOffset {
            limit_param: "limit".to_string(),
            offset_param: "offset".to_string(),
        }),
        retry: retry(),
        table_destination_name: table.map(|t| t.to_string()),
        primary_key_in_dest: Some("id".to_string()),
    }
}

fn config(src: Source) -> Config {
    Config {
        sources: vec![("api_users".to_string(), src)],
        targets: vec![(
            "postgres_target".to_string(),
            Target::Postgres { dsn: "postgres://localhost/db".to_string() },
        )],
    }
}

#[test]
fn test_error_display() {
    let err = ApitapError::ConfigError("missing url".to_string());
    assert_eq!(err.message(), "Configuration error: missing url");
}

#[test]
fn test_writer_error() {
    let err = ApitapError::WriterError("connection failed".to_string());
    assert!(err.message().contains("Writer error"));
}

#[test]
fn test_error_messages_by_variant() {
    assert_eq!(
        ApitapError::PaginationError("x".to_string()).message(),
        "Pagination error: x"
    );
    assert_eq!(ApitapError::PipelineError("x".to_string()).message(), "Pipeline error: x");
    assert_eq!(ApitapError::MergeError("x".to_string()).message(), "Merge Error: x");
    assert_eq!(ApitapError::DataTypeError("x".to_string()).message(), "Data Type Error: x");
    assert_eq!(ApitapError::UnsupportedSink("x".to_string()).message(), "Unsupported sink: x");
    assert_eq!(ApitapError::PoisonError("x".to_string()).message(), "Poison Error: x");
    assert_eq!(ApitapError::UrlParseError("x".to_string()).message(), "URL parse error: x");
    assert_eq!(ApitapError::NetworkError("x".to_string()).message(), "HTTP request failed: x");
    assert_eq!(
        ApitapError::HttpStatusError(404, "not found".to_string()).message(),
        "HTTP status error: 404: not found"
    );
}

#[test]
fn test_rendered_sql_contains_name() {
    let rendered = RenderedSql {
        name: "myquery.sql".to_string(),
        sql: "SELECT * FROM table;".to_string(),
        capture: RenderCapture::default(),
    };
    assert_eq!(rendered.name, "myquery.sql");
    assert_eq!(rendered.sql, "SELECT * FROM table;");
}

#[test]
fn test_render_capture_records_and_resets() {
    let mut cap = RenderCapture::default();
    cap.record_sink("postgres_target".to_string());
    let echoed = cap.record_source("api_users".to_string());
    cap.record_schedule("0 0 * * * *".to_string());
    assert_eq!(echoed, "api_users");
    assert_eq!(cap.sink, "postgres_target");
    assert_eq!(cap.source, "api_users");
    assert_eq!(cap.schedule, "0 0 * * * *");
    cap.reset();
    assert!(cap.sink.is_empty() && cap.source.is_empty() && cap.schedule.is_empty());
}

#[test]
fn test_cli_defaults() {
    let cli = Cli::default();
    assert_eq!(cli.modules, "pipelines");
    assert_eq!(cli.yaml_config, "pipelines.yaml");
    assert!(!cli.log_json);
    assert!(cli.log_level.is_none());
}

#[test]
fn test_create_fetch_options_defaults() {
    let opts = create_fetch_options();
    assert_eq!(opts.concurrency, 5);
    assert_eq!(opts.default_page_size, 50);
    assert_eq!(opts.fetch_batch_size, 256);
}

#[test]
fn test_create_writer_options_defaults() {
    let src = source("https://api.example.com/users", vec![], Some("users"));
    let opts = create_writer_options(&"users".to_string(), &src);
    assert_eq!(opts.dest_table, "users");
    assert_eq!(opts.primary_key.as_deref(), Some("id"));
    assert_eq!(opts.batch_size, 50);
    assert_eq!(opts.sample_size, 10);
    assert!(opts.auto_create);
    assert!(!opts.auto_truncate);
    assert!(!opts.truncate_first);
    assert_eq!(opts.write_mode, WriteMode::Merge);
}

#[test]
fn test_create_config_error_text() {
    let e = create_config_error("source", "missing_one");
    assert_eq!(e.message(), "Configuration error: source not found in config: missing_one");
}

#[test]
fn test_extract_destination_table_missing() {
    let src = source("https://api.example.com", vec![], None);
    let e = extract_destination_table(&src, &"api_users".to_string()).unwrap_err();
    assert_eq!(
        e.message(),
        "Configuration error: table_destination_name is required for source: api_users"
    );
}

#[test]
fn test_clean_param_substitutes_templates() {
    let params = Some(vec![QueryParam {
        key: "since".to_string(),
        value: "{{ few_date_ago(1) }}".to_string(),
    }]);
    let out = clean_param(&params).unwrap();
    assert_eq!(out.len(), 1);
    assert_eq!(out[0].0, "since");
    assert!(!out[0].1.contains("{{"));
    assert_eq!(out[0].1.len(), 10);
    assert!(clean_param(&None).unwrap().is_empty());
}

#[test]
fn test_prepare_job_happy_path() {
    let src = source(
        "${BASE_URL}/users",
        vec![("Authorization", "Bearer ${API_KEY}")],
        Some("users"),
    );
    let cfg = config(src);
    let env = vec![
        ("BASE_URL".to_string(), "https://api.example.com".to_string()),
        ("API_KEY".to_string(), "secret".to_string()),
    ];
    let plan = prepare_job(
        &cfg,
        &"api_users".to_string(),
        &"postgres_target".to_string(),
        &"SELECT * FROM api_users WHERE x".to_string(),
        &env,
    )
    .unwrap();
    assert_eq!(plan.url, "https://api.example.com/users");
    assert_eq!(plan.headers, vec![("Authorization".to_string(), "Bearer secret".to_string())]);
    assert_eq!(plan.dest_table, "users");
    assert_eq!(plan.sql, "SELECT * FROM users WHERE x");
    assert_eq!(plan.writer_opts.write_mode, WriteMode::Merge);
}

#[test]
fn test_prepare_job_missing_env_fails_before_io() {
    let src = source(
        "https://api.example.com/users",
        vec![("Authorization", "Bearer ${API_KEY}")],
        Some("users"),
    );
    let cfg = config(src);
    let env: Vec<(String, String)> = vec![];
    let e = prepare_job(
        &cfg,
        &"api_users".to_string(),
        &"postgres_target".to_string(),
        &"SELECT 1".to_string(),
        &env,
    )
    .unwrap_err();
    match &e {
        ApitapError::ConfigError(m) => assert!(m.contains("API_KEY")),
        other => panic!("expected a configuration error, got {:?}", other),
    }
}

#[test]
fn test_prepare_job_missing_source_and_target() {
    let cfg = config(source("https://x", vec![], Some("t")));
    let e = prepare_job(
        &cfg,
        &"nope".to_string(),
        &"postgres_target".to_string(),
        &"SELECT 1".to_string(),
        &vec![],
    )
    .unwrap_err();
    assert_eq!(e.message(), "Configuration error: source not found in config: nope");

    let e2 = prepare_job(
        &cfg,
        &"api_users".to_string(),
        &"nope".to_string(),
        &"SELECT 1".to_string(),
        &vec![],
    )
    .unwrap_err();
    assert_eq!(e2.message(), "Configuration error: target not found in config: nope");
}

#[test]
fn test_prepare_job_normalizes_url() {
    let cfg = config(source("HTTPS://API.EXAMPLE.COM/Users", vec![], Some("users")));
    let plan = prepare_job(
        &cfg,
        &"api_users".to_string(),
        &"postgres_target".to_string(),
        &"SELECT 1".to_string(),
        &vec![],
    )
    .unwrap();
    assert_eq!(plan.url, "https://api.example.com/Users");
}

#[test]
fn test_prepare_job_bad_url() {
    let cfg = config(source("not a url", vec![], Some("t")));
    let e = prepare_job(
        &cfg,
        &"api_users".to_string(),
        &"postgres_target".to_string(),
        &"SELECT 1".to_string(),
        &vec![],
    )
    .unwrap_err();
    assert!(matches!(e, ApitapError::UrlParseError(_)));
}

#[test]
fn test_plan_fetch_dispatch() {
    let opts = FetchOpts { concurrency: 5, default_page_size: 50, fetch_batch_size: 256 };
    let lo = Some(Pagination::LimitOffset {
        limit_param: "limit".to_string(),
        offset_param: "offset".to_string(),
    });
    assert_eq!(plan_fetch(&lo, &opts).unwrap(), FetchDecision::Run { page_size: 50 });

    let po = Some(Pagination::PageOnly { page_param: "page".to_string() });
    assert_eq!(plan_fetch(&po, &opts).unwrap(), FetchDecision::EmptyRun);

    let cur = Some(Pagination::Cursor {
        cursor_param: "cursor".to_string(),
        page_size_param: "size".to_string(),
    });
    assert_eq!(plan_fetch(&cur, &opts).unwrap(), FetchDecision::EmptyRun);

    let e = plan_fetch(&Some(Pagination::Default), &opts).unwrap_err();
    assert_eq!(e.message(), "Pagination error: no supported pagination configured");
    let e2 = plan_fetch(&None, &opts).unwrap_err();
    assert!(matches!(e2, ApitapError::PaginationError(_)));
}

#[test]
fn test_make_writer_in_memory() {
    let target = MemTarget { name: "mem".to_string() };
    let opts = WriterOpts {
        dest_table: "users".to_string(),
        primary_key: Some("id".to_string()),
        batch_size: 50,
        sample_size: 10,
        auto_create: true,
        auto_truncate: false,
        truncate_first: true,
        write_mode: WriteMode::Merge,
    };
    let (writer, truncate_first) = target.make_writer(&opts).unwrap();
    assert_eq!(writer.table_name, "users");
    assert!(writer.rows.is_empty());
    assert!(truncate_first);
}

#[test]
fn test_log_lines() {
    let start = log_pipeline_start();
    assert_eq!(start.len(), 3);
    assert_eq!(start[1], "Starting pipeline execution");
    let done = log_pipeline_complete(1234);
    assert_eq!(done.len(), 3);
    assert_eq!(done[1], "All pipelines completed in 1234ms");
}
