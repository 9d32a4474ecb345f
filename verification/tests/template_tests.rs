use apitap::dates::{current_date, few_date_ago, few_date_ago_from, format_date, minus_days, Date};
use apitap::envsub::substitute_env_vars;
use apitap::errors::ApitapError;
use apitap::template::{extract_function_names, parse_function, substitute_templates};
use chrono::Local;

fn env(pairs: &[(&str, &str)]) -> Vec<(String, String)> {
    pairs.iter().map(|(k, v)| (k.to_string(), v.to_string())).collect()
}

#[test]
fn test_extract_function_names() {
    let text = "updated > {{ currendDate() }} and updated < {{ fewDateAgo(1) }}";
    let parsed_values = extract_function_names(text).unwrap();

    assert_eq!(parsed_values.len(), 2);
    assert!(
        parsed_values.iter().any(|v| v == "currendDate()"),
        "parsed_values should contain currendDate(), got: {:?}",
        parsed_values
    );
    assert!(
        parsed_values.iter().any(|v| v == "fewDateAgo(1)"),
        "parsed_values should contain fewDateAgo(1), got: {:?}",
        parsed_values
    );
}

#[test]
fn test_extract_function_names_is_empty() {
    let text = "asoi";
    let parsed_values = extract_function_names(text).unwrap();
    assert!(parsed_values.is_empty());
}

#[test]
fn test_substitute_env_vars_single() {
    let vars = env(&[("TEST_API_KEY", "secret123")]);
    let text = "Authorization: Bearer ${TEST_API_KEY}";
    let result = substitute_env_vars(text, &vars).unwrap();

    assert_eq!(result, "Authorization: Bearer secret123");
    assert!(!result.contains("${"));
    assert!(!result.contains("}"));
}

#[test]
fn test_substitute_env_vars_multiple() {
    let vars = env(&[
        ("TEST_BASE_URL", "https://api.example.com"),
        ("TEST_API_VERSION", "v1"),
        ("TEST_TOKEN", "token456"),
    ]);
    let text = "${TEST_BASE_URL}/${TEST_API_VERSION}/endpoint?token=${TEST_TOKEN}";
    let result = substitute_env_vars(text, &vars).unwrap();
    assert_eq!(result, "https://api.example.com/v1/endpoint?token=token456");
}

#[test]
fn test_substitute_env_vars_not_found() {
    let vars = env(&[]);
    let text = "Value: ${NONEXISTENT_VAR_XYZ}";
    let result = substitute_env_vars(text, &vars);

    assert!(result.is_err());
    if let Err(e) = result {
        assert!(e.message().contains("NONEXISTENT_VAR_XYZ"));
    }
}

#[test]
fn test_substitute_env_vars_no_placeholders() {
    let text = "This text has no environment variables";
    let result = substitute_env_vars(text, &env(&[])).unwrap();
    assert_eq!(result, text);
}

#[test]
fn test_substitute_env_vars_with_templates() {
    let vars = env(&[("TEST_ENDPOINT", "users")]);
    let text = "${TEST_ENDPOINT}?date={{ current_date() }}";
    let result = substitute_env_vars(text, &vars).unwrap();

    assert!(result.contains("users?date={{ current_date() }}"));
    assert!(!result.contains("${TEST_ENDPOINT}"));
}

#[test]
fn test_substitute_env_vars_empty_text() {
    let text = "";
    let result = substitute_env_vars(text, &env(&[])).unwrap();
    assert_eq!(result, "");
}

#[test]
fn test_substitute_env_vars_mixed_content() {
    let vars = env(&[("TEST_HOST", "localhost"), ("TEST_PORT", "3000")]);
    let text = "Server running at http://${TEST_HOST}:${TEST_PORT}/api";
    let result = substitute_env_vars(text, &vars).unwrap();
    assert_eq!(result, "Server running at http://localhost:3000/api");
}

#[test]
fn test_env_substitution_idempotent_concrete() {
    let vars = env(&[("A", "one"), ("B", "two")]);
    let once = substitute_env_vars("x ${A} y ${B} z", &vars).unwrap();
    assert!(!once.contains("${"));
    let twice = substitute_env_vars(&once, &vars).unwrap();
    assert_eq!(once, twice);
}

#[test]
fn test_current_date() {
    let expected_date = Local::now().format("%Y-%m-%d").to_string();
    let current_date_from_test = current_date();
    assert_eq!(expected_date, current_date_from_test);
}

#[test]
fn test_few_date_ago() {
    let expected_date = Local::now()
        .date_naive()
        .checked_sub_signed(chrono::Duration::days(1))
        .unwrap()
        .format("%Y-%m-%d")
        .to_string();

    assert_eq!(expected_date, few_date_ago(1).unwrap());
    assert!(few_date_ago(-1).is_err(), "expected error for negative days");
}

#[test]
fn test_macro() {
    let expected_today = Local::now().format("%Y-%m-%d").to_string();
    let expected_yesterday = Local::now()
        .date_naive()
        .checked_sub_signed(chrono::Duration::days(1))
        .unwrap()
        .format("%Y-%m-%d")
        .to_string();

    assert_eq!(parse_function("current_date()").unwrap(), expected_today);
    let few_date_ago_result = parse_function("few_date_ago(1)").unwrap();
    assert_eq!(expected_yesterday, few_date_ago_result);
}

#[test]
fn test_substitute_templates() {
    let expected_today = Local::now().format("%Y-%m-%d").to_string();
    let expected_yesterday = Local::now()
        .date_naive()
        .checked_sub_signed(chrono::Duration::days(1))
        .unwrap()
        .format("%Y-%m-%d")
        .to_string();

    let text = "lastModified>='{{ current_date() }}' AND lastModified<='{{ few_date_ago(1) }}' AND type IN (page, blogpost, comment, attachment)";
    let env_var = "${TOKEN}";
    let result = substitute_templates(text).unwrap();
    let result2 = substitute_templates(env_var).unwrap();

    assert!(result.contains(&expected_today));
    assert!(result.contains(&expected_yesterday));
    assert!(!result.contains("{{"));
    assert!(!result.contains("}}"));
    assert_eq!(result2, "${TOKEN}");
}

#[test]
fn test_substitute_templates_idempotent_concrete() {
    let once = substitute_templates("from {{ few_date_ago(7) }} to {{ current_date() }}").unwrap();
    let twice = substitute_templates(&once).unwrap();
    assert_eq!(once, twice);
}

#[test]
fn test_extract_function_names_nested_parens() {
    let text = "x {{ f(a(b)) }} y";
    let parsed = extract_function_names(text).unwrap();
    assert_eq!(parsed, vec!["f(a(b))".to_string()]);
}

#[test]
fn test_substitute_rejects_call_with_paren_args() {
    let r = substitute_templates("{{ f(a(b)) }}");
    match r {
        Err(ApitapError::PipelineError(m)) => assert_eq!(m, "Unknown function: f(a(b))"),
        other => panic!("expected a pipeline error, got {:?}", other),
    }
}

#[test]
fn test_parse_function_unknown() {
    let r = parse_function("bogus()");
    match r {
        Err(ApitapError::PipelineError(m)) => assert_eq!(m, "Unknown function: bogus()"),
        other => panic!("expected a pipeline error, got {:?}", other),
    }
}

#[test]
fn test_parse_function_bad_argument() {
    let r = parse_function("few_date_ago(x)");
    match r {
        Err(ApitapError::PipelineError(m)) => assert_eq!(m, "Invalid argument: x"),
        other => panic!("expected a pipeline error, got {:?}", other),
    }
}

#[test]
fn test_few_date_ago_from_leap_day() {
    let d = Date { year: 2024, month: 3, day: 1 };
    assert_eq!(few_date_ago_from(&d, 1).unwrap(), "2024-02-29");
    let d2 = Date { year: 2023, month: 3, day: 1 };
    assert_eq!(few_date_ago_from(&d2, 1).unwrap(), "2023-02-28");
}

#[test]
fn test_few_date_ago_from_zero_is_today() {
    let d = Date { year: 2026, month: 10, day: 12 };
    assert_eq!(few_date_ago_from(&d, 0).unwrap(), format_date(&d));
}

#[test]
fn test_minus_days_out_of_range() {
    let d = Date { year: 1, month: 1, day: 2 };
    assert!(minus_days(&d, 1).is_some());
    assert!(minus_days(&d, 2).is_none());
    let d2 = Date { year: 2026, month: 1, day: 1 };
    assert!(few_date_ago_from(&d2, 4_000_000).is_err());
}

#[test]
fn test_format_date_padding() {
    let d = Date { year: 7, month: 4, day: 9 };
    assert_eq!(format_date(&d), "0007-04-09");
}
