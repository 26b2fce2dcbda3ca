//! Session log entries, lines and scans.

use codexusage::calendar::{parse_timezone, Timezone};
use codexusage::model::{
    billable_tokens, CacheReadMode, CachedInputCostMode, ModelBreakdown, ReportKind, ReportOutput,
    UsagePresentation, UsageTotals, breakdown_usage, DEFAULT_FALLBACK_MODEL,
};
use codexusage::report::ReportBuilder;
use codexusage::session_log::{
    deserialize_optional_cow_lossy, deserialize_optional_object_lossy,
    deserialize_optional_u64_lossy, deserialize_u64_lossy, extract_event_usage,
    extract_payload_model, info_usage,
    line_has_room, line_might_affect_usage, line_needs_entry, lines_have_room, metadata_model,
    parse_token_usage_line, scan_session_file_from_checkpoint, subtract_usage, EntryInfo,
    EntryPayload, JsonField, ModelFields, ModelMetadata, RawUsage, SessionLine, SessionLogEntry,
    SessionParseCheckpoint, UsageKind, UsagePayload,
};
use serde_json::Value;

fn json(text: &str) -> Value {
    serde_json::from_str(text).expect("valid json")
}

fn field(object: &Value, name: &str) -> JsonField {
    match object.get(name) {
        None | Some(Value::Null) => JsonField::Null,
        Some(Value::Bool(value)) => JsonField::Bool(*value),
        Some(Value::Number(number)) => match (number.as_u64(), number.as_i64()) {
            (Some(value), _) => JsonField::Unsigned(value),
            (None, Some(value)) => JsonField::Signed(value),
            (None, None) => JsonField::Float,
        },
        Some(Value::String(value)) => JsonField::Text(value.clone()),
        Some(Value::Array(_)) => JsonField::Array,
        Some(Value::Object(_)) => JsonField::Object,
    }
}

fn text_field(object: &Value, name: &str) -> Option<String> {
    deserialize_optional_cow_lossy(&field(object, name))
}

fn object_field<T>(object: &Value, name: &str, read: fn(&Value) -> T) -> Option<T> {
    let value = object.get(name).cloned().unwrap_or(Value::Null);
    deserialize_optional_object_lossy(&field(object, name), read(&value))
}

fn usage(object: &Value) -> UsagePayload {
    UsagePayload {
        input_tokens: deserialize_u64_lossy(&field(object, "input_tokens")),
        cached_input_tokens: deserialize_optional_u64_lossy(&field(object, "cached_input_tokens")),
        cache_read_input_tokens: deserialize_optional_u64_lossy(&field(
            object,
            "cache_read_input_tokens",
        )),
        output_tokens: deserialize_u64_lossy(&field(object, "output_tokens")),
        reasoning_output_tokens: deserialize_u64_lossy(&field(object, "reasoning_output_tokens")),
        total_tokens: deserialize_u64_lossy(&field(object, "total_tokens")),
    }
}

fn metadata(object: &Value) -> ModelMetadata {
    ModelMetadata {
        model: text_field(object, "model"),
    }
}

fn model_fields(object: &Value) -> ModelFields {
    ModelFields {
        model: text_field(object, "model"),
        model_name: text_field(object, "model_name"),
        metadata: object_field(object, "metadata", metadata),
    }
}

fn info(object: &Value) -> EntryInfo {
    EntryInfo {
        last_token_usage: object_field(object, "last_token_usage", usage),
        total_token_usage: object_field(object, "total_token_usage", usage),
        model_fields: model_fields(object),
    }
}

fn payload(object: &Value) -> EntryPayload {
    EntryPayload {
        payload_type: text_field(object, "type"),
        info: object_field(object, "info", info),
        last_token_usage: object_field(object, "last_token_usage", usage),
        total_token_usage: object_field(object, "total_token_usage", usage),
        model_fields: model_fields(object),
    }
}

fn entry(text: &str) -> Option<SessionLogEntry> {
    let object = serde_json::from_str::<Value>(text).ok()?;
    Some(SessionLogEntry {
        entry_type: text_field(&object, "type"),
        timestamp: text_field(&object, "timestamp"),
        payload: object_field(&object, "payload", payload),
    })
}

fn lines(text: &str) -> Vec<SessionLine> {
    text.split_inclusive('\n')
        .map(|line| SessionLine {
            text: line.to_string(),
            bytes_read: line.len(),
            entry: if line_needs_entry(line) {
                entry(line.trim())
            } else {
                None
            },
        })
        .collect()
}

fn utc() -> Timezone {
    parse_timezone("UTC").expect("timezone")
}

const TURN: &str = "{\"type\":\"turn_context\",\"payload\":{\"model\":\"gpt-5\"}}\n";

fn last_usage(timestamp: &str, input: u64, output: u64, total: u64) -> String {
    format!(
        "{{\"timestamp\":\"{timestamp}\",\"type\":\"event_msg\",\"payload\":{{\"type\":\"token_count\",\"info\":{{\"last_token_usage\":{{\"input_tokens\":{input},\"output_tokens\":{output},\"total_tokens\":{total}}}}}}}}}\n"
    )
}

#[test]
fn app_extract_model_checks_nested_metadata() {
    let payload = payload(&json(r#"{"info":{"metadata":{"model":"gpt-5"}}}"#));
    assert_eq!(extract_payload_model(&payload).as_deref(), Some("gpt-5"));
}

#[test]
fn behavior_checks_extract_model_checks_nested_metadata() {
    let payload = payload(&json(r#"{"info":{"metadata":{"model":"gpt-5"}}}"#));
    assert_eq!(extract_payload_model(&payload).as_deref(), Some("gpt-5"));
}

#[test]
fn app_normalize_usage_reads_cache_alias() {
    let usage = usage(&json(
        r#"{"input_tokens":100,"cache_read_input_tokens":25,"output_tokens":20,"reasoning_output_tokens":5}"#,
    ))
    .into_raw_usage();
    assert_eq!(usage.input, 100);
    assert_eq!(usage.cached_input, 25);
    assert_eq!(usage.output, 20);
    assert_eq!(usage.reasoning_output, 5);
    assert_eq!(usage.total, 0);
}

#[test]
fn behavior_checks_normalize_usage_reads_cache_alias() {
    let usage = usage(&json(
        r#"{"input_tokens":100,"cache_read_input_tokens":25,"output_tokens":20,"reasoning_output_tokens":5}"#,
    ))
    .into_raw_usage();
    assert_eq!(usage.input, 100);
    assert_eq!(usage.cached_input, 25);
    assert_eq!(usage.output, 20);
    assert_eq!(usage.reasoning_output, 5);
    assert_eq!(usage.total, 0);
}

#[test]
fn app_normalize_usage_prefers_primary_cached_input_field_when_both_are_present() {
    let usage = usage(&json(
        r#"{"input_tokens":100,"cached_input_tokens":10,"cache_read_input_tokens":25,"output_tokens":20,"total_tokens":120}"#,
    ))
    .into_raw_usage();

    assert_eq!(usage.cached_input, 10);
    assert_eq!(usage.total, 120);
}

#[test]
fn behavior_checks_normalize_usage_prefers_primary_cached_input_field_when_both_are_present() {
    let usage = usage(&json(
        r#"{"input_tokens":100,"cached_input_tokens":10,"cache_read_input_tokens":25,"output_tokens":20,"total_tokens":120}"#,
    ))
    .into_raw_usage();

    assert_eq!(usage.cached_input, 10);
    assert_eq!(usage.total, 120);
}

#[test]
fn app_lossy_string_deserializer_ignores_non_string_shapes() {
    assert_eq!(
        text_field(&json(r#"{"value":"gpt-5"}"#), "value").as_deref(),
        Some("gpt-5")
    );

    for input in [
        r#"{"value":null}"#,
        r#"{"value":true}"#,
        r#"{"value":-1}"#,
        r#"{"value":7}"#,
        r#"{"value":1.5}"#,
        r#"{"value":["gpt-5"]}"#,
        r#"{"value":{"model":"gpt-5"}}"#,
    ] {
        assert_eq!(text_field(&json(input), "value"), None);
    }
}

#[test]
fn behavior_checks_lossy_string_deserializer_ignores_non_string_shapes() {
    assert_eq!(
        text_field(&json(r#"{"value":"gpt-5"}"#), "value").as_deref(),
        Some("gpt-5")
    );

    for input in [
        r#"{"value":null}"#,
        r#"{"value":true}"#,
        r#"{"value":-1}"#,
        r#"{"value":7}"#,
        r#"{"value":1.5}"#,
        r#"{"value":["gpt-5"]}"#,
        r#"{"value":{"model":"gpt-5"}}"#,
    ] {
        assert_eq!(text_field(&json(input), "value"), None);
    }
}

#[test]
fn app_lossy_u64_deserializers_ignore_non_integer_shapes() {
    let integer = field(&json(r#"{"value": 7}"#), "value");
    assert_eq!(deserialize_u64_lossy(&integer), 7);
    assert_eq!(deserialize_optional_u64_lossy(&integer), Some(7));

    for input in [
        r#"{"value": null}"#,
        r#"{"value": true}"#,
        r#"{"value": -1}"#,
        r#"{"value": 1.5}"#,
        r#"{"value": "7"}"#,
        r#"{"value": ["7"]}"#,
        r#"{"value": {"value": 7}}"#,
    ] {
        let value = field(&json(input), "value");
        assert_eq!(deserialize_u64_lossy(&value), 0);
        assert_eq!(deserialize_optional_u64_lossy(&value), None);
    }
}

#[test]
fn behavior_checks_lossy_u64_deserializers_ignore_non_integer_shapes() {
    let integer = field(&json(r#"{"value": 7}"#), "value");
    assert_eq!(deserialize_u64_lossy(&integer), 7);
    assert_eq!(deserialize_optional_u64_lossy(&integer), Some(7));

    for input in [
        r#"{"value": null}"#,
        r#"{"value": true}"#,
        r#"{"value": -1}"#,
        r#"{"value": 1.5}"#,
        r#"{"value": "7"}"#,
        r#"{"value": ["7"]}"#,
        r#"{"value": {"value": 7}}"#,
    ] {
        let value = field(&json(input), "value");
        assert_eq!(deserialize_u64_lossy(&value), 0);
        assert_eq!(deserialize_optional_u64_lossy(&value), None);
    }
}

#[test]
fn app_lossy_object_deserializer_ignores_non_object_shapes() {
    let object = json(r#"{"value": {"name": "codex"}}"#);
    assert_eq!(
        object_field(&object, "value", |value| text_field(value, "name")),
        Some(Some("codex".to_string()))
    );

    for input in [
        r#"{"value": null}"#,
        r#"{"value": true}"#,
        r#"{"value": -1}"#,
        r#"{"value": 7}"#,
        r#"{"value": 1.5}"#,
        r#"{"value": "codex"}"#,
        r#"{"value": ["codex"]}"#,
    ] {
        assert_eq!(
            object_field(&json(input), "value", |value| text_field(value, "name")),
            None
        );
    }
}

#[test]
fn behavior_checks_lossy_object_deserializer_ignores_non_object_shapes() {
    let object = json(r#"{"value": {"name": "codex"}}"#);
    assert_eq!(
        object_field(&object, "value", |value| text_field(value, "name")),
        Some(Some("codex".to_string()))
    );

    for input in [
        r#"{"value": null}"#,
        r#"{"value": true}"#,
        r#"{"value": -1}"#,
        r#"{"value": 7}"#,
        r#"{"value": 1.5}"#,
        r#"{"value": "codex"}"#,
        r#"{"value": ["codex"]}"#,
    ] {
        assert_eq!(
            object_field(&json(input), "value", |value| text_field(value, "name")),
            None
        );
    }
}

#[test]
fn app_calculate_cost_applies_cached_input_pricing() {
    let usage = ModelBreakdown {
        input_tokens: 1_000,
        cached_input_tokens: 200,
        output_tokens: 500,
        reasoning_output_tokens: 0,
        total_tokens: 1_500,
        is_fallback: false,
        ..ModelBreakdown::default()
    };
    let billed = billable_tokens(&breakdown_usage(&usage), CachedInputCostMode::Priced);
    let cost = (billed.input as f64 / 1_000_000.0) * 1.25
        + (billed.cached_input as f64 / 1_000_000.0) * 0.125
        + (billed.output as f64 / 1_000_000.0) * 10.0;
    let expected = (800.0 / 1_000_000.0) * 1.25
        + (200.0 / 1_000_000.0) * 0.125
        + (500.0 / 1_000_000.0) * 10.0;
    assert!((cost - expected).abs() < f64::EPSILON);
}

#[test]
fn behavior_checks_calculate_cost_applies_cached_input_pricing() {
    let usage = ModelBreakdown {
        input_tokens: 1_000,
        cached_input_tokens: 200,
        output_tokens: 500,
        reasoning_output_tokens: 0,
        total_tokens: 1_500,
        is_fallback: false,
        ..ModelBreakdown::default()
    };
    let billed = billable_tokens(&breakdown_usage(&usage), CachedInputCostMode::Priced);
    let cost = (billed.input as f64 / 1_000_000.0) * 1.25
        + (billed.cached_input as f64 / 1_000_000.0) * 0.125
        + (billed.output as f64 / 1_000_000.0) * 10.0;
    let expected = (800.0 / 1_000_000.0) * 1.25
        + (200.0 / 1_000_000.0) * 0.125
        + (500.0 / 1_000_000.0) * 10.0;
    assert!((cost - expected).abs() < f64::EPSILON);
}

#[test]
fn app_calculate_cost_can_treat_cached_input_as_free() {
    let usage = UsageTotals {
        input: 1_000,
        cached_input: 200,
        output: 500,
        reasoning_output: 0,
        total: 1_500,
    };
    let billed = billable_tokens(&usage, CachedInputCostMode::Free);
    let cost = (billed.input as f64 / 1_000_000.0) * 1.25
        + (billed.cached_input as f64 / 1_000_000.0) * 0.125
        + (billed.output as f64 / 1_000_000.0) * 10.0;
    let expected = (800.0 / 1_000_000.0) * 1.25 + (500.0 / 1_000_000.0) * 10.0;
    assert!((cost - expected).abs() < f64::EPSILON);
}

#[test]
fn behavior_checks_calculate_cost_can_treat_cached_input_as_free() {
    let usage = UsageTotals {
        input: 1_000,
        cached_input: 200,
        output: 500,
        reasoning_output: 0,
        total: 1_500,
    };
    let billed = billable_tokens(&usage, CachedInputCostMode::Free);
    let cost = (billed.input as f64 / 1_000_000.0) * 1.25
        + (billed.cached_input as f64 / 1_000_000.0) * 0.125
        + (billed.output as f64 / 1_000_000.0) * 10.0;
    let expected = (800.0 / 1_000_000.0) * 1.25 + (500.0 / 1_000_000.0) * 10.0;
    assert!((cost - expected).abs() < f64::EPSILON);
}

#[test]
fn app_calculate_cost_clamps_cached_input_to_avoid_double_accounting() {
    let usage = UsageTotals {
        input: 100,
        cached_input: 150,
        output: 0,
        reasoning_output: 0,
        total: 100,
    };
    let billed = billable_tokens(&usage, CachedInputCostMode::Priced);
    let cost = (billed.input as f64 / 1_000_000.0) * 10.0
        + (billed.cached_input as f64 / 1_000_000.0) * 1.0
        + (billed.output as f64 / 1_000_000.0) * 0.0;
    let expected = (100.0 / 1_000_000.0) * 1.0;
    assert!((cost - expected).abs() < f64::EPSILON);
}

#[test]
fn behavior_checks_calculate_cost_clamps_cached_input_to_avoid_double_accounting() {
    let usage = UsageTotals {
        input: 100,
        cached_input: 150,
        output: 0,
        reasoning_output: 0,
        total: 100,
    };
    let billed = billable_tokens(&usage, CachedInputCostMode::Priced);
    let cost = (billed.input as f64 / 1_000_000.0) * 10.0
        + (billed.cached_input as f64 / 1_000_000.0) * 1.0
        + (billed.output as f64 / 1_000_000.0) * 0.0;
    let expected = (100.0 / 1_000_000.0) * 1.0;
    assert!((cost - expected).abs() < f64::EPSILON);
}

#[test]
fn app_scan_session_file_skips_bad_json_and_errors_on_invalid_timestamp() {
    let lines = lines(
        "not-json\n{\"type\":\"turn_context\",\"payload\":{\"model\":\"gpt-5\"}}\n{\"timestamp\":\"bad-timestamp\",\"type\":\"event_msg\",\"payload\":{\"type\":\"token_count\",\"info\":{\"last_token_usage\":{\"input_tokens\":1,\"cached_input_tokens\":0,\"output_tokens\":1,\"reasoning_output_tokens\":0,\"total_tokens\":2}}}}\n",
    );
    let error = scan_session_file_from_checkpoint(
        &lines,
        "project/session",
        &SessionParseCheckpoint::default(),
    )
    .expect_err("error");
    assert!(error.contains("invalid timestamp"));
}

#[test]
fn behavior_checks_scan_session_file_skips_bad_json_and_errors_on_invalid_timestamp() {
    let lines = lines(
        "not-json\n{\"type\":\"turn_context\",\"payload\":{\"model\":\"gpt-5\"}}\n{\"timestamp\":\"bad-timestamp\",\"type\":\"event_msg\",\"payload\":{\"type\":\"token_count\",\"info\":{\"last_token_usage\":{\"input_tokens\":1,\"cached_input_tokens\":0,\"output_tokens\":1,\"reasoning_output_tokens\":0,\"total_tokens\":2}}}}\n",
    );
    let error = scan_session_file_from_checkpoint(
        &lines,
        "project/session",
        &SessionParseCheckpoint::default(),
    )
    .expect_err("error");
    assert!(error.contains("invalid timestamp"));
}

#[test]
fn app_scan_session_file_advances_cumulative_state_after_last_usage() {
    let text = [
        r#"{"type":"turn_context","payload":{"model":"gpt-5"}}"#,
        r#"{"timestamp":"2026-01-01T00:00:00Z","type":"event_msg","payload":{"type":"token_count","info":{"total_token_usage":{"input_tokens":100,"output_tokens":10,"total_tokens":110}}}}"#,
        r#"{"timestamp":"2026-01-01T00:01:00Z","type":"event_msg","payload":{"type":"token_count","info":{"last_token_usage":{"input_tokens":30,"output_tokens":5,"total_tokens":35}}}}"#,
        r#"{"timestamp":"2026-01-01T00:02:00Z","type":"event_msg","payload":{"type":"token_count","info":{"total_token_usage":{"input_tokens":150,"output_tokens":20,"total_tokens":170}}}}"#,
    ]
    .join("\n");

    let mut builder = ReportBuilder::new(ReportKind::Session, utc(), None, None);
    let (_, events) = scan_session_file_from_checkpoint(
        &lines(&text),
        "session",
        &SessionParseCheckpoint::default(),
    )
    .expect("scan");
    for event in &events {
        assert!(builder.can_observe(event));
        builder.observe(event);
    }

    let report = builder.finish(
        UsagePresentation::new(CachedInputCostMode::Priced, CacheReadMode::Include),
        Vec::new(),
    );
    let ReportOutput::Session { rows, .. } = report else {
        panic!("expected session report");
    };
    assert_eq!(rows.len(), 1);
    assert_eq!(rows[0].input_tokens, 150);
    assert_eq!(rows[0].output_tokens, 20);
    assert_eq!(rows[0].total_tokens, 170);
}

#[test]
fn behavior_checks_scan_session_file_advances_cumulative_state_after_last_usage() {
    let text = [
        r#"{"type":"turn_context","payload":{"model":"gpt-5"}}"#,
        r#"{"timestamp":"2026-01-01T00:00:00Z","type":"event_msg","payload":{"type":"token_count","info":{"total_token_usage":{"input_tokens":100,"output_tokens":10,"total_tokens":110}}}}"#,
        r#"{"timestamp":"2026-01-01T00:01:00Z","type":"event_msg","payload":{"type":"token_count","info":{"last_token_usage":{"input_tokens":30,"output_tokens":5,"total_tokens":35}}}}"#,
        r#"{"timestamp":"2026-01-01T00:02:00Z","type":"event_msg","payload":{"type":"token_count","info":{"total_token_usage":{"input_tokens":150,"output_tokens":20,"total_tokens":170}}}}"#,
    ]
    .join("\n");

    let mut builder = ReportBuilder::new(ReportKind::Session, utc(), None, None);
    let (_, events) = scan_session_file_from_checkpoint(
        &lines(&text),
        "session",
        &SessionParseCheckpoint::default(),
    )
    .expect("scan");
    for event in &events {
        assert!(builder.can_observe(event));
        builder.observe(event);
    }

    let report = builder.finish(
        UsagePresentation::new(CachedInputCostMode::Priced, CacheReadMode::Include),
        Vec::new(),
    );
    let ReportOutput::Session { rows, .. } = report else {
        panic!("expected session report");
    };
    assert_eq!(rows.len(), 1);
    assert_eq!(rows[0].input_tokens, 150);
    assert_eq!(rows[0].output_tokens, 20);
    assert_eq!(rows[0].total_tokens, 170);
}

#[test]
fn app_scan_session_file_from_checkpoint_reads_only_appended_suffix() {
    let written = format!("{TURN}{}", last_usage("2026-01-02T00:05:00Z", 20, 3, 23));
    let (checkpoint, initial_events) = scan_session_file_from_checkpoint(
        &lines(&written),
        "project/session",
        &SessionParseCheckpoint::default(),
    )
    .expect("initial scan");
    let initial_totals = initial_events
        .iter()
        .map(|event| event.usage.total)
        .collect::<Vec<_>>();
    assert_eq!(initial_totals, vec![23]);

    let appended = format!("{written}{}", last_usage("2026-01-02T00:10:00Z", 5, 1, 6));
    let (updated, events) = scan_session_file_from_checkpoint(
        &lines(&appended[checkpoint.offset as usize..]),
        "project/session",
        &checkpoint,
    )
    .expect("incremental scan");
    let appended_events = events
        .iter()
        .map(|event| (event.model.clone(), event.usage.total))
        .collect::<Vec<_>>();
    assert_eq!(appended_events, vec![("gpt-5".to_string(), 6)]);
    assert!(updated.offset > checkpoint.offset);
}

#[test]
fn behavior_checks_scan_session_file_from_checkpoint_reads_only_appended_suffix() {
    let written = format!("{TURN}{}", last_usage("2026-01-02T00:05:00Z", 20, 3, 23));
    let (checkpoint, initial_events) = scan_session_file_from_checkpoint(
        &lines(&written),
        "project/session",
        &SessionParseCheckpoint::default(),
    )
    .expect("initial scan");
    let initial_totals = initial_events
        .iter()
        .map(|event| event.usage.total)
        .collect::<Vec<_>>();
    assert_eq!(initial_totals, vec![23]);

    let appended = format!("{written}{}", last_usage("2026-01-02T00:10:00Z", 5, 1, 6));
    let (updated, events) = scan_session_file_from_checkpoint(
        &lines(&appended[checkpoint.offset as usize..]),
        "project/session",
        &checkpoint,
    )
    .expect("incremental scan");
    let appended_events = events
        .iter()
        .map(|event| (event.model.clone(), event.usage.total))
        .collect::<Vec<_>>();
    assert_eq!(appended_events, vec![("gpt-5".to_string(), 6)]);
    assert!(updated.offset > checkpoint.offset);
}

#[test]
fn app_scan_session_file_from_checkpoint_retries_unterminated_jsonl_record() {
    let complete = format!("{TURN}{}", last_usage("2026-01-02T00:05:00Z", 20, 3, 23));
    let partial = format!(
        "{complete}{}",
        "{\"timestamp\":\"2026-01-02T00:10:00Z\",\"type\":\"event_msg\""
    );
    let (checkpoint, _) = scan_session_file_from_checkpoint(
        &lines(&partial),
        "project/session",
        &SessionParseCheckpoint::default(),
    )
    .expect("scan with partial line");
    assert_eq!(
        checkpoint.offset,
        u64::try_from(complete.len()).expect("offset fits")
    );

    let finished = format!("{complete}{}", last_usage("2026-01-02T00:10:00Z", 5, 1, 6));
    let (updated, events) = scan_session_file_from_checkpoint(
        &lines(&finished[checkpoint.offset as usize..]),
        "project/session",
        &checkpoint,
    )
    .expect("rescan completed line");
    let appended_totals = events
        .iter()
        .map(|event| event.usage.total)
        .collect::<Vec<_>>();

    assert_eq!(appended_totals, vec![6]);
    assert!(updated.offset > checkpoint.offset);
}

#[test]
fn behavior_checks_scan_session_file_from_checkpoint_retries_unterminated_jsonl_record() {
    let complete = format!("{TURN}{}", last_usage("2026-01-02T00:05:00Z", 20, 3, 23));
    let partial = format!(
        "{complete}{}",
        "{\"timestamp\":\"2026-01-02T00:10:00Z\",\"type\":\"event_msg\""
    );
    let (checkpoint, _) = scan_session_file_from_checkpoint(
        &lines(&partial),
        "project/session",
        &SessionParseCheckpoint::default(),
    )
    .expect("scan with partial line");
    assert_eq!(
        checkpoint.offset,
        u64::try_from(complete.len()).expect("offset fits")
    );

    let finished = format!("{complete}{}", last_usage("2026-01-02T00:10:00Z", 5, 1, 6));
    let (updated, events) = scan_session_file_from_checkpoint(
        &lines(&finished[checkpoint.offset as usize..]),
        "project/session",
        &checkpoint,
    )
    .expect("rescan completed line");
    let appended_totals = events
        .iter()
        .map(|event| event.usage.total)
        .collect::<Vec<_>>();

    assert_eq!(appended_totals, vec![6]);
    assert!(updated.offset > checkpoint.offset);
}

#[test]
fn app_parse_token_usage_line_tracks_turn_context_and_metadata_model() {
    let mut previous_totals = None;
    let mut current_model = None;
    let mut current_model_is_fallback = false;

    let turn_context = parse_token_usage_line(
        &entry(r#"{"type":"turn_context","payload":{"metadata":{"model":"gpt-5-mini"}}}"#),
        "session-key",
        "session-id",
        &mut previous_totals,
        &mut current_model,
        &mut current_model_is_fallback,
    )
    .expect("turn context parse");
    assert!(turn_context.is_none());
    assert_eq!(current_model.as_deref(), Some("gpt-5-mini"));
    assert!(!current_model_is_fallback);

    let event = parse_token_usage_line(
        &entry(r#"{"timestamp":"2026-01-01T00:00:00Z","type":"event_msg","payload":{"type":"token_count","info":{"last_token_usage":{"input_tokens":12,"cached_input_tokens":2,"output_tokens":3,"reasoning_output_tokens":1,"total_tokens":15}}}}"#),
        "session-key",
        "session-id",
        &mut previous_totals,
        &mut current_model,
        &mut current_model_is_fallback,
    )
    .expect("event parse")
    .expect("token usage event");

    assert_eq!(event.model, "gpt-5-mini");
    assert!(!event.is_fallback_model);
    assert_eq!(
        event.usage,
        UsageTotals {
            input: 12,
            cached_input: 2,
            output: 3,
            reasoning_output: 1,
            total: 15,
        }
    );
}

#[test]
fn behavior_checks_parse_token_usage_line_tracks_turn_context_and_metadata_model() {
    let mut previous_totals = None;
    let mut current_model = None;
    let mut current_model_is_fallback = false;

    let turn_context = parse_token_usage_line(
        &entry(r#"{"type":"turn_context","payload":{"metadata":{"model":"gpt-5-mini"}}}"#),
        "session-key",
        "session-id",
        &mut previous_totals,
        &mut current_model,
        &mut current_model_is_fallback,
    )
    .expect("turn context parse");
    assert!(turn_context.is_none());
    assert_eq!(current_model.as_deref(), Some("gpt-5-mini"));
    assert!(!current_model_is_fallback);

    let event = parse_token_usage_line(
        &entry(r#"{"timestamp":"2026-01-01T00:00:00Z","type":"event_msg","payload":{"type":"token_count","info":{"last_token_usage":{"input_tokens":12,"cached_input_tokens":2,"output_tokens":3,"reasoning_output_tokens":1,"total_tokens":15}}}}"#),
        "session-key",
        "session-id",
        &mut previous_totals,
        &mut current_model,
        &mut current_model_is_fallback,
    )
    .expect("event parse")
    .expect("token usage event");

    assert_eq!(event.model, "gpt-5-mini");
    assert!(!event.is_fallback_model);
    assert_eq!(
        event.usage,
        UsageTotals {
            input: 12,
            cached_input: 2,
            output: 3,
            reasoning_output: 1,
            total: 15,
        }
    );
}

#[test]
fn app_parse_token_usage_line_uses_fallback_model_until_explicit_model_arrives() {
    let mut previous_totals = None;
    let mut current_model = None;
    let mut current_model_is_fallback = false;

    let first_event = parse_token_usage_line(
        &entry(r#"{"timestamp":"2026-01-01T00:00:00Z","type":"event_msg","payload":{"type":"token_count","info":{"last_token_usage":{"input_tokens":8,"output_tokens":2,"total_tokens":10}}}}"#),
        "session-key",
        "session-id",
        &mut previous_totals,
        &mut current_model,
        &mut current_model_is_fallback,
    )
    .expect("first event parse")
    .expect("first token usage event");
    assert_eq!(first_event.model, DEFAULT_FALLBACK_MODEL);
    assert!(first_event.is_fallback_model);

    let second_event = parse_token_usage_line(
        &entry(r#"{"timestamp":"2026-01-01T00:01:00Z","type":"event_msg","payload":{"type":"token_count","model":"gpt-5","info":{"last_token_usage":{"input_tokens":4,"output_tokens":1,"total_tokens":5}}}}"#),
        "session-key",
        "session-id",
        &mut previous_totals,
        &mut current_model,
        &mut current_model_is_fallback,
    )
    .expect("second event parse")
    .expect("second token usage event");
    assert_eq!(second_event.model, "gpt-5");
    assert!(!second_event.is_fallback_model);
}

#[test]
fn behavior_checks_parse_token_usage_line_uses_fallback_model_until_explicit_model_arrives() {
    let mut previous_totals = None;
    let mut current_model = None;
    let mut current_model_is_fallback = false;

    let first_event = parse_token_usage_line(
        &entry(r#"{"timestamp":"2026-01-01T00:00:00Z","type":"event_msg","payload":{"type":"token_count","info":{"last_token_usage":{"input_tokens":8,"output_tokens":2,"total_tokens":10}}}}"#),
        "session-key",
        "session-id",
        &mut previous_totals,
        &mut current_model,
        &mut current_model_is_fallback,
    )
    .expect("first event parse")
    .expect("first token usage event");
    assert_eq!(first_event.model, DEFAULT_FALLBACK_MODEL);
    assert!(first_event.is_fallback_model);

    let second_event = parse_token_usage_line(
        &entry(r#"{"timestamp":"2026-01-01T00:01:00Z","type":"event_msg","payload":{"type":"token_count","model":"gpt-5","info":{"last_token_usage":{"input_tokens":4,"output_tokens":1,"total_tokens":5}}}}"#),
        "session-key",
        "session-id",
        &mut previous_totals,
        &mut current_model,
        &mut current_model_is_fallback,
    )
    .expect("second event parse")
    .expect("second token usage event");
    assert_eq!(second_event.model, "gpt-5");
    assert!(!second_event.is_fallback_model);
}

#[test]
fn app_parse_token_usage_line_does_not_fall_back_to_payload_usage_when_info_exists() {
    let mut previous_totals = None;
    let mut current_model = None;
    let mut current_model_is_fallback = false;

    let event = parse_token_usage_line(
        &entry(r#"{"timestamp":"2026-01-01T00:00:00Z","type":"event_msg","payload":{"type":"token_count","last_token_usage":{"input_tokens":8,"output_tokens":2,"total_tokens":10},"info":{"model":"gpt-5"}}}"#),
        "session-key",
        "session-id",
        &mut previous_totals,
        &mut current_model,
        &mut current_model_is_fallback,
    )
    .expect("event parse");

    assert!(event.is_none());
}

#[test]
fn behavior_checks_parse_token_usage_line_does_not_fall_back_to_payload_usage_when_info_exists() {
    let mut previous_totals = None;
    let mut current_model = None;
    let mut current_model_is_fallback = false;

    let event = parse_token_usage_line(
        &entry(r#"{"timestamp":"2026-01-01T00:00:00Z","type":"event_msg","payload":{"type":"token_count","last_token_usage":{"input_tokens":8,"output_tokens":2,"total_tokens":10},"info":{"model":"gpt-5"}}}"#),
        "session-key",
        "session-id",
        &mut previous_totals,
        &mut current_model,
        &mut current_model_is_fallback,
    )
    .expect("event parse");

    assert!(event.is_none());
}

#[test]
fn app_parse_token_usage_line_accepts_escaped_model_strings() {
    let mut previous_totals = None;
    let mut current_model = None;
    let mut current_model_is_fallback = false;

    let turn_context = parse_token_usage_line(
        &entry(r#"{"type":"turn_context","payload":{"metadata":{"model":"gpt\u002d5"}}}"#),
        "session-key",
        "session-id",
        &mut previous_totals,
        &mut current_model,
        &mut current_model_is_fallback,
    )
    .expect("turn context parse");
    assert!(turn_context.is_none());

    let event = parse_token_usage_line(
        &entry(r#"{"timestamp":"2026-01-01T00:00:00Z","type":"event_msg","payload":{"type":"token_count","info":{"last_token_usage":{"input_tokens":5,"output_tokens":1,"total_tokens":6}}}}"#),
        "session-key",
        "session-id",
        &mut previous_totals,
        &mut current_model,
        &mut current_model_is_fallback,
    )
    .expect("event parse")
    .expect("token usage event");

    assert_eq!(event.model, "gpt-5");
    assert!(!event.is_fallback_model);
}

#[test]
fn behavior_checks_parse_token_usage_line_accepts_escaped_model_strings() {
    let mut previous_totals = None;
    let mut current_model = None;
    let mut current_model_is_fallback = false;

    let turn_context = parse_token_usage_line(
        &entry(r#"{"type":"turn_context","payload":{"metadata":{"model":"gpt\u002d5"}}}"#),
        "session-key",
        "session-id",
        &mut previous_totals,
        &mut current_model,
        &mut current_model_is_fallback,
    )
    .expect("turn context parse");
    assert!(turn_context.is_none());

    let event = parse_token_usage_line(
        &entry(r#"{"timestamp":"2026-01-01T00:00:00Z","type":"event_msg","payload":{"type":"token_count","info":{"last_token_usage":{"input_tokens":5,"output_tokens":1,"total_tokens":6}}}}"#),
        "session-key",
        "session-id",
        &mut previous_totals,
        &mut current_model,
        &mut current_model_is_fallback,
    )
    .expect("event parse")
    .expect("token usage event");

    assert_eq!(event.model, "gpt-5");
    assert!(!event.is_fallback_model);
}

#[test]
fn app_parse_token_usage_line_prefers_explicit_model_over_nested_metadata() {
    let mut previous_totals = None;
    let mut current_model = None;
    let mut current_model_is_fallback = false;

    let event = parse_token_usage_line(
        &entry(r#"{"timestamp":"2026-01-01T00:00:00Z","type":"event_msg","payload":{"type":"token_count","model":"gpt-5","info":{"metadata":{"model":"gpt-5-mini"},"last_token_usage":{"input_tokens":5,"output_tokens":1,"total_tokens":6}}}}"#),
        "session-key",
        "session-id",
        &mut previous_totals,
        &mut current_model,
        &mut current_model_is_fallback,
    )
    .expect("event parse")
    .expect("token usage event");

    assert_eq!(event.model, "gpt-5");
}

#[test]
fn behavior_checks_parse_token_usage_line_prefers_explicit_model_over_nested_metadata() {
    let mut previous_totals = None;
    let mut current_model = None;
    let mut current_model_is_fallback = false;

    let event = parse_token_usage_line(
        &entry(r#"{"timestamp":"2026-01-01T00:00:00Z","type":"event_msg","payload":{"type":"token_count","model":"gpt-5","info":{"metadata":{"model":"gpt-5-mini"},"last_token_usage":{"input_tokens":5,"output_tokens":1,"total_tokens":6}}}}"#),
        "session-key",
        "session-id",
        &mut previous_totals,
        &mut current_model,
        &mut current_model_is_fallback,
    )
    .expect("event parse")
    .expect("token usage event");

    assert_eq!(event.model, "gpt-5");
}

#[test]
fn app_parse_token_usage_line_ignores_invalid_optional_subfields() {
    let mut previous_totals = None;
    let mut current_model = None;
    let mut current_model_is_fallback = false;

    let event = parse_token_usage_line(
        &entry(r#"{"timestamp":"2026-01-01T00:00:00Z","type":"event_msg","payload":{"type":"token_count","info":{"metadata":"invalid","last_token_usage":"invalid","total_token_usage":{"input_tokens":9,"output_tokens":1,"total_tokens":10}}}}"#),
        "session-key",
        "session-id",
        &mut previous_totals,
        &mut current_model,
        &mut current_model_is_fallback,
    )
    .expect("event parse")
    .expect("token usage event");

    assert_eq!(event.usage.total, 10);
    assert_eq!(event.model, DEFAULT_FALLBACK_MODEL);
    assert!(event.is_fallback_model);
}

#[test]
fn behavior_checks_parse_token_usage_line_ignores_invalid_optional_subfields() {
    let mut previous_totals = None;
    let mut current_model = None;
    let mut current_model_is_fallback = false;

    let event = parse_token_usage_line(
        &entry(r#"{"timestamp":"2026-01-01T00:00:00Z","type":"event_msg","payload":{"type":"token_count","info":{"metadata":"invalid","last_token_usage":"invalid","total_token_usage":{"input_tokens":9,"output_tokens":1,"total_tokens":10}}}}"#),
        "session-key",
        "session-id",
        &mut previous_totals,
        &mut current_model,
        &mut current_model_is_fallback,
    )
    .expect("event parse")
    .expect("token usage event");

    assert_eq!(event.usage.total, 10);
    assert_eq!(event.model, DEFAULT_FALLBACK_MODEL);
    assert!(event.is_fallback_model);
}

#[test]
fn app_parse_token_usage_line_keeps_usage_when_one_counter_has_wrong_type() {
    let mut previous_totals = None;
    let mut current_model = None;
    let mut current_model_is_fallback = false;

    let event = parse_token_usage_line(
        &entry(r#"{"timestamp":"2026-01-01T00:00:00Z","type":"event_msg","payload":{"type":"token_count","info":{"last_token_usage":{"input_tokens":7,"output_tokens":2,"reasoning_output_tokens":"invalid","total_tokens":9}}}}"#),
        "session-key",
        "session-id",
        &mut previous_totals,
        &mut current_model,
        &mut current_model_is_fallback,
    )
    .expect("event parse")
    .expect("token usage event");

    assert_eq!(event.usage.input, 7);
    assert_eq!(event.usage.output, 2);
    assert_eq!(event.usage.reasoning_output, 0);
    assert_eq!(event.usage.total, 9);
}

#[test]
fn behavior_checks_parse_token_usage_line_keeps_usage_when_one_counter_has_wrong_type() {
    let mut previous_totals = None;
    let mut current_model = None;
    let mut current_model_is_fallback = false;

    let event = parse_token_usage_line(
        &entry(r#"{"timestamp":"2026-01-01T00:00:00Z","type":"event_msg","payload":{"type":"token_count","info":{"last_token_usage":{"input_tokens":7,"output_tokens":2,"reasoning_output_tokens":"invalid","total_tokens":9}}}}"#),
        "session-key",
        "session-id",
        &mut previous_totals,
        &mut current_model,
        &mut current_model_is_fallback,
    )
    .expect("event parse")
    .expect("token usage event");

    assert_eq!(event.usage.input, 7);
    assert_eq!(event.usage.output, 2);
    assert_eq!(event.usage.reasoning_output, 0);
    assert_eq!(event.usage.total, 9);
}

#[test]
fn app_parse_token_usage_line_keeps_usage_when_model_field_has_wrong_type() {
    let mut previous_totals = None;
    let mut current_model = Some("gpt-5".to_string());
    let mut current_model_is_fallback = false;

    let event = parse_token_usage_line(
        &entry(r#"{"timestamp":"2026-01-01T00:00:00Z","type":"event_msg","payload":{"type":"token_count","model":["invalid"],"info":{"last_token_usage":{"input_tokens":4,"output_tokens":1,"total_tokens":5}}}}"#),
        "session-key",
        "session-id",
        &mut previous_totals,
        &mut current_model,
        &mut current_model_is_fallback,
    )
    .expect("event parse")
    .expect("token usage event");

    assert_eq!(event.model, "gpt-5");
    assert!(!event.is_fallback_model);
    assert_eq!(event.usage.total, 5);
}

#[test]
fn behavior_checks_parse_token_usage_line_keeps_usage_when_model_field_has_wrong_type() {
    let mut previous_totals = None;
    let mut current_model = Some("gpt-5".to_string());
    let mut current_model_is_fallback = false;

    let event = parse_token_usage_line(
        &entry(r#"{"timestamp":"2026-01-01T00:00:00Z","type":"event_msg","payload":{"type":"token_count","model":["invalid"],"info":{"last_token_usage":{"input_tokens":4,"output_tokens":1,"total_tokens":5}}}}"#),
        "session-key",
        "session-id",
        &mut previous_totals,
        &mut current_model,
        &mut current_model_is_fallback,
    )
    .expect("event parse")
    .expect("token usage event");

    assert_eq!(event.model, "gpt-5");
    assert!(!event.is_fallback_model);
    assert_eq!(event.usage.total, 5);
}

#[test]
fn app_line_might_affect_usage_accepts_relevant_markers() {
    assert!(line_might_affect_usage(
        r#"{"type":"turn_context","payload":{"model":"gpt-5"}}"#
    ));
    assert!(line_might_affect_usage(
        r#"{"timestamp":"2026-01-01T00:00:00Z","type":"event_msg","payload":{"type":"token_count"}}"#
    ));
    assert!(line_might_affect_usage(
        r#"{ "timestamp":"2026-01-01T00:00:00Z", "type":"event_msg", "payload":{"type":"token_count"} }"#
    ));
}

#[test]
fn behavior_checks_line_might_affect_usage_accepts_relevant_markers() {
    assert!(line_might_affect_usage(
        r#"{"type":"turn_context","payload":{"model":"gpt-5"}}"#
    ));
    assert!(line_might_affect_usage(
        r#"{"timestamp":"2026-01-01T00:00:00Z","type":"event_msg","payload":{"type":"token_count"}}"#
    ));
    assert!(line_might_affect_usage(
        r#"{ "timestamp":"2026-01-01T00:00:00Z", "type":"event_msg", "payload":{"type":"token_count"} }"#
    ));
}

#[test]
fn app_line_might_affect_usage_rejects_irrelevant_lines() {
    assert!(!line_might_affect_usage(r#"{"type":"response_item"}"#));
    assert!(!line_might_affect_usage(
        r#"{"timestamp":"2026-01-01T00:00:00Z","type":"event_msg","payload":{"type":"agent_reasoning"}}"#
    ));
    assert!(!line_might_affect_usage("not-json"));
}

#[test]
fn behavior_checks_line_might_affect_usage_rejects_irrelevant_lines() {
    assert!(!line_might_affect_usage(r#"{"type":"response_item"}"#));
    assert!(!line_might_affect_usage(
        r#"{"timestamp":"2026-01-01T00:00:00Z","type":"event_msg","payload":{"type":"agent_reasoning"}}"#
    ));
    assert!(!line_might_affect_usage("not-json"));
}

#[test]
fn app_line_might_affect_usage_fails_open_for_escaped_json_strings() {
    assert!(line_might_affect_usage(
        r#"{"type":"turn\u005fcontext","payload":{"model":"gpt-5"}}"#
    ));
    assert!(line_might_affect_usage(
        r#"{"timestamp":"2026-01-01T00:00:00Z","type":"event_msg","payload":{"type":"token\u005fcount"}}"#
    ));
}

#[test]
fn behavior_checks_line_might_affect_usage_fails_open_for_escaped_json_strings() {
    assert!(line_might_affect_usage(
        r#"{"type":"turn\u005fcontext","payload":{"model":"gpt-5"}}"#
    ));
    assert!(line_might_affect_usage(
        r#"{"timestamp":"2026-01-01T00:00:00Z","type":"event_msg","payload":{"type":"token\u005fcount"}}"#
    ));
}

#[test]
fn app_subtract_usage_saturates_negative_deltas() {
    let delta = subtract_usage(
        RawUsage {
            input: 5,
            cached_input: 2,
            output: 3,
            reasoning_output: 1,
            total: 8,
        },
        Some(RawUsage {
            input: 10,
            cached_input: 4,
            output: 4,
            reasoning_output: 2,
            total: 14,
        }),
    );
    assert_eq!(delta.input, 0);
    assert_eq!(delta.cached_input, 0);
    assert_eq!(delta.output, 0);
    assert_eq!(delta.reasoning_output, 0);
    assert_eq!(delta.total, 0);
}

#[test]
fn behavior_checks_subtract_usage_saturates_negative_deltas() {
    let delta = subtract_usage(
        RawUsage {
            input: 5,
            cached_input: 2,
            output: 3,
            reasoning_output: 1,
            total: 8,
        },
        Some(RawUsage {
            input: 10,
            cached_input: 4,
            output: 4,
            reasoning_output: 2,
            total: 14,
        }),
    );
    assert_eq!(delta.input, 0);
    assert_eq!(delta.cached_input, 0);
    assert_eq!(delta.output, 0);
    assert_eq!(delta.reasoning_output, 0);
    assert_eq!(delta.total, 0);
}

#[test]
fn scanning_in_two_steps_gives_what_one_step_gives() {
    let text = format!(
        "{TURN}{}noise\n\n{}{}",
        last_usage("2026-01-02T00:05:00Z", 20, 3, 23),
        last_usage("2026-01-02T00:10:00Z", 5, 1, 6),
        last_usage("2026-01-02T00:11:00Z", 1, 1, 2),
    );
    let all = lines(&text);
    let start = SessionParseCheckpoint::default();
    let (whole, events) = scan_session_file_from_checkpoint(&all, "s", &start).expect("one scan");
    assert_eq!(whole.offset, text.len() as u64);
    for cut in 0..=all.len() {
        let (middle, mut first) =
            scan_session_file_from_checkpoint(&all[..cut].to_vec(), "s", &start).expect("head");
        let (end, second) =
            scan_session_file_from_checkpoint(&all[cut..].to_vec(), "s", &middle).expect("tail");
        first.extend(second);
        assert_eq!(end.offset, whole.offset);
        assert_eq!(end.previous_totals, whole.previous_totals);
        assert_eq!(end.current_model, whole.current_model);
        assert_eq!(first.len(), events.len());
        for (one, other) in first.iter().zip(&events) {
            assert_eq!(one.timestamp_utc, other.timestamp_utc);
            assert_eq!(one.usage, other.usage);
            assert_eq!(one.model, other.model);
        }
    }
}

#[test]
fn counters_that_cannot_be_added_have_no_room() {
    let huge = entry(
        r#"{"timestamp":"2026-01-01T00:00:00Z","type":"event_msg","payload":{"type":"token_count","info":{"last_token_usage":{"input_tokens":18446744073709551615,"output_tokens":1}}}}"#,
    );
    assert!(!line_has_room(&huge, &None));
    let fine = entry(
        r#"{"timestamp":"2026-01-01T00:00:00Z","type":"event_msg","payload":{"type":"token_count","info":{"last_token_usage":{"input_tokens":3,"output_tokens":1}}}}"#,
    );
    assert!(line_has_room(&fine, &None));
    assert!(lines_have_room(
        &lines(&last_usage("2026-01-02T00:05:00Z", 20, 3, 23)),
        &SessionParseCheckpoint::default()
    ));
}

#[test]
fn raw_counters_are_capped_and_totalled() {
    let raw = RawUsage {
        input: 10,
        cached_input: 12,
        output: 5,
        reasoning_output: 2,
        total: 0,
    };
    assert_eq!(
        raw.into_usage_totals(),
        UsageTotals {
            input: 10,
            cached_input: 10,
            output: 5,
            reasoning_output: 2,
            total: 15,
        }
    );
    assert_eq!(raw.billable_total(), 15);
    assert_eq!(raw.advance(raw).total, 15);
    assert_eq!(raw.advance(raw).input, 20);
    assert_eq!(subtract_usage(raw, None), raw);
}

#[test]
fn usage_is_read_from_the_info_object_first() {
    let inline = payload(&json(
        r#"{"last_token_usage":{"input_tokens":1},"total_token_usage":{"input_tokens":2}}"#,
    ));
    assert_eq!(info_usage(&inline, UsageKind::Last), None);
    let mut totals = None;
    assert_eq!(
        extract_event_usage(&inline, &mut totals).map(|usage| usage.input),
        Some(1)
    );
    assert_eq!(totals.map(|raw| raw.input), Some(2));
    assert_eq!(extract_event_usage(&payload(&json("{}")), &mut totals), None);
    let nested = payload(&json(
        r#"{"last_token_usage":{"input_tokens":1},"info":{"total_token_usage":{"input_tokens":3}}}"#,
    ));
    assert_eq!(info_usage(&nested, UsageKind::Last), None);
    assert_eq!(
        info_usage(&nested, UsageKind::Total).map(|raw| raw.input),
        Some(3)
    );
}

#[test]
fn cumulative_reports_count_every_token_once() {
    let report = |input: u64, output: u64, reasoning: u64| {
        payload(&json(&format!(
            r#"{{"info":{{"total_token_usage":{{"input_tokens":{input},"output_tokens":{output},"reasoning_output_tokens":{reasoning}}}}}}}"#
        )))
    };
    let mut totals = None;
    let mut counted = UsageTotals::default();
    let mut silent = 0;
    for (input, output, reasoning) in [(5, 1, 0), (5, 1, 0), (9, 1, 1), (20, 8, 3), (20, 8, 3)] {
        match extract_event_usage(&report(input, output, reasoning), &mut totals) {
            Some(usage) => counted.add(&usage),
            None => silent += 1,
        }
    }
    assert_eq!(silent, 2);
    assert_eq!(
        (counted.input, counted.output, counted.reasoning_output),
        (20, 8, 3)
    );
    assert_eq!(
        totals,
        Some(RawUsage {
            input: 20,
            cached_input: 0,
            output: 8,
            reasoning_output: 3,
            total: 0,
        })
    );
}

#[test]
fn model_names_are_looked_up_in_order() {
    assert_eq!(
        metadata_model(&model_fields(&json(r#"{"metadata":{"model":"m"}}"#))),
        Some("m")
    );
    assert_eq!(metadata_model(&model_fields(&json("{}"))), None);
    assert_eq!(
        extract_payload_model(&payload(&json(r#"{"model_name":"n"}"#))).as_deref(),
        Some("n")
    );
    assert_eq!(extract_payload_model(&payload(&json("{}"))), None);
}

#[test]
fn excluded_cache_reads_leave_the_input() {
    let usage = UsageTotals {
        input: 50,
        cached_input: 15,
        output: 10,
        reasoning_output: 3,
        total: 60,
    };
    assert_eq!(
        usage.with_cache_read_mode(CacheReadMode::Exclude),
        UsageTotals {
            input: 35,
            cached_input: 0,
            output: 10,
            reasoning_output: 3,
            total: 45,
        }
    );
    assert_eq!(usage.with_cache_read_mode(CacheReadMode::Include), usage);
    let mut sum = usage;
    sum.add(&usage);
    assert_eq!(sum.total, 120);
    sum.subtract(&usage);
    assert_eq!(sum, usage);
    assert!(usage.has_usage());
    assert!(!UsageTotals::default().has_usage());
}

#[test]
fn other_entries_change_nothing_and_counting_lines_hold_a_mark() {
    let usage = r#""info":{"total_token_usage":{"input_tokens":9}}"#;
    let at = r#""timestamp":"2026-01-01T00:00:00Z""#;
    for (text, counts) in [
        (format!(r#"{{{at},"type":"response_item","payload":{{"type":"token_count",{usage}}}}}"#), false),
        (format!(r#"{{{at},"type":"event_msg","payload":{{"type":"agent_message",{usage}}}}}"#), false),
        (r#"{"type":"session_meta","payload":{"model":"m"}}"#.to_string(), false),
        (r#"{"payload":{"model":"m"}}"#.to_string(), false),
        (format!(r#"{{{at},"type":"event_msg","payload":{{"type":"token_count",{usage}}}}}"#), true),
        (format!(r#"{{{at},"type":"event_msg","payload":{{"type":"token\u005fcount",{usage}}}}}"#), true),
        (r#"{"type":"turn_context","payload":{"model":"m"}}"#.to_string(), true),
        (r#"{"type":"turn_\u0063ontext","payload":{"model":"m"}}"#.to_string(), true),
    ] {
        let mut totals = None;
        let mut model = Some("gpt-5".to_string());
        let mut fallback = true;
        let event = parse_token_usage_line(
            &entry(&text),
            "session-key",
            "session-id",
            &mut totals,
            &mut model,
            &mut fallback,
        )
        .expect("parse");
        let unchanged = event.is_none()
            && totals.is_none()
            && model.as_deref() == Some("gpt-5")
            && fallback;
        assert_eq!(unchanged, !counts, "{text}");
        if counts {
            assert!(line_might_affect_usage(&text));
        }
    }
}
