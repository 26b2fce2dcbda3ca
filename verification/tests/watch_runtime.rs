//! Targets, notifications, cached files and the watch runtime.

use codexusage::calendar::{parse_timestamp, parse_timezone, Timestamp, Timezone};
use codexusage::keyed::TextMap;
use codexusage::model::{
    CacheReadMode, CachedInputCostMode, ReportKind, ReportOutput, UsagePresentation, UsageTotals,
    billable_tokens,
};
use codexusage::paths::{
    is_session_log, path_is_under_roots, session_file_path, watch_event_session_ids, SessionPath,
};
use codexusage::project::ProjectFilter;
use codexusage::report::{sort_session_entries, ReportBuilder, SessionSummary};
use codexusage::session_log::{
    deserialize_optional_cow_lossy, deserialize_optional_object_lossy,
    deserialize_optional_u64_lossy, deserialize_u64_lossy, line_needs_entry,
    scan_session_file_from_checkpoint, EntryInfo, EntryPayload, JsonField, ModelFields,
    ModelMetadata, SessionLine, SessionLogEntry, SessionParseCheckpoint, TokenUsageEvent,
    UsagePayload,
};
use codexusage::snapshot::WatchSnapshot;
use codexusage::summary::GroupSummary;
use codexusage::targets::{
    choose_session_target, register_session_target, same_watch_target, SessionScanTarget,
};
use codexusage::watch_builder::WatchBuilder;
use codexusage::watch_cache::{
    append_cached_watch_file, build_cached_watch_file, sort_events, CachedWatchFile,
    OwnedWatchEvent,
};
use codexusage::watch_events::{
    apply_event, root_changes, watch_dirty_kind, WatchChangeSet, WatchDirtyKind, WatchEventKind,
};
use codexusage::watch_state::{
    files_have_room, merge_rebuilt_files, DirtyRefresh, WatchRuntimeState,
};
use serde_json::Value;

fn path(text: &str) -> SessionPath {
    let mut path = SessionPath {
        absolute: text.starts_with('/'),
        parts: Vec::new(),
    };
    for part in text.split('/') {
        path.push(part);
    }
    path
}

fn at(text: &str) -> Timestamp {
    parse_timestamp(text).expect("timestamp")
}

fn field(object: &Value, name: &str) -> JsonField {
    match object.get(name) {
        None | Some(Value::Null) => JsonField::Null,
        Some(Value::Bool(value)) => JsonField::Bool(*value),
        Some(Value::Number(number)) => match (number.as_u64(), number.as_i64()) {
            (Some(value), _) => JsonField::Unsigned(value),
            (None, Some(value)) => JsonField::Signed(value),
            (None, None) => JsonField::Float,
        },
        Some(Value::String(value)) => JsonField::Text(value.clone()),
        Some(Value::Array(_)) => JsonField::Array,
        Some(Value::Object(_)) => JsonField::Object,
    }
}

fn text_field(object: &Value, name: &str) -> Option<String> {
    deserialize_optional_cow_lossy(&field(object, name))
}

fn object_field<T>(object: &Value, name: &str, read: fn(&Value) -> T) -> Option<T> {
    let value = object.get(name).cloned().unwrap_or(Value::Null);
    deserialize_optional_object_lossy(&field(object, name), read(&value))
}

fn usage(object: &Value) -> UsagePayload {
    UsagePayload {
        input_tokens: deserialize_u64_lossy(&field(object, "input_tokens")),
        cached_input_tokens: deserialize_optional_u64_lossy(&field(object, "cached_input_tokens")),
        cache_read_input_tokens: deserialize_optional_u64_lossy(&field(
            object,
            "cache_read_input_tokens",
        )),
        output_tokens: deserialize_u64_lossy(&field(object, "output_tokens")),
        reasoning_output_tokens: deserialize_u64_lossy(&field(object, "reasoning_output_tokens")),
        total_tokens: deserialize_u64_lossy(&field(object, "total_tokens")),
    }
}

fn metadata(object: &Value) -> ModelMetadata {
    ModelMetadata {
        model: text_field(object, "model"),
    }
}

fn model_fields(object: &Value) -> ModelFields {
    ModelFields {
        model: text_field(object, "model"),
        model_name: text_field(object, "model_name"),
        metadata: object_field(object, "metadata", metadata),
    }
}

fn info(object: &Value) -> EntryInfo {
    EntryInfo {
        last_token_usage: object_field(object, "last_token_usage", usage),
        total_token_usage: object_field(object, "total_token_usage", usage),
        model_fields: model_fields(object),
    }
}

fn payload(object: &Value) -> EntryPayload {
    EntryPayload {
        payload_type: text_field(object, "type"),
        info: object_field(object, "info", info),
        last_token_usage: object_field(object, "last_token_usage", usage),
        total_token_usage: object_field(object, "total_token_usage", usage),
        model_fields: model_fields(object),
    }
}

fn entry(text: &str) -> Option<SessionLogEntry> {
    let object = serde_json::from_str::<Value>(text).ok()?;
    Some(SessionLogEntry {
        entry_type: text_field(&object, "type"),
        timestamp: text_field(&object, "timestamp"),
        payload: object_field(&object, "payload", payload),
    })
}

fn lines(text: &str) -> Vec<SessionLine> {
    text.split_inclusive('\n')
        .map(|line| SessionLine {
            text: line.to_string(),
            bytes_read: line.len(),
            entry: if line_needs_entry(line) {
                entry(line.trim())
            } else {
                None
            },
        })
        .collect()
}

fn utc() -> Timezone {
    parse_timezone("UTC").expect("timezone")
}


const TURN: &str = "{\"type\":\"turn_context\",\"payload\":{\"model\":\"gpt-5\"}}\n";

fn last_usage(timestamp: &str, input: u64, output: u64, total: u64) -> String {
    format!(
        "{{\"timestamp\":\"{timestamp}\",\"type\":\"event_msg\",\"payload\":{{\"type\":\"token_count\",\"info\":{{\"last_token_usage\":{{\"input_tokens\":{input},\"output_tokens\":{output},\"total_tokens\":{total}}}}}}}}}\n"
    )
}

/// Session files by path, with their modification times.
#[derive(Default)]
struct Disk {
    files: Vec<(String, String, i128)>,
}

impl Disk {
    fn write(&mut self, file: &str, contents: &str, modified: i128) {
        self.remove(file);
        self.files
            .push((file.to_string(), contents.to_string(), modified));
    }

    fn remove(&mut self, file: &str) {
        self.files.retain(|entry| entry.0 != file);
    }

    fn read(&self, target: &SessionScanTarget, offset: u64) -> Vec<SessionLine> {
        let shown = target.path.display();
        let entry = self
            .files
            .iter()
            .find(|entry| entry.0 == shown)
            .expect("existing file");
        lines(&entry.1[offset as usize..])
    }

    fn discover(&self, roots: &[SessionPath]) -> Vec<SessionScanTarget> {
        let mut selected = TextMap::new();
        for root in roots {
            for (file, contents, modified) in &self.files {
                let file = path(file);
                if file.starts_with(root) && is_session_log(&file) {
                    register_session_target(
                        root,
                        file,
                        contents.len() as u64,
                        Some(*modified),
                        &mut selected,
                    );
                }
            }
        }
        selected
            .entries
            .into_iter()
            .map(|(_, target)| target)
            .collect()
    }

    fn resolve(&self, roots: &[SessionPath], session_id: &str) -> Option<SessionScanTarget> {
        let candidates = roots
            .iter()
            .filter_map(|root| {
                let file = session_file_path(root, session_id);
                let shown = file.display();
                self.files
                    .iter()
                    .find(|entry| entry.0 == shown)
                    .map(|entry| SessionScanTarget {
                        session_id: session_id.to_string(),
                        path: file,
                        bytes: entry.1.len() as u64,
                        modified: Some(entry.2),
                    })
            })
            .collect::<Vec<_>>();
        choose_session_target(candidates)
    }
}

fn build(
    disk: &Disk,
    runtime: &WatchRuntimeState,
    target: &SessionScanTarget,
    now: Timestamp,
) -> Result<CachedWatchFile, String> {
    build_cached_watch_file(
        target,
        &disk.read(target, 0),
        &runtime.timezone,
        runtime.current_day,
        now,
    )
}

fn refresh(
    runtime: &mut WatchRuntimeState,
    disk: &Disk,
    roots: &[SessionPath],
    now: Timestamp,
    changes: WatchChangeSet,
    started_at: u128,
) -> Result<(), String> {
    if runtime.begin_refresh(now, changes.discovery_due, started_at)? {
        let plan = runtime.plan_discovered_targets(
            &disk.discover(roots),
            &changes.dirty_sessions,
            started_at,
        );
        let mut rebuilt: Vec<CachedWatchFile> = Vec::new();
        for target in &plan.rebuild {
            rebuilt.push(build(disk, runtime, target, now)?);
        }
        let files = merge_rebuilt_files(plan.kept, rebuilt);
        assert!(files_have_room(&files));
        return runtime.adopt_discovered_targets(plan.selected_targets, files, now);
    }
    for (session_id, kind) in &changes.dirty_sessions.entries {
        let target = disk.resolve(roots, session_id);
        let cached = match runtime.begin_dirty_session(session_id, target.as_ref(), *kind) {
            DirtyRefresh::Append(cached) => {
                let target = target.expect("target");
                let appended = disk.read(&target, cached.parser_checkpoint.offset);
                append_cached_watch_file(
                    cached,
                    &target,
                    &appended,
                    &runtime.timezone,
                    runtime.current_day,
                    now,
                )?
            }
            DirtyRefresh::Rebuild => {
                let target = target.expect("target");
                build(disk, runtime, &target, now)?
            }
            DirtyRefresh::Forget => continue,
        };
        assert!(runtime.has_room_for(&cached));
        runtime.finish_dirty_session(cached);
    }
    Ok(())
}

fn load(disk: &Disk, roots: &[SessionPath], now: Timestamp) -> WatchRuntimeState {
    let mut runtime = WatchRuntimeState::new(utc(), now);
    let mut changes = WatchChangeSet::new();
    changes.discovery_due = true;
    refresh(&mut runtime, disk, roots, now, changes, 0).expect("runtime");
    runtime
}

fn snapshot_of(runtime: &WatchRuntimeState, now: Timestamp) -> WatchSnapshot {
    runtime
        .snapshot(
            UsagePresentation::new(CachedInputCostMode::Priced, CacheReadMode::Include),
            now,
            false,
        )
        .expect("snapshot")
}

fn dirty(session_id: &str, kind: WatchDirtyKind) -> WatchChangeSet {
    let mut changes = WatchChangeSet::new();
    changes.mark_dirty_sessions(&vec![session_id.to_string()], kind);
    changes
}

fn scan(disk: &Disk, target: &SessionScanTarget) -> Vec<TokenUsageEvent> {
    scan_session_file_from_checkpoint(
        &disk.read(target, 0),
        &target.session_id,
        &SessionParseCheckpoint::default(),
    )
    .expect("scan")
    .1
}

#[test]
fn app_sort_session_entries_breaks_timestamp_ties_by_session_id() {
    let later = at("2025-09-11T18:00:00Z");
    let mut entries = vec![
        (
            "zeta/session".to_string(),
            SessionSummary::new(later, "zeta/session".to_string()),
        ),
        (
            "alpha/session".to_string(),
            SessionSummary::new(later, "alpha/session".to_string()),
        ),
    ];

    sort_session_entries(&mut entries);

    assert_eq!(entries[0].0, "alpha/session");
    assert_eq!(entries[1].0, "zeta/session");
}

#[test]
fn behavior_checks_sort_session_entries_breaks_timestamp_ties_by_session_id() {
    let later = at("2025-09-11T18:00:00Z");
    let mut entries = vec![
        (
            "zeta/session".to_string(),
            SessionSummary::new(later, "zeta/session".to_string()),
        ),
        (
            "alpha/session".to_string(),
            SessionSummary::new(later, "alpha/session".to_string()),
        ),
    ];

    sort_session_entries(&mut entries);

    assert_eq!(entries[0].0, "alpha/session");
    assert_eq!(entries[1].0, "zeta/session");
}

#[test]
fn app_mark_dirty_sessions_keeps_the_most_conservative_refresh_kind() {
    let mut changes = WatchChangeSet::new();
    changes.mark_dirty_sessions(&vec!["session-a".to_string()], WatchDirtyKind::AppendOnly);
    changes.mark_dirty_sessions(
        &vec!["session-a".to_string(), "session-b".to_string()],
        WatchDirtyKind::FullRebuild,
    );
    changes.mark_dirty_sessions(&vec!["session-b".to_string()], WatchDirtyKind::AppendOnly);

    assert_eq!(
        changes.dirty_sessions.get("session-a"),
        Some(&WatchDirtyKind::FullRebuild)
    );
    assert_eq!(
        changes.dirty_sessions.get("session-b"),
        Some(&WatchDirtyKind::FullRebuild)
    );
}

#[test]
fn behavior_checks_mark_dirty_sessions_keeps_the_most_conservative_refresh_kind() {
    let mut changes = WatchChangeSet::new();
    changes.mark_dirty_sessions(&vec!["session-a".to_string()], WatchDirtyKind::AppendOnly);
    changes.mark_dirty_sessions(
        &vec!["session-a".to_string(), "session-b".to_string()],
        WatchDirtyKind::FullRebuild,
    );
    changes.mark_dirty_sessions(&vec!["session-b".to_string()], WatchDirtyKind::AppendOnly);

    assert_eq!(
        changes.dirty_sessions.get("session-a"),
        Some(&WatchDirtyKind::FullRebuild)
    );
    assert_eq!(
        changes.dirty_sessions.get("session-b"),
        Some(&WatchDirtyKind::FullRebuild)
    );
}

#[test]
fn app_watch_helpers_classify_dirty_events_and_paths() {
    let session_root = path("/tmp/codexusage-tests/sessions");
    let session_path = session_root.join("team").join("session.jsonl");
    let txt_path = session_root.join("team").join("session.txt");

    assert_eq!(
        watch_dirty_kind(WatchEventKind::SizeChange),
        WatchDirtyKind::AppendOnly
    );
    assert_eq!(
        watch_dirty_kind(WatchEventKind::Other),
        WatchDirtyKind::FullRebuild
    );
    let roots = vec![session_root];
    assert!(path_is_under_roots(&roots, &session_path));
    assert!(!path_is_under_roots(
        &roots,
        &path("/tmp/elsewhere/session.jsonl")
    ));
    assert_eq!(
        watch_event_session_ids(&roots, &session_path),
        vec!["team/session".to_string()]
    );
    assert!(watch_event_session_ids(&roots, &txt_path).is_empty());
}

#[test]
fn behavior_checks_watch_helpers_classify_dirty_events_and_paths() {
    let session_root = path("/tmp/codexusage-tests/sessions");
    let session_path = session_root.join("team").join("session.jsonl");
    let txt_path = session_root.join("team").join("session.txt");

    assert_eq!(
        watch_dirty_kind(WatchEventKind::SizeChange),
        WatchDirtyKind::AppendOnly
    );
    assert_eq!(
        watch_dirty_kind(WatchEventKind::Other),
        WatchDirtyKind::FullRebuild
    );
    let roots = vec![session_root];
    assert!(path_is_under_roots(&roots, &session_path));
    assert!(!path_is_under_roots(
        &roots,
        &path("/tmp/elsewhere/session.jsonl")
    ));
    assert_eq!(
        watch_event_session_ids(&roots, &session_path),
        vec!["team/session".to_string()]
    );
    assert!(watch_event_session_ids(&roots, &txt_path).is_empty());
}

#[test]
fn app_collect_session_files_recurses_and_filters_extensions() {
    let mut disk = Disk::default();
    disk.write("/logs/nested/a.jsonl", "", 0);
    disk.write("/logs/nested/b.txt", "", 0);

    let files = disk.discover(&[path("/logs")]);

    assert_eq!(files.len(), 1);
    assert!(files[0].path.display().ends_with("a.jsonl"));
}

#[test]
fn behavior_checks_collect_session_files_recurses_and_filters_extensions() {
    let mut disk = Disk::default();
    disk.write("/logs/nested/a.jsonl", "", 0);
    disk.write("/logs/nested/b.txt", "", 0);

    let files = disk.discover(&[path("/logs")]);

    assert_eq!(files.len(), 1);
    assert!(files[0].path.display().ends_with("a.jsonl"));
}

#[test]
fn app_session_reports_prefer_longer_duplicate_files() {
    let short_payload = "{\"timestamp\":\"2025-09-11T18:00:00.000Z\",\"type\":\"turn_context\",\"payload\":{\"model\":\"gpt-5\"}}\n{\"timestamp\":\"2025-09-11T18:01:00.000Z\",\"type\":\"event_msg\",\"payload\":{\"type\":\"token_count\",\"info\":{\"last_token_usage\":{\"input_tokens\":100,\"cached_input_tokens\":0,\"output_tokens\":10,\"reasoning_output_tokens\":0,\"total_tokens\":110}}}}\n";
    let long_payload = format!(
        "{short_payload}{}",
        "{\"timestamp\":\"2025-09-11T18:02:00.000Z\",\"type\":\"event_msg\",\"payload\":{\"type\":\"token_count\",\"info\":{\"last_token_usage\":{\"input_tokens\":50,\"cached_input_tokens\":0,\"output_tokens\":5,\"reasoning_output_tokens\":0,\"total_tokens\":55}}}}\n"
    );
    let mut disk = Disk::default();
    disk.write("/first/sessions/project/session.jsonl", short_payload, 0);
    disk.write("/second/sessions/project/session.jsonl", &long_payload, 0);

    let mut builder = ReportBuilder::new(ReportKind::Session, utc(), None, None);
    for target in disk.discover(&[path("/first/sessions"), path("/second/sessions")]) {
        for event in scan(&disk, &target) {
            assert!(builder.can_observe(&event));
            builder.observe(&event);
        }
    }
    assert!(builder.can_finish(CacheReadMode::Include));
    let report = builder.finish(
        UsagePresentation::new(CachedInputCostMode::Priced, CacheReadMode::Include),
        Vec::new(),
    );

    match report {
        ReportOutput::Session { rows, .. } => {
            assert_eq!(rows.len(), 1);
            assert_eq!(rows[0].session_id, "project/session");
            assert_eq!(rows[0].input_tokens, 150);
            assert_eq!(rows[0].output_tokens, 15);
            assert_eq!(rows[0].total_tokens, 165);
        }
        other => panic!("unexpected report: {other:?}"),
    }
}

#[test]
fn behavior_checks_session_reports_prefer_longer_duplicate_files() {
    let short_payload = "{\"timestamp\":\"2025-09-11T18:00:00.000Z\",\"type\":\"turn_context\",\"payload\":{\"model\":\"gpt-5\"}}\n{\"timestamp\":\"2025-09-11T18:01:00.000Z\",\"type\":\"event_msg\",\"payload\":{\"type\":\"token_count\",\"info\":{\"last_token_usage\":{\"input_tokens\":100,\"cached_input_tokens\":0,\"output_tokens\":10,\"reasoning_output_tokens\":0,\"total_tokens\":110}}}}\n";
    let long_payload = format!(
        "{short_payload}{}",
        "{\"timestamp\":\"2025-09-11T18:02:00.000Z\",\"type\":\"event_msg\",\"payload\":{\"type\":\"token_count\",\"info\":{\"last_token_usage\":{\"input_tokens\":50,\"cached_input_tokens\":0,\"output_tokens\":5,\"reasoning_output_tokens\":0,\"total_tokens\":55}}}}\n"
    );
    let mut disk = Disk::default();
    disk.write("/first/sessions/project/session.jsonl", short_payload, 0);
    disk.write("/second/sessions/project/session.jsonl", &long_payload, 0);

    let mut builder = ReportBuilder::new(ReportKind::Session, utc(), None, None);
    for target in disk.discover(&[path("/first/sessions"), path("/second/sessions")]) {
        for event in scan(&disk, &target) {
            assert!(builder.can_observe(&event));
            builder.observe(&event);
        }
    }
    assert!(builder.can_finish(CacheReadMode::Include));
    let report = builder.finish(
        UsagePresentation::new(CachedInputCostMode::Priced, CacheReadMode::Include),
        Vec::new(),
    );

    match report {
        ReportOutput::Session { rows, .. } => {
            assert_eq!(rows.len(), 1);
            assert_eq!(rows[0].session_id, "project/session");
            assert_eq!(rows[0].input_tokens, 150);
            assert_eq!(rows[0].output_tokens, 15);
            assert_eq!(rows[0].total_tokens, 165);
        }
        other => panic!("unexpected report: {other:?}"),
    }
}

#[test]
fn app_build_watch_snapshot_tracks_current_day_totals_and_bounded_hourly_burn() {
    let mut disk = Disk::default();
    disk.write(
        "/sessions/project/session.jsonl",
        &[
            r#"{"type":"turn_context","payload":{"model":"gpt-5"}}"#,
            r#"{"timestamp":"2026-01-01T23:40:00Z","type":"event_msg","payload":{"type":"token_count","info":{"last_token_usage":{"input_tokens":100,"cached_input_tokens":20,"output_tokens":10,"reasoning_output_tokens":4,"total_tokens":110}}}}"#,
            r#"{"timestamp":"2026-01-02T00:05:00Z","type":"event_msg","payload":{"type":"token_count","info":{"last_token_usage":{"input_tokens":20,"cached_input_tokens":5,"output_tokens":3,"reasoning_output_tokens":1,"total_tokens":23}}}}"#,
            r#"{"timestamp":"2026-01-02T00:20:00Z","type":"event_msg","payload":{"type":"token_count","info":{"last_token_usage":{"input_tokens":30,"cached_input_tokens":10,"output_tokens":7,"reasoning_output_tokens":2,"total_tokens":37}}}}"#,
        ]
        .join("\n"),
        0,
    );

    let now = at("2026-01-02T00:30:00Z");
    let mut builder = WatchBuilder::new(&utc(), now).expect("builder");
    for target in disk.discover(&[path("/sessions")]) {
        for event in scan(&disk, &target) {
            builder.observe(&event);
        }
    }
    let snapshot = builder.finish(
        UsagePresentation::new(CachedInputCostMode::Priced, CacheReadMode::Include),
        &Vec::new(),
        true,
    );

    assert_eq!(snapshot.date, "2026-01-02");
    assert_eq!(snapshot.totals.input_tokens, 50);
    assert_eq!(snapshot.totals.cached_input_tokens, 15);
    assert_eq!(snapshot.totals.output_tokens, 10);
    assert_eq!(snapshot.totals.reasoning_output_tokens, 3);
    assert_eq!(snapshot.totals.total_tokens, 60);
    assert_eq!(snapshot.burn_rate.window_minutes, 30);
    assert_eq!(snapshot.burn_rate.input_tokens_per_hour, 100);
    assert_eq!(snapshot.burn_rate.cached_input_tokens_per_hour, 30);
    assert_eq!(snapshot.burn_rate.output_tokens_per_hour, 20);
    assert_eq!(snapshot.burn_rate.reasoning_output_tokens_per_hour, 6);
    assert_eq!(snapshot.burn_rate.total_tokens_per_hour, 120);
    assert_eq!(snapshot.updated_time, "00:30:00");
    let gpt5 = snapshot
        .per_model
        .get("gpt-5")
        .expect("gpt-5 model")
        .breakdown;
    assert_eq!(gpt5.input_tokens, 50);
    assert_eq!(gpt5.cached_input_tokens, 15);
    assert_eq!(gpt5.total_tokens, 60);

    let free_cache_snapshot = builder.finish(
        UsagePresentation::new(CachedInputCostMode::Free, CacheReadMode::Include),
        &Vec::new(),
        true,
    );
    assert_eq!(free_cache_snapshot.totals.input_tokens, 50);
    assert_eq!(free_cache_snapshot.totals.cached_input_tokens, 15);
    let free_usage = UsageTotals {
        input: free_cache_snapshot.totals.input_tokens,
        cached_input: free_cache_snapshot.totals.cached_input_tokens,
        output: free_cache_snapshot.totals.output_tokens,
        reasoning_output: free_cache_snapshot.totals.reasoning_output_tokens,
        total: free_cache_snapshot.totals.total_tokens,
    };
    let billed = billable_tokens(&free_usage, CachedInputCostMode::Free);
    let cost = (billed.input as f64 / 1_000_000.0) * 1.25
        + (billed.cached_input as f64 / 1_000_000.0) * 0.125
        + (billed.output as f64 / 1_000_000.0) * 10.0;
    assert!(
        (cost - ((35.0 / 1_000_000.0) * 1.25 + (10.0 / 1_000_000.0) * 10.0)).abs() < f64::EPSILON
    );
    let cost_per_hour = cost * 2.0;
    assert!(
        (cost_per_hour - ((70.0 / 1_000_000.0) * 1.25 + (20.0 / 1_000_000.0) * 10.0)).abs()
            < f64::EPSILON
    );

    let exclude_cache_snapshot = builder.finish(
        UsagePresentation::new(CachedInputCostMode::Priced, CacheReadMode::Exclude),
        &Vec::new(),
        true,
    );
    assert_eq!(exclude_cache_snapshot.totals.input_tokens, 35);
    assert_eq!(exclude_cache_snapshot.totals.cached_input_tokens, 0);
    assert_eq!(exclude_cache_snapshot.totals.total_tokens, 45);
    assert_eq!(exclude_cache_snapshot.burn_rate.input_tokens_per_hour, 70);
    assert_eq!(
        exclude_cache_snapshot
            .burn_rate
            .cached_input_tokens_per_hour,
        0
    );
    assert_eq!(exclude_cache_snapshot.burn_rate.total_tokens_per_hour, 90);
}

#[test]
fn behavior_checks_build_watch_snapshot_tracks_current_day_totals_and_bounded_hourly_burn() {
    let mut disk = Disk::default();
    disk.write(
        "/sessions/project/session.jsonl",
        &[
            r#"{"type":"turn_context","payload":{"model":"gpt-5"}}"#,
            r#"{"timestamp":"2026-01-01T23:40:00Z","type":"event_msg","payload":{"type":"token_count","info":{"last_token_usage":{"input_tokens":100,"cached_input_tokens":20,"output_tokens":10,"reasoning_output_tokens":4,"total_tokens":110}}}}"#,
            r#"{"timestamp":"2026-01-02T00:05:00Z","type":"event_msg","payload":{"type":"token_count","info":{"last_token_usage":{"input_tokens":20,"cached_input_tokens":5,"output_tokens":3,"reasoning_output_tokens":1,"total_tokens":23}}}}"#,
            r#"{"timestamp":"2026-01-02T00:20:00Z","type":"event_msg","payload":{"type":"token_count","info":{"last_token_usage":{"input_tokens":30,"cached_input_tokens":10,"output_tokens":7,"reasoning_output_tokens":2,"total_tokens":37}}}}"#,
        ]
        .join("\n"),
        0,
    );

    let now = at("2026-01-02T00:30:00Z");
    let mut builder = WatchBuilder::new(&utc(), now).expect("builder");
    for target in disk.discover(&[path("/sessions")]) {
        for event in scan(&disk, &target) {
            builder.observe(&event);
        }
    }
    let snapshot = builder.finish(
        UsagePresentation::new(CachedInputCostMode::Priced, CacheReadMode::Include),
        &Vec::new(),
        true,
    );

    assert_eq!(snapshot.date, "2026-01-02");
    assert_eq!(snapshot.totals.input_tokens, 50);
    assert_eq!(snapshot.totals.cached_input_tokens, 15);
    assert_eq!(snapshot.totals.output_tokens, 10);
    assert_eq!(snapshot.totals.reasoning_output_tokens, 3);
    assert_eq!(snapshot.totals.total_tokens, 60);
    assert_eq!(snapshot.burn_rate.window_minutes, 30);
    assert_eq!(snapshot.burn_rate.input_tokens_per_hour, 100);
    assert_eq!(snapshot.burn_rate.cached_input_tokens_per_hour, 30);
    assert_eq!(snapshot.burn_rate.output_tokens_per_hour, 20);
    assert_eq!(snapshot.burn_rate.reasoning_output_tokens_per_hour, 6);
    assert_eq!(snapshot.burn_rate.total_tokens_per_hour, 120);
    assert_eq!(snapshot.updated_time, "00:30:00");
    let gpt5 = snapshot
        .per_model
        .get("gpt-5")
        .expect("gpt-5 model")
        .breakdown;
    assert_eq!(gpt5.input_tokens, 50);
    assert_eq!(gpt5.cached_input_tokens, 15);
    assert_eq!(gpt5.total_tokens, 60);

    let free_cache_snapshot = builder.finish(
        UsagePresentation::new(CachedInputCostMode::Free, CacheReadMode::Include),
        &Vec::new(),
        true,
    );
    assert_eq!(free_cache_snapshot.totals.input_tokens, 50);
    assert_eq!(free_cache_snapshot.totals.cached_input_tokens, 15);
    let free_usage = UsageTotals {
        input: free_cache_snapshot.totals.input_tokens,
        cached_input: free_cache_snapshot.totals.cached_input_tokens,
        output: free_cache_snapshot.totals.output_tokens,
        reasoning_output: free_cache_snapshot.totals.reasoning_output_tokens,
        total: free_cache_snapshot.totals.total_tokens,
    };
    let billed = billable_tokens(&free_usage, CachedInputCostMode::Free);
    let cost = (billed.input as f64 / 1_000_000.0) * 1.25
        + (billed.cached_input as f64 / 1_000_000.0) * 0.125
        + (billed.output as f64 / 1_000_000.0) * 10.0;
    assert!(
        (cost - ((35.0 / 1_000_000.0) * 1.25 + (10.0 / 1_000_000.0) * 10.0)).abs() < f64::EPSILON
    );
    let cost_per_hour = cost * 2.0;
    assert!(
        (cost_per_hour - ((70.0 / 1_000_000.0) * 1.25 + (20.0 / 1_000_000.0) * 10.0)).abs()
            < f64::EPSILON
    );

    let exclude_cache_snapshot = builder.finish(
        UsagePresentation::new(CachedInputCostMode::Priced, CacheReadMode::Exclude),
        &Vec::new(),
        true,
    );
    assert_eq!(exclude_cache_snapshot.totals.input_tokens, 35);
    assert_eq!(exclude_cache_snapshot.totals.cached_input_tokens, 0);
    assert_eq!(exclude_cache_snapshot.totals.total_tokens, 45);
    assert_eq!(exclude_cache_snapshot.burn_rate.input_tokens_per_hour, 70);
    assert_eq!(
        exclude_cache_snapshot
            .burn_rate
            .cached_input_tokens_per_hour,
        0
    );
    assert_eq!(exclude_cache_snapshot.burn_rate.total_tokens_per_hour, 90);
}

#[test]
fn app_watch_runtime_refresh_reuses_unchanged_file_cache() {
    let roots = [path("/sessions")];
    let valid_payload = format!("{TURN}{}", last_usage("2026-01-02T00:05:00Z", 20, 3, 23));
    let mut disk = Disk::default();
    disk.write("/sessions/today/session.jsonl", &valid_payload, 7);

    let now = at("2026-01-02T00:30:00Z");
    let mut runtime = load(&disk, &roots, now);
    let initial_snapshot = snapshot_of(&runtime, now);
    assert_eq!(initial_snapshot.totals.total_tokens, 23);

    let mut invalid_payload = format!("{TURN}{}", last_usage("bad-timestamp", 1, 1, 2));
    invalid_payload.push_str(&" ".repeat(valid_payload.len() - invalid_payload.len()));
    disk.write("/sessions/today/session.jsonl", &invalid_payload, 7);

    let discovery_at: u128 = 30_000_000_000;
    refresh(
        &mut runtime,
        &disk,
        &roots,
        now,
        WatchChangeSet::new(),
        discovery_at,
    )
    .expect("refresh");
    let refreshed_snapshot = snapshot_of(&runtime, now);
    assert_eq!(refreshed_snapshot.totals.input_tokens, 20);
    assert_eq!(refreshed_snapshot.totals.output_tokens, 3);
    assert_eq!(refreshed_snapshot.totals.total_tokens, 23);
}

#[test]
fn behavior_checks_watch_runtime_refresh_reuses_unchanged_file_cache() {
    let roots = [path("/sessions")];
    let valid_payload = format!("{TURN}{}", last_usage("2026-01-02T00:05:00Z", 20, 3, 23));
    let mut disk = Disk::default();
    disk.write("/sessions/today/session.jsonl", &valid_payload, 7);

    let now = at("2026-01-02T00:30:00Z");
    let mut runtime = load(&disk, &roots, now);
    let initial_snapshot = snapshot_of(&runtime, now);
    assert_eq!(initial_snapshot.totals.total_tokens, 23);

    let mut invalid_payload = format!("{TURN}{}", last_usage("bad-timestamp", 1, 1, 2));
    invalid_payload.push_str(&" ".repeat(valid_payload.len() - invalid_payload.len()));
    disk.write("/sessions/today/session.jsonl", &invalid_payload, 7);

    let discovery_at: u128 = 30_000_000_000;
    refresh(
        &mut runtime,
        &disk,
        &roots,
        now,
        WatchChangeSet::new(),
        discovery_at,
    )
    .expect("refresh");
    let refreshed_snapshot = snapshot_of(&runtime, now);
    assert_eq!(refreshed_snapshot.totals.input_tokens, 20);
    assert_eq!(refreshed_snapshot.totals.output_tokens, 3);
    assert_eq!(refreshed_snapshot.totals.total_tokens, 23);
}

#[test]
fn app_watch_runtime_snapshot_ignores_future_dated_events_until_time_advances() {
    let roots = [path("/sessions")];
    let mut disk = Disk::default();
    disk.write(
        "/sessions/today/session.jsonl",
        &format!(
            "{TURN}{}{}",
            last_usage("2026-01-02T00:05:00Z", 20, 3, 23),
            last_usage("2026-01-02T00:45:00Z", 5, 1, 6),
        ),
        0,
    );

    let loaded_at = at("2026-01-02T00:30:00Z");
    let mut runtime = load(&disk, &roots, loaded_at);

    let early_snapshot = snapshot_of(&runtime, loaded_at);
    assert_eq!(early_snapshot.totals.total_tokens, 23);
    assert_eq!(early_snapshot.burn_rate.total_tokens_per_hour, 46);

    let later_now = at("2026-01-02T00:50:00Z");
    refresh(
        &mut runtime,
        &disk,
        &roots,
        later_now,
        WatchChangeSet::new(),
        1,
    )
    .expect("advance runtime");
    let later_snapshot = snapshot_of(&runtime, later_now);
    assert_eq!(later_snapshot.totals.total_tokens, 29);
    assert_eq!(later_snapshot.burn_rate.total_tokens_per_hour, 35);
}

#[test]
fn behavior_checks_watch_runtime_snapshot_ignores_future_dated_events_until_time_advances() {
    let roots = [path("/sessions")];
    let mut disk = Disk::default();
    disk.write(
        "/sessions/today/session.jsonl",
        &format!(
            "{TURN}{}{}",
            last_usage("2026-01-02T00:05:00Z", 20, 3, 23),
            last_usage("2026-01-02T00:45:00Z", 5, 1, 6),
        ),
        0,
    );

    let loaded_at = at("2026-01-02T00:30:00Z");
    let mut runtime = load(&disk, &roots, loaded_at);

    let early_snapshot = snapshot_of(&runtime, loaded_at);
    assert_eq!(early_snapshot.totals.total_tokens, 23);
    assert_eq!(early_snapshot.burn_rate.total_tokens_per_hour, 46);

    let later_now = at("2026-01-02T00:50:00Z");
    refresh(
        &mut runtime,
        &disk,
        &roots,
        later_now,
        WatchChangeSet::new(),
        1,
    )
    .expect("advance runtime");
    let later_snapshot = snapshot_of(&runtime, later_now);
    assert_eq!(later_snapshot.totals.total_tokens, 29);
    assert_eq!(later_snapshot.burn_rate.total_tokens_per_hour, 35);
}

#[test]
fn app_watch_runtime_refreshes_dirty_session_after_append() {
    let roots = [path("/sessions")];
    let written = format!("{TURN}{}", last_usage("2026-01-02T00:05:00Z", 20, 3, 23));
    let mut disk = Disk::default();
    disk.write("/sessions/today/session.jsonl", &written, 0);

    let now = at("2026-01-02T00:30:00Z");
    let mut runtime = load(&disk, &roots, now);

    disk.write(
        "/sessions/today/session.jsonl",
        &format!("{written}{}", last_usage("2026-01-02T00:20:00Z", 5, 1, 6)),
        1,
    );

    refresh(
        &mut runtime,
        &disk,
        &roots,
        now,
        dirty("today/session", WatchDirtyKind::AppendOnly),
        1,
    )
    .expect("refresh dirty session");
    let snapshot = snapshot_of(&runtime, now);

    assert_eq!(snapshot.totals.total_tokens, 29);
    assert_eq!(snapshot.totals.input_tokens, 25);
    assert_eq!(snapshot.totals.output_tokens, 4);
}

#[test]
fn behavior_checks_watch_runtime_refreshes_dirty_session_after_append() {
    let roots = [path("/sessions")];
    let written = format!("{TURN}{}", last_usage("2026-01-02T00:05:00Z", 20, 3, 23));
    let mut disk = Disk::default();
    disk.write("/sessions/today/session.jsonl", &written, 0);

    let now = at("2026-01-02T00:30:00Z");
    let mut runtime = load(&disk, &roots, now);

    disk.write(
        "/sessions/today/session.jsonl",
        &format!("{written}{}", last_usage("2026-01-02T00:20:00Z", 5, 1, 6)),
        1,
    );

    refresh(
        &mut runtime,
        &disk,
        &roots,
        now,
        dirty("today/session", WatchDirtyKind::AppendOnly),
        1,
    )
    .expect("refresh dirty session");
    let snapshot = snapshot_of(&runtime, now);

    assert_eq!(snapshot.totals.total_tokens, 29);
    assert_eq!(snapshot.totals.input_tokens, 25);
    assert_eq!(snapshot.totals.output_tokens, 4);
}

#[test]
fn app_watch_runtime_rebuilds_longer_rewritten_file_instead_of_appending() {
    let roots = [path("/sessions")];
    let mut disk = Disk::default();
    disk.write(
        "/sessions/today/session.jsonl",
        &format!("{TURN}{}", last_usage("2026-01-02T00:05:00Z", 20, 3, 23)),
        0,
    );

    let now = at("2026-01-02T00:30:00Z");
    let mut runtime = load(&disk, &roots, now);

    disk.write(
        "/sessions/today/session.jsonl",
        &format!(
            "{TURN}{}{}",
            last_usage("2026-01-02T00:05:00Z", 50, 10, 60),
            last_usage("2026-01-02T00:20:00Z", 1, 1, 2),
        ),
        1,
    );

    refresh(
        &mut runtime,
        &disk,
        &roots,
        now,
        dirty("today/session", WatchDirtyKind::FullRebuild),
        1,
    )
    .expect("refresh rewritten session");
    let snapshot = snapshot_of(&runtime, now);

    assert_eq!(snapshot.totals.total_tokens, 62);
    assert_eq!(snapshot.totals.input_tokens, 51);
    assert_eq!(snapshot.totals.output_tokens, 11);
}

#[test]
fn behavior_checks_watch_runtime_rebuilds_longer_rewritten_file_instead_of_appending() {
    let roots = [path("/sessions")];
    let mut disk = Disk::default();
    disk.write(
        "/sessions/today/session.jsonl",
        &format!("{TURN}{}", last_usage("2026-01-02T00:05:00Z", 20, 3, 23)),
        0,
    );

    let now = at("2026-01-02T00:30:00Z");
    let mut runtime = load(&disk, &roots, now);

    disk.write(
        "/sessions/today/session.jsonl",
        &format!(
            "{TURN}{}{}",
            last_usage("2026-01-02T00:05:00Z", 50, 10, 60),
            last_usage("2026-01-02T00:20:00Z", 1, 1, 2),
        ),
        1,
    );

    refresh(
        &mut runtime,
        &disk,
        &roots,
        now,
        dirty("today/session", WatchDirtyKind::FullRebuild),
        1,
    )
    .expect("refresh rewritten session");
    let snapshot = snapshot_of(&runtime, now);

    assert_eq!(snapshot.totals.total_tokens, 62);
    assert_eq!(snapshot.totals.input_tokens, 51);
    assert_eq!(snapshot.totals.output_tokens, 11);
}

#[test]
fn app_resolve_session_target_across_roots_re_resolves_duplicates() {
    let mut disk = Disk::default();
    disk.write(
        "/first/sessions/project/session.jsonl",
        "first version in preferred root",
        0,
    );
    disk.write("/second/sessions/project/session.jsonl", "backup", 0);
    disk.write("/first/sessions/gone/session.jsonl", "gone", 0);

    let session_dirs = [path("/first/sessions"), path("/second/sessions")];
    let original = disk
        .resolve(&session_dirs, "project/session")
        .expect("selected target");
    assert_eq!(
        original.path.display(),
        "/first/sessions/project/session.jsonl"
    );

    disk.remove("/first/sessions/project/session.jsonl");
    disk.remove("/first/sessions/gone/session.jsonl");

    let refreshed = disk
        .resolve(&session_dirs, "project/session")
        .expect("fallback target");
    assert_eq!(refreshed.session_id, "project/session");
    assert_eq!(
        refreshed.path.display(),
        "/second/sessions/project/session.jsonl"
    );
    assert_eq!(refreshed.bytes, 6);
    assert!(disk.resolve(&session_dirs, "gone/session").is_none());
}

#[test]
fn behavior_checks_resolve_session_target_across_roots_re_resolves_duplicates() {
    let mut disk = Disk::default();
    disk.write(
        "/first/sessions/project/session.jsonl",
        "first version in preferred root",
        0,
    );
    disk.write("/second/sessions/project/session.jsonl", "backup", 0);
    disk.write("/first/sessions/gone/session.jsonl", "gone", 0);

    let session_dirs = [path("/first/sessions"), path("/second/sessions")];
    let original = disk
        .resolve(&session_dirs, "project/session")
        .expect("selected target");
    assert_eq!(
        original.path.display(),
        "/first/sessions/project/session.jsonl"
    );

    disk.remove("/first/sessions/project/session.jsonl");
    disk.remove("/first/sessions/gone/session.jsonl");

    let refreshed = disk
        .resolve(&session_dirs, "project/session")
        .expect("fallback target");
    assert_eq!(refreshed.session_id, "project/session");
    assert_eq!(
        refreshed.path.display(),
        "/second/sessions/project/session.jsonl"
    );
    assert_eq!(refreshed.bytes, 6);
    assert!(disk.resolve(&session_dirs, "gone/session").is_none());
}

#[test]
fn app_watch_event_source_marks_newly_available_root_for_rediscovery() {
    let late_root = path("/tmp/late-root");
    let before = root_changes(&Vec::new(), &Vec::new());
    assert!(before.appeared.is_empty());

    let changes = root_changes(&vec![late_root.clone()], &Vec::new());
    assert_eq!(
        changes.appeared.len(),
        1,
        "late root should trigger immediate rediscovery"
    );
    assert!(changes.appeared[0].same_as(&late_root));
}

#[test]
fn behavior_checks_watch_event_source_marks_newly_available_root_for_rediscovery() {
    let late_root = path("/tmp/late-root");
    let before = root_changes(&Vec::new(), &Vec::new());
    assert!(before.appeared.is_empty());

    let changes = root_changes(&vec![late_root.clone()], &Vec::new());
    assert_eq!(
        changes.appeared.len(),
        1,
        "late root should trigger immediate rediscovery"
    );
    assert!(changes.appeared[0].same_as(&late_root));
}

#[test]
fn app_cached_watch_file_burn_events_skip_older_history() {
    let event = |timestamp: &str, total: u64| OwnedWatchEvent {
        timestamp_utc: at(timestamp),
        model: "gpt-5".to_string(),
        is_fallback_model: false,
        usage: UsageTotals {
            input: total,
            cached_input: 0,
            output: 0,
            reasoning_output: 0,
            total,
        },
    };
    let mut cached = CachedWatchFile {
        target: SessionScanTarget {
            path: path("/tmp/session.jsonl"),
            session_id: "project/session".to_string(),
            bytes: 0,
            modified: None,
        },
        parser_checkpoint: SessionParseCheckpoint::default(),
        current_day_events: vec![
            event("2026-01-02T00:05:00Z", 5),
            event("2026-01-02T00:30:00Z", 7),
            event("2026-01-02T00:45:00Z", 11),
        ],
        visible_end: 0,
        burn_start: 0,
    };

    let window_start = at("2026-01-02T00:30:00Z");
    let window_end = at("2026-01-02T00:59:00Z");
    cached.recompute_bounds(window_start, window_end);
    let suffix = cached.burn_events();

    assert_eq!(suffix.len(), 2);
    assert_eq!(suffix[0].usage.total, 7);
    assert_eq!(suffix[1].usage.total, 11);
}

#[test]
fn behavior_checks_cached_watch_file_burn_events_skip_older_history() {
    let event = |timestamp: &str, total: u64| OwnedWatchEvent {
        timestamp_utc: at(timestamp),
        model: "gpt-5".to_string(),
        is_fallback_model: false,
        usage: UsageTotals {
            input: total,
            cached_input: 0,
            output: 0,
            reasoning_output: 0,
            total,
        },
    };
    let mut cached = CachedWatchFile {
        target: SessionScanTarget {
            path: path("/tmp/session.jsonl"),
            session_id: "project/session".to_string(),
            bytes: 0,
            modified: None,
        },
        parser_checkpoint: SessionParseCheckpoint::default(),
        current_day_events: vec![
            event("2026-01-02T00:05:00Z", 5),
            event("2026-01-02T00:30:00Z", 7),
            event("2026-01-02T00:45:00Z", 11),
        ],
        visible_end: 0,
        burn_start: 0,
    };

    let window_start = at("2026-01-02T00:30:00Z");
    let window_end = at("2026-01-02T00:59:00Z");
    cached.recompute_bounds(window_start, window_end);
    let suffix = cached.burn_events();

    assert_eq!(suffix.len(), 2);
    assert_eq!(suffix[0].usage.total, 7);
    assert_eq!(suffix[1].usage.total, 11);
}

#[test]
fn build_watch_snapshot_respects_project_dir_filter() {
    let project = path("/work/project");
    let here = path("/");
    let filter = ProjectFilter::from_path(&project, &here);
    let mut disk = Disk::default();
    disk.write(
        "/sessions/matching/session.jsonl",
        &format!("{TURN}{}", last_usage("2026-01-02T00:05:00Z", 20, 3, 23)),
        0,
    );
    disk.write(
        "/sessions/sibling/session.jsonl",
        &format!("{TURN}{}", last_usage("2026-01-02T00:05:00Z", 100, 3, 103)),
        0,
    );
    let logged = |session_id: &str| match session_id {
        "matching/session" => Some(project.join("crate")),
        _ => Some(path("/work/project-sibling")),
    };

    let now = at("2026-01-02T00:30:00Z");
    let mut builder = WatchBuilder::new(&utc(), now).expect("builder");
    for target in disk.discover(&[path("/sessions")]) {
        if filter.keeps_session(&logged(&target.session_id), &here) {
            for event in scan(&disk, &target) {
                builder.observe(&event);
            }
        }
    }
    let snapshot = builder.finish(
        UsagePresentation::new(CachedInputCostMode::Priced, CacheReadMode::Include),
        &Vec::new(),
        false,
    );

    assert_eq!(snapshot.totals.input_tokens, 20);
    assert_eq!(snapshot.totals.total_tokens, 23);
}

fn target(session_id: &str, file: &str, bytes: u64, modified: Option<i128>) -> SessionScanTarget {
    SessionScanTarget {
        session_id: session_id.to_string(),
        path: path(file),
        bytes,
        modified,
    }
}

#[test]
fn longer_then_newer_then_first_files_are_preferred() {
    let short = target("s", "/b/s.jsonl", 5, Some(9));
    let long = target("s", "/b/s.jsonl", 6, Some(1));
    let newer = target("s", "/b/s.jsonl", 5, Some(10));
    let undated = target("s", "/b/s.jsonl", 5, None);
    assert!(long.is_preferred_over(&short));
    assert!(!short.is_preferred_over(&long));
    assert!(newer.is_preferred_over(&short));
    assert!(short.is_preferred_over(&undated));
    assert!(!short.is_preferred_over(&short));
    assert!(same_watch_target(&short, &target("s", "/b/s.jsonl", 5, Some(9))));
    assert!(!same_watch_target(&short, &newer));
}

#[test]
fn discovery_order_does_not_matter() {
    let candidates = || {
        vec![
            target("s", "/a/s.jsonl", 5, Some(1)),
            target("s", "/b/s.jsonl", 7, Some(1)),
            target("s", "/c/s.jsonl", 7, Some(2)),
        ]
    };
    let mut reversed = candidates();
    reversed.reverse();
    let one = choose_session_target(candidates()).expect("target");
    let other = choose_session_target(reversed).expect("target");
    assert!(one.path.same_as(&other.path));
    assert_eq!(one.path.display(), "/c/s.jsonl");
    assert!(choose_session_target(Vec::new()).is_none());
}

#[test]
fn notifications_become_dirty_sessions_or_rediscovery() {
    let roots = vec![path("/logs")];
    let mut changes = WatchChangeSet::new();
    apply_event(
        &roots,
        WatchEventKind::Access,
        &vec![path("/logs/a.jsonl"), path("/logs/b.jsonl")],
        &mut changes,
    );
    assert!(changes.dirty_sessions.entries.is_empty());
    assert!(!changes.discovery_due);
    apply_event(
        &roots,
        WatchEventKind::SizeChange,
        &vec![path("/logs/a.jsonl")],
        &mut changes,
    );
    assert_eq!(
        changes.dirty_sessions.get("a"),
        Some(&WatchDirtyKind::AppendOnly)
    );
    assert!(!changes.discovery_due);
    apply_event(
        &roots,
        WatchEventKind::Other,
        &vec![path("/elsewhere/x")],
        &mut changes,
    );
    assert!(!changes.discovery_due);
    apply_event(
        &roots,
        WatchEventKind::Other,
        &vec![path("/logs/new-directory")],
        &mut changes,
    );
    assert!(changes.discovery_due);
    assert_eq!(
        changes.dirty_sessions.get("a"),
        Some(&WatchDirtyKind::AppendOnly)
    );
}

#[test]
fn renames_ask_for_rediscovery() {
    let roots = vec![path("/logs")];
    let mut changes = WatchChangeSet::new();
    apply_event(
        &roots,
        WatchEventKind::Other,
        &vec![path("/logs/a.jsonl"), path("/logs/b.jsonl")],
        &mut changes,
    );
    assert!(changes.discovery_due);
    assert_eq!(changes.dirty_sessions.entries.len(), 2);
}

#[test]
fn roots_appear_and_go() {
    let changes = root_changes(
        &vec![path("/a"), path("/b"), path("/b")],
        &vec![path("/a"), path("/c")],
    );
    assert_eq!(changes.appeared.len(), 1);
    assert_eq!(changes.appeared[0].display(), "/b");
    assert_eq!(changes.gone.len(), 1);
    assert_eq!(changes.gone[0].display(), "/c");
}

#[test]
fn appending_gives_what_a_rebuild_gives() {
    let now = at("2026-01-02T01:30:00Z");
    let head = format!("{TURN}{}", last_usage("2026-01-02T01:05:00Z", 20, 3, 23));
    let whole = format!(
        "{head}{}{}",
        last_usage("2026-01-02T00:10:00Z", 5, 1, 6),
        last_usage("2026-01-02T01:20:00Z", 1, 1, 2),
    );
    let short = target("s", "/logs/s.jsonl", head.len() as u64, None);
    let long = target("s", "/logs/s.jsonl", whole.len() as u64, None);
    let day: i32 = utc().local_day(now);
    let cached = build_cached_watch_file(&short, &lines(&head), &utc(), day, now).expect("head");
    let appended = append_cached_watch_file(
        cached,
        &long,
        &lines(&whole[head.len()..]),
        &utc(),
        day,
        now,
    )
    .expect("append");
    let rebuilt = build_cached_watch_file(&long, &lines(&whole), &utc(), day, now).expect("all");
    assert_eq!(appended.visible_end, rebuilt.visible_end);
    assert_eq!(appended.burn_start, rebuilt.burn_start);
    assert_eq!(
        appended.parser_checkpoint.offset,
        rebuilt.parser_checkpoint.offset
    );
    let times = |file: &CachedWatchFile| {
        file.current_day_events
            .iter()
            .map(|event| (event.timestamp_utc, event.usage))
            .collect::<Vec<_>>()
    };
    assert_eq!(times(&appended), times(&rebuilt));
    assert_eq!(appended.visible_events().len(), 3);
    assert_eq!(appended.burn_events().len(), 2);
}

#[test]
fn events_are_sorted_by_time_and_keep_their_order() {
    let event = |seconds: i64, total: u64| OwnedWatchEvent {
        timestamp_utc: Timestamp { seconds, nanos: 0 },
        model: "m".to_string(),
        is_fallback_model: false,
        usage: UsageTotals {
            total,
            ..UsageTotals::default()
        },
    };
    let mut events = vec![event(3, 1), event(1, 2), event(3, 3), event(2, 4)];
    sort_events(&mut events);
    let order = events
        .iter()
        .map(|event| event.usage.total)
        .collect::<Vec<_>>();
    assert_eq!(order, vec![2, 4, 1, 3]);
}

#[test]
fn kept_totals_match_a_single_pass_over_the_files() {
    let roots = [path("/sessions")];
    let mut disk = Disk::default();
    for (name, minute) in [("a", 5), ("b", 20), ("c", 50)] {
        disk.write(
            &format!("/sessions/{name}.jsonl"),
            &format!(
                "{TURN}{}{}",
                last_usage(&format!("2026-01-02T00:{minute:02}:00Z"), 20, 3, 23),
                last_usage(&format!("2026-01-02T01:{minute:02}:00Z"), 5, 1, 6),
            ),
            0,
        );
    }
    let mut runtime = load(&disk, &roots, at("2026-01-02T00:10:00Z"));
    for (tick, now) in [
        "2026-01-02T00:40:00Z",
        "2026-01-02T01:10:00Z",
        "2026-01-02T03:00:00Z",
        "2026-01-02T02:00:00Z",
    ]
    .iter()
    .enumerate()
    {
        let now = at(now);
        refresh(
            &mut runtime,
            &disk,
            &roots,
            now,
            WatchChangeSet::new(),
            tick as u128,
        )
        .expect("refresh");
        let mut builder = WatchBuilder::new(&utc(), now).expect("builder");
        for target in disk.discover(&roots) {
            for event in scan(&disk, &target) {
                builder.observe(&event);
            }
        }
        let single = builder.finish(
            UsagePresentation::new(CachedInputCostMode::Priced, CacheReadMode::Include),
            &Vec::new(),
            false,
        );
        let kept = snapshot_of(&runtime, now);
        assert_eq!(kept.totals, single.totals);
        assert_eq!(
            kept.burn_rate.total_tokens_per_hour,
            single.burn_rate.total_tokens_per_hour
        );
    }
}

#[test]
fn removed_sessions_are_forgotten() {
    let roots = [path("/sessions")];
    let mut disk = Disk::default();
    disk.write(
        "/sessions/a.jsonl",
        &format!("{TURN}{}", last_usage("2026-01-02T00:05:00Z", 20, 3, 23)),
        0,
    );
    let now = at("2026-01-02T00:30:00Z");
    let mut runtime = load(&disk, &roots, now);
    disk.remove("/sessions/a.jsonl");
    refresh(
        &mut runtime,
        &disk,
        &roots,
        now,
        dirty("a", WatchDirtyKind::FullRebuild),
        1,
    )
    .expect("refresh");
    assert_eq!(snapshot_of(&runtime, now).totals.total_tokens, 0);
    assert!(runtime.selected_targets.get("a").is_none());
}

#[test]
fn a_new_day_starts_from_nothing() {
    let roots = [path("/sessions")];
    let mut disk = Disk::default();
    disk.write(
        "/sessions/a.jsonl",
        &format!(
            "{TURN}{}{}",
            last_usage("2026-01-02T23:05:00Z", 20, 3, 23),
            last_usage("2026-01-03T00:05:00Z", 5, 1, 6),
        ),
        0,
    );
    let mut runtime = load(&disk, &roots, at("2026-01-02T23:30:00Z"));
    assert_eq!(
        snapshot_of(&runtime, at("2026-01-02T23:30:00Z"))
            .totals
            .total_tokens,
        23
    );
    let next = at("2026-01-03T00:10:00Z");
    refresh(&mut runtime, &disk, &roots, next, WatchChangeSet::new(), 1).expect("refresh");
    let snapshot = snapshot_of(&runtime, next);
    assert_eq!(snapshot.date, "2026-01-03");
    assert_eq!(snapshot.totals.total_tokens, 6);
    assert_eq!(snapshot.burn_rate.window_minutes, 10);
}

#[test]
fn merged_passes_count_what_one_pass_counts() {
    let mut disk = Disk::default();
    disk.write(
        "/sessions/a.jsonl",
        &format!("{TURN}{}", last_usage("2026-01-02T00:05:00Z", 20, 3, 23)),
        0,
    );
    disk.write(
        "/sessions/b.jsonl",
        &format!("{TURN}{}", last_usage("2026-01-03T00:05:00Z", 5, 1, 6)),
        0,
    );
    let targets = disk.discover(&[path("/sessions")]);
    for kind in [ReportKind::Daily, ReportKind::Monthly, ReportKind::Session] {
        let presentation =
            UsagePresentation::new(CachedInputCostMode::Priced, CacheReadMode::Include);
        let mut whole = ReportBuilder::new(kind, utc(), None, None);
        let mut merged = ReportBuilder::new(kind, utc(), None, None);
        for target in &targets {
            let mut part = ReportBuilder::new(kind, utc(), None, None);
            for event in scan(&disk, target) {
                whole.observe(&event);
                part.observe(&event);
            }
            assert!(merged.can_merge(&part));
            merged.merge(&part);
        }
        assert_eq!(
            format!("{:?}", merged.finish(presentation, Vec::new())),
            format!("{:?}", whole.finish(presentation, Vec::new()))
        );
    }
}

#[test]
fn reports_keep_to_their_dates_and_order() {
    let day: i32 = utc().local_day(at("2026-01-02T00:00:00Z"));
    let event = |session: &str, timestamp: &str, total: u64| TokenUsageEvent {
        session_key: session.to_string(),
        session_id: session.to_string(),
        timestamp_utc: at(timestamp),
        model: "gpt-5".to_string(),
        is_fallback_model: false,
        usage: UsageTotals {
            input: total,
            total,
            ..UsageTotals::default()
        },
    };
    let presentation = UsagePresentation::new(CachedInputCostMode::Priced, CacheReadMode::Include);
    let mut daily = ReportBuilder::new(ReportKind::Daily, utc(), Some(day), Some(day + 1));
    for timestamp in [
        "2026-01-01T23:59:59Z",
        "2026-01-03T10:00:00Z",
        "2026-01-02T10:00:00Z",
        "2026-01-04T00:00:00Z",
    ] {
        daily.observe(&event("s", timestamp, 1));
    }
    let ReportOutput::Daily { rows, totals, .. } = daily.finish(presentation, Vec::new()) else {
        panic!("expected daily report");
    };
    let dates = rows.iter().map(|row| row.date.as_str()).collect::<Vec<_>>();
    assert_eq!(dates, vec!["2026-01-02", "2026-01-03"]);
    assert_eq!(totals.total_tokens, 2);

    let mut sessions = ReportBuilder::new(ReportKind::Session, utc(), None, None);
    sessions.observe(&event("late", "2026-01-03T10:00:00Z", 1));
    sessions.observe(&event("team/early", "2026-01-02T10:00:00Z", 2));
    let ReportOutput::Session { rows, .. } = sessions.finish(presentation, Vec::new()) else {
        panic!("expected session report");
    };
    let shown = rows
        .iter()
        .map(|row| (row.directory.as_str(), row.session_file.as_str(), row.total_tokens))
        .collect::<Vec<_>>();
    assert_eq!(shown, vec![("team", "early", 2), ("", "late", 1)]);
    assert_eq!(rows[0].last_activity, "2026-01-02T10:00:00.000Z");
}

#[test]
fn sums_that_overflow_are_noticed() {
    let mut builder = ReportBuilder::new(ReportKind::Daily, utc(), None, None);
    let event = TokenUsageEvent {
        session_key: "s".to_string(),
        session_id: "s".to_string(),
        timestamp_utc: at("2026-01-02T10:00:00Z"),
        model: "gpt-5".to_string(),
        is_fallback_model: false,
        usage: UsageTotals {
            input: u64::MAX,
            total: u64::MAX,
            ..UsageTotals::default()
        },
    };
    assert!(builder.can_observe(&event));
    builder.observe(&event);
    assert!(!builder.can_observe(&event));
    assert!(GroupSummary::new().models.entries.is_empty());
}

#[test]
fn appending_and_rebuilding_leave_equal_totals() {
    let roots = [path("/sessions")];
    let written = format!("{TURN}{}", last_usage("2026-01-02T00:05:00Z", 20, 3, 23));
    let now = at("2026-01-02T00:30:00Z");
    let shown = [WatchDirtyKind::AppendOnly, WatchDirtyKind::FullRebuild].map(|kind| {
        let mut disk = Disk::default();
        disk.write("/sessions/today/session.jsonl", &written, 0);
        disk.write("/sessions/other.jsonl", &written, 0);
        let mut runtime = load(&disk, &roots, now);
        disk.write(
            "/sessions/today/session.jsonl",
            &format!("{written}{}", last_usage("2026-01-02T00:20:00Z", 5, 1, 6)),
            1,
        );
        refresh(&mut runtime, &disk, &roots, now, dirty("today/session", kind), 1)
            .expect("refresh");
        assert_eq!(runtime.current_day_summary.totals.total, 52);
        (
            format!("{:?}", runtime.current_day_summary),
            format!("{:?}", runtime.burn_window_summary),
        )
    });
    assert_eq!(shown[0], shown[1]);
}

#[test]
fn summaries_list_the_models_of_their_events() {
    let roots = [path("/sessions")];
    let mut disk = Disk::default();
    disk.write(
        "/sessions/s.jsonl",
        &format!("{TURN}{}", last_usage("2026-01-02T10:05:00Z", 20, 3, 23)),
        0,
    );
    let mut runtime = load(&disk, &roots, at("2026-01-02T10:00:00Z"));
    assert!(runtime.current_day_summary.models.entries.is_empty());
    runtime.advance_to(at("2026-01-02T10:30:00Z")).expect("advance");
    assert_eq!(runtime.current_day_summary.models.entries.len(), 1);
    assert_eq!(runtime.burn_window_summary.models.entries.len(), 1);
    runtime.advance_to(at("2026-01-02T12:00:00Z")).expect("advance");
    let (_, kept) = &runtime.burn_window_summary.models.entries[0];
    assert_eq!(kept.total_tokens, 0);
    runtime
        .rebuild_summaries_at(at("2026-01-02T12:00:00Z"))
        .expect("rebuild");
    assert!(runtime.burn_window_summary.models.entries.is_empty());
    assert_eq!(runtime.current_day_summary.models.entries.len(), 1);
}

#[test]
fn a_new_day_starts_with_nothing() {
    let roots = [path("/sessions")];
    let mut disk = Disk::default();
    disk.write(
        "/sessions/s.jsonl",
        &format!("{TURN}{}", last_usage("2026-01-02T10:05:00Z", 20, 3, 23)),
        0,
    );
    let mut runtime = load(&disk, &roots, at("2026-01-02T10:30:00Z"));
    assert_eq!(
        runtime.begin_refresh(at("2026-01-03T00:10:00Z"), false, 1),
        Ok(true)
    );
    assert_eq!(runtime.next_discovery_at, None);
    assert!(runtime.cached_files.entries.is_empty());
    assert!(runtime.selected_targets.entries.is_empty());
    for summary in [&runtime.current_day_summary, &runtime.burn_window_summary] {
        assert_eq!(summary.totals, UsageTotals::default());
        assert!(summary.models.entries.is_empty());
    }
}

#[test]
fn a_discovery_pass_keeps_the_totals_until_it_is_taken_over() {
    let roots = [path("/sessions")];
    let mut disk = Disk::default();
    disk.write(
        "/sessions/s.jsonl",
        &format!("{TURN}{}", last_usage("2026-01-02T10:05:00Z", 20, 3, 23)),
        0,
    );
    let now = at("2026-01-02T10:30:00Z");
    let mut runtime = load(&disk, &roots, now);
    assert_eq!(runtime.next_discovery_at, Some(30_000_000_000));
    assert_eq!(runtime.begin_refresh(now, false, 29_999_999_999), Ok(false));
    assert_eq!(runtime.begin_refresh(now, false, 30_000_000_000), Ok(true));
    assert_eq!(runtime.next_discovery_at, Some(30_000_000_000));
    let plan = runtime.plan_discovered_targets(
        &disk.discover(&roots),
        &TextMap::new(),
        30_000_000_000,
    );
    assert_eq!(runtime.next_discovery_at, Some(60_000_000_000));
    assert_eq!(runtime.current_day_summary.totals.total, 23);
    assert_eq!(runtime.last_snapshot_utc, Some(now));
    assert!(runtime.cached_files.entries.is_empty());
    assert!(plan.rebuild.is_empty());
    assert!(files_have_room(&plan.kept));
    runtime
        .adopt_discovered_targets(plan.selected_targets, plan.kept, now)
        .expect("adopt");
    assert_eq!(runtime.current_day_summary.totals.total, 23);
    assert_eq!(runtime.cached_files.entries.len(), 1);
}
