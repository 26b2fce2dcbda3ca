//! Codex account limits.

use codexusage::keyed::TextMap;
use codexusage::limits::{
    codex_auth_credentials, codex_limit_status_for_watch_start, codex_limits_from_usage_payload,
    payload_has_room, usage_request_headers, usage_response_failure, AdditionalRateLimit,
    AuthFile, AuthTokens, CodexAuthCredentials, CodexLimitStatus, CodexLimitUnavailableReason,
    CodexLimitWindow, CodexLimits, LimitShare, ProtocolRateLimitSnapshot, ProtocolRateLimitWindow,
    RateLimitDetails, RateLimitWindowPayload, UsagePayload,
};
use codexusage::limits_view::{
    format_limit_bar, format_reset_countdown, limit_reset_countdown, render_codex_limit_row,
    render_codex_limits,
};
use codexusage::model::NumberFormat;
use codexusage::table::{BorderStyle, TableRenderConfig, TableStyle};
use serde_json::Value;

fn share(used_percent: f64) -> LimitShare {
    let left = (100.0 - used_percent.clamp(0.0, 100.0)).clamp(0.0, 100.0);
    LimitShare {
        left_percent: format!("{left:.0}").parse().expect("whole percent"),
        filled_cells: (0..20u32)
            .filter(|index| f64::from(*index) + 0.5 <= left * 20.0 / 100.0)
            .count() as u8,
    }
}

fn get<'a>(object: &'a Value, snake: &str, camel: &str) -> Option<&'a Value> {
    object
        .get(snake)
        .or_else(|| object.get(camel))
        .filter(|value| !value.is_null())
}

fn text(object: &Value, snake: &str, camel: &str) -> Option<String> {
    get(object, snake, camel)
        .and_then(Value::as_str)
        .map(str::to_string)
}

fn backend_window(object: &Value) -> RateLimitWindowPayload {
    RateLimitWindowPayload {
        share: get(object, "used_percent", "usedPercent")
            .and_then(Value::as_f64)
            .map(share),
        limit_window_seconds: get(object, "limit_window_seconds", "limitWindowSeconds")
            .and_then(Value::as_i64),
        reset_at: get(object, "reset_at", "resetAt").and_then(Value::as_i64),
    }
}

fn details(object: &Value) -> RateLimitDetails {
    RateLimitDetails {
        primary_window: get(object, "primary_window", "primaryWindow").map(backend_window),
        secondary_window: get(object, "secondary_window", "secondaryWindow").map(backend_window),
    }
}

fn protocol_window(object: &Value) -> ProtocolRateLimitWindow {
    ProtocolRateLimitWindow {
        share: get(object, "used_percent", "usedPercent")
            .and_then(Value::as_f64)
            .map(share),
        window_duration_mins: get(object, "window_duration_mins", "windowDurationMins")
            .and_then(Value::as_i64),
        resets_at: get(object, "resets_at", "resetsAt").and_then(Value::as_i64),
    }
}

fn snapshot(object: &Value) -> ProtocolRateLimitSnapshot {
    ProtocolRateLimitSnapshot {
        limit_id: text(object, "limit_id", "limitId"),
        primary: object.get("primary").map(protocol_window),
        secondary: object.get("secondary").map(protocol_window),
    }
}

fn snapshots(object: &Value) -> TextMap<ProtocolRateLimitSnapshot> {
    let mut map = TextMap::new();
    for (id, value) in object.as_object().expect("object") {
        map.insert(id.clone(), snapshot(value));
    }
    map
}

fn additional(object: &Value) -> AdditionalRateLimit {
    AdditionalRateLimit {
        metered_feature: text(object, "metered_feature", "meteredFeature"),
        limit_name: text(object, "limit_name", "limitName"),
        rate_limit: get(object, "rate_limit", "rateLimit").map(details),
    }
}

fn usage_payload(body: &str) -> Option<UsagePayload> {
    let object = serde_json::from_str::<Value>(body).ok()?;
    Some(UsagePayload {
        rate_limits: get(&object, "rate_limits", "rateLimits").map(snapshot),
        rate_limits_by_limit_id: get(&object, "rate_limits_by_limit_id", "rateLimitsByLimitId")
            .map(snapshots),
        rate_limit: get(&object, "rate_limit", "rateLimit").map(details),
        additional_rate_limits: get(&object, "additional_rate_limits", "additionalRateLimits")
            .and_then(Value::as_array)
            .map(|limits| limits.iter().map(additional).collect()),
    })
}

fn limits_of(body: &str) -> CodexLimitStatus {
    let payload = usage_payload(body);
    if let Some(payload) = &payload {
        assert!(payload_has_room(payload));
    }
    codex_limits_from_usage_payload(&payload)
}

fn credentials_of(
    contents: &str,
) -> Result<CodexAuthCredentials, CodexLimitUnavailableReason> {
    let auth = serde_json::from_str::<Value>(contents)
        .ok()
        .map(|object| AuthFile {
            openai_api_key: text(&object, "OPENAI_API_KEY", "OPENAI_API_KEY"),
            tokens: object.get("tokens").map(|tokens| AuthTokens {
                access_token: text(tokens, "access_token", "accessToken").expect("token"),
                account_id: text(tokens, "account_id", "accountId"),
            }),
            agent_identity: text(&object, "agent_identity", "agentIdentity"),
        });
    codex_auth_credentials(&auth)
}

#[test]
fn load_codex_auth_credentials_reads_auth_file() {
    let result = credentials_of(
        r#"{"tokens":{"access_token":"access-token","account_id":"account-123"}}"#,
    )
    .expect("credentials");

    assert_eq!(result.access_token, "access-token");
    assert_eq!(result.account_id.as_deref(), Some("account-123"));
}

#[test]
fn usage_request_headers_select_codex_product() {
    let headers = usage_request_headers(&CodexAuthCredentials {
        access_token: "access-token".to_string(),
        account_id: Some("account-123".to_string()),
    })
    .expect("headers");
    let get = |name: &str| {
        headers
            .iter()
            .find(|header| header.0.eq_ignore_ascii_case(name))
            .map(|header| header.1.as_str())
    };

    assert_eq!(
        get("authorization").expect("authorization"),
        "Bearer access-token"
    );
    assert_eq!(get("user-agent").expect("user agent"), "codex-cli");
    assert_eq!(get("OAI-Product-Sku").expect("product sku"), "codex");
    assert_eq!(get("ChatGPT-Account-ID").expect("account id"), "account-123");
}

#[test]
fn limit_bars_show_usage_left_with_border_specific_glyphs() {
    assert_eq!(
        format_limit_bar(share(50.0).filled_cells, BorderStyle::Ascii),
        "##########----------"
    );
    assert_eq!(
        format_limit_bar(share(50.0).filled_cells, BorderStyle::Unicode),
        "██████████░░░░░░░░░░"
    );
}

#[test]
fn codex_auth_credentials_rejects_invalid_json() {
    let result = credentials_of("not-json");

    assert_eq!(result, Err(CodexLimitUnavailableReason::InvalidAuth));
}

#[test]
fn codex_auth_credentials_rejects_api_key_auth() {
    let result = credentials_of(r#"{"OPENAI_API_KEY":"sk-test"}"#);

    assert_eq!(result, Err(CodexLimitUnavailableReason::UnsupportedAuth));
}

#[test]
fn codex_auth_credentials_reads_chatgpt_tokens() {
    let result = credentials_of(
        r#"{"tokens":{"access_token":" access-token ","account_id":" account-123 "}}"#,
    )
    .expect("credentials");

    assert_eq!(
        result,
        CodexAuthCredentials {
            access_token: "access-token".to_string(),
            account_id: Some("account-123".to_string()),
        }
    );
}

#[test]
fn usage_payload_maps_primary_and_secondary_windows() {
    let status = limits_of(
        r#"{
            "rate_limit": {
                "primary_window": {
                    "used_percent": 42,
                    "limit_window_seconds": 18000,
                    "reset_at": 1770000000
                },
                "secondary_window": {
                    "used_percent": 9,
                    "limit_window_seconds": 604800,
                    "reset_at": 1770100000
                }
            }
        }"#,
    );

    assert_eq!(
        status,
        CodexLimitStatus::Available(CodexLimits {
            five_hour: Some(CodexLimitWindow {
                share: share(42.0),
                window_minutes: Some(300),
                resets_at_epoch_seconds: Some(1_770_000_000),
            }),
            weekly: Some(CodexLimitWindow {
                share: share(9.0),
                window_minutes: Some(10_080),
                resets_at_epoch_seconds: Some(1_770_100_000),
            }),
        })
    );
}

#[test]
fn usage_payload_selects_backend_windows_by_duration() {
    let status = limits_of(
        r#"{
            "rate_limit": {
                "primary_window": {
                    "used_percent": 88,
                    "limit_window_seconds": 3600
                },
                "secondary_window": {
                    "used_percent": 9,
                    "limit_window_seconds": 604800
                }
            },
            "additional_rate_limits": [
                {
                    "metered_feature": "codex",
                    "rate_limit": {
                        "primary_window": {
                            "used_percent": 42,
                            "limit_window_seconds": 18000
                        }
                    }
                }
            ]
        }"#,
    );

    assert_eq!(
        status,
        CodexLimitStatus::Available(CodexLimits {
            five_hour: Some(CodexLimitWindow {
                share: share(42.0),
                window_minutes: Some(300),
                resets_at_epoch_seconds: None,
            }),
            weekly: Some(CodexLimitWindow {
                share: share(9.0),
                window_minutes: Some(10_080),
                resets_at_epoch_seconds: None,
            }),
        })
    );
}

#[test]
fn usage_payload_maps_protocol_rate_limits_schema() {
    let status = limits_of(
        r#"{
            "rateLimits": {
                "limitId": "codex",
                "primary": {
                    "usedPercent": 25,
                    "windowDurationMins": 300,
                    "resetsAt": 1770000000
                },
                "secondary": {
                    "usedPercent": 91,
                    "windowDurationMins": 10080,
                    "resetsAt": 1770100000
                }
            }
        }"#,
    );

    assert_eq!(
        status,
        CodexLimitStatus::Available(CodexLimits {
            five_hour: Some(CodexLimitWindow {
                share: share(25.0),
                window_minutes: Some(300),
                resets_at_epoch_seconds: Some(1_770_000_000),
            }),
            weekly: Some(CodexLimitWindow {
                share: share(91.0),
                window_minutes: Some(10_080),
                resets_at_epoch_seconds: Some(1_770_100_000),
            }),
        })
    );
}

#[test]
fn usage_payload_selects_protocol_windows_by_duration() {
    let status = limits_of(
        r#"{
            "rateLimits": {
                "limitId": "codex",
                "primary": {
                    "usedPercent": 9,
                    "windowDurationMins": 10080
                },
                "secondary": {
                    "usedPercent": 42,
                    "windowDurationMins": 300
                }
            }
        }"#,
    );

    assert_eq!(
        status,
        CodexLimitStatus::Available(CodexLimits {
            five_hour: Some(CodexLimitWindow {
                share: share(42.0),
                window_minutes: Some(300),
                resets_at_epoch_seconds: None,
            }),
            weekly: Some(CodexLimitWindow {
                share: share(9.0),
                window_minutes: Some(10_080),
                resets_at_epoch_seconds: None,
            }),
        })
    );
}

#[test]
fn usage_payload_prefers_protocol_rate_limits_by_codex_id() {
    let status = limits_of(
        r#"{
            "rateLimitsByLimitId": {
                "other": {
                    "limitId": "other",
                    "primary": {"usedPercent": 90}
                },
                "codex": {
                    "limitId": "codex",
                    "primary": {"usedPercent": 7}
                }
            }
        }"#,
    );

    assert_eq!(
        status,
        CodexLimitStatus::Available(CodexLimits {
            five_hour: Some(CodexLimitWindow {
                share: share(7.0),
                window_minutes: None,
                resets_at_epoch_seconds: None,
            }),
            weekly: None,
        })
    );
}

#[test]
fn usage_payload_accepts_camel_case_fields() {
    let status = limits_of(
        r#"{
            "rateLimit": {
                    "primaryWindow": {
                        "usedPercent": 125,
                        "limitWindowSeconds": 18000,
                        "resetAt": 123
                    }
            }
        }"#,
    );

    assert_eq!(
        status,
        CodexLimitStatus::Available(CodexLimits {
            five_hour: Some(CodexLimitWindow {
                share: share(100.0),
                window_minutes: Some(300),
                resets_at_epoch_seconds: Some(123),
            }),
            weekly: None,
        })
    );
}

#[test]
fn usage_payload_falls_back_to_additional_codex_limit() {
    let status = limits_of(
        r#"{
            "additional_rate_limits": [
                {
                    "metered_feature": "codex",
                    "rate_limit": {
                        "primary_window": {"used_percent": 7}
                    }
                }
            ]
        }"#,
    );

    assert_eq!(
        status,
        CodexLimitStatus::Available(CodexLimits {
            five_hour: Some(CodexLimitWindow {
                share: share(7.0),
                window_minutes: None,
                resets_at_epoch_seconds: None,
            }),
            weekly: None,
        })
    );
}

#[test]
fn usage_payload_reports_invalid_json() {
    let status = limits_of("not-json");

    assert_eq!(
        status,
        CodexLimitStatus::Unavailable(CodexLimitUnavailableReason::InvalidResponse)
    );
}

#[test]
fn usage_payload_reports_missing_windows() {
    let status = limits_of(r#"{"rate_limit":{}}"#);

    assert_eq!(
        status,
        CodexLimitStatus::Unavailable(CodexLimitUnavailableReason::NoLimitData)
    );
}

#[test]
fn offline_watch_start_does_not_call_fetcher() {
    let status = codex_limit_status_for_watch_start(true, || {
        panic!("offline mode must not fetch limits");
    });

    assert_eq!(
        status,
        CodexLimitStatus::Unavailable(CodexLimitUnavailableReason::Offline)
    );
}

#[test]
fn online_watch_start_calls_fetcher() {
    let status = codex_limit_status_for_watch_start(false, || {
        CodexLimitStatus::Unavailable(CodexLimitUnavailableReason::RequestFailed)
    });

    assert_eq!(
        status,
        CodexLimitStatus::Unavailable(CodexLimitUnavailableReason::RequestFailed)
    );
}

#[test]
fn render_codex_limits_includes_available_windows() {
    let status = CodexLimitStatus::Available(CodexLimits {
        five_hour: Some(CodexLimitWindow {
            share: share(42.0),
            window_minutes: Some(300),
            resets_at_epoch_seconds: Some(100 + (3 * 86_400) + (2 * 3_600) + (15 * 60)),
        }),
        weekly: Some(CodexLimitWindow {
            share: share(9.0),
            window_minutes: Some(10_080),
            resets_at_epoch_seconds: Some(100 + 45),
        }),
    });
    let rendered = render_codex_limits(
        &status,
        TableRenderConfig {
            style: TableStyle::Plain,
            borders: BorderStyle::Ascii,
            number_format: NumberFormat::Full,
        },
        100,
    );

    assert!(rendered.contains("Codex Limits"));
    assert!(
        rendered
            .lines()
            .next()
            .is_some_and(|line| line.starts_with('+'))
    );
    assert!(rendered.contains("| 5h     [############--------]  58% left, 3d 2h |"));
    assert!(rendered.contains("| Weekly [##################--]  91% left, 45s   |"));
    assert!(!rendered.contains("% used"));
}

#[test]
fn render_codex_limits_includes_unavailable_reason() {
    let rendered = render_codex_limits(
        &CodexLimitStatus::Unavailable(CodexLimitUnavailableReason::Unauthorized),
        TableRenderConfig {
            style: TableStyle::Plain,
            borders: BorderStyle::Ascii,
            number_format: NumberFormat::Full,
        },
        0,
    );

    assert!(rendered.contains("+----------------------------+"));
    assert!(rendered.contains("| Codex Limits               |"));
    assert!(rendered.contains("| unavailable (unauthorized) |"));
}

#[test]
fn reset_countdown_uses_two_non_zero_major_units() {
    assert_eq!(format_reset_countdown(0), "0s");
    assert_eq!(format_reset_countdown(59), "59s");
    assert_eq!(format_reset_countdown(62), "1m 2s");
    assert_eq!(format_reset_countdown(3_600), "1h");
    assert_eq!(format_reset_countdown(3_605), "1h 5s");
    assert_eq!(
        format_reset_countdown((3 * 86_400) + (2 * 3_600) + 300),
        "3d 2h"
    );
}

#[test]
fn reset_countdown_is_computed_from_current_render_time() {
    let status = CodexLimitStatus::Available(CodexLimits {
        five_hour: Some(CodexLimitWindow {
            share: share(50.0),
            window_minutes: Some(300),
            resets_at_epoch_seconds: Some(130),
        }),
        weekly: None,
    });
    let render_config = TableRenderConfig {
        style: TableStyle::Plain,
        borders: BorderStyle::Ascii,
        number_format: NumberFormat::Full,
    };

    let first = render_codex_limits(&status, render_config, 100);
    let second = render_codex_limits(&status, render_config, 101);

    assert!(first.contains("50% left, 30s"));
    assert!(second.contains("50% left, 29s"));
}

#[test]
fn tokens_that_no_header_can_hold_give_no_headers() {
    let with_token = |access_token: &str| {
        usage_request_headers(&CodexAuthCredentials {
            access_token: access_token.to_string(),
            account_id: None,
        })
    };
    assert!(with_token("line\nbreak").is_none());
    assert!(with_token("delete\u{7f}").is_none());
    let headers = with_token("tab\tand caf\u{e9}").expect("headers");
    assert_eq!(headers.len(), 3);
    assert_eq!(
        usage_request_headers(&CodexAuthCredentials {
            access_token: "fine".to_string(),
            account_id: Some("not\u{0}fine".to_string()),
        }),
        None
    );
}

#[test]
fn credentials_need_a_token() {
    assert_eq!(
        credentials_of(r#"{"tokens":{"access_token":"  "}}"#),
        Err(CodexLimitUnavailableReason::InvalidAuth)
    );
    assert_eq!(
        credentials_of("{}"),
        Err(CodexLimitUnavailableReason::InvalidAuth)
    );
    assert_eq!(
        credentials_of(r#"{"tokens":{"access_token":"a","account_id":" "}}"#),
        Ok(CodexAuthCredentials {
            access_token: "a".to_string(),
            account_id: None,
        })
    );
}

#[test]
fn responses_fail_by_status_code() {
    assert_eq!(usage_response_failure(200), None);
    assert_eq!(usage_response_failure(204), None);
    assert_eq!(
        usage_response_failure(401),
        Some(CodexLimitUnavailableReason::Unauthorized)
    );
    assert_eq!(
        usage_response_failure(500),
        Some(CodexLimitUnavailableReason::RequestFailed)
    );
}

#[test]
fn reasons_have_texts() {
    assert_eq!(CodexLimitUnavailableReason::Offline.as_str(), "offline");
    assert_eq!(
        CodexLimitUnavailableReason::NoLimitData.as_str(),
        "no limit data"
    );
    assert_eq!(
        CodexLimitUnavailableReason::RequestFailed.as_str(),
        "request failed"
    );
}

#[test]
fn windows_too_long_to_count_have_no_room() {
    let payload = |seconds: i64| UsagePayload {
        rate_limits: None,
        rate_limits_by_limit_id: None,
        rate_limit: Some(RateLimitDetails {
            primary_window: Some(RateLimitWindowPayload {
                share: Some(share(1.0)),
                limit_window_seconds: Some(seconds),
                reset_at: None,
            }),
            secondary_window: None,
        }),
        additional_rate_limits: None,
    };
    assert!(payload_has_room(&payload(18_000)));
    assert!(!payload_has_room(&payload(i64::MAX)));
}

#[test]
fn limit_rows_without_a_window_say_so() {
    assert_eq!(
        render_codex_limit_row("5h", &None, BorderStyle::Ascii, 0),
        "5h     unavailable"
    );
    let window = CodexLimitWindow {
        share: share(0.0),
        window_minutes: None,
        resets_at_epoch_seconds: None,
    };
    assert_eq!(
        render_codex_limit_row("Weekly", &Some(window), BorderStyle::Ascii, 0),
        "Weekly [####################] 100% left"
    );
    assert_eq!(limit_reset_countdown(&window, 0), None);
}
