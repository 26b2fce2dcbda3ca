//! Codex account limits for watch mode.

use vstd::prelude::*;
use vstd::string::*;

use crate::keyed::TextMap;
use crate::text;
use crate::text::{text_eq, trim_text};

verus! {

/// Usage endpoint of the account backend.
pub const CODEX_USAGE_URL: &'static str = "https://chatgpt.com/backend-api/wham/usage";

/// User agent used for backend compatibility.
pub const CODEX_USER_AGENT: &'static str = "codex-cli";

/// Product selector for Codex quota windows.
pub const CODEX_PRODUCT_SKU: &'static str = "codex";

/// Codex short rolling limit window in minutes.
pub const CODEX_FIVE_HOUR_WINDOW_MINUTES: i64 = 300;

/// Codex weekly rolling limit window in minutes.
pub const CODEX_WEEKLY_WINDOW_MINUTES: i64 = 10_080;

/// Horizontal cells used by Codex limit bars.
pub const CODEX_LIMIT_BAR_WIDTH: usize = 20;

/// Current Codex limit status available to the watch renderer.
#[derive(Clone, Copy, Debug, PartialEq, Eq, Structural)]
pub enum CodexLimitStatus {
    /// Limit windows were fetched and parsed.
    Available(CodexLimits),
    /// Limit windows are unavailable for a non-fatal reason.
    Unavailable(CodexLimitUnavailableReason),
}

impl CodexLimitStatus {
    /// Build an unavailable status.
    pub fn unavailable(reason: CodexLimitUnavailableReason) -> (status: CodexLimitStatus)
        ensures
            status == CodexLimitStatus::Unavailable(reason),
    {
        CodexLimitStatus::Unavailable(reason)
    }
}

/// Non-fatal reasons limit bars cannot be shown.
#[derive(Clone, Copy, Debug, PartialEq, Eq, Structural)]
pub enum CodexLimitUnavailableReason {
    /// Limit fetching is disabled.
    Offline,
    /// The auth file does not exist.
    AuthMissing,
    /// The auth file could not be parsed.
    InvalidAuth,
    /// The auth file does not contain access-token credentials.
    UnsupportedAuth,
    /// The backend request failed before a usable response was received.
    RequestFailed,
    /// The backend rejected the current access token.
    Unauthorized,
    /// The backend response was not valid usage JSON.
    InvalidResponse,
    /// The response did not hold a Codex rate-limit window.
    NoLimitData,
}

/// The short display form of a reason.
pub open spec fn reason_text(reason: CodexLimitUnavailableReason) -> Seq<char> {
    match reason {
        CodexLimitUnavailableReason::Offline => "offline"@,
        CodexLimitUnavailableReason::AuthMissing => "auth.json missing"@,
        CodexLimitUnavailableReason::InvalidAuth => "invalid auth.json"@,
        CodexLimitUnavailableReason::UnsupportedAuth => "unsupported auth"@,
        CodexLimitUnavailableReason::RequestFailed => "request failed"@,
        CodexLimitUnavailableReason::Unauthorized => "unauthorized"@,
        CodexLimitUnavailableReason::InvalidResponse => "invalid response"@,
        CodexLimitUnavailableReason::NoLimitData => "no limit data"@,
    }
}

impl CodexLimitUnavailableReason {
    /// Return a short display reason.
    pub fn as_str(self) -> (s: &'static str)
        ensures
            s@ == reason_text(self),
    {
        match self {
            CodexLimitUnavailableReason::Offline => "offline",
            CodexLimitUnavailableReason::AuthMissing => "auth.json missing",
            CodexLimitUnavailableReason::InvalidAuth => "invalid auth.json",
            CodexLimitUnavailableReason::UnsupportedAuth => "unsupported auth",
            CodexLimitUnavailableReason::RequestFailed => "request failed",
            CodexLimitUnavailableReason::Unauthorized => "unauthorized",
            CodexLimitUnavailableReason::InvalidResponse => "invalid response",
            CodexLimitUnavailableReason::NoLimitData => "no limit data",
        }
    }
}

/// Parsed Codex limit windows.
#[derive(Clone, Copy, Debug, PartialEq, Eq, Structural)]
pub struct CodexLimits {
    /// Short Codex rolling window.
    pub five_hour: Option<CodexLimitWindow>,
    /// Long Codex rolling window.
    pub weekly: Option<CodexLimitWindow>,
}

impl CodexLimits {
    /// Return whether at least one known window is present.
    pub fn has_window(&self) -> (r: bool)
        ensures
            r == (self.five_hour is Some || self.weekly is Some),
    {
        self.five_hour.is_some() || self.weekly.is_some()
    }
}

/// How much of a limit is left, as it is shown.
#[derive(Clone, Copy, Debug, PartialEq, Eq, Structural)]
pub struct LimitShare {
    /// Percentage that is left, rounded to a whole number.
    pub left_percent: u8,
    /// Cells of the bar that are filled.
    pub filled_cells: u8,
}

/// One Codex rate-limit window.
#[derive(Clone, Copy, Debug, PartialEq, Eq, Structural)]
pub struct CodexLimitWindow {
    /// How much of the window is left.
    pub share: LimitShare,
    /// Window width in whole minutes, when reported.
    pub window_minutes: Option<i64>,
    /// Unix timestamp for the reset time, when reported.
    pub resets_at_epoch_seconds: Option<i64>,
}

/// Auth credentials needed for the usage endpoint.
#[derive(Clone, Debug, PartialEq, Eq)]
pub struct CodexAuthCredentials {
    /// Bearer access token.
    pub access_token: String,
    /// Optional account or workspace id.
    pub account_id: Option<String>,
}

/// Top-level auth file shape.
#[derive(Clone, Debug)]
pub struct AuthFile {
    /// API-key auth marker.
    pub openai_api_key: Option<String>,
    /// Token credentials.
    pub tokens: Option<AuthTokens>,
    /// Agent identity marker.
    pub agent_identity: Option<String>,
}

/// Token subset stored in the auth file.
#[derive(Clone, Debug)]
pub struct AuthTokens {
    /// Bearer access token.
    pub access_token: String,
    /// Optional account or workspace id.
    pub account_id: Option<String>,
}

/// Usage endpoint payload subset.
#[derive(Debug)]
pub struct UsagePayload {
    /// Protocol-shaped preferred Codex rate-limit snapshot.
    pub rate_limits: Option<ProtocolRateLimitSnapshot>,
    /// Protocol-shaped snapshots keyed by limit id.
    pub rate_limits_by_limit_id: Option<TextMap<ProtocolRateLimitSnapshot>>,
    /// Primary Codex rate-limit details.
    pub rate_limit: Option<RateLimitDetails>,
    /// Additional metered-feature limits.
    pub additional_rate_limits: Option<Vec<AdditionalRateLimit>>,
}

/// Protocol-shaped Codex rate-limit snapshot.
#[derive(Clone, Debug)]
pub struct ProtocolRateLimitSnapshot {
    /// Backend limit identifier.
    pub limit_id: Option<String>,
    /// Short rolling window.
    pub primary: Option<ProtocolRateLimitWindow>,
    /// Long rolling window.
    pub secondary: Option<ProtocolRateLimitWindow>,
}

/// Protocol-shaped rate-limit window.
#[derive(Clone, Copy, Debug, PartialEq, Eq, Structural)]
pub struct ProtocolRateLimitWindow {
    /// How much is left, where the used percentage is a finite number.
    pub share: Option<LimitShare>,
    /// Window width in minutes.
    pub window_duration_mins: Option<i64>,
    /// Reset timestamp.
    pub resets_at: Option<i64>,
}

/// Additional usage-limit payload.
#[derive(Clone, Debug)]
pub struct AdditionalRateLimit {
    /// Backend metered-feature identifier.
    pub metered_feature: Option<String>,
    /// Human-readable limit identifier.
    pub limit_name: Option<String>,
    /// Rate-limit windows for this feature.
    pub rate_limit: Option<RateLimitDetails>,
}

/// Primary and secondary rate-limit windows.
#[derive(Clone, Copy, Debug, PartialEq, Eq, Structural)]
pub struct RateLimitDetails {
    /// Short rolling window.
    pub primary_window: Option<RateLimitWindowPayload>,
    /// Long rolling window.
    pub secondary_window: Option<RateLimitWindowPayload>,
}

/// Backend representation for one rate-limit window.
#[derive(Clone, Copy, Debug, PartialEq, Eq, Structural)]
pub struct RateLimitWindowPayload {
    /// How much is left, where the used percentage is a finite number.
    pub share: Option<LimitShare>,
    /// Window width in seconds.
    pub limit_window_seconds: Option<i64>,
    /// Reset timestamp.
    pub reset_at: Option<i64>,
}

/// The text of an optional string.
pub open spec fn optional(value: Option<String>) -> Option<Seq<char>> {
    match value {
        Some(s) => Some(s@),
        None => None,
    }
}

/// What credentials say.
pub struct CredentialFacts {
    /// Bearer access token.
    pub access_token: Seq<char>,
    /// Account or workspace id.
    pub account_id: Option<Seq<char>>,
}

impl View for CodexAuthCredentials {
    type V = CredentialFacts;

    open spec fn view(&self) -> CredentialFacts {
        CredentialFacts { access_token: self.access_token@, account_id: optional(self.account_id) }
    }
}

/// The credentials that an auth file holds, or why it holds none. White space around the values
/// does not count, and a blank account is none.
pub open spec fn credentials_in(auth: Option<AuthFile>) -> Result<
    CredentialFacts,
    CodexLimitUnavailableReason,
> {
    match auth {
        None => Err(CodexLimitUnavailableReason::InvalidAuth),
        Some(file) => match file.tokens {
            None => if file.openai_api_key is Some || file.agent_identity is Some {
                Err(CodexLimitUnavailableReason::UnsupportedAuth)
            } else {
                Err(CodexLimitUnavailableReason::InvalidAuth)
            },
            Some(tokens) => if text::trimmed(tokens.access_token@).len() == 0 {
                Err(CodexLimitUnavailableReason::InvalidAuth)
            } else {
                Ok(
                    CredentialFacts {
                        access_token: text::trimmed(tokens.access_token@),
                        account_id: match tokens.account_id {
                            Some(id) => if text::trimmed(id@).len() == 0 {
                                None
                            } else {
                                Some(text::trimmed(id@))
                            },
                            None => None,
                        },
                    },
                )
            },
        },
    }
}

/// Read credentials from an auth file; `auth` is absent where the file is not valid JSON.
pub fn codex_auth_credentials(auth: &Option<AuthFile>) -> (r: Result<
    CodexAuthCredentials,
    CodexLimitUnavailableReason,
>)
    ensures
        match r {
            Ok(credentials) => credentials_in(*auth) == Ok::<
                CredentialFacts,
                CodexLimitUnavailableReason,
            >(credentials@),
            Err(reason) => credentials_in(*auth) == Err::<
                CredentialFacts,
                CodexLimitUnavailableReason,
            >(reason),
        },
{
    let file = match auth {
        Some(file) => file,
        None => return Err(CodexLimitUnavailableReason::InvalidAuth),
    };
    let tokens = match &file.tokens {
        Some(tokens) => tokens,
        None => {
            return Err(
                if file.openai_api_key.is_some() || file.agent_identity.is_some() {
                    CodexLimitUnavailableReason::UnsupportedAuth
                } else {
                    CodexLimitUnavailableReason::InvalidAuth
                },
            );
        },
    };
    let access_token = trim_text(tokens.access_token.as_str());
    if access_token.as_str().is_empty() {
        return Err(CodexLimitUnavailableReason::InvalidAuth);
    }
    let account_id = match &tokens.account_id {
        Some(value) => {
            let trimmed = trim_text(value.as_str());
            if trimmed.as_str().is_empty() {
                None
            } else {
                Some(trimmed)
            }
        },
        None => None,
    };
    Ok(CodexAuthCredentials { access_token, account_id })
}

/// Whether a text can be the value of a request header: it holds no control character but the tab.
pub open spec fn header_text(value: Seq<char>) -> bool {
    forall|i: int|
        0 <= i < value.len() ==> ((#[trigger] value[i]) >= ' ' && value[i] != '\u{7f}') || value[i]
            == '\t'
}

/// `reqwest::header::HeaderValue::from_str` accepts exactly the texts without control characters, of which only the
/// tab is allowed.
#[verifier::external_body]
fn is_header_value(value: &str) -> (ok: bool)
    ensures
        ok == header_text(value@),
{
    reqwest::header::HeaderValue::from_str(value).is_ok()
}

/// The headers of a usage request, by name.
pub open spec fn request_headers(credentials: CredentialFacts) -> Option<
    Seq<(Seq<char>, Seq<char>)>,
> {
    let bearer = "Bearer "@ + credentials.access_token;
    let fixed = seq![
        ("authorization"@, bearer),
        ("user-agent"@, CODEX_USER_AGENT@),
        ("OAI-Product-Sku"@, CODEX_PRODUCT_SKU@),
    ];
    if !header_text(bearer) {
        None
    } else {
        match credentials.account_id {
            Some(id) => if header_text(id) {
                Some(fixed.push(("ChatGPT-Account-ID"@, id)))
            } else {
                None
            },
            None => Some(fixed),
        }
    }
}

/// Names and values as texts.
pub open spec fn header_facts(headers: Seq<(String, String)>) -> Seq<(Seq<char>, Seq<char>)> {
    headers.map_values(|header: (String, String)| (header.0@, header.1@))
}

/// Build headers for one usage request.
pub fn usage_request_headers(credentials: &CodexAuthCredentials) -> (headers: Option<
    Vec<(String, String)>,
>)
    ensures
        match headers {
            Some(list) => request_headers(credentials@) == Some(header_facts(list@)),
            None => request_headers(credentials@) is None,
        },
{
    let mut bearer = String::from_str("Bearer ");
    bearer.append(credentials.access_token.as_str());
    if !is_header_value(bearer.as_str()) {
        return None;
    }
    let ghost token = bearer@;
    let mut headers: Vec<(String, String)> = Vec::new();
    headers.push((String::from_str("authorization"), bearer));
    headers.push((String::from_str("user-agent"), String::from_str(CODEX_USER_AGENT)));
    headers.push((String::from_str("OAI-Product-Sku"), String::from_str(CODEX_PRODUCT_SKU)));
    let ghost fixed = seq![
        ("authorization"@, token),
        ("user-agent"@, CODEX_USER_AGENT@),
        ("OAI-Product-Sku"@, CODEX_PRODUCT_SKU@),
    ];
    assert(header_facts(headers@) =~= fixed);
    if let Some(account_id) = &credentials.account_id {
        if !is_header_value(account_id.as_str()) {
            return None;
        }
        headers.push((String::from_str("ChatGPT-Account-ID"), account_id.clone()));
        assert(header_facts(headers@) =~= fixed.push(("ChatGPT-Account-ID"@, account_id@)));
    }
    Some(headers)
}

/// A window as it is shown, from its protocol shape.
pub open spec fn protocol_window(window: Option<ProtocolRateLimitWindow>) -> Option<
    CodexLimitWindow,
> {
    match window {
        Some(w) => match w.share {
            Some(share) => Some(
                CodexLimitWindow {
                    share,
                    window_minutes: match w.window_duration_mins {
                        Some(minutes) => if minutes > 0 {
                            Some(minutes)
                        } else {
                            None
                        },
                        None => None,
                    },
                    resets_at_epoch_seconds: w.resets_at,
                },
            ),
            None => None,
        },
        None => None,
    }
}

/// Convert one protocol-shaped window into renderer data.
pub fn protocol_rate_limit_window(window: Option<ProtocolRateLimitWindow>) -> (r: Option<
    CodexLimitWindow,
>)
    ensures
        r == protocol_window(window),
{
    let found = match window {
        Some(found) => found,
        None => return None,
    };
    match found.share {
        Some(share) => Some(
            CodexLimitWindow {
                share,
                window_minutes: match found.window_duration_mins {
                    Some(minutes) => if minutes > 0 {
                        Some(minutes)
                    } else {
                        None
                    },
                    None => None,
                },
                resets_at_epoch_seconds: found.resets_at,
            },
        ),
        None => None,
    }
}

/// Whether the width of a backend window can be rounded up to minutes.
pub open spec fn window_fits(window: Option<RateLimitWindowPayload>) -> bool {
    window matches Some(w) ==> (w.limit_window_seconds matches Some(seconds) ==> seconds + 59
        <= i64::MAX)
}

/// A window as it is shown, from its backend shape: its width is rounded up to whole minutes.
pub open spec fn backend_window(window: Option<RateLimitWindowPayload>) -> Option<CodexLimitWindow> {
    match window {
        Some(w) => match w.share {
            Some(share) => Some(
                CodexLimitWindow {
                    share,
                    window_minutes: match w.limit_window_seconds {
                        Some(seconds) => if seconds > 0 {
                            Some(((seconds + 59) / 60) as i64)
                        } else {
                            None
                        },
                        None => None,
                    },
                    resets_at_epoch_seconds: w.reset_at,
                },
            ),
            None => None,
        },
        None => None,
    }
}

/// Convert one backend window into renderer data.
pub fn rate_limit_window(window: Option<RateLimitWindowPayload>) -> (r: Option<CodexLimitWindow>)
    requires
        window_fits(window),
    ensures
        r == backend_window(window),
{
    let found = match window {
        Some(found) => found,
        None => return None,
    };
    match found.share {
        Some(share) => Some(
            CodexLimitWindow {
                share,
                window_minutes: match found.limit_window_seconds {
                    Some(seconds) => if seconds > 0 {
                        Some((seconds + 59) / 60)
                    } else {
                        None
                    },
                    None => None,
                },
                resets_at_epoch_seconds: found.reset_at,
            },
        ),
        None => None,
    }
}

/// The first window of a given width among candidates.
pub open spec fn first_of_width(windows: Seq<Option<CodexLimitWindow>>, minutes: i64) -> Option<
    CodexLimitWindow,
>
    decreases windows.len(),
{
    if windows.len() == 0 {
        None
    } else {
        match first_of_width(windows.drop_last(), minutes) {
            Some(found) => Some(found),
            None => match windows.last() {
                Some(window) => if window.window_minutes == Some(minutes) {
                    Some(window)
                } else {
                    None
                },
                None => None,
            },
        }
    }
}

/// The candidates of unknown width, in order.
pub open spec fn unknown_width(windows: Seq<Option<CodexLimitWindow>>) -> Seq<CodexLimitWindow>
    decreases windows.len(),
{
    if windows.len() == 0 {
        Seq::empty()
    } else {
        let rest = unknown_width(windows.drop_last());
        match windows.last() {
            Some(window) => if window.window_minutes is None {
                rest.push(window)
            } else {
                rest
            },
            None => rest,
        }
    }
}

/// The short and the long window among candidates: the first of the right width each, else one of
/// unknown width, taken in order.
pub open spec fn chosen_limits(windows: Seq<Option<CodexLimitWindow>>) -> CodexLimits {
    let short = first_of_width(windows, CODEX_FIVE_HOUR_WINDOW_MINUTES);
    let long = first_of_width(windows, CODEX_WEEKLY_WINDOW_MINUTES);
    let unknown = unknown_width(windows);
    let taken: int = if short is None {
        1
    } else {
        0
    };
    CodexLimits {
        five_hour: match short {
            Some(window) => Some(window),
            None => if unknown.len() > 0 {
                Some(unknown[0])
            } else {
                None
            },
        },
        weekly: match long {
            Some(window) => Some(window),
            None => if unknown.len() > taken {
                Some(unknown[taken])
            } else {
                None
            },
        },
    }
}

/// The limits among candidates, where there are any.
pub open spec fn limits_among(windows: Seq<Option<CodexLimitWindow>>) -> Option<CodexLimits> {
    let limits = chosen_limits(windows);
    if limits.five_hour is Some || limits.weekly is Some {
        Some(limits)
    } else {
        None
    }
}

/// Choose Codex 5h and weekly buckets from parsed candidate windows.
pub fn codex_limits_from_windows(windows: &Vec<Option<CodexLimitWindow>>) -> (limits: Option<
    CodexLimits,
>)
    ensures
        limits == limits_among(windows@),
{
    let mut five_hour: Option<CodexLimitWindow> = None;
    let mut weekly: Option<CodexLimitWindow> = None;
    let mut unknown_duration: Vec<CodexLimitWindow> = Vec::new();
    assert(windows@.take(0) == Seq::<Option<CodexLimitWindow>>::empty());
    let mut i: usize = 0;
    while i < windows.len()
        invariant
            i <= windows.len(),
            five_hour == first_of_width(
                windows@.take(i as int),
                CODEX_FIVE_HOUR_WINDOW_MINUTES,
            ),
            weekly == first_of_width(windows@.take(i as int), CODEX_WEEKLY_WINDOW_MINUTES),
            unknown_duration@ == unknown_width(windows@.take(i as int)),
        decreases windows.len() - i,
    {
        assert(windows@.take(i + 1).drop_last() == windows@.take(i as int));
        assert(windows@.take(i + 1).last() == windows[i as int]);
        if let Some(window) = windows[i] {
            match window.window_minutes {
                Some(minutes) => {
                    if minutes == CODEX_FIVE_HOUR_WINDOW_MINUTES && five_hour.is_none() {
                        five_hour = Some(window);
                    } else if minutes == CODEX_WEEKLY_WINDOW_MINUTES && weekly.is_none() {
                        weekly = Some(window);
                    }
                },
                None => unknown_duration.push(window),
            }
        }
        i += 1;
    }
    assert(windows@.take(windows.len() as int) == windows@);
    let mut next: usize = 0;
    if five_hour.is_none() {
        if next < unknown_duration.len() {
            five_hour = Some(unknown_duration[next]);
        }
        next = 1;
    }
    if weekly.is_none() && next < unknown_duration.len() {
        weekly = Some(unknown_duration[next]);
    }
    let limits = CodexLimits { five_hour, weekly };
    if limits.has_window() {
        Some(limits)
    } else {
        None
    }
}

/// Whether a snapshot names the Codex limit.
pub open spec fn names_codex(snapshot: ProtocolRateLimitSnapshot) -> bool {
    optional(snapshot.limit_id) == Some("codex"@)
}

/// The first snapshot that names the Codex limit, from a position on.
pub open spec fn first_codex(entries: Seq<(String, ProtocolRateLimitSnapshot)>, from: int) -> Option<
    ProtocolRateLimitSnapshot,
>
    decreases entries.len() - from,
{
    if from >= entries.len() {
        None
    } else if names_codex(entries[from].1) {
        Some(entries[from].1)
    } else {
        first_codex(entries, from + 1)
    }
}

/// The snapshot that speaks for Codex: the one under its identifier, else the first that names it,
/// else the preferred one, unless that names another limit.
pub open spec fn codex_snapshot(payload: UsagePayload) -> Option<ProtocolRateLimitSnapshot> {
    let listed = match payload.rate_limits_by_limit_id {
        Some(by_id) => if by_id@.contains_key("codex"@) {
            Some(by_id@["codex"@])
        } else {
            first_codex(by_id.entries@, 0)
        },
        None => None,
    };
    match listed {
        Some(snapshot) => Some(snapshot),
        None => match payload.rate_limits {
            Some(snapshot) => if snapshot.limit_id is None || names_codex(snapshot) {
                Some(snapshot)
            } else {
                None
            },
            None => None,
        },
    }
}

/// The limits in the snapshot that speaks for Codex.
pub open spec fn protocol_limits(payload: UsagePayload) -> Option<CodexLimits> {
    match codex_snapshot(payload) {
        Some(snapshot) => limits_among(
            seq![protocol_window(snapshot.primary), protocol_window(snapshot.secondary)],
        ),
        None => None,
    }
}

fn is_codex(id: &Option<String>) -> (r: bool)
    ensures
        r == (optional(*id) == Some("codex"@)),
{
    match id {
        Some(value) => text_eq(value.as_str(), "codex"),
        None => false,
    }
}

fn find_codex(entries: &Vec<(String, ProtocolRateLimitSnapshot)>) -> (at: Option<usize>)
    ensures
        match at {
            Some(i) => i < entries.len() && first_codex(entries@, 0) == Some(entries[i as int].1),
            None => first_codex(entries@, 0) is None,
        },
{
    let mut i: usize = 0;
    while i < entries.len()
        invariant
            i <= entries.len(),
            first_codex(entries@, 0) == first_codex(entries@, i as int),
        decreases entries.len() - i,
    {
        if is_codex(&entries[i].1.limit_id) {
            return Some(i);
        }
        i += 1;
    }
    None
}

fn snapshot_limits(snapshot: &ProtocolRateLimitSnapshot) -> (limits: Option<CodexLimits>)
    ensures
        limits == limits_among(
            seq![protocol_window(snapshot.primary), protocol_window(snapshot.secondary)],
        ),
{
    let mut windows: Vec<Option<CodexLimitWindow>> = Vec::new();
    windows.push(protocol_rate_limit_window(snapshot.primary));
    windows.push(protocol_rate_limit_window(snapshot.secondary));
    assert(windows@ =~= seq![
        protocol_window(snapshot.primary),
        protocol_window(snapshot.secondary),
    ]);
    codex_limits_from_windows(&windows)
}

/// Whether the snapshots of a payload stand in the order of their keys.
pub open spec fn payload_wf(payload: UsagePayload) -> bool {
    payload.rate_limits_by_limit_id matches Some(by_id) ==> by_id.wf()
}

/// Select protocol-shaped Codex rate-limit windows from a usage payload.
pub fn codex_protocol_limits(payload: &UsagePayload) -> (limits: Option<CodexLimits>)
    requires
        payload_wf(*payload),
    ensures
        limits == protocol_limits(*payload),
{
    if let Some(by_id) = &payload.rate_limits_by_limit_id {
        if let Some(snapshot) = by_id.get("codex") {
            return snapshot_limits(snapshot);
        }
        if let Some(at) = find_codex(&by_id.entries) {
            return snapshot_limits(&by_id.entries[at].1);
        }
    }
    match &payload.rate_limits {
        Some(snapshot) => {
            if snapshot.limit_id.is_none() || is_codex(&snapshot.limit_id) {
                snapshot_limits(snapshot)
            } else {
                None
            }
        },
        None => None,
    }
}

/// Whether an additional limit describes Codex.
pub open spec fn additional_codex(limit: AdditionalRateLimit) -> bool {
    optional(limit.metered_feature) == Some("codex"@) || optional(limit.limit_name) == Some(
        "codex"@,
    )
}

/// Return whether an additional usage-limit block describes Codex.
pub fn is_codex_additional_limit(limit: &AdditionalRateLimit) -> (r: bool)
    ensures
        r == additional_codex(*limit),
{
    is_codex(&limit.metered_feature) || is_codex(&limit.limit_name)
}

/// The candidate windows of optional details.
pub open spec fn details_windows(details: Option<RateLimitDetails>) -> Seq<Option<CodexLimitWindow>> {
    match details {
        Some(d) => seq![backend_window(d.primary_window), backend_window(d.secondary_window)],
        None => Seq::empty(),
    }
}

/// Whether the widths of the windows of optional details can be rounded up to minutes.
pub open spec fn details_fit(details: Option<RateLimitDetails>) -> bool {
    details matches Some(d) ==> window_fits(d.primary_window) && window_fits(d.secondary_window)
}

/// Append parsed backend rate-limit windows to a candidate set.
pub fn append_rate_limit_windows(
    windows: &mut Vec<Option<CodexLimitWindow>>,
    details: RateLimitDetails,
)
    requires
        details_fit(Some(details)),
    ensures
        final(windows)@ == old(windows)@ + details_windows(Some(details)),
{
    windows.push(rate_limit_window(details.primary_window));
    windows.push(rate_limit_window(details.secondary_window));
    assert(windows@ =~= old(windows)@ + details_windows(Some(details)));
}

/// The candidate windows of the additional limits that describe Codex.
pub open spec fn additional_windows(limits: Seq<AdditionalRateLimit>) -> Seq<
    Option<CodexLimitWindow>,
>
    decreases limits.len(),
{
    if limits.len() == 0 {
        Seq::empty()
    } else {
        let rest = additional_windows(limits.drop_last());
        if additional_codex(limits.last()) {
            rest + details_windows(limits.last().rate_limit)
        } else {
            rest
        }
    }
}

/// The candidate windows of a payload in its backend shape.
pub open spec fn backend_windows(payload: UsagePayload) -> Seq<Option<CodexLimitWindow>> {
    details_windows(payload.rate_limit) + match payload.additional_rate_limits {
        Some(limits) => additional_windows(limits@),
        None => Seq::empty(),
    }
}

/// Whether the widths of all backend windows can be rounded up to minutes.
pub open spec fn payload_fits(payload: UsagePayload) -> bool {
    details_fit(payload.rate_limit) && (payload.additional_rate_limits matches Some(limits)
        ==> forall|i: int|
        0 <= i < limits.len() ==> details_fit((#[trigger] limits[i]).rate_limit))
}

/// Select backend-shaped Codex rate-limit windows from a usage payload.
pub fn codex_backend_limits(payload: &UsagePayload) -> (limits: Option<CodexLimits>)
    requires
        payload_fits(*payload),
    ensures
        limits == limits_among(backend_windows(*payload)),
{
    let mut windows: Vec<Option<CodexLimitWindow>> = Vec::new();
    if let Some(details) = payload.rate_limit {
        append_rate_limit_windows(&mut windows, details);
    }
    let ghost start = details_windows(payload.rate_limit);
    assert(windows@ =~= start);
    assert(start + Seq::<Option<CodexLimitWindow>>::empty() =~= start);
    if let Some(additional) = &payload.additional_rate_limits {
        assert(additional@.take(0) == Seq::<AdditionalRateLimit>::empty());
        let mut i: usize = 0;
        while i < additional.len()
            invariant
                i <= additional.len(),
                forall|k: int|
                    0 <= k < additional.len() ==> details_fit((#[trigger] additional[k]).rate_limit),
                windows@ == start + additional_windows(additional@.take(i as int)),
            decreases additional.len() - i,
        {
            let ghost before = windows@;
            assert(additional@.take(i + 1).drop_last() == additional@.take(i as int));
            assert(additional@.take(i + 1).last() == additional[i as int]);
            if is_codex_additional_limit(&additional[i]) {
                if let Some(details) = additional[i].rate_limit {
                    append_rate_limit_windows(&mut windows, details);
                }
                assert(windows@ =~= before + details_windows(additional[i as int].rate_limit));
            }
            i += 1;
            assert(windows@ =~= start + additional_windows(additional@.take(i as int)));
        }
        assert(additional@.take(additional.len() as int) == additional@);
    }
    assert(windows@ =~= backend_windows(*payload));
    codex_limits_from_windows(&windows)
}

/// The status that limits make.
pub open spec fn status_of(limits: Option<CodexLimits>) -> CodexLimitStatus {
    match limits {
        Some(found) => if found.five_hour is Some || found.weekly is Some {
            CodexLimitStatus::Available(found)
        } else {
            CodexLimitStatus::Unavailable(CodexLimitUnavailableReason::NoLimitData)
        },
        None => CodexLimitStatus::Unavailable(CodexLimitUnavailableReason::NoLimitData),
    }
}

/// Build a status from parsed limit windows.
pub fn codex_limit_status_from_limits(limits: CodexLimits) -> (status: CodexLimitStatus)
    ensures
        status == status_of(Some(limits)),
{
    if limits.has_window() {
        CodexLimitStatus::Available(limits)
    } else {
        CodexLimitStatus::unavailable(CodexLimitUnavailableReason::NoLimitData)
    }
}

/// The status that a usage payload gives. Its protocol shape goes first.
pub open spec fn payload_status(payload: Option<UsagePayload>) -> CodexLimitStatus {
    match payload {
        None => CodexLimitStatus::Unavailable(CodexLimitUnavailableReason::InvalidResponse),
        Some(p) => match protocol_limits(p) {
            Some(limits) => status_of(Some(limits)),
            None => status_of(limits_among(backend_windows(p))),
        },
    }
}

/// Read Codex limit windows from one usage response; `payload` is absent where the response is not
/// valid JSON.
pub fn codex_limits_from_usage_payload(payload: &Option<UsagePayload>) -> (status: CodexLimitStatus)
    requires
        *payload matches Some(p) ==> payload_wf(p) && payload_fits(p),
    ensures
        status == payload_status(*payload),
{
    let found = match payload {
        Some(found) => found,
        None => {
            return CodexLimitStatus::unavailable(CodexLimitUnavailableReason::InvalidResponse);
        },
    };
    if let Some(limits) = codex_protocol_limits(found) {
        return codex_limit_status_from_limits(limits);
    }
    match codex_backend_limits(found) {
        Some(limits) => codex_limit_status_from_limits(limits),
        None => CodexLimitStatus::unavailable(CodexLimitUnavailableReason::NoLimitData),
    }
}

/// A status that shows limits always shows one: without any window the limits are unavailable.
pub proof fn law_available_limits_hold_a_window(payload: Option<UsagePayload>)
    ensures
        payload_status(payload) matches CodexLimitStatus::Available(limits)
            ==> limits.five_hour is Some || limits.weekly is Some,
{
}

fn details_have_room(details: &Option<RateLimitDetails>) -> (r: bool)
    ensures
        r == details_fit(*details),
{
    match details {
        Some(found) => window_has_room(&found.primary_window) && window_has_room(
            &found.secondary_window,
        ),
        None => true,
    }
}

fn window_has_room(window: &Option<RateLimitWindowPayload>) -> (r: bool)
    ensures
        r == window_fits(*window),
{
    match window {
        Some(found) => match found.limit_window_seconds {
            Some(seconds) => seconds <= i64::MAX - 59,
            None => true,
        },
        None => true,
    }
}

/// Return whether the widths of all backend windows can be rounded up to minutes.
pub fn payload_has_room(payload: &UsagePayload) -> (r: bool)
    ensures
        r == payload_fits(*payload),
{
    if !details_have_room(&payload.rate_limit) {
        return false;
    }
    if let Some(additional) = &payload.additional_rate_limits {
        let mut i: usize = 0;
        while i < additional.len()
            invariant
                i <= additional.len(),
                payload.additional_rate_limits == Some(*additional),
                forall|k: int|
                    0 <= k < i ==> details_fit((#[trigger] additional[k]).rate_limit),
            decreases additional.len() - i,
        {
            if !details_have_room(&additional[i].rate_limit) {
                return false;
            }
            i += 1;
        }
    }
    true
}

/// The status that a failed request gives.
pub open spec fn response_failure(status_code: u16) -> Option<CodexLimitUnavailableReason> {
    if status_code == 401 {
        Some(CodexLimitUnavailableReason::Unauthorized)
    } else if !(200 <= status_code < 300) {
        Some(CodexLimitUnavailableReason::RequestFailed)
    } else {
        None
    }
}

/// Decide whether a response can be read by its status code.
pub fn usage_response_failure(status_code: u16) -> (reason: Option<CodexLimitUnavailableReason>)
    ensures
        reason == response_failure(status_code),
{
    if status_code == 401 {
        Some(CodexLimitUnavailableReason::Unauthorized)
    } else if status_code < 200 || status_code >= 300 {
        Some(CodexLimitUnavailableReason::RequestFailed)
    } else {
        None
    }
}

/// Return the initial limit status for watch startup. Limits are fetched unless the watch is
/// offline.
pub fn codex_limit_status_for_watch_start(
    offline: bool,
    fetch: impl FnOnce() -> CodexLimitStatus,
) -> (status: CodexLimitStatus)
    requires
        !offline ==> fetch.requires(()),
    ensures
        offline ==> status == CodexLimitStatus::Unavailable(CodexLimitUnavailableReason::Offline),
        !offline ==> fetch.ensures((), status),
{
    if offline {
        CodexLimitStatus::unavailable(CodexLimitUnavailableReason::Offline)
    } else {
        fetch()
    }
}

} // verus!
