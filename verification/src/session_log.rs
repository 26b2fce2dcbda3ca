//! Session log entries and the usage events they give.

use vstd::prelude::*;
use vstd::string::*;

use crate::calendar;
use crate::calendar::{parse_timestamp, Timestamp};
use crate::model;
use crate::model::{UsageTotals, DEFAULT_FALLBACK_MODEL};
use crate::summary;
use crate::text;
use crate::text::{chars_of, text_contains, text_eq, trim_text};

verus! {

/// The shape of one JSON value as a lossy field reads it.
#[derive(Clone, Debug)]
pub enum JsonField {
    /// `null`.
    Null,
    /// `true` or `false`.
    Bool(bool),
    /// A non-negative integer.
    Unsigned(u64),
    /// A negative integer.
    Signed(i64),
    /// Any other number.
    Float,
    /// A string.
    Text(String),
    /// An array.
    Array,
    /// An object.
    Object,
}

/// Read an optional string field; any other shape counts as absent.
pub fn deserialize_optional_cow_lossy(value: &JsonField) -> (r: Option<String>)
    ensures
        match value {
            JsonField::Text(s) => r matches Some(t) && t@ == s@,
            _ => r is None,
        },
{
    match value {
        JsonField::Text(s) => Some(s.clone()),
        _ => None,
    }
}

/// Read a token counter; any shape but a non-negative integer counts as zero.
pub fn deserialize_u64_lossy(value: &JsonField) -> (r: u64)
    ensures
        r == match value {
            JsonField::Unsigned(n) => *n,
            _ => 0,
        },
{
    match value {
        JsonField::Unsigned(n) => *n,
        _ => 0,
    }
}

/// Read an optional token counter; any shape but a non-negative integer counts as absent.
pub fn deserialize_optional_u64_lossy(value: &JsonField) -> (r: Option<u64>)
    ensures
        r == match value {
            JsonField::Unsigned(n) => Some(*n),
            _ => None,
        },
{
    match value {
        JsonField::Unsigned(n) => Some(*n),
        _ => None,
    }
}

/// Read an optional object; whatever is not an object counts as absent. `object` is what the
/// fields of the object give.
pub fn deserialize_optional_object_lossy<T>(value: &JsonField, object: T) -> (r: Option<T>)
    ensures
        r == match value {
            JsonField::Object => Some(object),
            _ => None,
        },
{
    match value {
        JsonField::Object => Some(object),
        _ => None,
    }
}

/// Counters as a log reports them.
#[derive(Clone, Copy, Debug, PartialEq, Eq, Structural)]
pub struct RawUsage {
    /// Input tokens.
    pub input: u64,
    /// Cached input tokens.
    pub cached_input: u64,
    /// Output tokens.
    pub output: u64,
    /// Reasoning tokens.
    pub reasoning_output: u64,
    /// Total tokens.
    pub total: u64,
}

/// All counters zero.
pub open spec fn no_raw_usage() -> RawUsage {
    RawUsage { input: 0, cached_input: 0, output: 0, reasoning_output: 0, total: 0 }
}

impl Default for RawUsage {
    fn default() -> (usage: RawUsage)
        ensures
            usage == no_raw_usage(),
    {
        RawUsage { input: 0, cached_input: 0, output: 0, reasoning_output: 0, total: 0 }
    }
}

/// Addition that stops at the largest counter.
pub open spec fn plus(a: u64, b: u64) -> u64 {
    if a + b <= u64::MAX {
        (a + b) as u64
    } else {
        u64::MAX
    }
}

/// Whether the total of the counters is given or can be derived.
pub open spec fn total_fits(raw: RawUsage) -> bool {
    raw.total > 0 || raw.input + raw.output <= u64::MAX
}

/// The normalized counters: cached input is at most the input, and a missing total is the sum of
/// input and output.
pub open spec fn normalized(raw: RawUsage) -> UsageTotals {
    UsageTotals {
        input: raw.input,
        cached_input: model::lesser(raw.cached_input, raw.input),
        output: raw.output,
        reasoning_output: raw.reasoning_output,
        total: if raw.total > 0 {
            raw.total
        } else {
            (raw.input + raw.output) as u64
        },
    }
}

/// The billable total of raw counters.
pub open spec fn billable(raw: RawUsage) -> u64 {
    if raw.total > 0 {
        raw.total
    } else {
        plus(raw.input, raw.output)
    }
}

/// Cumulative counters moved on by one delta.
pub open spec fn advanced(raw: RawUsage, delta: RawUsage) -> RawUsage {
    RawUsage {
        input: plus(raw.input, delta.input),
        cached_input: plus(raw.cached_input, delta.cached_input),
        output: plus(raw.output, delta.output),
        reasoning_output: plus(raw.reasoning_output, delta.reasoning_output),
        total: plus(raw.total, billable(delta)),
    }
}

impl RawUsage {
    /// Convert raw usage into normalized totals.
    pub fn into_usage_totals(self) -> (usage: UsageTotals)
        requires
            total_fits(self),
        ensures
            usage == normalized(self),
    {
        UsageTotals {
            input: self.input,
            cached_input: if self.cached_input <= self.input {
                self.cached_input
            } else {
                self.input
            },
            output: self.output,
            reasoning_output: self.reasoning_output,
            total: if self.total > 0 {
                self.total
            } else {
                self.input + self.output
            },
        }
    }

    /// Return the billable total, deriving it when legacy payloads omit `total_tokens`.
    pub fn billable_total(self) -> (total: u64)
        ensures
            total == billable(self),
    {
        if self.total > 0 {
            self.total
        } else {
            self.input.saturating_add(self.output)
        }
    }

    /// Advance cumulative totals with one delta usage payload.
    pub fn advance(self, delta: RawUsage) -> (usage: RawUsage)
        ensures
            usage == advanced(self, delta),
    {
        RawUsage {
            input: self.input.saturating_add(delta.input),
            cached_input: self.cached_input.saturating_add(delta.cached_input),
            output: self.output.saturating_add(delta.output),
            reasoning_output: self.reasoning_output.saturating_add(delta.reasoning_output),
            total: self.total.saturating_add(delta.billable_total()),
        }
    }
}

/// The delta from earlier to later cumulative counters; a counter that went down gives zero.
pub open spec fn usage_delta(current: RawUsage, previous: Option<RawUsage>) -> RawUsage {
    let before = match previous {
        Some(raw) => raw,
        None => no_raw_usage(),
    };
    RawUsage {
        input: model::monus(current.input, before.input),
        cached_input: model::monus(current.cached_input, before.cached_input),
        output: model::monus(current.output, before.output),
        reasoning_output: model::monus(current.reasoning_output, before.reasoning_output),
        total: model::monus(current.total, before.total),
    }
}

/// Convert cumulative totals into a delta.
pub fn subtract_usage(current: RawUsage, previous: Option<RawUsage>) -> (delta: RawUsage)
    ensures
        delta == usage_delta(current, previous),
{
    let before = match previous {
        Some(raw) => raw,
        None => RawUsage::default(),
    };
    RawUsage {
        input: current.input.saturating_sub(before.input),
        cached_input: current.cached_input.saturating_sub(before.cached_input),
        output: current.output.saturating_sub(before.output),
        reasoning_output: current.reasoning_output.saturating_sub(before.reasoning_output),
        total: current.total.saturating_sub(before.total),
    }
}

/// Usage payload of a log entry.
#[derive(Clone, Copy, Debug, PartialEq, Eq, Structural)]
pub struct UsagePayload {
    /// Input tokens.
    pub input_tokens: u64,
    /// Cached input tokens.
    pub cached_input_tokens: Option<u64>,
    /// Legacy cached input token field.
    pub cache_read_input_tokens: Option<u64>,
    /// Output tokens.
    pub output_tokens: u64,
    /// Reasoning output tokens.
    pub reasoning_output_tokens: u64,
    /// Total tokens.
    pub total_tokens: u64,
}

/// The counters of a usage payload; the legacy cached field counts only where the primary one is
/// absent.
pub open spec fn raw_usage(payload: UsagePayload) -> RawUsage {
    RawUsage {
        input: payload.input_tokens,
        cached_input: match (payload.cached_input_tokens, payload.cache_read_input_tokens) {
            (Some(n), _) => n,
            (None, Some(n)) => n,
            (None, None) => 0,
        },
        output: payload.output_tokens,
        reasoning_output: payload.reasoning_output_tokens,
        total: payload.total_tokens,
    }
}

/// The counters of an optional usage payload.
pub open spec fn optional_raw(payload: Option<UsagePayload>) -> Option<RawUsage> {
    match payload {
        Some(usage) => Some(raw_usage(usage)),
        None => None,
    }
}

impl UsagePayload {
    /// Convert a usage payload into raw usage counters.
    pub fn into_raw_usage(self) -> (raw: RawUsage)
        ensures
            raw == raw_usage(self),
    {
        let cached_input: u64 = match self.cached_input_tokens {
            Some(n) => n,
            None => match self.cache_read_input_tokens {
                Some(n) => n,
                None => 0,
            },
        };
        RawUsage {
            input: self.input_tokens,
            cached_input,
            output: self.output_tokens,
            reasoning_output: self.reasoning_output_tokens,
            total: self.total_tokens,
        }
    }
}

fn into_optional_raw(payload: Option<UsagePayload>) -> (raw: Option<RawUsage>)
    ensures
        raw == optional_raw(payload),
{
    match payload {
        Some(usage) => Some(usage.into_raw_usage()),
        None => None,
    }
}

/// Nested metadata container.
#[derive(Clone, Debug)]
pub struct ModelMetadata {
    /// Model name from metadata.
    pub model: Option<String>,
}

/// Common model lookup fields reused across payload shapes.
#[derive(Clone, Debug)]
pub struct ModelFields {
    /// Primary model field.
    pub model: Option<String>,
    /// Alternate model field.
    pub model_name: Option<String>,
    /// Nested metadata lookup.
    pub metadata: Option<ModelMetadata>,
}

/// Nested info object inside token-count events.
#[derive(Clone, Debug)]
pub struct EntryInfo {
    /// Usage delta.
    pub last_token_usage: Option<UsagePayload>,
    /// Cumulative usage.
    pub total_token_usage: Option<UsagePayload>,
    /// Model lookup fields.
    pub model_fields: ModelFields,
}

/// Payload fields used by turn-context and token-count events.
#[derive(Clone, Debug)]
pub struct EntryPayload {
    /// Payload kind.
    pub payload_type: Option<String>,
    /// Nested event info object.
    pub info: Option<EntryInfo>,
    /// Inline usage delta.
    pub last_token_usage: Option<UsagePayload>,
    /// Inline cumulative usage.
    pub total_token_usage: Option<UsagePayload>,
    /// Model lookup fields.
    pub model_fields: ModelFields,
}

/// One parsed JSONL entry.
#[derive(Clone, Debug)]
pub struct SessionLogEntry {
    /// Entry kind.
    pub entry_type: Option<String>,
    /// Event timestamp.
    pub timestamp: Option<String>,
    /// Entry payload.
    pub payload: Option<EntryPayload>,
}

/// The view of an optional text field.
pub open spec fn field_text(field: Option<String>) -> Option<Seq<char>> {
    match field {
        Some(s) => Some(s@),
        None => None,
    }
}

/// The model that the metadata of a lookup container names.
pub open spec fn metadata_name(fields: ModelFields) -> Option<Seq<char>> {
    match fields.metadata {
        Some(metadata) => field_text(metadata.model),
        None => None,
    }
}

/// Extract the metadata model from one model lookup container.
pub fn metadata_model(fields: &ModelFields) -> (name: Option<&str>)
    ensures
        calendar::optional_str(name) == metadata_name(*fields),
{
    match &fields.metadata {
        Some(metadata) => match &metadata.model {
            Some(model) => Some(model.as_str()),
            None => None,
        },
        None => None,
    }
}

/// The model fields that a payload offers, in order of preference: explicit names before metadata,
/// and the nested info object before the payload itself.
pub open spec fn model_candidates(payload: EntryPayload) -> Seq<Option<Seq<char>>> {
    let own = payload.model_fields;
    match payload.info {
        Some(info) => seq![
            field_text(info.model_fields.model),
            field_text(info.model_fields.model_name),
            field_text(own.model),
            field_text(own.model_name),
            metadata_name(info.model_fields),
            metadata_name(own),
        ],
        None => seq![
            None,
            None,
            field_text(own.model),
            field_text(own.model_name),
            None,
            metadata_name(own),
        ],
    }
}

/// The first candidate that is not blank, trimmed.
pub open spec fn first_named(candidates: Seq<Option<Seq<char>>>) -> Option<Seq<char>>
    decreases candidates.len(),
{
    if candidates.len() == 0 {
        None
    } else {
        match candidates[0] {
            Some(name) if text::trimmed(name).len() > 0 => Some(text::trimmed(name)),
            _ => first_named(candidates.skip(1)),
        }
    }
}

/// The model that a payload names.
pub open spec fn payload_model(payload: EntryPayload) -> Option<Seq<char>> {
    first_named(model_candidates(payload))
}

/// The trimmed name, unless it is blank.
fn named(candidate: Option<&str>) -> (name: Option<String>)
    ensures
        calendar::optional_text(name) == match calendar::optional_str(candidate) {
            Some(s) if text::trimmed(s).len() > 0 => Some(text::trimmed(s)),
            _ => None,
        },
{
    match candidate {
        Some(s) => {
            let trimmed = trim_text(s);
            if trimmed.as_str().is_empty() {
                None
            } else {
                Some(trimmed)
            }
        },
        None => None,
    }
}

fn field_str(field: &Option<String>) -> (s: Option<&str>)
    ensures
        calendar::optional_str(s) == field_text(*field),
{
    match field {
        Some(s) => Some(s.as_str()),
        None => None,
    }
}

/// Extract a model name from a payload shape.
pub fn extract_payload_model(payload: &EntryPayload) -> (name: Option<String>)
    ensures
        calendar::optional_text(name) == payload_model(*payload),
{
    let ghost all = model_candidates(*payload);
    proof {
        reveal_with_fuel(first_named, 7);
        assert(all.skip(1).skip(1) == all.skip(2));
        assert(all.skip(2).skip(1) == all.skip(3));
        assert(all.skip(3).skip(1) == all.skip(4));
        assert(all.skip(4).skip(1) == all.skip(5));
        assert(all.skip(5).skip(1) == all.skip(6));
        assert(all.skip(6).len() == 0);
    }
    if let Some(info) = &payload.info {
        let name = named(field_str(&info.model_fields.model));
        if name.is_some() {
            return name;
        }
        let name = named(field_str(&info.model_fields.model_name));
        if name.is_some() {
            return name;
        }
    }
    let name = named(field_str(&payload.model_fields.model));
    if name.is_some() {
        return name;
    }
    let name = named(field_str(&payload.model_fields.model_name));
    if name.is_some() {
        return name;
    }
    if let Some(info) = &payload.info {
        let name = named(metadata_model(&info.model_fields));
        if name.is_some() {
            return name;
        }
    }
    named(metadata_model(&payload.model_fields))
}

/// Remember the last resolved model.
pub fn remember_model(current_model: &mut Option<String>, model: &str)
    ensures
        field_text(*final(current_model)) == Some(model@),
{
    *current_model = Some(String::from_str(model));
}

/// Usage field selectors reused across payload levels.
#[derive(Clone, Copy, Debug, PartialEq, Eq, Structural)]
pub enum UsageKind {
    /// Event delta usage.
    Last,
    /// Cumulative usage.
    Total,
}

/// The usage that a payload reports: that of the nested info object where there is one, else its
/// own.
pub open spec fn reported_usage(payload: EntryPayload, kind: UsageKind) -> Option<RawUsage> {
    match (payload.info, kind) {
        (Some(info), UsageKind::Last) => optional_raw(info.last_token_usage),
        (Some(info), UsageKind::Total) => optional_raw(info.total_token_usage),
        (None, UsageKind::Last) => optional_raw(payload.last_token_usage),
        (None, UsageKind::Total) => optional_raw(payload.total_token_usage),
    }
}

/// Extract one usage payload from the nested `info` object when present.
pub fn info_usage(payload: &EntryPayload, usage_kind: UsageKind) -> (raw: Option<RawUsage>)
    ensures
        raw == match payload.info {
            Some(_) => reported_usage(*payload, usage_kind),
            None => None,
        },
{
    match &payload.info {
        Some(info) => match usage_kind {
            UsageKind::Last => into_optional_raw(info.last_token_usage),
            UsageKind::Total => into_optional_raw(info.total_token_usage),
        },
        None => None,
    }
}

/// The counters that an event adds: its delta, else the change of the cumulative counters.
pub open spec fn counted_usage(payload: EntryPayload, previous: Option<RawUsage>) -> Option<
    RawUsage,
> {
    match (reported_usage(payload, UsageKind::Last), reported_usage(payload, UsageKind::Total)) {
        (Some(last), _) => Some(last),
        (None, Some(total)) => Some(usage_delta(total, previous)),
        (None, None) => None,
    }
}

/// The cumulative counters after an event: those it reports, else the earlier ones moved on by its
/// delta.
pub open spec fn totals_after(payload: EntryPayload, previous: Option<RawUsage>) -> Option<
    RawUsage,
> {
    match (reported_usage(payload, UsageKind::Total), reported_usage(payload, UsageKind::Last)) {
        (Some(total), _) => Some(total),
        (None, Some(last)) => Some(
            advanced(
                match previous {
                    Some(raw) => raw,
                    None => no_raw_usage(),
                },
                last,
            ),
        ),
        (None, None) => previous,
    }
}

/// The usage of an event, unless it moves no token counter.
pub open spec fn event_usage(payload: EntryPayload, previous: Option<RawUsage>) -> Option<
    UsageTotals,
> {
    match counted_usage(payload, previous) {
        Some(raw) => {
            let usage = normalized(raw);
            if usage.input == 0 && usage.cached_input == 0 && usage.output == 0
                && usage.reasoning_output == 0 {
                None
            } else {
                Some(usage)
            }
        },
        None => None,
    }
}

/// Whether the total of an event is given or can be derived.
pub open spec fn event_fits(payload: EntryPayload, previous: Option<RawUsage>) -> bool {
    counted_usage(payload, previous) matches Some(raw) ==> total_fits(raw)
}

/// Extract normalized usage from one token-count payload.
pub fn extract_event_usage(payload: &EntryPayload, previous_totals: &mut Option<RawUsage>) -> (usage:
    Option<UsageTotals>)
    requires
        event_fits(*payload, *old(previous_totals)),
    ensures
        usage == event_usage(*payload, *old(previous_totals)),
        *final(previous_totals) == totals_after(*payload, *old(previous_totals)),
{
    let (last_usage, total_usage) = if payload.info.is_some() {
        (info_usage(payload, UsageKind::Last), info_usage(payload, UsageKind::Total))
    } else {
        (into_optional_raw(payload.last_token_usage), into_optional_raw(payload.total_token_usage))
    };
    let raw_usage = match last_usage {
        Some(last) => Some(last),
        None => match total_usage {
            Some(total) => Some(subtract_usage(total, *previous_totals)),
            None => None,
        },
    };
    match total_usage {
        Some(total) => {
            *previous_totals = Some(total);
        },
        None => {
            if let Some(last) = last_usage {
                let before = match *previous_totals {
                    Some(raw) => raw,
                    None => RawUsage::default(),
                };
                *previous_totals = Some(before.advance(last));
            }
        },
    }
    match raw_usage {
        Some(raw) => {
            let usage = raw.into_usage_totals();
            if usage.input == 0 && usage.cached_input == 0 && usage.output == 0
                && usage.reasoning_output == 0 {
                None
            } else {
                Some(usage)
            }
        },
        None => None,
    }
}

/// What a parser carries from line to line.
pub struct ParserState {
    /// Cumulative usage of the last event.
    pub totals: Option<RawUsage>,
    /// Last resolved model.
    pub model: Option<Seq<char>>,
    /// Whether that model came from fallback inference.
    pub fallback: bool,
}

/// The model that an event counts for, and whether it is a fallback: the one it names, else the
/// last one resolved, else the default.
pub open spec fn event_model(payload: EntryPayload, state: ParserState) -> (Seq<char>, bool) {
    match (payload_model(payload), state.model) {
        (Some(name), _) => (name, false),
        (None, Some(name)) => (name, state.fallback),
        (None, None) => (DEFAULT_FALLBACK_MODEL@, true),
    }
}

/// Resolve the model for one token-count payload and keep parser state in sync.
pub fn resolve_event_model(
    payload: &EntryPayload,
    current_model: &mut Option<String>,
    current_model_is_fallback: &mut bool,
) -> (r: (String, bool))
    ensures
        ({
            let state = ParserState {
                totals: None,
                model: field_text(*old(current_model)),
                fallback: *old(current_model_is_fallback),
            };
            &&& (r.0@, r.1) == event_model(*payload, state)
            &&& field_text(*final(current_model)) == Some(r.0@)
            &&& *final(current_model_is_fallback) == r.1
        }),
{
    if let Some(model) = extract_payload_model(payload) {
        remember_model(current_model, model.as_str());
        *current_model_is_fallback = false;
        return (model, false);
    }
    match current_model {
        Some(model) => (model.clone(), *current_model_is_fallback),
        None => {
            remember_model(current_model, DEFAULT_FALLBACK_MODEL);
            *current_model_is_fallback = true;
            (String::from_str(DEFAULT_FALLBACK_MODEL), true)
        },
    }
}

/// Event ready for aggregation.
#[derive(Clone, Debug)]
pub struct TokenUsageEvent {
    /// Unique session key including source-root identity.
    pub session_key: String,
    /// Session identifier.
    pub session_id: String,
    /// Instant of the event.
    pub timestamp_utc: Timestamp,
    /// Model name.
    pub model: String,
    /// Whether model fallback was used.
    pub is_fallback_model: bool,
    /// Token totals.
    pub usage: UsageTotals,
}

/// The contents of an event.
pub struct EventFacts {
    /// Unique session key.
    pub session_key: Seq<char>,
    /// Session identifier.
    pub session_id: Seq<char>,
    /// Instant of the event.
    pub timestamp: Timestamp,
    /// Model name.
    pub model: Seq<char>,
    /// Whether model fallback was used.
    pub fallback: bool,
    /// Token totals.
    pub usage: UsageTotals,
}

impl View for TokenUsageEvent {
    type V = EventFacts;

    open spec fn view(&self) -> EventFacts {
        EventFacts {
            session_key: self.session_key@,
            session_id: self.session_id@,
            timestamp: self.timestamp_utc,
            model: self.model@,
            fallback: self.is_fallback_model,
            usage: self.usage,
        }
    }
}

/// The view of an optional event.
pub open spec fn optional_event(event: Option<TokenUsageEvent>) -> Option<EventFacts> {
    match event {
        Some(e) => Some(e@),
        None => None,
    }
}

/// The payload of a token-count event that carries a timestamp.
pub open spec fn token_count(entry: SessionLogEntry) -> Option<(EntryPayload, Seq<char>)> {
    if field_text(entry.entry_type) == Some("event_msg"@) {
        match (entry.payload, entry.timestamp) {
            (Some(payload), Some(timestamp)) => if field_text(payload.payload_type) == Some(
                "token_count"@,
            ) {
                Some((payload, timestamp@))
            } else {
                None
            },
            _ => None,
        }
    } else {
        None
    }
}

/// Whether the total of the event of a line, if any, is given or can be derived.
pub open spec fn line_fits(entry: Option<SessionLogEntry>, totals: Option<RawUsage>) -> bool {
    match entry {
        Some(e) => match token_count(e) {
            Some((payload, _)) => event_fits(payload, totals),
            None => true,
        },
        None => true,
    }
}

/// The parser state after a line. A turn context sets the model; a token-count event moves the
/// cumulative counters and, where it counts any usage, settles the model.
pub open spec fn state_after(entry: Option<SessionLogEntry>, state: ParserState) -> ParserState {
    match entry {
        Some(e) => if field_text(e.entry_type) == Some("turn_context"@) {
            match e.payload {
                Some(payload) => match payload_model(payload) {
                    Some(name) => ParserState {
                        totals: state.totals,
                        model: Some(name),
                        fallback: false,
                    },
                    None => state,
                },
                None => state,
            }
        } else {
            match token_count(e) {
                Some((payload, _)) => {
                    let totals = totals_after(payload, state.totals);
                    match event_usage(payload, state.totals) {
                        Some(_) => ParserState {
                            totals,
                            model: Some(event_model(payload, state).0),
                            fallback: event_model(payload, state).1,
                        },
                        None => ParserState { totals, model: state.model, fallback: state.fallback },
                    }
                },
                None => state,
            }
        },
        None => state,
    }
}

/// The event that a line gives, or the reason why it is malformed: only the timestamp of an event
/// that counts usage can be.
pub open spec fn line_event(
    entry: Option<SessionLogEntry>,
    session_key: Seq<char>,
    session_id: Seq<char>,
    state: ParserState,
) -> Result<Option<EventFacts>, Seq<char>> {
    match entry {
        Some(e) => if field_text(e.entry_type) == Some("turn_context"@) {
            Ok(None)
        } else {
            match token_count(e) {
                Some((payload, timestamp)) => match event_usage(payload, state.totals) {
                    Some(usage) => match calendar::rfc3339_instant(timestamp) {
                        Some((seconds, nanos)) => Ok(
                            Some(
                                EventFacts {
                                    session_key,
                                    session_id,
                                    timestamp: Timestamp { seconds, nanos },
                                    model: event_model(payload, state).0,
                                    fallback: event_model(payload, state).1,
                                    usage,
                                },
                            ),
                        ),
                        None => Err("invalid timestamp "@ + timestamp),
                    },
                    None => Ok(None),
                },
                None => Ok(None),
            }
        },
        None => Ok(None),
    }
}

fn field_is(field: &Option<String>, name: &str) -> (r: bool)
    ensures
        r == (field_text(*field) == Some(name@)),
{
    match field {
        Some(s) => text_eq(s.as_str(), name),
        None => false,
    }
}

/// Read one log line as a token-usage event when applicable. `entry` is what the line holds as
/// JSON, and absent where the line is not a valid entry.
pub fn parse_token_usage_line(
    entry: &Option<SessionLogEntry>,
    session_key: &str,
    session_id: &str,
    previous_totals: &mut Option<RawUsage>,
    current_model: &mut Option<String>,
    current_model_is_fallback: &mut bool,
) -> (r: Result<Option<TokenUsageEvent>, String>)
    requires
        line_fits(*entry, *old(previous_totals)),
    ensures
        ({
            let before = ParserState {
                totals: *old(previous_totals),
                model: field_text(*old(current_model)),
                fallback: *old(current_model_is_fallback),
            };
            let after = ParserState {
                totals: *final(previous_totals),
                model: field_text(*final(current_model)),
                fallback: *final(current_model_is_fallback),
            };
            &&& after == state_after(*entry, before)
            &&& match r {
                Ok(event) => line_event(*entry, session_key@, session_id@, before) == Ok::<
                    Option<EventFacts>,
                    Seq<char>,
                >(optional_event(event)),
                Err(message) => line_event(*entry, session_key@, session_id@, before) == Err::<
                    Option<EventFacts>,
                    Seq<char>,
                >(message@),
            }
            &&& r matches Ok(Some(event)) ==> event.timestamp_utc.valid()
        }),
{
    proof {
        reveal_strlit("turn_context");
        reveal_strlit("event_msg");
        assert("turn_context"@.len() != "event_msg"@.len());
    }
    let found = match entry {
        Some(found) => found,
        None => return Ok(None),
    };
    if field_is(&found.entry_type, "turn_context") {
        if let Some(payload) = &found.payload {
            if let Some(model) = extract_payload_model(payload) {
                remember_model(current_model, model.as_str());
                *current_model_is_fallback = false;
            }
        }
        return Ok(None);
    }
    if !field_is(&found.entry_type, "event_msg") {
        return Ok(None);
    }
    let payload = match &found.payload {
        Some(payload) => payload,
        None => return Ok(None),
    };
    if !field_is(&payload.payload_type, "token_count") {
        return Ok(None);
    }
    let timestamp = match &found.timestamp {
        Some(timestamp) => timestamp,
        None => return Ok(None),
    };
    let usage = match extract_event_usage(payload, previous_totals) {
        Some(usage) => usage,
        None => return Ok(None),
    };
    let (model, is_fallback_model) = resolve_event_model(
        payload,
        current_model,
        current_model_is_fallback,
    );
    match parse_timestamp(timestamp.as_str()) {
        Some(timestamp_utc) => Ok(
            Some(
                TokenUsageEvent {
                    session_key: String::from_str(session_key),
                    session_id: String::from_str(session_id),
                    timestamp_utc,
                    model,
                    is_fallback_model,
                    usage,
                },
            ),
        ),
        None => {
            let mut message = String::from_str("invalid timestamp ");
            message.append(timestamp.as_str());
            Err(message)
        },
    }
}

/// Whether a log line might affect usage: it holds one of the two marks, or an escape that could
/// hide one.
pub open spec fn might_affect_usage(line: Seq<char>) -> bool {
    ||| text::contains_text(line, "\\u"@)
    ||| text::contains_text(line, "turn_context"@)
    ||| text::contains_text(line, "token_count"@)
}

/// Return whether one JSONL line might affect usage aggregation.
pub fn line_might_affect_usage(line: &str) -> (r: bool)
    ensures
        r == might_affect_usage(line@),
{
    text_contains(line, "\\u") || text_contains(line, "turn_context") || text_contains(
        line,
        "token_count",
    )
}

/// Incremental parser checkpoint reused when a watch file grows by appending new lines.
#[derive(Clone, Debug)]
pub struct SessionParseCheckpoint {
    /// Byte offset of the next unread position in the file.
    pub offset: u64,
    /// Previous cumulative usage totals needed to normalize future events.
    pub previous_totals: Option<RawUsage>,
    /// Last resolved model name.
    pub current_model: Option<String>,
    /// Whether the remembered model came from fallback inference.
    pub current_model_is_fallback: bool,
}

/// The contents of a checkpoint.
pub struct CheckpointFacts {
    /// Byte offset of the next unread position.
    pub offset: u64,
    /// Parser state at that position.
    pub state: ParserState,
}

impl View for SessionParseCheckpoint {
    type V = CheckpointFacts;

    open spec fn view(&self) -> CheckpointFacts {
        CheckpointFacts {
            offset: self.offset,
            state: ParserState {
                totals: self.previous_totals,
                model: field_text(self.current_model),
                fallback: self.current_model_is_fallback,
            },
        }
    }
}

/// The checkpoint at the start of a file.
pub open spec fn file_start() -> CheckpointFacts {
    CheckpointFacts {
        offset: 0,
        state: ParserState { totals: None, model: None, fallback: false },
    }
}

impl Default for SessionParseCheckpoint {
    fn default() -> (checkpoint: SessionParseCheckpoint)
        ensures
            checkpoint@ == file_start(),
    {
        SessionParseCheckpoint {
            offset: 0,
            previous_totals: None,
            current_model: None,
            current_model_is_fallback: false,
        }
    }
}

/// One line read from a session file.
#[derive(Clone, Debug)]
pub struct SessionLine {
    /// The text of the line with its terminator, if it has one.
    pub text: String,
    /// How many bytes the line takes up in the file.
    pub bytes_read: usize,
    /// The JSON entry that the trimmed text holds, absent where it is not a valid entry. It can be
    /// left out of a line that needs none.
    pub entry: Option<SessionLogEntry>,
}

impl SessionLine {
    /// Whether the line is blank.
    pub open spec fn blank(self) -> bool {
        text::trimmed(self.text@).len() == 0
    }

    /// Whether the line ends with a newline.
    pub open spec fn terminated(self) -> bool {
        self.text@.len() > 0 && self.text@.last() == '\n'
    }

    /// Whether the line may still be in the course of being written.
    pub open spec fn partial(self) -> bool {
        !self.blank() && !self.terminated() && self.entry is None
    }

    /// Whether the line is read as an entry.
    pub open spec fn relevant(self) -> bool {
        !self.blank() && might_affect_usage(text::trimmed(self.text@))
    }
}

/// Whether the entry of a line has to be known before the line is scanned.
pub fn line_needs_entry(text: &str) -> (r: bool)
    ensures
        r == (text::trimmed(text@).len() > 0 && (!(text@.len() > 0 && text@.last() == '\n')
            || might_affect_usage(text::trimmed(text@)))),
{
    let trimmed = trim_text(text);
    !trimmed.as_str().is_empty() && (!ends_with_newline(text) || line_might_affect_usage(
        trimmed.as_str(),
    ))
}

fn ends_with_newline(text: &str) -> (r: bool)
    ensures
        r == (text@.len() > 0 && text@.last() == '\n'),
{
    let chars = chars_of(text);
    chars.len() > 0 && chars[chars.len() - 1] == '\n'
}

/// The checkpoint behind a line that is not partial.
pub open spec fn checkpoint_after(line: SessionLine, at: CheckpointFacts) -> CheckpointFacts {
    CheckpointFacts {
        offset: plus(at.offset, line.bytes_read as u64),
        state: if line.relevant() {
            state_after(line.entry, at.state)
        } else {
            at.state
        },
    }
}

/// The event of a line that is not partial.
pub open spec fn scanned_event(
    line: SessionLine,
    session_id: Seq<char>,
    at: CheckpointFacts,
) -> Result<Option<EventFacts>, Seq<char>> {
    if line.relevant() {
        line_event(line.entry, session_id, session_id, at.state)
    } else {
        Ok(None)
    }
}

/// Whether the totals of the events on the lines, up to the first malformed one, are given or can
/// be derived.
pub open spec fn lines_fit(lines: Seq<SessionLine>, at: CheckpointFacts) -> bool
    decreases lines.len(),
{
    if lines.len() == 0 || lines[0].partial() {
        true
    } else {
        &&& lines[0].relevant() ==> line_fits(lines[0].entry, at.state.totals)
        &&& scanned_event(lines[0], Seq::empty(), at) is Ok ==> lines_fit(
            lines.skip(1),
            checkpoint_after(lines[0], at),
        )
    }
}

/// The checkpoint behind the lines and the events on them, or the first reason why an event is
/// malformed. A partial line ends the scan and is left for the next one.
pub open spec fn scan(lines: Seq<SessionLine>, session_id: Seq<char>, at: CheckpointFacts) -> Result<
    (CheckpointFacts, Seq<EventFacts>),
    Seq<char>,
>
    decreases lines.len(),
{
    if lines.len() == 0 || lines[0].partial() {
        Ok((at, Seq::empty()))
    } else {
        match scanned_event(lines[0], session_id, at) {
            Err(message) => Err(message),
            Ok(event) => match scan(lines.skip(1), session_id, checkpoint_after(lines[0], at)) {
                Err(message) => Err(message),
                Ok((end, events)) => Ok(
                    (
                        end,
                        match event {
                            Some(e) => seq![e] + events,
                            None => events,
                        },
                    ),
                ),
            },
        }
    }
}

/// The views of a sequence of events.
pub open spec fn event_facts(events: Seq<TokenUsageEvent>) -> Seq<EventFacts> {
    events.map_values(|e: TokenUsageEvent| e@)
}

/// What scanning one line leads to.
#[derive(Clone, Debug)]
pub enum LineOutcome {
    /// The line is behind the checkpoint; it gave this event, if any.
    Consumed(Option<TokenUsageEvent>),
    /// The line is partial; the scan ends in front of it.
    Partial,
    /// The line holds a malformed event.
    Malformed(String),
}

/// Scan one line and move the checkpoint behind it, unless it is partial.
pub fn scan_session_line(
    line: &SessionLine,
    session_id: &str,
    checkpoint: &mut SessionParseCheckpoint,
) -> (outcome: LineOutcome)
    requires
        line.relevant() && !line.partial() ==> line_fits(
            line.entry,
            old(checkpoint).previous_totals,
        ),
    ensures
        match outcome {
            LineOutcome::Partial => line.partial() && final(checkpoint)@ == old(checkpoint)@,
            LineOutcome::Consumed(event) => !line.partial() && scanned_event(
                *line,
                session_id@,
                old(checkpoint)@,
            ) == Ok::<Option<EventFacts>, Seq<char>>(optional_event(event)) && final(checkpoint)@
                == checkpoint_after(*line, old(checkpoint)@) && (event matches Some(e)
                ==> e.timestamp_utc.valid()),
            LineOutcome::Malformed(message) => !line.partial() && scanned_event(
                *line,
                session_id@,
                old(checkpoint)@,
            ) == Err::<Option<EventFacts>, Seq<char>>(message@),
        },
{
    let trimmed = trim_text(line.text.as_str());
    let blank = trimmed.as_str().is_empty();
    if !blank && !ends_with_newline(line.text.as_str()) && line.entry.is_none() {
        return LineOutcome::Partial;
    }
    let next_offset: u64 = checkpoint.offset.saturating_add(line.bytes_read as u64);
    if blank || !line_might_affect_usage(trimmed.as_str()) {
        checkpoint.offset = next_offset;
        return LineOutcome::Consumed(None);
    }
    let parsed = parse_token_usage_line(
        &line.entry,
        session_id,
        session_id,
        &mut checkpoint.previous_totals,
        &mut checkpoint.current_model,
        &mut checkpoint.current_model_is_fallback,
    );
    match parsed {
        Ok(event) => {
            checkpoint.offset = next_offset;
            LineOutcome::Consumed(event)
        },
        Err(message) => LineOutcome::Malformed(message),
    }
}

/// Return whether the total of the event of a line, if any, is given or can be derived.
pub fn line_has_room(entry: &Option<SessionLogEntry>, totals: &Option<RawUsage>) -> (r: bool)
    ensures
        r == line_fits(*entry, *totals),
{
    let found = match entry {
        Some(found) => found,
        None => return true,
    };
    if !field_is(&found.entry_type, "event_msg") || found.timestamp.is_none() {
        return true;
    }
    let payload = match &found.payload {
        Some(payload) => payload,
        None => return true,
    };
    if !field_is(&payload.payload_type, "token_count") {
        return true;
    }
    let (last_usage, total_usage) = if payload.info.is_some() {
        (info_usage(payload, UsageKind::Last), info_usage(payload, UsageKind::Total))
    } else {
        (into_optional_raw(payload.last_token_usage), into_optional_raw(payload.total_token_usage))
    };
    let counted = match last_usage {
        Some(last) => last,
        None => match total_usage {
            Some(total) => subtract_usage(total, *totals),
            None => return true,
        },
    };
    counted.total > 0 || counted.input <= u64::MAX - counted.output
}

/// Return whether the totals of the events on the lines are given or can be derived.
pub fn lines_have_room(lines: &Vec<SessionLine>, checkpoint: &SessionParseCheckpoint) -> (r: bool)
    ensures
        r == lines_fit(lines@, checkpoint@),
{
    let mut current = copy_checkpoint(checkpoint);
    let mut i: usize = 0;
    assert(lines@.skip(0) == lines@);
    while i < lines.len()
        invariant
            i <= lines.len(),
            lines_fit(lines@, checkpoint@) == lines_fit(lines@.skip(i as int), current@),
        decreases lines.len() - i,
    {
        let ghost rest = lines@.skip(i as int);
        assert(rest[0] == lines[i as int]);
        assert(rest.skip(1) == lines@.skip(i + 1));
        let trimmed = trim_text(lines[i].text.as_str());
        if !trimmed.as_str().is_empty() && line_might_affect_usage(trimmed.as_str())
            && !line_has_room(&lines[i].entry, &current.previous_totals) {
            return false;
        }
        match scan_session_line(&lines[i], "", &mut current) {
            LineOutcome::Consumed(_event) => {},
            _ => return true,
        }
        i += 1;
    }
    true
}

fn copy_checkpoint(checkpoint: &SessionParseCheckpoint) -> (copy: SessionParseCheckpoint)
    ensures
        copy@ == checkpoint@,
{
    SessionParseCheckpoint {
        offset: checkpoint.offset,
        previous_totals: checkpoint.previous_totals,
        current_model: match &checkpoint.current_model {
            Some(model) => Some(model.clone()),
            None => None,
        },
        current_model_is_fallback: checkpoint.current_model_is_fallback,
    }
}

/// Scan the lines of a session file from a stored parser checkpoint.
pub fn scan_session_file_from_checkpoint(
    lines: &Vec<SessionLine>,
    session_id: &str,
    checkpoint: &SessionParseCheckpoint,
) -> (r: Result<(SessionParseCheckpoint, Vec<TokenUsageEvent>), String>)
    requires
        lines_fit(lines@, checkpoint@),
    ensures
        match r {
            Ok((end, events)) => scan(lines@, session_id@, checkpoint@) == Ok::<
                (CheckpointFacts, Seq<EventFacts>),
                Seq<char>,
            >((end@, event_facts(events@))) && (forall|i: int|
                0 <= i < events.len() ==> (#[trigger] events[i]).timestamp_utc.valid()),
            Err(message) => scan(lines@, session_id@, checkpoint@) == Err::<
                (CheckpointFacts, Seq<EventFacts>),
                Seq<char>,
            >(message@),
        },
{
    let mut current = copy_checkpoint(checkpoint);
    let mut events: Vec<TokenUsageEvent> = Vec::new();
    let mut i: usize = 0;
    let ghost whole = scan(lines@, session_id@, checkpoint@);
    assert(lines@.skip(0) == lines@);
    assert(event_facts(events@) == Seq::<EventFacts>::empty());
    proof {
        lemma_with_events(whole, Seq::empty());
    }
    while i < lines.len()
        invariant
            i <= lines.len(),
            whole == scan(lines@, session_id@, checkpoint@),
            lines_fit(lines@.skip(i as int), current@),
            whole == with_events(
                event_facts(events@),
                scan(lines@.skip(i as int), session_id@, current@),
            ),
            forall|k: int|
                0 <= k < events.len() ==> (#[trigger] events[k]).timestamp_utc.valid(),
        decreases lines.len() - i,
    {
        let ghost rest = lines@.skip(i as int);
        let ghost at = current@;
        let ghost facts = event_facts(events@);
        assert(rest[0] == lines[i as int]);
        assert(rest.skip(1) == lines@.skip(i + 1));
        match scan_session_line(&lines[i], session_id, &mut current) {
            LineOutcome::Partial => {
                assert(facts + Seq::<EventFacts>::empty() == facts);
                return Ok((current, events));
            },
            LineOutcome::Malformed(message) => {
                return Err(message);
            },
            LineOutcome::Consumed(event) => {
                let ghost given = optional_event(event);
                let ghost next = scan(rest.skip(1), session_id@, current@);
                if let Some(e) = event {
                    events.push(e);
                    assert(event_facts(events@) == facts.push(e@));
                    proof {
                        if let Ok((end, tail)) = next {
                            assert(facts + (seq![e@] + tail) == facts.push(e@) + tail);
                        }
                    }
                }
                assert(whole == with_events(event_facts(events@), next));
                i += 1;
            },
        }
    }
    assert(event_facts(events@) + Seq::<EventFacts>::empty() == event_facts(events@));
    Ok((current, events))
}

/// The outcome of a scan with earlier events put in front.
pub open spec fn with_events(
    events: Seq<EventFacts>,
    rest: Result<(CheckpointFacts, Seq<EventFacts>), Seq<char>>,
) -> Result<(CheckpointFacts, Seq<EventFacts>), Seq<char>> {
    match rest {
        Ok((end, later)) => Ok((end, events + later)),
        Err(message) => Err(message),
    }
}

proof fn lemma_with_events(
    outcome: Result<(CheckpointFacts, Seq<EventFacts>), Seq<char>>,
    none: Seq<EventFacts>,
)
    requires
        none.len() == 0,
    ensures
        with_events(none, outcome) == outcome,
{
    if let Ok((end, events)) = outcome {
        assert(none + events == events);
    }
}

/// Whether none of the lines is partial.
pub open spec fn complete(lines: Seq<SessionLine>) -> bool {
    forall|i: int| 0 <= i < lines.len() ==> !(#[trigger] lines[i]).partial()
}

/// Scanning a grown file from the checkpoint of an earlier scan gives what a scan of the whole
/// file gives: the events of the earlier scan followed by the new ones, and the same checkpoint.
pub proof fn law_resumed_scan_is_full_scan(
    lines: Seq<SessionLine>,
    appended: Seq<SessionLine>,
    session_id: Seq<char>,
    at: CheckpointFacts,
)
    requires
        complete(lines),
    ensures
        scan(lines + appended, session_id, at) == match scan(lines, session_id, at) {
            Ok((middle, events)) => with_events(events, scan(appended, session_id, middle)),
            Err(message) => Err(message),
        },
    decreases lines.len(),
{
    if lines.len() == 0 {
        assert(lines + appended == appended);
        lemma_with_events(scan(appended, session_id, at), Seq::empty());
    } else {
        let all = lines + appended;
        assert(!lines[0].partial());
        assert(all[0] == lines[0]);
        assert(all.skip(1) == lines.skip(1) + appended);
        assert forall|i: int| 0 <= i < lines.skip(1).len() implies !(#[trigger] lines.skip(
            1,
        )[i]).partial() by {
            assert(lines.skip(1)[i] == lines[i + 1]);
        }
        let next = checkpoint_after(lines[0], at);
        law_resumed_scan_is_full_scan(lines.skip(1), appended, session_id, next);
        if let Ok(Some(e)) = scanned_event(lines[0], session_id, at) {
            if let Ok((middle, events)) = scan(lines.skip(1), session_id, next) {
                if let Ok((end, later)) = scan(appended, session_id, middle) {
                    assert(seq![e] + (events + later) == (seq![e] + events) + later);
                }
            }
        }
    }
}

/// A record that is still being written changes nothing: the scan ends in front of it, so that the
/// next scan reads it once it is complete.
pub proof fn law_partial_record_is_left_unread(
    lines: Seq<SessionLine>,
    record: SessionLine,
    session_id: Seq<char>,
    at: CheckpointFacts,
)
    requires
        complete(lines),
        record.partial(),
    ensures
        scan(lines.push(record), session_id, at) == scan(lines, session_id, at),
{
    law_resumed_scan_is_full_scan(lines, seq![record], session_id, at);
    assert(lines + seq![record] == lines.push(record));
    if let Ok((middle, events)) = scan(lines, session_id, at) {
        assert(scan(seq![record], session_id, middle) == Ok::<
            (CheckpointFacts, Seq<EventFacts>),
            Seq<char>,
        >((middle, Seq::empty())));
        assert(events + Seq::<EventFacts>::empty() == events);
    }
}

/// A scan never moves its offset back.
pub proof fn law_scan_moves_forward(
    lines: Seq<SessionLine>,
    session_id: Seq<char>,
    at: CheckpointFacts,
)
    ensures
        scan(lines, session_id, at) matches Ok((end, _)) ==> end.offset >= at.offset,
    decreases lines.len(),
{
    if lines.len() > 0 && !lines[0].partial() {
        law_scan_moves_forward(lines.skip(1), session_id, checkpoint_after(lines[0], at));
    }
}

/// Deltas add up to the cumulative counters: an event that reports only its delta moves the
/// cumulative counters by it, so that the next cumulative report counts just the rest.
pub proof fn law_delta_then_cumulative(before: RawUsage, delta: RawUsage, total: RawUsage)
    requires
        before.input + delta.input <= total.input,
        before.output + delta.output <= total.output,
        before.total + billable(delta) <= total.total,
    ensures
        ({
            let moved = advanced(before, delta);
            let rest = usage_delta(total, Some(moved));
            &&& before.input + delta.input + rest.input == total.input
            &&& before.output + delta.output + rest.output == total.output
            &&& before.total + billable(delta) + rest.total == total.total
        }),
{
}

/// Whether a payload reports cumulative counters only.
pub open spec fn only_cumulative(payload: EntryPayload) -> bool {
    reported_usage(payload, UsageKind::Last) is None && reported_usage(
        payload,
        UsageKind::Total,
    ) is Some
}

/// The cumulative counters that a payload reports.
pub open spec fn cumulative_report(payload: EntryPayload) -> RawUsage {
    reported_usage(payload, UsageKind::Total)->Some_0
}

/// Whether no counter exceeds that of `later`.
pub open spec fn counters_within(earlier: RawUsage, later: RawUsage) -> bool {
    &&& earlier.input <= later.input
    &&& earlier.cached_input <= later.cached_input
    &&& earlier.output <= later.output
    &&& earlier.reasoning_output <= later.reasoning_output
    &&& earlier.total <= later.total
}

/// Whether the payloads report cumulative counters only, which never fall.
pub open spec fn never_falling(payloads: Seq<EntryPayload>) -> bool {
    &&& forall|i: int| 0 <= i < payloads.len() ==> only_cumulative(#[trigger] payloads[i])
    &&& forall|i: int, j: int|
        0 <= i < j < payloads.len() ==> counters_within(
            cumulative_report(#[trigger] payloads[i]),
            cumulative_report(#[trigger] payloads[j]),
        )
}

/// The cumulative counters after events in a row.
pub open spec fn totals_after_all(
    payloads: Seq<EntryPayload>,
    previous: Option<RawUsage>,
) -> Option<RawUsage>
    decreases payloads.len(),
{
    if payloads.len() == 0 {
        previous
    } else {
        totals_after(payloads.last(), totals_after_all(payloads.drop_last(), previous))
    }
}

/// The usage of events in a row, added up.
pub open spec fn usage_of_all(
    payloads: Seq<EntryPayload>,
    previous: Option<RawUsage>,
) -> summary::Counts
    decreases payloads.len(),
{
    if payloads.len() == 0 {
        summary::zero()
    } else {
        let rest = payloads.drop_last();
        usage_of_all(rest, previous).plus(
            match event_usage(payloads.last(), totals_after_all(rest, previous)) {
                Some(usage) => summary::counts(usage),
                None => summary::zero(),
            },
        )
    }
}

/// Cumulative reports that never fall count every token once: from the start of a log, the counted
/// input, output and reasoning tokens add up to the counters of the last report, which are also the
/// ones that are remembered.
pub proof fn law_cumulative_reports_count_once(payloads: Seq<EntryPayload>)
    requires
        payloads.len() > 0,
        never_falling(payloads),
    ensures
        ({
            let last = cumulative_report(payloads.last());
            let counted = usage_of_all(payloads, None);
            &&& totals_after_all(payloads, None) == Some(last)
            &&& counted.input == last.input
            &&& counted.output == last.output
            &&& counted.reasoning_output == last.reasoning_output
        }),
    decreases payloads.len(),
{
    let rest = payloads.drop_last();
    assert(only_cumulative(payloads[payloads.len() - 1]));
    if rest.len() > 0 {
        assert forall|i: int| 0 <= i < rest.len() implies only_cumulative(#[trigger] rest[i]) by {
            assert(rest[i] == payloads[i]);
        }
        assert forall|i: int, j: int| 0 <= i < j < rest.len() implies counters_within(
            cumulative_report(#[trigger] rest[i]),
            cumulative_report(#[trigger] rest[j]),
        ) by {
            assert(rest[i] == payloads[i] && rest[j] == payloads[j]);
        }
        law_cumulative_reports_count_once(rest);
        assert(rest.last() == payloads[payloads.len() - 2]);
        assert(counters_within(
            cumulative_report(payloads[payloads.len() - 2]),
            cumulative_report(payloads[payloads.len() - 1]),
        ));
    } else {
        assert(usage_of_all(rest, None) == summary::zero());
        assert(totals_after_all(rest, None) == None::<RawUsage>);
    }
}

/// A cumulative report that repeats the one before counts nothing and leaves what is remembered.
pub proof fn law_repeated_report_counts_nothing(payload: EntryPayload)
    requires
        only_cumulative(payload),
    ensures
        ({
            let report = Some(cumulative_report(payload));
            &&& event_usage(payload, report) is None
            &&& totals_after(payload, report) == report
        }),
{
}

/// A line whose text holds none of the marks, escaped or not, gives no event and leaves the parser
/// state alone.
pub proof fn law_unmarked_line_is_skipped(
    line: SessionLine,
    session_id: Seq<char>,
    at: CheckpointFacts,
)
    requires
        !might_affect_usage(text::trimmed(line.text@)),
    ensures
        scanned_event(line, session_id, at) == Ok::<Option<EventFacts>, Seq<char>>(None),
        checkpoint_after(line, at).state == at.state,
{
}

/// Whether an entry is a turn context.
pub open spec fn is_turn_context(entry: SessionLogEntry) -> bool {
    field_text(entry.entry_type) == Some("turn_context"@)
}

/// Whether an entry is a token-count event.
pub open spec fn is_token_count(entry: SessionLogEntry) -> bool {
    field_text(entry.entry_type) == Some("event_msg"@) && (entry.payload matches Some(payload)
        && field_text(payload.payload_type) == Some("token_count"@))
}

/// An entry that is neither a turn context nor a token-count event gives no event and no error, and
/// leaves the parser state alone.
pub proof fn law_other_entry_is_ignored(
    entry: SessionLogEntry,
    session_key: Seq<char>,
    session_id: Seq<char>,
    state: ParserState,
)
    requires
        !is_turn_context(entry),
        !is_token_count(entry),
    ensures
        line_event(Some(entry), session_key, session_id, state) == Ok::<
            Option<EventFacts>,
            Seq<char>,
        >(None),
        state_after(Some(entry), state) == state,
{
}

/// Whether a text spells the type of its entry, as JSON does unless it writes characters by their
/// code.
pub open spec fn spells_type(line: Seq<char>, entry: SessionLogEntry) -> bool {
    text::contains_text(line, "\\u"@) || {
        &&& is_turn_context(entry) ==> text::contains_text(line, "turn_context"@)
        &&& is_token_count(entry) ==> text::contains_text(line, "token_count"@)
    }
}

/// No line that counts is passed over: where a text spells the type of its entry, or writes
/// characters by their code, and the entry gives an event or an error or changes the parser state,
/// the text holds a mark.
pub proof fn law_counting_line_holds_a_mark(
    line: Seq<char>,
    entry: SessionLogEntry,
    session_key: Seq<char>,
    session_id: Seq<char>,
    state: ParserState,
)
    requires
        spells_type(line, entry),
        line_event(Some(entry), session_key, session_id, state) != Ok::<
            Option<EventFacts>,
            Seq<char>,
        >(None) || state_after(Some(entry), state) != state,
    ensures
        might_affect_usage(line),
{
    if !is_turn_context(entry) && !is_token_count(entry) {
        law_other_entry_is_ignored(entry, session_key, session_id, state);
    }
}

} // verus!
