//! What reading a session log guarantees, in terms of what the log reports.

use vstd::prelude::*;

use crate::calendar;
use crate::model::DEFAULT_FALLBACK_MODEL;
use crate::session_log;
use crate::session_log::{
    EntryPayload, EventFacts, ParserState, RawUsage, SessionLine, SessionLogEntry, UsageKind,
    UsagePayload,
};
use crate::summary;
use crate::text;

verus! {

/// The change between two cumulative reports leads from the one to the other: a counter that did not
/// fall moves by exactly its change, and one that fell counts nothing.
pub proof fn law_change_leads_from_report_to_report(a: RawUsage, b: RawUsage)
    ensures
        ({
            let change = session_log::usage_delta(b, Some(a));
            &&& a.input <= b.input ==> a.input + change.input == b.input
            &&& a.input > b.input ==> change.input == 0
            &&& a.cached_input <= b.cached_input ==> a.cached_input + change.cached_input
                == b.cached_input
            &&& a.cached_input > b.cached_input ==> change.cached_input == 0
            &&& a.output <= b.output ==> a.output + change.output == b.output
            &&& a.output > b.output ==> change.output == 0
            &&& a.reasoning_output <= b.reasoning_output ==> a.reasoning_output
                + change.reasoning_output == b.reasoning_output
            &&& a.reasoning_output > b.reasoning_output ==> change.reasoning_output == 0
            &&& a.total <= b.total ==> a.total + change.total == b.total
            &&& a.total > b.total ==> change.total == 0
        }),
{
}

/// The first cumulative report counts as a whole.
pub proof fn law_first_report_counts_as_a_whole(report: RawUsage)
    ensures
        session_log::usage_delta(report, None) == report,
{
}

/// Every counter of an event is taken over, except that no more input is cached than there is, and
/// that a missing total is the sum of input and output.
pub proof fn law_counters_are_taken_over(raw: RawUsage)
    requires
        raw.total > 0 || raw.input + raw.output <= u64::MAX,
    ensures
        ({
            let usage = session_log::normalized(raw);
            &&& usage.input == raw.input
            &&& usage.output == raw.output
            &&& usage.reasoning_output == raw.reasoning_output
            &&& usage.cached_input <= usage.input
            &&& raw.cached_input <= raw.input ==> usage.cached_input == raw.cached_input
            &&& raw.cached_input > raw.input ==> usage.cached_input == raw.input
            &&& raw.total > 0 ==> usage.total == raw.total
            &&& raw.total == 0 ==> usage.total == raw.input + raw.output
        }),
{
}

/// The counters that a payload reports are its fields; the legacy field for cached input counts only
/// where the primary one is absent.
pub proof fn law_fields_are_read(payload: UsagePayload)
    ensures
        ({
            let raw = session_log::raw_usage(payload);
            &&& raw.input == payload.input_tokens
            &&& raw.output == payload.output_tokens
            &&& raw.reasoning_output == payload.reasoning_output_tokens
            &&& raw.total == payload.total_tokens
            &&& payload.cached_input_tokens matches Some(n) ==> raw.cached_input == n
            &&& payload.cached_input_tokens is None ==> match payload.cache_read_input_tokens {
                Some(n) => raw.cached_input == n,
                None => raw.cached_input == 0,
            }
        }),
{
}

/// Where a payload has an info object, the usage inside it counts and the usage beside it does not.
pub proof fn law_info_object_decides(payload: EntryPayload)
    ensures
        match payload.info {
            Some(info) => {
                &&& match info.last_token_usage {
                    Some(usage) => session_log::reported_usage(payload, UsageKind::Last) == Some(
                        session_log::raw_usage(usage),
                    ),
                    None => session_log::reported_usage(payload, UsageKind::Last) is None,
                }
                &&& match info.total_token_usage {
                    Some(usage) => session_log::reported_usage(payload, UsageKind::Total) == Some(
                        session_log::raw_usage(usage),
                    ),
                    None => session_log::reported_usage(payload, UsageKind::Total) is None,
                }
            },
            None => {
                &&& match payload.last_token_usage {
                    Some(usage) => session_log::reported_usage(payload, UsageKind::Last) == Some(
                        session_log::raw_usage(usage),
                    ),
                    None => session_log::reported_usage(payload, UsageKind::Last) is None,
                }
                &&& match payload.total_token_usage {
                    Some(usage) => session_log::reported_usage(payload, UsageKind::Total) == Some(
                        session_log::raw_usage(usage),
                    ),
                    None => session_log::reported_usage(payload, UsageKind::Total) is None,
                }
            },
        },
{
}

/// An event that reports its own delta counts exactly that, whatever was reported before; only one
/// that moves no token counter counts nothing.
pub proof fn law_reported_delta_is_counted(payload: EntryPayload, previous: Option<RawUsage>)
    requires
        session_log::reported_usage(payload, UsageKind::Last) is Some,
    ensures
        ({
            let delta = session_log::reported_usage(payload, UsageKind::Last)->Some_0;
            match session_log::event_usage(payload, previous) {
                Some(usage) => {
                    &&& usage == session_log::normalized(delta)
                    &&& usage.input > 0 || usage.output > 0 || usage.reasoning_output > 0
                },
                None => delta.input == 0 && delta.output == 0 && delta.reasoning_output == 0,
            }
        }),
{
}

/// An event that reports cumulative counters only counts their change since the counters that are
/// remembered; one that reports nothing counts nothing.
pub proof fn law_cumulative_report_counts_its_change(
    payload: EntryPayload,
    previous: Option<RawUsage>,
)
    requires
        session_log::reported_usage(payload, UsageKind::Last) is None,
    ensures
        match session_log::reported_usage(payload, UsageKind::Total) {
            Some(total) => {
                let change = session_log::usage_delta(total, previous);
                match session_log::event_usage(payload, previous) {
                    Some(usage) => {
                        &&& usage == session_log::normalized(change)
                        &&& usage.input > 0 || usage.output > 0 || usage.reasoning_output > 0
                    },
                    None => change.input == 0 && change.output == 0 && change.reasoning_output == 0,
                }
            },
            None => session_log::event_usage(payload, previous) is None,
        },
{
}

/// What is remembered after an event: the cumulative counters that it reports; else, where it reports
/// a delta, the earlier ones plus the delta, whose missing total is the sum of input and output; else
/// the earlier ones.
pub proof fn law_remembered_counters(payload: EntryPayload, previous: Option<RawUsage>)
    ensures
        ({
            let after = session_log::totals_after(payload, previous);
            let before = match previous {
                Some(raw) => raw,
                None => RawUsage {
                    input: 0,
                    cached_input: 0,
                    output: 0,
                    reasoning_output: 0,
                    total: 0,
                },
            };
            match (
                session_log::reported_usage(payload, UsageKind::Total),
                session_log::reported_usage(payload, UsageKind::Last),
            ) {
                (Some(total), _) => after == Some(total),
                (None, Some(delta)) => after matches Some(moved) && {
                    &&& before.input + delta.input <= u64::MAX ==> moved.input == before.input
                        + delta.input
                    &&& before.input + delta.input > u64::MAX ==> moved.input == u64::MAX
                    &&& before.cached_input + delta.cached_input <= u64::MAX ==> moved.cached_input
                        == before.cached_input + delta.cached_input
                    &&& before.cached_input + delta.cached_input > u64::MAX ==> moved.cached_input
                        == u64::MAX
                    &&& before.output + delta.output <= u64::MAX ==> moved.output == before.output
                        + delta.output
                    &&& before.output + delta.output > u64::MAX ==> moved.output == u64::MAX
                    &&& before.reasoning_output + delta.reasoning_output <= u64::MAX
                        ==> moved.reasoning_output == before.reasoning_output
                        + delta.reasoning_output
                    &&& before.reasoning_output + delta.reasoning_output > u64::MAX
                        ==> moved.reasoning_output == u64::MAX
                    &&& delta.total > 0 && before.total + delta.total <= u64::MAX ==> moved.total
                        == before.total + delta.total
                    &&& delta.total > 0 && before.total + delta.total > u64::MAX ==> moved.total
                        == u64::MAX
                    &&& delta.total == 0 && before.total + delta.input + delta.output <= u64::MAX
                        ==> moved.total == before.total + delta.input + delta.output
                    &&& delta.total == 0 && before.total + delta.input + delta.output > u64::MAX
                        ==> moved.total == u64::MAX
                },
                (None, None) => after == previous,
            }
        }),
{
}

/// Whether the cached input of each report grows by no more than its input, the first from zero.
pub open spec fn cache_grows_with_input(reports: Seq<RawUsage>) -> bool {
    &&& reports.len() > 0 ==> reports[0].cached_input <= reports[0].input
    &&& forall|i: int, j: int|
        0 <= i && j == i + 1 && j < reports.len() ==> (#[trigger] reports[j]).cached_input - (
        #[trigger] reports[i]).cached_input <= reports[j].input - reports[i].input
}

/// The cumulative reports of payloads.
pub open spec fn reports_of(payloads: Seq<EntryPayload>) -> Seq<RawUsage> {
    payloads.map_values(|payload: EntryPayload| session_log::cumulative_report(payload))
}

/// Cumulative reports that never fall, and whose cached input grows by no more than their input,
/// count all cached input: it adds up to that of the last report.
pub proof fn law_cumulative_cached_input_adds_up(payloads: Seq<EntryPayload>)
    requires
        payloads.len() > 0,
        session_log::never_falling(payloads),
        cache_grows_with_input(reports_of(payloads)),
    ensures
        session_log::usage_of_all(payloads, None).cached_input == session_log::cumulative_report(
            payloads.last(),
        ).cached_input,
    decreases payloads.len(),
{
    let rest = payloads.drop_last();
    let last = payloads.len() - 1;
    let reports = reports_of(payloads);
    assert(session_log::only_cumulative(payloads[last]));
    assert(reports[last] == session_log::cumulative_report(payloads[last]));
    if rest.len() > 0 {
        lemma_rest_never_falls(payloads);
        assert(reports_of(rest) =~= reports.drop_last());
        assert forall|i: int, j: int|
            0 <= i && j == i + 1 && j < reports_of(rest).len() implies (
        #[trigger] reports_of(rest)[j]).cached_input - (#[trigger] reports_of(rest)[i]).cached_input
            <= reports_of(rest)[j].input - reports_of(rest)[i].input by {
            assert(reports_of(rest)[j] == reports[j] && reports_of(rest)[i] == reports[i]);
        }
        law_cumulative_cached_input_adds_up(rest);
        session_log::law_cumulative_reports_count_once(rest);
        assert(rest.last() == payloads[last - 1]);
        assert(session_log::counters_within(
            session_log::cumulative_report(payloads[last - 1]),
            session_log::cumulative_report(payloads[last]),
        ));
        assert(reports[last - 1] == session_log::cumulative_report(payloads[last - 1]));
        assert(reports[last].cached_input - reports[last - 1].cached_input <= reports[last].input
            - reports[last - 1].input);
    } else {
        assert(session_log::usage_of_all(rest, None) == summary::zero());
        assert(session_log::totals_after_all(rest, None) == None::<RawUsage>);
    }
}

/// Cumulative reports that never fall and whose totals are the sums of input and output count all
/// tokens: their totals add up to that of the last report.
pub proof fn law_cumulative_totals_add_up(payloads: Seq<EntryPayload>)
    requires
        payloads.len() > 0,
        session_log::never_falling(payloads),
        forall|i: int|
            0 <= i < payloads.len() ==> {
                let report = session_log::cumulative_report(#[trigger] payloads[i]);
                report.total == report.input + report.output
            },
    ensures
        session_log::usage_of_all(payloads, None).total == session_log::cumulative_report(
            payloads.last(),
        ).total,
    decreases payloads.len(),
{
    let rest = payloads.drop_last();
    let last = payloads.len() - 1;
    assert(session_log::only_cumulative(payloads[last]));
    let report = session_log::cumulative_report(payloads[last]);
    assert(report.total == report.input + report.output);
    if rest.len() > 0 {
        lemma_rest_never_falls(payloads);
        assert forall|i: int| 0 <= i < rest.len() implies ({
            let report = session_log::cumulative_report(#[trigger] rest[i]);
            report.total == report.input + report.output
        }) by {
            assert(rest[i] == payloads[i]);
        }
        law_cumulative_totals_add_up(rest);
        session_log::law_cumulative_reports_count_once(rest);
        assert(rest.last() == payloads[last - 1]);
        let before = session_log::cumulative_report(payloads[last - 1]);
        assert(before.total == before.input + before.output);
        assert(session_log::counters_within(before, report));
    } else {
        assert(session_log::usage_of_all(rest, None) == summary::zero());
        assert(session_log::totals_after_all(rest, None) == None::<RawUsage>);
    }
}

/// Cumulative reports that never fall and give no totals, as legacy logs do, count the sum of input
/// and output of the last report.
pub proof fn law_legacy_totals_add_up(payloads: Seq<EntryPayload>)
    requires
        payloads.len() > 0,
        session_log::never_falling(payloads),
        forall|i: int|
            0 <= i < payloads.len() ==> {
                let report = session_log::cumulative_report(#[trigger] payloads[i]);
                report.total == 0 && report.input + report.output <= u64::MAX
            },
    ensures
        ({
            let last = session_log::cumulative_report(payloads.last());
            session_log::usage_of_all(payloads, None).total == last.input + last.output
        }),
    decreases payloads.len(),
{
    let rest = payloads.drop_last();
    let last = payloads.len() - 1;
    assert(session_log::only_cumulative(payloads[last]));
    let report = session_log::cumulative_report(payloads[last]);
    assert(report.total == 0 && report.input + report.output <= u64::MAX);
    if rest.len() > 0 {
        lemma_rest_never_falls(payloads);
        assert forall|i: int| 0 <= i < rest.len() implies ({
            let report = session_log::cumulative_report(#[trigger] rest[i]);
            report.total == 0 && report.input + report.output <= u64::MAX
        }) by {
            assert(rest[i] == payloads[i]);
        }
        law_legacy_totals_add_up(rest);
        session_log::law_cumulative_reports_count_once(rest);
        assert(rest.last() == payloads[last - 1]);
        let before = session_log::cumulative_report(payloads[last - 1]);
        assert(before.total == 0);
        assert(session_log::counters_within(before, report));
    } else {
        assert(session_log::usage_of_all(rest, None) == summary::zero());
        assert(session_log::totals_after_all(rest, None) == None::<RawUsage>);
    }
}

proof fn lemma_rest_never_falls(payloads: Seq<EntryPayload>)
    requires
        payloads.len() > 0,
        session_log::never_falling(payloads),
    ensures
        session_log::never_falling(payloads.drop_last()),
{
    let rest = payloads.drop_last();
    assert forall|i: int| 0 <= i < rest.len() implies session_log::only_cumulative(
        #[trigger] rest[i],
    ) by {
        assert(rest[i] == payloads[i]);
    }
    assert forall|i: int, j: int| 0 <= i < j < rest.len() implies session_log::counters_within(
        session_log::cumulative_report(#[trigger] rest[i]),
        session_log::cumulative_report(#[trigger] rest[j]),
    ) by {
        assert(rest[i] == payloads[i] && rest[j] == payloads[j]);
    }
}

/// Whether a field names a model: it is there and not blank.
pub open spec fn names_model(field: Option<String>) -> bool {
    field matches Some(name) && text::trimmed(name@).len() > 0
}

/// The model that the metadata of a lookup container names, as a field.
pub open spec fn metadata_field(fields: session_log::ModelFields) -> Option<String> {
    match fields.metadata {
        Some(metadata) => metadata.model,
        None => None,
    }
}

/// The model of a payload is the first that is not blank, trimmed, of: the model and the model name
/// of the info object, those of the payload, and the metadata of the info object and of the payload.
pub proof fn law_model_lookup_order(payload: EntryPayload)
    ensures
        ({
            let own = payload.model_fields;
            let found = session_log::payload_model(payload);
            let inner = match payload.info {
                Some(info) => info.model_fields,
                None => session_log::ModelFields { model: None, model_name: None, metadata: None },
            };
            if names_model(inner.model) {
                found == Some(text::trimmed(inner.model->Some_0@))
            } else if names_model(inner.model_name) {
                found == Some(text::trimmed(inner.model_name->Some_0@))
            } else if names_model(own.model) {
                found == Some(text::trimmed(own.model->Some_0@))
            } else if names_model(own.model_name) {
                found == Some(text::trimmed(own.model_name->Some_0@))
            } else if names_model(metadata_field(inner)) {
                found == Some(text::trimmed(metadata_field(inner)->Some_0@))
            } else if names_model(metadata_field(own)) {
                found == Some(text::trimmed(metadata_field(own)->Some_0@))
            } else {
                found is None
            }
        }),
{
    let all = session_log::model_candidates(payload);
    reveal_with_fuel(session_log::first_named, 7);
    assert(all.skip(1).skip(1) == all.skip(2));
    assert(all.skip(2).skip(1) == all.skip(3));
    assert(all.skip(3).skip(1) == all.skip(4));
    assert(all.skip(4).skip(1) == all.skip(5));
    assert(all.skip(5).skip(1) == all.skip(6));
    assert(all.skip(6).len() == 0);
}

/// After a turn context that names a model, that model is the remembered one, and not a fallback,
/// whatever was remembered before; the counters stay.
pub proof fn law_turn_context_sets_the_model(entry: SessionLogEntry, state: ParserState)
    requires
        session_log::is_turn_context(entry),
    ensures
        ({
            let after = session_log::state_after(Some(entry), state);
            &&& after.totals == state.totals
            &&& match entry.payload {
                Some(payload) => match session_log::payload_model(payload) {
                    Some(name) => after.model == Some(name) && !after.fallback,
                    None => after.model == state.model && after.fallback == state.fallback,
                },
                None => after.model == state.model && after.fallback == state.fallback,
            }
        }),
{
}

/// What a token-count event with a timestamp gives: nothing where it counts no usage, an error where
/// its timestamp is malformed, and else an event that carries the usage, the instant and the model
/// it names, or the remembered one, or the default one as a fallback.
pub proof fn law_event_of_a_line(
    entry: SessionLogEntry,
    session_key: Seq<char>,
    session_id: Seq<char>,
    state: ParserState,
)
    requires
        session_log::is_token_count(entry),
        entry.timestamp is Some,
    ensures
        ({
            let payload = entry.payload->Some_0;
            let timestamp = entry.timestamp->Some_0@;
            let given = session_log::line_event(Some(entry), session_key, session_id, state);
            match session_log::event_usage(payload, state.totals) {
                None => given == Ok::<Option<EventFacts>, Seq<char>>(None),
                Some(usage) => match calendar::rfc3339_instant(timestamp) {
                    None => given is Err,
                    Some((seconds, nanos)) => given matches Ok(Some(event)) && {
                        &&& event.usage == usage
                        &&& event.session_key == session_key
                        &&& event.session_id == session_id
                        &&& event.timestamp.seconds == seconds
                        &&& event.timestamp.nanos == nanos
                        &&& match (session_log::payload_model(payload), state.model) {
                            (Some(name), _) => event.model == name && !event.fallback,
                            (None, Some(name)) => event.model == name && event.fallback
                                == state.fallback,
                            (None, None) => event.model == DEFAULT_FALLBACK_MODEL@
                                && event.fallback,
                        }
                    },
                },
            }
        }),
{
    lemma_types_differ();
}

/// What a token-count event with a timestamp leaves behind: the counters as they are remembered
/// after it, and, where it counts usage, the model that it counts for.
pub proof fn law_counted_event_settles_the_model(entry: SessionLogEntry, state: ParserState)
    requires
        session_log::is_token_count(entry),
        entry.timestamp is Some,
    ensures
        ({
            let payload = entry.payload->Some_0;
            let after = session_log::state_after(Some(entry), state);
            &&& after.totals == session_log::totals_after(payload, state.totals)
            &&& match session_log::event_usage(payload, state.totals) {
                None => after.model == state.model && after.fallback == state.fallback,
                Some(_) => match (session_log::payload_model(payload), state.model) {
                    (Some(name), _) => after.model == Some(name) && !after.fallback,
                    (None, Some(name)) => after.model == Some(name) && after.fallback
                        == state.fallback,
                    (None, None) => after.model == Some(DEFAULT_FALLBACK_MODEL@) && after.fallback,
                },
            }
        }),
{
    lemma_types_differ();
}

/// A token-count event without a timestamp is passed over.
pub proof fn law_event_without_timestamp_is_ignored(
    entry: SessionLogEntry,
    session_key: Seq<char>,
    session_id: Seq<char>,
    state: ParserState,
)
    requires
        session_log::is_token_count(entry),
        entry.timestamp is None,
    ensures
        session_log::line_event(Some(entry), session_key, session_id, state) == Ok::<
            Option<EventFacts>,
            Seq<char>,
        >(None),
        session_log::state_after(Some(entry), state) == state,
{
    lemma_types_differ();
}

proof fn lemma_types_differ()
    ensures
        "turn_context"@ != "event_msg"@,
{
    reveal_strlit("turn_context");
    reveal_strlit("event_msg");
    assert("turn_context"@.len() != "event_msg"@.len());
}

/// The parser state after entries in a row.
pub open spec fn state_after_all(entries: Seq<SessionLogEntry>, state: ParserState) -> ParserState
    decreases entries.len(),
{
    if entries.len() == 0 {
        state
    } else {
        session_log::state_after(
            Some(entries.last()),
            state_after_all(entries.drop_last(), state),
        )
    }
}

/// Whether an entry names no model.
pub open spec fn names_none(entry: SessionLogEntry) -> bool {
    entry.payload matches Some(payload) ==> session_log::payload_model(payload) is None
}

/// Usage counts for the model of the latest turn context: behind a turn context that names a model,
/// and any entries that name none, an event that names none counts for that model, and not as a
/// fallback.
pub proof fn law_events_count_for_the_latest_turn_context(
    context: SessionLogEntry,
    between: Seq<SessionLogEntry>,
    entry: SessionLogEntry,
    session_key: Seq<char>,
    session_id: Seq<char>,
    state: ParserState,
)
    requires
        session_log::is_turn_context(context),
        context.payload matches Some(payload) && session_log::payload_model(payload) is Some,
        forall|i: int| 0 <= i < between.len() ==> names_none(#[trigger] between[i]),
        names_none(entry),
    ensures
        ({
            let name = session_log::payload_model(context.payload->Some_0)->Some_0;
            let reached = state_after_all(
                between,
                session_log::state_after(Some(context), state),
            );
            &&& reached.model == Some(name)
            &&& !reached.fallback
            &&& session_log::line_event(
                Some(entry),
                session_key,
                session_id,
                reached,
            ) matches Ok(Some(event)) ==> event.model == name && !event.fallback
        }),
    decreases between.len(),
{
    let start = session_log::state_after(Some(context), state);
    law_turn_context_sets_the_model(context, state);
    if between.len() > 0 {
        let rest = between.drop_last();
        assert forall|i: int| 0 <= i < rest.len() implies names_none(#[trigger] rest[i]) by {
            assert(rest[i] == between[i]);
        }
        law_events_count_for_the_latest_turn_context(
            context,
            rest,
            entry,
            session_key,
            session_id,
            state,
        );
        assert(names_none(between[between.len() - 1]));
    }
}

/// Usage counts for the model of the latest event that named one: behind a counted event that names
/// a model, and any entries that name none, that model is the remembered one, and not a fallback.
pub proof fn law_named_model_lasts(
    named: SessionLogEntry,
    between: Seq<SessionLogEntry>,
    state: ParserState,
)
    requires
        session_log::is_token_count(named),
        named.timestamp is Some,
        session_log::event_usage(named.payload->Some_0, state.totals) is Some,
        session_log::payload_model(named.payload->Some_0) is Some,
        forall|i: int| 0 <= i < between.len() ==> names_none(#[trigger] between[i]),
    ensures
        ({
            let reached = state_after_all(between, session_log::state_after(Some(named), state));
            &&& reached.model == session_log::payload_model(named.payload->Some_0)
            &&& !reached.fallback
        }),
    decreases between.len(),
{
    law_counted_event_settles_the_model(named, state);
    if between.len() > 0 {
        let rest = between.drop_last();
        assert forall|i: int| 0 <= i < rest.len() implies names_none(#[trigger] rest[i]) by {
            assert(rest[i] == between[i]);
        }
        law_named_model_lasts(named, rest, state);
        assert(names_none(between[between.len() - 1]));
    }
}

/// A line is partial, and left for the next scan, just where it is not blank, is not ended by a
/// newline and does not hold an entry.
pub proof fn law_only_unfinished_lines_are_partial(line: SessionLine)
    ensures
        line.text@.len() > 0 && line.text@.last() == '\n' ==> !line.partial(),
        line.entry is Some ==> !line.partial(),
        text::trimmed(line.text@).len() == 0 ==> !line.partial(),
        line.entry is None && text::trimmed(line.text@).len() > 0 && (line.text@.len() == 0
            || line.text@.last() != '\n') ==> line.partial(),
{
}

/// A line that is not blank and holds a mark is read as its entry.
pub proof fn law_marked_line_is_read(
    line: SessionLine,
    session_id: Seq<char>,
    at: session_log::CheckpointFacts,
)
    requires
        text::trimmed(line.text@).len() > 0,
        text::contains_text(text::trimmed(line.text@), "\\u"@) || text::contains_text(
            text::trimmed(line.text@),
            "turn_context"@,
        ) || text::contains_text(text::trimmed(line.text@), "token_count"@),
    ensures
        session_log::scanned_event(line, session_id, at) == session_log::line_event(
            line.entry,
            session_id,
            session_id,
            at.state,
        ),
        session_log::checkpoint_after(line, at).state == session_log::state_after(
            line.entry,
            at.state,
        ),
{
}

/// A line that is not a valid entry gives nothing and changes nothing.
pub proof fn law_invalid_line_is_ignored(
    session_key: Seq<char>,
    session_id: Seq<char>,
    state: ParserState,
)
    ensures
        session_log::line_event(None, session_key, session_id, state) == Ok::<
            Option<EventFacts>,
            Seq<char>,
        >(None),
        session_log::state_after(None, state) == state,
{
}

/// How many bytes lines take up.
pub open spec fn bytes_of(lines: Seq<SessionLine>) -> nat
    decreases lines.len(),
{
    if lines.len() == 0 {
        0
    } else {
        lines[0].bytes_read as nat + bytes_of(lines.skip(1))
    }
}

/// A scan of complete lines ends behind all their bytes.
pub proof fn law_scan_ends_behind_its_lines(
    lines: Seq<SessionLine>,
    session_id: Seq<char>,
    at: session_log::CheckpointFacts,
)
    requires
        session_log::complete(lines),
        at.offset + bytes_of(lines) <= u64::MAX,
    ensures
        session_log::scan(lines, session_id, at) matches Ok((end, _)) ==> end.offset == at.offset
            + bytes_of(lines),
    decreases lines.len(),
{
    if lines.len() > 0 {
        let rest = lines.skip(1);
        assert(!lines[0].partial());
        assert forall|i: int| 0 <= i < rest.len() implies !(#[trigger] rest[i]).partial() by {
            assert(rest[i] == lines[i + 1]);
        }
        let next = session_log::checkpoint_after(lines[0], at);
        assert(next.offset == at.offset + lines[0].bytes_read);
        law_scan_ends_behind_its_lines(rest, session_id, next);
    }
}

/// One more complete line adds its event, if any, behind those of the lines in front of it, and moves
/// the parser on from where they left it.
pub proof fn law_lines_are_read_in_order(
    lines: Seq<SessionLine>,
    line: SessionLine,
    session_id: Seq<char>,
    at: session_log::CheckpointFacts,
)
    requires
        session_log::complete(lines),
        !line.partial(),
    ensures
        match session_log::scan(lines, session_id, at) {
            Ok((middle, events)) => match session_log::scanned_event(line, session_id, middle) {
                Ok(event) => session_log::scan(lines.push(line), session_id, at) matches Ok(
                    (end, all),
                ) && {
                    &&& end.state == session_log::checkpoint_after(line, middle).state
                    &&& match event {
                        Some(e) => all == events.push(e),
                        None => all == events,
                    }
                },
                Err(_) => session_log::scan(lines.push(line), session_id, at) is Err,
            },
            Err(message) => session_log::scan(lines.push(line), session_id, at) == Err::<
                (session_log::CheckpointFacts, Seq<EventFacts>),
                Seq<char>,
            >(message),
        },
{
    session_log::law_resumed_scan_is_full_scan(lines, seq![line], session_id, at);
    assert(lines + seq![line] =~= lines.push(line));
    if let Ok((middle, events)) = session_log::scan(lines, session_id, at) {
        let one = seq![line];
        assert(one.skip(1) =~= Seq::<SessionLine>::empty());
        let next = session_log::checkpoint_after(line, middle);
        assert(session_log::scan(one.skip(1), session_id, next) == Ok::<
            (session_log::CheckpointFacts, Seq<EventFacts>),
            Seq<char>,
        >((next, Seq::empty())));
        if let Ok(event) = session_log::scanned_event(line, session_id, middle) {
            match event {
                Some(e) => {
                    assert(events + (seq![e] + Seq::<EventFacts>::empty()) =~= events.push(e));
                },
                None => {
                    assert(events + Seq::<EventFacts>::empty() =~= events);
                },
            }
        }
    }
}

/// At the start of a file nothing is read and nothing is remembered: neither counters nor a model.
pub proof fn law_files_start_with_nothing_remembered()
    ensures
        session_log::file_start().offset == 0,
        session_log::file_start().state.totals is None,
        session_log::file_start().state.model is None,
        !session_log::file_start().state.fallback,
{
}

} // verus!
