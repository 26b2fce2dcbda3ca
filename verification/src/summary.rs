//! Usage summaries and their arithmetic.

use vstd::prelude::*;
use vstd::string::*;

use crate::keyed;
use crate::keyed::TextMap;
use crate::model;
use crate::model::{ModelBreakdown, UsageTotals};

verus! {

/// Usage counters without an upper bound.
pub struct Counts {
    /// Input tokens.
    pub input: nat,
    /// Cached input tokens.
    pub cached_input: nat,
    /// Output tokens.
    pub output: nat,
    /// Reasoning output tokens.
    pub reasoning_output: nat,
    /// Billable tokens.
    pub total: nat,
}

impl Counts {
    /// Counters added field by field.
    pub open spec fn plus(self, other: Counts) -> Counts {
        Counts {
            input: self.input + other.input,
            cached_input: self.cached_input + other.cached_input,
            output: self.output + other.output,
            reasoning_output: self.reasoning_output + other.reasoning_output,
            total: self.total + other.total,
        }
    }

    /// Counters subtracted field by field, stopping at zero.
    pub open spec fn minus(self, other: Counts) -> Counts {
        Counts {
            input: sub_nat(self.input, other.input),
            cached_input: sub_nat(self.cached_input, other.cached_input),
            output: sub_nat(self.output, other.output),
            reasoning_output: sub_nat(self.reasoning_output, other.reasoning_output),
            total: sub_nat(self.total, other.total),
        }
    }

    /// Whether no counter exceeds that of `other`.
    pub open spec fn within(self, other: Counts) -> bool {
        &&& self.input <= other.input
        &&& self.cached_input <= other.cached_input
        &&& self.output <= other.output
        &&& self.reasoning_output <= other.reasoning_output
        &&& self.total <= other.total
    }

    /// Whether every counter fits its machine type.
    pub open spec fn fits(self) -> bool {
        &&& self.input <= u64::MAX
        &&& self.cached_input <= u64::MAX
        &&& self.output <= u64::MAX
        &&& self.reasoning_output <= u64::MAX
        &&& self.total <= u64::MAX
    }
}

/// Subtraction of natural numbers that stops at zero.
pub open spec fn sub_nat(a: nat, b: nat) -> nat {
    if a >= b {
        (a - b) as nat
    } else {
        0
    }
}

/// All counters zero.
pub open spec fn zero() -> Counts {
    Counts { input: 0, cached_input: 0, output: 0, reasoning_output: 0, total: 0 }
}

/// The counters of a usage.
pub open spec fn counts(usage: UsageTotals) -> Counts {
    Counts {
        input: usage.input as nat,
        cached_input: usage.cached_input as nat,
        output: usage.output as nat,
        reasoning_output: usage.reasoning_output as nat,
        total: usage.total as nat,
    }
}

/// What one event adds to a summary.
pub struct Share {
    /// Model that the usage counts for.
    pub model: Seq<char>,
    /// Whether the model is a fallback.
    pub fallback: bool,
    /// The usage.
    pub usage: Counts,
}

/// The usage of one model in a summary.
pub struct ModelShare {
    /// All usage of the model.
    pub all: Counts,
    /// The part that is attributed to it by fallback.
    pub fallback: Counts,
    /// Whether any usage was ever attributed by fallback.
    pub is_fallback: bool,
}

/// No usage.
pub open spec fn no_share() -> ModelShare {
    ModelShare { all: zero(), fallback: zero(), is_fallback: false }
}

/// Usage summed over events, as a whole and by model.
#[verifier::ext_equal]
pub struct Summary {
    /// Usage of all models.
    pub totals: Counts,
    /// Usage by model.
    pub models: Map<Seq<char>, ModelShare>,
}

/// The summary of no events.
pub open spec fn no_summary() -> Summary {
    Summary { totals: zero(), models: Map::empty() }
}

impl Summary {
    /// The usage of a model; a model that does not occur has none.
    pub open spec fn share(self, model: Seq<char>) -> ModelShare {
        share_in(self.models, model)
    }

    /// The summary with one more event.
    pub open spec fn with(self, event: Share) -> Summary {
        Summary {
            totals: self.totals.plus(event.usage),
            models: self.models.insert(event.model, share_with(self.share(event.model), event)),
        }
    }

    /// The summary with the usage of one event taken out. The model keeps its place and its
    /// fallback mark.
    pub open spec fn without(self, event: Share) -> Summary {
        Summary {
            totals: self.totals.minus(event.usage),
            models: self.models.insert(event.model, share_without(self.share(event.model), event)),
        }
    }

    /// Two summaries put together.
    pub open spec fn merged(self, other: Summary) -> Summary {
        Summary {
            totals: self.totals.plus(other.totals),
            models: merged_models(self.models, other.models),
        }
    }

    /// Whether every counter fits its machine type.
    pub open spec fn fits(self) -> bool {
        self.totals.fits() && models_fit(self.models)
    }
}

/// The usage that a map holds for a model; a model that does not occur has none.
pub open spec fn share_in(models: Map<Seq<char>, ModelShare>, model: Seq<char>) -> ModelShare {
    if models.contains_key(model) {
        models[model]
    } else {
        no_share()
    }
}

/// Usage by model put together from two maps.
pub open spec fn merged_models(
    a: Map<Seq<char>, ModelShare>,
    b: Map<Seq<char>, ModelShare>,
) -> Map<Seq<char>, ModelShare> {
    Map::new(
        |model: Seq<char>| a.contains_key(model) || b.contains_key(model),
        |model: Seq<char>| merged_share(share_in(a, model), share_in(b, model)),
    )
}

/// The usage of a model with one more event.
pub open spec fn share_with(share: ModelShare, event: Share) -> ModelShare {
    ModelShare {
        all: share.all.plus(event.usage),
        fallback: if event.fallback {
            share.fallback.plus(event.usage)
        } else {
            share.fallback
        },
        is_fallback: share.is_fallback || event.fallback,
    }
}

/// The usage of a model with that of one event taken out.
pub open spec fn share_without(share: ModelShare, event: Share) -> ModelShare {
    ModelShare {
        all: share.all.minus(event.usage),
        fallback: if event.fallback {
            share.fallback.minus(event.usage)
        } else {
            share.fallback
        },
        is_fallback: share.is_fallback,
    }
}

/// The usage of a model in two summaries put together.
pub open spec fn merged_share(a: ModelShare, b: ModelShare) -> ModelShare {
    ModelShare {
        all: a.all.plus(b.all),
        fallback: a.fallback.plus(b.fallback),
        is_fallback: a.is_fallback || b.is_fallback,
    }
}

/// The summary of a sequence of events.
pub open spec fn summary_of(events: Seq<Share>) -> Summary
    decreases events.len(),
{
    if events.len() == 0 {
        no_summary()
    } else {
        summary_of(events.drop_last()).with(events.last())
    }
}

/// The usage of a model breakdown that carries no cost.
pub open spec fn share_of(breakdown: ModelBreakdown) -> ModelShare {
    ModelShare {
        all: counts(model::usage_of(breakdown)),
        fallback: counts(breakdown.fallback_usage),
        is_fallback: breakdown.is_fallback,
    }
}

/// One per-group summary.
#[derive(Debug)]
pub struct GroupSummary {
    /// Totals for all models in the group.
    pub totals: UsageTotals,
    /// Per-model breakdowns.
    pub models: TextMap<ModelBreakdown>,
}

/// Breakdowns as usage by model.
pub open spec fn shares(models: Map<Seq<char>, ModelBreakdown>) -> Map<Seq<char>, ModelShare> {
    models.map_values(|breakdown: ModelBreakdown| share_of(breakdown))
}

/// Whether the breakdowns are still free of costs.
pub open spec fn unpriced(models: Map<Seq<char>, ModelBreakdown>) -> bool {
    forall|name: Seq<char>|
        models.contains_key(name) ==> (#[trigger] models[name]).cost_usd == model::UsdAmount::none()
            && models[name].fallback_cost_usd == model::UsdAmount::none()
}

impl View for GroupSummary {
    type V = Summary;

    open spec fn view(&self) -> Summary {
        Summary { totals: counts(self.totals), models: shares(self.models@) }
    }
}

impl GroupSummary {
    /// The models stand in order and carry no costs.
    pub open spec fn wf(&self) -> bool {
        self.models.wf() && unpriced(self.models@)
    }

    /// An empty summary.
    pub fn new() -> (summary: GroupSummary)
        ensures
            summary.wf(),
            summary@ == no_summary(),
    {
        let summary = GroupSummary { totals: UsageTotals::default(), models: TextMap::new() };
        assert(summary@ =~= no_summary());
        summary
    }
}

/// Add usage into a model breakdown.
pub fn push_usage_into_breakdown(
    target: &mut ModelBreakdown,
    usage: &UsageTotals,
    is_fallback_model: bool,
)
    requires
        model::usage_sum_fits(model::usage_of(*old(target)), *usage),
        is_fallback_model ==> model::usage_sum_fits(old(target).fallback_usage, *usage),
    ensures
        model::usage_of(*final(target)) == model::usage_sum(model::usage_of(*old(target)), *usage),
        final(target).fallback_usage == if is_fallback_model {
            model::usage_sum(old(target).fallback_usage, *usage)
        } else {
            old(target).fallback_usage
        },
        final(target).is_fallback == old(target).is_fallback,
        final(target).cost_usd == old(target).cost_usd,
        final(target).fallback_cost_usd == old(target).fallback_cost_usd,
{
    target.input_tokens += usage.input;
    target.cached_input_tokens += usage.cached_input;
    target.output_tokens += usage.output;
    target.reasoning_output_tokens += usage.reasoning_output;
    target.total_tokens += usage.total;
    if is_fallback_model {
        target.fallback_usage.add(usage);
    }
}

/// Remove usage from a model breakdown.
pub fn remove_usage_from_breakdown(
    target: &mut ModelBreakdown,
    usage: &UsageTotals,
    is_fallback_model: bool,
)
    ensures
        model::usage_of(*final(target)) == model::usage_monus(
            model::usage_of(*old(target)),
            *usage,
        ),
        final(target).fallback_usage == if is_fallback_model {
            model::usage_monus(old(target).fallback_usage, *usage)
        } else {
            old(target).fallback_usage
        },
        final(target).is_fallback == old(target).is_fallback,
        final(target).cost_usd == old(target).cost_usd,
        final(target).fallback_cost_usd == old(target).fallback_cost_usd,
{
    target.input_tokens = target.input_tokens.saturating_sub(usage.input);
    target.cached_input_tokens = target.cached_input_tokens.saturating_sub(usage.cached_input);
    target.output_tokens = target.output_tokens.saturating_sub(usage.output);
    target.reasoning_output_tokens =
    target.reasoning_output_tokens.saturating_sub(usage.reasoning_output);
    target.total_tokens = target.total_tokens.saturating_sub(usage.total);
    if is_fallback_model {
        target.fallback_usage.subtract(usage);
    }
}

/// Find the breakdown of a model, creating an empty one where there is none, and return its
/// position.
pub fn ensure_model_breakdown(models: &mut TextMap<ModelBreakdown>, model: &str) -> (at: usize)
    requires
        old(models).wf(),
    ensures
        final(models).wf(),
        at < final(models).entries.len(),
        final(models).entries[at as int].0@ == model@,
        final(models)@ == if old(models)@.contains_key(model@) {
            old(models)@
        } else {
            old(models)@.insert(model@, model::no_breakdown())
        },
        final(models)@.contains_key(model@),
        final(models).entries[at as int].1 == final(models)@[model@],
{
    let (found, at) = models.find(model);
    if found {
        return at;
    }
    models.insert(String::from_str(model), ModelBreakdown::default());
    let (_found, at) = models.find(model);
    at
}

/// Add one event to a summary.
pub fn push_share(summary: &mut GroupSummary, model: &str, usage: &UsageTotals, fallback: bool)
    requires
        old(summary).wf(),
        old(summary)@.with(Share { model: model@, fallback, usage: counts(*usage) }).fits(),
    ensures
        final(summary).wf(),
        final(summary)@ == old(summary)@.with(
            Share { model: model@, fallback, usage: counts(*usage) },
        ),
{
    let ghost event = Share { model: model@, fallback, usage: counts(*usage) };
    let ghost expected = old(summary)@.with(event);
    assert(expected.models.contains_key(model@));
    assert(expected.models[model@] == share_with(old(summary)@.share(model@), event));
    summary.totals.add(usage);
    push_into_models(&mut summary.models, model, usage, fallback);
    assert(summary@.models =~= expected.models);
}

fn push_into_models(
    models: &mut TextMap<ModelBreakdown>,
    model: &str,
    usage: &UsageTotals,
    fallback: bool,
)
    requires
        old(models).wf(),
        unpriced(old(models)@),
        ({
            let before = share_at(old(models)@, model@);
            before.all.plus(counts(*usage)).fits() && (fallback ==> before.fallback.plus(
                counts(*usage),
            ).fits())
        }),
    ensures
        final(models).wf(),
        unpriced(final(models)@),
        shares(final(models)@) == shares(old(models)@).insert(
            model@,
            share_with(
                share_at(old(models)@, model@),
                Share { model: model@, fallback, usage: counts(*usage) },
            ),
        ),
{
    let at = ensure_model_breakdown(models, model);
    let ghost middle = models.entries@;
    let ghost middle_map = models@;
    assert(share_of(middle_map[model@]) == share_at(old(models)@, model@));
    let mut breakdown = models.entries[at].1;
    push_usage_into_breakdown(&mut breakdown, usage, fallback);
    if fallback {
        breakdown.is_fallback = true;
    }
    models.entries[at].1 = breakdown;
    proof {
        keyed::lemma_replace(middle, at as int, models.entries@);
    }
    assert(models@ == middle_map.insert(model@, breakdown));
    assert(shares(models@) =~= shares(old(models)@).insert(
        model@,
        share_with(
            share_at(old(models)@, model@),
            Share { model: model@, fallback, usage: counts(*usage) },
        ),
    ));
}

/// The usage of a model among breakdowns.
pub open spec fn share_at(models: Map<Seq<char>, ModelBreakdown>, model: Seq<char>) -> ModelShare {
    if models.contains_key(model) {
        share_of(models[model])
    } else {
        no_share()
    }
}

/// Take the usage of one event out of a summary.
pub fn remove_share(summary: &mut GroupSummary, model: &str, usage: &UsageTotals, fallback: bool)
    requires
        old(summary).wf(),
    ensures
        final(summary).wf(),
        final(summary)@ == old(summary)@.without(
            Share { model: model@, fallback, usage: counts(*usage) },
        ),
{
    let ghost expected = old(summary)@.without(
        Share { model: model@, fallback, usage: counts(*usage) },
    );
    summary.totals.subtract(usage);
    let at = ensure_model_breakdown(&mut summary.models, model);
    let ghost middle = summary.models.entries@;
    let ghost middle_map = summary.models@;
    assert(share_of(middle_map[model@]) == old(summary)@.share(model@));
    let mut breakdown = summary.models.entries[at].1;
    remove_usage_from_breakdown(&mut breakdown, usage, fallback);
    summary.models.entries[at].1 = breakdown;
    proof {
        keyed::lemma_replace(middle, at as int, summary.models.entries@);
    }
    assert(summary.models@ == middle_map.insert(model@, breakdown));
    assert(summary@.models =~= expected.models);
}

/// Whether the usage by model, put together, fits its machine type.
pub open spec fn models_fit(models: Map<Seq<char>, ModelShare>) -> bool {
    forall|model: Seq<char>|
        models.contains_key(model) ==> (#[trigger] models[model]).all.fits()
            && models[model].fallback.fits()
}

/// Merge per-model usage.
pub fn merge_model_breakdowns(
    target: &mut TextMap<ModelBreakdown>,
    source: &TextMap<ModelBreakdown>,
)
    requires
        old(target).wf(),
        unpriced(old(target)@),
        source.wf(),
        models_fit(merged_models(shares(old(target)@), shares(source@))),
    ensures
        final(target).wf(),
        unpriced(final(target)@),
        shares(final(target)@) == merged_models(shares(old(target)@), shares(source@)),
{
    let ghost start = shares(target@);
    let ghost all = source.entries@;
    let ghost whole = merged_models(start, shares(source@));
    let mut i: usize = 0;
    assert(keyed::entry_map(all.take(0)) =~= Map::<Seq<char>, ModelBreakdown>::empty());
    assert(start =~= merged_models(start, shares(keyed::entry_map(all.take(0))))) by {
        assert forall|model: Seq<char>| #[trigger] start.contains_key(model) implies merged_share(
            start[model],
            no_share(),
        ) == start[model] by {}
    }
    while i < source.entries.len()
        invariant
            i <= source.entries.len(),
            all == source.entries@,
            source.wf(),
            target.wf(),
            unpriced(target@),
            start == shares(old(target)@),
            whole == merged_models(start, shares(source@)),
            models_fit(whole),
            shares(target@) == merged_models(start, shares(keyed::entry_map(all.take(i as int)))),
        decreases source.entries.len() - i,
    {
        let ghost done = keyed::entry_map(all.take(i as int));
        let ghost key = all[i as int].0@;
        let ghost next = keyed::entry_map(all.take(i + 1));
        let ghost current = shares(target@);
        let added = source.entries[i].1;
        proof {
            keyed::lemma_take_entries(all, i as int);
            keyed::lemma_entry_at(all, i as int);
            assert(whole.contains_key(key));
            assert(whole[key] == merged_share(share_in(start, key), share_of(added)));
            assert(!done.contains_key(key));
            assert(share_at(target@, key) == share_in(shares(target@), key));
            assert(merged_share(share_in(start, key), no_share()) == share_in(start, key));
            assert(share_at(target@, key) == share_in(start, key));
        }
        let at = ensure_model_breakdown(target, source.entries[i].0.as_str());
        let ghost middle = target.entries@;
        let ghost middle_map = target@;
        let mut breakdown = target.entries[at].1;
        breakdown.input_tokens += added.input_tokens;
        breakdown.cached_input_tokens += added.cached_input_tokens;
        breakdown.output_tokens += added.output_tokens;
        breakdown.reasoning_output_tokens += added.reasoning_output_tokens;
        breakdown.total_tokens += added.total_tokens;
        breakdown.fallback_usage.add(&added.fallback_usage);
        breakdown.is_fallback = breakdown.is_fallback || added.is_fallback;
        target.entries[at].1 = breakdown;
        proof {
            keyed::lemma_replace(middle, at as int, target.entries@);
            assert(target@ == middle_map.insert(key, breakdown));
            assert(share_of(breakdown) == merged_share(share_in(start, key), share_of(added)));
            let merged = merged_share(share_in(start, key), share_of(added));
            assert(shares(target@) =~= current.insert(key, merged));
            assert(shares(next) =~= shares(done).insert(key, share_of(added)));
            assert(merged_models(start, shares(next)) =~= merged_models(
                start,
                shares(done),
            ).insert(key, merged));
        }
        i += 1;
    }
    assert(all.take(all.len() as int) == all);
}

/// Merge one grouped summary into another.
pub fn merge_group_summary(target: &mut GroupSummary, source: &GroupSummary)
    requires
        old(target).wf(),
        source.wf(),
        old(target)@.merged(source@).fits(),
    ensures
        final(target).wf(),
        final(target)@ == old(target)@.merged(source@),
{
    target.totals.add(&source.totals);
    merge_model_breakdowns(&mut target.models, &source.models);
}

/// Putting together the summaries of two sequences of events gives the summary of the sequences in
/// a row: events can be summed in parts, in parallel or not.
pub proof fn law_merged_summaries_sum_all_events(a: Seq<Share>, b: Seq<Share>)
    ensures
        summary_of(a).merged(summary_of(b)) == summary_of(a + b),
    decreases b.len(),
{
    if b.len() == 0 {
        assert(a + b == a);
        let left = summary_of(a);
        assert forall|model: Seq<char>| #[trigger]
            left.models.contains_key(model) implies merged_share(left.models[model], no_share())
            == left.models[model] by {}
        assert(left.merged(no_summary()).models =~= left.models);
    } else {
        law_merged_summaries_sum_all_events(a, b.drop_last());
        let left = summary_of(a);
        let right = summary_of(b.drop_last());
        let event = b.last();
        assert((a + b).drop_last() == a + b.drop_last());
        assert((a + b).last() == event);
        assert(left.merged(right.with(event)).models =~= left.merged(right).with(event).models);
        assert(left.merged(right.with(event)).totals == left.merged(right).with(event).totals);
    }
}

/// Taking an event out of a summary that it was just added to restores all usage.
pub proof fn law_removal_undoes_addition(summary: Summary, event: Share)
    ensures
        summary.with(event).without(event).totals == summary.totals,
        forall|model: Seq<char>|
            (#[trigger] summary.with(event).without(event).share(model)).all == summary.share(
                model,
            ).all && summary.with(event).without(event).share(model).fallback == summary.share(
                model,
            ).fallback,
{
}

} // verus!
