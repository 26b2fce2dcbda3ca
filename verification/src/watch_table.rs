//! The table of the watch screen, stacked into blocks where the terminal is narrow.

use vstd::prelude::*;
use vstd::string::*;

use crate::model;
use crate::model::{explicit_usage, CacheReadMode, NumberFormat, UsageTotals, UsdAmount};
use crate::number;
use crate::number::{format_currency, format_u64_with};
use crate::snapshot;
use crate::snapshot::{scale_usage_per_hour, WatchModelBurn, WatchSnapshot, DURATION_LIMIT};
use crate::table;
use crate::table::{DisplayRow, DisplayRowKind};
use crate::text;

verus! {

/// One active per-model burn-rate column in watch mode.
#[derive(Debug)]
pub struct WatchBurnColumn {
    /// Header label.
    pub label: String,
    /// Burn-window usage for this column.
    pub usage: UsageTotals,
    /// Cost per hour for this column.
    pub cost_usd_per_hour: UsdAmount,
}

/// What a column says.
pub struct ColumnFacts {
    /// Header label.
    pub label: Seq<char>,
    /// Burn-window usage.
    pub usage: UsageTotals,
    /// Cost per hour.
    pub cost: UsdAmount,
}

impl View for WatchBurnColumn {
    type V = ColumnFacts;

    open spec fn view(&self) -> ColumnFacts {
        ColumnFacts { label: self.label@, usage: self.usage, cost: self.cost_usd_per_hour }
    }
}

/// What columns say.
pub open spec fn columns_facts(columns: Seq<WatchBurnColumn>) -> Seq<ColumnFacts> {
    columns.map_values(|column: WatchBurnColumn| column@)
}

/// The columns of a model: one for the usage under its own name and one for that by fallback, each
/// where there is any usage or cost.
pub open spec fn model_columns(name: Seq<char>, burn: WatchModelBurn) -> Seq<ColumnFacts> {
    let breakdown = burn.breakdown;
    let explicit = model::explicit_part(breakdown);
    (if explicit != model::no_usage() || breakdown.cost_usd.positive {
        seq![ColumnFacts { label: name + " /h"@, usage: explicit, cost: burn.cost_usd_per_hour }]
    } else {
        Seq::empty()
    }) + (if breakdown.fallback_usage != model::no_usage() || breakdown.fallback_cost_usd.positive {
        seq![
            ColumnFacts {
                label: name + " (fallback) /h"@,
                usage: breakdown.fallback_usage,
                cost: burn.fallback_cost_usd_per_hour,
            },
        ]
    } else {
        Seq::empty()
    })
}

/// The columns of all models.
pub open spec fn burn_columns(models: Seq<(String, WatchModelBurn)>) -> Seq<ColumnFacts>
    decreases models.len(),
{
    if models.len() == 0 {
        Seq::empty()
    } else {
        burn_columns(models.drop_last()) + model_columns(models.last().0@, models.last().1)
    }
}

fn push_column(
    columns: &mut Vec<WatchBurnColumn>,
    model: &str,
    suffix: &str,
    usage: UsageTotals,
    cost_usd_per_hour: UsdAmount,
)
    ensures
        columns_facts(final(columns)@) == columns_facts(old(columns)@).push(
            (ColumnFacts { label: model@ + suffix@, usage, cost: cost_usd_per_hour }),
        ),
{
    let ghost before = columns_facts(columns@);
    let mut label = String::from_str(model);
    label.append(suffix);
    let column = WatchBurnColumn { label, usage, cost_usd_per_hour };
    let ghost facts = column@;
    columns.push(column);
    assert(columns_facts(columns@) =~= before.push(facts));
}

/// Return the active per-model burn-rate columns.
pub fn active_watch_burn_columns(snapshot: &WatchSnapshot) -> (columns: Vec<WatchBurnColumn>)
    ensures
        columns_facts(columns@) == burn_columns(snapshot.per_model.entries@),
{
    let ghost models = snapshot.per_model.entries@;
    let mut columns: Vec<WatchBurnColumn> = Vec::new();
    assert(models.take(0) == Seq::<(String, WatchModelBurn)>::empty());
    assert(columns_facts(columns@) =~= Seq::<ColumnFacts>::empty());
    let mut i: usize = 0;
    while i < snapshot.per_model.entries.len()
        invariant
            i <= snapshot.per_model.entries.len(),
            models == snapshot.per_model.entries@,
            columns_facts(columns@) == burn_columns(models.take(i as int)),
        decreases snapshot.per_model.entries.len() - i,
    {
        let name = &snapshot.per_model.entries[i].0;
        let burn = &snapshot.per_model.entries[i].1;
        let ghost before = columns_facts(columns@);
        let explicit = explicit_usage(&burn.breakdown);
        if explicit.has_usage() || burn.breakdown.cost_usd.positive {
            push_column(&mut columns, name.as_str(), " /h", explicit, burn.cost_usd_per_hour);
        }
        if burn.breakdown.fallback_usage.has_usage() || burn.breakdown.fallback_cost_usd.positive {
            push_column(
                &mut columns,
                name.as_str(),
                " (fallback) /h",
                burn.breakdown.fallback_usage,
                burn.fallback_cost_usd_per_hour,
            );
        }
        proof {
            assert(models.take(i + 1).drop_last() == models.take(i as int));
            assert(models.take(i + 1).last() == models[i as int]);
            assert(columns_facts(columns@) =~= before + model_columns(name@, *burn));
        }
        i += 1;
    }
    assert(models.take(models.len() as int) == models);
    columns
}

/// One logical metric row in the watch table before block projection.
#[derive(Debug)]
pub struct WatchMetricRow {
    /// Left-hand row label repeated in every block.
    pub metric: &'static str,
    /// Current-day aggregate value.
    pub today: String,
    /// Per-model burn-rate cells in model order.
    pub per_model: Vec<String>,
    /// Aggregate burn-rate value.
    pub burn_rate: String,
}

/// What a metric row says.
#[verifier::ext_equal]
pub struct MetricFacts {
    /// Left-hand row label.
    pub metric: Seq<char>,
    /// Current-day value.
    pub today: Seq<char>,
    /// Per-model cells.
    pub per_model: Seq<Seq<char>>,
    /// Burn-rate value.
    pub burn_rate: Seq<char>,
}

impl View for WatchMetricRow {
    type V = MetricFacts;

    open spec fn view(&self) -> MetricFacts {
        MetricFacts {
            metric: self.metric@,
            today: self.today@,
            per_model: text::texts(self.per_model@),
            burn_rate: self.burn_rate@,
        }
    }
}

/// What metric rows say.
pub open spec fn metrics_facts(rows: Seq<WatchMetricRow>) -> Seq<MetricFacts> {
    rows.map_values(|row: WatchMetricRow| row@)
}

/// A counter of a usage.
#[derive(Clone, Copy, Debug, PartialEq, Eq, Structural)]
pub enum TokenMetric {
    /// Input tokens.
    Input,
    /// Cached input tokens.
    Cache,
    /// Output tokens.
    Output,
    /// Reasoning output tokens.
    Reasoning,
    /// Billable tokens.
    Total,
}

/// The value of a counter.
pub open spec fn metric_of(usage: UsageTotals, metric: TokenMetric) -> u64 {
    match metric {
        TokenMetric::Input => usage.input,
        TokenMetric::Cache => usage.cached_input,
        TokenMetric::Output => usage.output,
        TokenMetric::Reasoning => usage.reasoning_output,
        TokenMetric::Total => usage.total,
    }
}

fn select_metric(usage: &UsageTotals, metric: TokenMetric) -> (value: u64)
    ensures
        value == metric_of(*usage, metric),
{
    match metric {
        TokenMetric::Input => usage.input,
        TokenMetric::Cache => usage.cached_input,
        TokenMetric::Output => usage.output,
        TokenMetric::Reasoning => usage.reasoning_output,
        TokenMetric::Total => usage.total,
    }
}

/// A count as it is shown.
pub open spec fn shown(value: u64, number_format: NumberFormat) -> Seq<char> {
    number::count_text(value as nat, number_format)
}

/// The per-hour cells of a counter.
pub open spec fn token_cells(
    columns: Seq<ColumnFacts>,
    metric: TokenMetric,
    nanos: u128,
    number_format: NumberFormat,
) -> Seq<Seq<char>> {
    columns.map_values(
        |column: ColumnFacts|
            shown(
                snapshot::hourly(metric_of(column.usage, metric) as int, nanos as int) as u64,
                number_format,
            ),
    )
}

/// The cost cells.
pub open spec fn cost_cells(columns: Seq<ColumnFacts>) -> Seq<Seq<char>> {
    columns.map_values(|column: ColumnFacts| number::currency_text(column.cost))
}

fn format_token_cells(
    columns: &Vec<WatchBurnColumn>,
    metric: TokenMetric,
    nanos: u128,
    number_format: NumberFormat,
) -> (cells: Vec<String>)
    requires
        nanos < DURATION_LIMIT,
    ensures
        text::texts(cells@) == token_cells(columns_facts(columns@), metric, nanos, number_format),
{
    let mut cells: Vec<String> = Vec::new();
    let mut i: usize = 0;
    while i < columns.len()
        invariant
            i <= columns.len(),
            nanos < DURATION_LIMIT,
            cells.len() == i,
            forall|k: int|
                0 <= k < i ==> (#[trigger] cells[k])@ == shown(
                    snapshot::hourly(
                        metric_of(columns[k].usage, metric) as int,
                        nanos as int,
                    ) as u64,
                    number_format,
                ),
        decreases columns.len() - i,
    {
        let value: u64 = scale_usage_per_hour(select_metric(&columns[i].usage, metric), nanos);
        cells.push(format_u64_with(value, number_format));
        i += 1;
    }
    assert(text::texts(cells@) =~= token_cells(
        columns_facts(columns@),
        metric,
        nanos,
        number_format,
    ));
    cells
}

fn format_cost_cells(columns: &Vec<WatchBurnColumn>) -> (cells: Vec<String>)
    ensures
        text::texts(cells@) == cost_cells(columns_facts(columns@)),
{
    let mut cells: Vec<String> = Vec::new();
    let mut i: usize = 0;
    while i < columns.len()
        invariant
            i <= columns.len(),
            cells.len() == i,
            forall|k: int|
                0 <= k < i ==> (#[trigger] cells[k])@ == number::currency_text(
                    columns[k].cost_usd_per_hour,
                ),
        decreases columns.len() - i,
    {
        cells.push(format_currency(columns[i].cost_usd_per_hour));
        i += 1;
    }
    assert(text::texts(cells@) =~= cost_cells(columns_facts(columns@)));
    cells
}

/// The row of a counter.
pub open spec fn token_row(
    name: Seq<char>,
    metric: TokenMetric,
    today: u64,
    rate: u64,
    columns: Seq<ColumnFacts>,
    nanos: u128,
    number_format: NumberFormat,
) -> MetricFacts {
    MetricFacts {
        metric: name,
        today: shown(today, number_format),
        per_model: token_cells(columns, metric, nanos, number_format),
        burn_rate: shown(rate, number_format),
    }
}

/// The rows of the watch table. Cached input has a row of its own where it is shown.
pub open spec fn metric_rows(
    snapshot: WatchSnapshot,
    number_format: NumberFormat,
    columns: Seq<ColumnFacts>,
    mode: CacheReadMode,
) -> Seq<MetricFacts> {
    let totals = snapshot.totals;
    let rate = snapshot.burn_rate;
    let nanos = rate.window_duration;
    let input = token_row(
        "Input"@,
        TokenMetric::Input,
        totals.input_tokens,
        rate.input_tokens_per_hour,
        columns,
        nanos,
        number_format,
    );
    let cache = token_row(
        "Cache"@,
        TokenMetric::Cache,
        totals.cached_input_tokens,
        rate.cached_input_tokens_per_hour,
        columns,
        nanos,
        number_format,
    );
    let output = token_row(
        "Output"@,
        TokenMetric::Output,
        totals.output_tokens,
        rate.output_tokens_per_hour,
        columns,
        nanos,
        number_format,
    );
    let reasoning = token_row(
        "Reasoning"@,
        TokenMetric::Reasoning,
        totals.reasoning_output_tokens,
        rate.reasoning_output_tokens_per_hour,
        columns,
        nanos,
        number_format,
    );
    let total = token_row(
        "Total"@,
        TokenMetric::Total,
        totals.total_tokens,
        rate.total_tokens_per_hour,
        columns,
        nanos,
        number_format,
    );
    (if mode == CacheReadMode::Include {
        seq![input, cache]
    } else {
        seq![input]
    }).push(output).push(reasoning).push(total).push(cost_row(totals.cost_usd, rate.cost_usd_per_hour, columns))
}

/// The row of costs.
pub open spec fn cost_row(today: UsdAmount, rate: UsdAmount, columns: Seq<ColumnFacts>) -> MetricFacts {
    MetricFacts {
        metric: "Cost"@,
        today: number::currency_text(today),
        per_model: cost_cells(columns),
        burn_rate: number::currency_text(rate),
    }
}

fn push_token_row(
    rows: &mut Vec<WatchMetricRow>,
    name: &'static str,
    metric: TokenMetric,
    today: u64,
    rate: u64,
    columns: &Vec<WatchBurnColumn>,
    nanos: u128,
    number_format: NumberFormat,
)
    requires
        nanos < DURATION_LIMIT,
    ensures
        metrics_facts(final(rows)@) == metrics_facts(old(rows)@).push(
            token_row(
                name@,
                metric,
                today,
                rate,
                columns_facts(columns@),
                nanos,
                number_format,
            ),
        ),
        rows_cover(old(rows)@, columns.len() as nat) ==> rows_cover(
            final(rows)@,
            columns.len() as nat,
        ),
{
    let ghost before = metrics_facts(rows@);
    let row = WatchMetricRow {
        metric: name,
        today: format_u64_with(today, number_format),
        per_model: format_token_cells(columns, metric, nanos, number_format),
        burn_rate: format_u64_with(rate, number_format),
    };
    let ghost facts = row@;
    assert(facts.per_model.len() == row.per_model.len());
    assert(columns_facts(columns@).len() == columns.len());
    rows.push(row);
    assert(metrics_facts(rows@) =~= before.push(facts));
}

fn push_cost_row(
    rows: &mut Vec<WatchMetricRow>,
    today: UsdAmount,
    rate: UsdAmount,
    columns: &Vec<WatchBurnColumn>,
)
    ensures
        metrics_facts(final(rows)@) == metrics_facts(old(rows)@).push(
            cost_row(today, rate, columns_facts(columns@)),
        ),
        rows_cover(old(rows)@, columns.len() as nat) ==> rows_cover(
            final(rows)@,
            columns.len() as nat,
        ),
{
    let ghost before = metrics_facts(rows@);
    let row = WatchMetricRow {
        metric: "Cost",
        today: format_currency(today),
        per_model: format_cost_cells(columns),
        burn_rate: format_currency(rate),
    };
    let ghost facts = row@;
    assert(facts.per_model.len() == row.per_model.len());
    assert(columns_facts(columns@).len() == columns.len());
    rows.push(row);
    assert(metrics_facts(rows@) =~= before.push(facts));
}

/// Build all metric rows for watch mode.
pub fn watch_rows(
    snapshot: &WatchSnapshot,
    number_format: NumberFormat,
    model_columns: &Vec<WatchBurnColumn>,
    cache_read_mode: CacheReadMode,
) -> (rows: Vec<WatchMetricRow>)
    requires
        snapshot.burn_rate.window_duration < DURATION_LIMIT,
    ensures
        metrics_facts(rows@) == metric_rows(
            *snapshot,
            number_format,
            columns_facts(model_columns@),
            cache_read_mode,
        ),
        rows_cover(rows@, model_columns.len() as nat),
{
    let nanos: u128 = snapshot.burn_rate.window_duration;
    let mut rows: Vec<WatchMetricRow> = Vec::new();
    assert(metrics_facts(rows@) =~= Seq::<MetricFacts>::empty());
    push_token_row(
        &mut rows,
        "Input",
        TokenMetric::Input,
        snapshot.totals.input_tokens,
        snapshot.burn_rate.input_tokens_per_hour,
        model_columns,
        nanos,
        number_format,
    );
    if cache_read_mode == CacheReadMode::Include {
        push_token_row(
            &mut rows,
            "Cache",
            TokenMetric::Cache,
            snapshot.totals.cached_input_tokens,
            snapshot.burn_rate.cached_input_tokens_per_hour,
            model_columns,
            nanos,
            number_format,
        );
    }
    push_token_row(
        &mut rows,
        "Output",
        TokenMetric::Output,
        snapshot.totals.output_tokens,
        snapshot.burn_rate.output_tokens_per_hour,
        model_columns,
        nanos,
        number_format,
    );
    push_token_row(
        &mut rows,
        "Reasoning",
        TokenMetric::Reasoning,
        snapshot.totals.reasoning_output_tokens,
        snapshot.burn_rate.reasoning_output_tokens_per_hour,
        model_columns,
        nanos,
        number_format,
    );
    push_token_row(
        &mut rows,
        "Total",
        TokenMetric::Total,
        snapshot.totals.total_tokens,
        snapshot.burn_rate.total_tokens_per_hour,
        model_columns,
        nanos,
        number_format,
    );
    push_cost_row(
        &mut rows,
        snapshot.totals.cost_usd,
        snapshot.burn_rate.cost_usd_per_hour,
        model_columns,
    );
    rows
}

/// One stacked watch-table block.
#[derive(Clone, Copy, Debug, PartialEq, Eq, Structural)]
pub struct WatchTableBlock {
    /// Whether this block shows the `Today` aggregate column.
    pub include_today: bool,
    /// Start offset inside the per-model column list.
    pub model_start: usize,
    /// Exclusive end offset inside the per-model column list.
    pub model_end: usize,
    /// Whether this block shows the aggregate burn-rate column.
    pub include_burn_rate: bool,
}

impl WatchTableBlock {
    /// Build one block descriptor over a contiguous model column range.
    pub fn new(
        include_today: bool,
        model_start: usize,
        model_end: usize,
        include_burn_rate: bool,
    ) -> (block: WatchTableBlock)
        ensures
            block == (WatchTableBlock { include_today, model_start, model_end, include_burn_rate }),
    {
        WatchTableBlock { include_today, model_start, model_end, include_burn_rate }
    }

    /// How many model columns the block shows.
    pub open spec fn count(self) -> nat {
        if self.model_start < self.model_end {
            (self.model_end - self.model_start) as nat
        } else {
            0
        }
    }

    /// The block lies within a number of model columns.
    pub open spec fn within(self, columns: nat) -> bool {
        self.model_start <= self.model_end <= columns
    }

    /// Return how many model columns are projected into this block.
    pub fn model_count(self) -> (count: usize)
        ensures
            count == self.count(),
    {
        self.model_end.saturating_sub(self.model_start)
    }
}

/// The cells of a block: a label, the value of the day where it is shown, the model cells in its
/// range, and the burn rate where it is shown.
pub open spec fn block_cells(
    block: WatchTableBlock,
    label: Seq<char>,
    today: Seq<char>,
    models: Seq<Seq<char>>,
    rate: Seq<char>,
) -> Seq<Seq<char>> {
    seq![label] + (if block.include_today {
        seq![today]
    } else {
        Seq::empty()
    }) + models.subrange(block.model_start as int, block.model_end as int) + (
    if block.include_burn_rate {
        seq![rate]
    } else {
        Seq::empty()
    })
}

fn project_cells(
    block: &WatchTableBlock,
    label: &str,
    today: &str,
    models: &Vec<String>,
    rate: &str,
) -> (cells: Vec<String>)
    requires
        block.within(models.len() as nat),
    ensures
        text::texts(cells@) == block_cells(
            *block,
            label@,
            today@,
            text::texts(models@),
            rate@,
        ),
{
    let mut cells: Vec<String> = Vec::new();
    cells.push(String::from_str(label));
    if block.include_today {
        cells.push(String::from_str(today));
    }
    let ghost head = seq![label@] + (if block.include_today {
        seq![today@]
    } else {
        Seq::<Seq<char>>::empty()
    });
    let ghost all = text::texts(models@);
    assert(text::texts(cells@) =~= head);
    assert(head + all.subrange(block.model_start as int, block.model_start as int) =~= head);
    let mut i: usize = block.model_start;
    while i < block.model_end
        invariant
            block.within(models.len() as nat),
            block.model_start <= i <= block.model_end,
            all == text::texts(models@),
            text::texts(cells@) == head + all.subrange(block.model_start as int, i as int),
        decreases block.model_end - i,
    {
        let ghost before = text::texts(cells@);
        cells.push(models[i].clone());
        proof {
            assert(text::texts(cells@) =~= before.push(models[i as int]@));
            assert(all.subrange(block.model_start as int, i + 1) =~= all.subrange(
                block.model_start as int,
                i as int,
            ).push(models[i as int]@));
            assert(text::texts(cells@) =~= head + all.subrange(block.model_start as int, i + 1));
        }
        i += 1;
    }
    let ghost before = text::texts(cells@);
    if block.include_burn_rate {
        cells.push(String::from_str(rate));
        assert(text::texts(cells@) =~= before.push(rate@));
    }
    assert(text::texts(cells@) =~= block_cells(*block, label@, today@, all, rate@));
    cells
}

/// The headings of a block.
pub open spec fn block_headers(headers: Seq<Seq<char>>, block: WatchTableBlock) -> Seq<Seq<char>> {
    block_cells(block, "Metric"@, "Today"@, headers, "Burn Rate (/h)"@)
}

/// Build the projected headers for one stacked watch block.
pub fn watch_block_headers(model_headers: &Vec<String>, block: &WatchTableBlock) -> (headers: Vec<
    String,
>)
    requires
        block.within(model_headers.len() as nat),
    ensures
        text::texts(headers@) == block_headers(text::texts(model_headers@), *block),
{
    project_cells(block, "Metric", "Today", model_headers, "Burn Rate (/h)")
}

/// The rows of a block.
pub open spec fn block_rows(rows: Seq<MetricFacts>, block: WatchTableBlock) -> Seq<table::RowFacts> {
    rows.map_values(
        |row: MetricFacts|
            table::RowFacts {
                cells: block_cells(block, row.metric, row.today, row.per_model, row.burn_rate),
                kind: DisplayRowKind::Subtotal,
            },
    )
}

/// Whether every row has a cell for each model column.
pub open spec fn rows_cover(rows: Seq<WatchMetricRow>, columns: nat) -> bool {
    forall|i: int| 0 <= i < rows.len() ==> (#[trigger] rows[i]).per_model.len() == columns
}

/// How many columns a block has.
pub open spec fn block_columns(block: WatchTableBlock) -> nat {
    1 + (if block.include_today {
        1nat
    } else {
        0nat
    }) + block.count() + (if block.include_burn_rate {
        1nat
    } else {
        0nat
    })
}

/// Project the logical watch rows into one stacked block.
pub fn watch_block_rows(rows: &Vec<WatchMetricRow>, block: &WatchTableBlock) -> (projected: Vec<
    DisplayRow,
>)
    requires
        forall|i: int|
            0 <= i < rows.len() ==> block.within((#[trigger] rows[i]).per_model.len() as nat),
    ensures
        table::rows_facts(projected@) == block_rows(metrics_facts(rows@), *block),
        forall|i: int|
            0 <= i < projected.len() ==> (#[trigger] projected[i]).cells.len() == block_columns(
                *block,
            ),
{
    let mut projected: Vec<DisplayRow> = Vec::new();
    let mut i: usize = 0;
    while i < rows.len()
        invariant
            i <= rows.len(),
            forall|k: int|
                0 <= k < rows.len() ==> block.within((#[trigger] rows[k]).per_model.len() as nat),
            projected.len() == i,
            forall|k: int|
                0 <= k < i ==> (#[trigger] projected[k])@ == (table::RowFacts {
                    cells: block_cells(
                        *block,
                        rows[k].metric@,
                        rows[k].today@,
                        text::texts(rows[k].per_model@),
                        rows[k].burn_rate@,
                    ),
                    kind: DisplayRowKind::Subtotal,
                }) && projected[k].cells.len() == block_columns(*block),
        decreases rows.len() - i,
    {
        let row = &rows[i];
        let cells = project_cells(
            block,
            row.metric,
            row.today.as_str(),
            &row.per_model,
            row.burn_rate.as_str(),
        );
        assert(text::texts(cells@).len() == cells.len());
        projected.push(DisplayRow { cells, kind: DisplayRowKind::Subtotal });
        i += 1;
    }
    assert(table::rows_facts(projected@) =~= block_rows(metrics_facts(rows@), *block));
    projected
}

/// Blank model cells.
pub open spec fn blank_models(count: nat) -> Seq<Seq<char>> {
    Seq::new(count, |i: int| Seq::<char>::empty())
}

/// The row of a block that tells when the table was updated.
pub open spec fn updated_row(
    date: Seq<char>,
    updated_time: Seq<char>,
    block: WatchTableBlock,
) -> table::RowFacts {
    table::RowFacts {
        cells: seq!["Updated"@] + (if block.include_today {
            seq![date]
        } else {
            Seq::empty()
        }) + blank_models(block.count()) + (if block.include_burn_rate {
            seq![updated_time]
        } else {
            Seq::empty()
        }),
        kind: DisplayRowKind::GrandTotal,
    }
}

/// Build the repeated `Updated` row for one stacked block.
pub fn watch_updated_row(snapshot: &WatchSnapshot, block: &WatchTableBlock) -> (row: DisplayRow)
    ensures
        row@ == updated_row(snapshot.date@, snapshot.updated_time@, *block),
        row.cells.len() == block_columns(*block),
{
    let mut cells: Vec<String> = Vec::new();
    cells.push(String::from_str("Updated"));
    if block.include_today {
        cells.push(snapshot.date.clone());
    }
    let ghost head = seq!["Updated"@] + (if block.include_today {
        seq![snapshot.date@]
    } else {
        Seq::<Seq<char>>::empty()
    });
    assert(text::texts(cells@) =~= head);
    assert(head + blank_models(0) =~= head);
    let count: usize = block.model_count();
    let mut i: usize = 0;
    while i < count
        invariant
            i <= count,
            text::texts(cells@) == head + blank_models(i as nat),
        decreases count - i,
    {
        let ghost before = text::texts(cells@);
        cells.push(String::new());
        assert(text::texts(cells@) =~= before.push(Seq::<char>::empty()));
        i += 1;
        assert(text::texts(cells@) =~= head + blank_models(i as nat));
    }
    let ghost before = text::texts(cells@);
    if block.include_burn_rate {
        cells.push(snapshot.updated_time.clone());
        assert(text::texts(cells@) =~= before.push(snapshot.updated_time@));
    }
    proof {
        let expected = updated_row(snapshot.date@, snapshot.updated_time@, *block);
        assert(text::texts(cells@) =~= expected.cells);
        assert(text::texts(cells@).len() == cells.len());
    }
    DisplayRow { cells, kind: DisplayRowKind::GrandTotal }
}

} // verus!
