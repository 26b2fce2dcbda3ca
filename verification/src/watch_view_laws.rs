//! What holds of the watch screen: its table, its graph and the order of its parts.

use vstd::prelude::*;

use crate::limits_view;
use crate::model;
use crate::model::{CacheReadMode, NumberFormat, UsageTotals, UsdAmount};
use crate::number;
use crate::report_view;
use crate::snapshot;
use crate::snapshot::{BurnRateHistoryPoint, WatchModelBurn, WatchSnapshot};
use crate::table;
use crate::table::{BorderStyle, DisplayRowKind, TableRenderConfig, TableRuleKind, TableStyle};
use crate::text;
use crate::watch_graph;
use crate::watch_graph::{GraphScales, WatchGraphHorizon};
use crate::watch_layout;
use crate::watch_layout::LayoutFacts;
use crate::watch_screen;
use crate::watch_screen::WatchRenderRequest;
use crate::watch_table;
use crate::watch_table::{ColumnFacts, MetricFacts, WatchTableBlock};

verus! {

/// Whether any tokens were counted.
pub open spec fn counts_any(usage: UsageTotals) -> bool {
    usage.input > 0 || usage.cached_input > 0 || usage.output > 0 || usage.reasoning_output > 0
        || usage.total > 0
}

/// A model has one column for what is counted for it by name and one for what falls to it as
/// fallback, each with its own usage and rate and only where it has tokens or costs; the columns of
/// the models follow one another.
pub proof fn law_models_burn_by_their_parts(
    models: Seq<(String, WatchModelBurn)>,
    name: String,
    burn: WatchModelBurn,
)
    ensures
        ({
            let before = watch_table::burn_columns(models);
            let after = watch_table::burn_columns(models.push((name, burn)));
            let explicit = model::explicit_part(burn.breakdown);
            let fallback = burn.breakdown.fallback_usage;
            let by_name = counts_any(explicit) || burn.breakdown.cost_usd.positive;
            let by_fallback = counts_any(fallback) || burn.breakdown.fallback_cost_usd.positive;
            let n = before.len() as int;
            &&& models.len() == 0 ==> n == 0
            &&& after.take(n) == before
            &&& after.len() == n + (if by_name {
                1int
            } else {
                0
            }) + (if by_fallback {
                1int
            } else {
                0
            })
            &&& by_name ==> {
                &&& after[n].label == name@ + " /h"@
                &&& after[n].usage == explicit
                &&& after[n].cost == burn.cost_usd_per_hour
            }
            &&& by_fallback ==> {
                &&& after.last().label == name@ + " (fallback) /h"@
                &&& after.last().usage == fallback
                &&& after.last().cost == burn.fallback_cost_usd_per_hour
            }
        }),
{
    let before = watch_table::burn_columns(models);
    let after = watch_table::burn_columns(models.push((name, burn)));
    assert(models.push((name, burn)).drop_last() =~= models);
    assert(after.take(before.len() as int) =~= before);
}

/// Whether a row of the watch table shows a token count: of the day, of each model by the hour and
/// of all models by the hour.
pub open spec fn shows_tokens(
    row: MetricFacts,
    name: Seq<char>,
    today: u64,
    rate: u64,
    columns: Seq<ColumnFacts>,
    counts: spec_fn(UsageTotals) -> u64,
    nanos: u128,
    number_format: NumberFormat,
) -> bool {
    &&& row.metric == name
    &&& row.today == number::count_text(today as nat, number_format)
    &&& row.burn_rate == number::count_text(rate as nat, number_format)
    &&& row.per_model.len() == columns.len()
    &&& forall|i: int|
        0 <= i < columns.len() ==> #[trigger] row.per_model[i] == number::count_text(
            snapshot::hourly(counts(columns[i].usage) as int, nanos as int) as u64 as nat,
            number_format,
        )
}

/// Whether a row of the watch table shows costs: of the day, of each model by the hour and of all
/// models by the hour.
pub open spec fn shows_costs(
    row: MetricFacts,
    today: UsdAmount,
    rate: UsdAmount,
    columns: Seq<ColumnFacts>,
) -> bool {
    &&& row.metric == "Cost"@
    &&& row.today == number::currency_text(today)
    &&& row.burn_rate == number::currency_text(rate)
    &&& row.per_model.len() == columns.len()
    &&& forall|i: int|
        0 <= i < columns.len() ==> #[trigger] row.per_model[i] == number::currency_text(
            columns[i].cost,
        )
}

/// The rows of the watch table: input, cache reads where they are reported, output, reasoning and
/// total tokens, each with the counts of its own, and the cost at the end.
pub proof fn law_metrics_are_listed(
    snapshot: WatchSnapshot,
    number_format: NumberFormat,
    columns: Seq<ColumnFacts>,
    mode: CacheReadMode,
)
    ensures
        ({
            let rows = watch_table::metric_rows(snapshot, number_format, columns, mode);
            let totals = snapshot.totals;
            let rate = snapshot.burn_rate;
            let nanos = rate.window_duration;
            let at: int = if mode == CacheReadMode::Include {
                2
            } else {
                1
            };
            &&& rows.len() == at + 4
            &&& shows_tokens(
                rows[0],
                "Input"@,
                totals.input_tokens,
                rate.input_tokens_per_hour,
                columns,
                |usage: UsageTotals| usage.input,
                nanos,
                number_format,
            )
            &&& mode == CacheReadMode::Include ==> shows_tokens(
                rows[1],
                "Cache"@,
                totals.cached_input_tokens,
                rate.cached_input_tokens_per_hour,
                columns,
                |usage: UsageTotals| usage.cached_input,
                nanos,
                number_format,
            )
            &&& shows_tokens(
                rows[at],
                "Output"@,
                totals.output_tokens,
                rate.output_tokens_per_hour,
                columns,
                |usage: UsageTotals| usage.output,
                nanos,
                number_format,
            )
            &&& shows_tokens(
                rows[at + 1],
                "Reasoning"@,
                totals.reasoning_output_tokens,
                rate.reasoning_output_tokens_per_hour,
                columns,
                |usage: UsageTotals| usage.reasoning_output,
                nanos,
                number_format,
            )
            &&& shows_tokens(
                rows[at + 2],
                "Total"@,
                totals.total_tokens,
                rate.total_tokens_per_hour,
                columns,
                |usage: UsageTotals| usage.total,
                nanos,
                number_format,
            )
            &&& shows_costs(rows[at + 3], totals.cost_usd, rate.cost_usd_per_hour, columns)
        }),
{
}

/// In a block of the watch table every value stands under its heading: the day where the block shows
/// it, each model that the block shows under its label, and the rate where the block shows it.
pub proof fn law_blocks_show_their_columns(
    headers: Seq<Seq<char>>,
    rows: Seq<MetricFacts>,
    block: WatchTableBlock,
    k: int,
)
    requires
        block.model_start <= block.model_end <= headers.len(),
        0 <= k < rows.len(),
        rows[k].per_model.len() == headers.len(),
    ensures
        ({
            let heads = watch_table::block_headers(headers, block);
            let all = watch_table::block_rows(rows, block);
            let cells = all[k].cells;
            let first: int = if block.include_today {
                2
            } else {
                1
            };
            let shown = block.model_end - block.model_start;
            &&& all.len() == rows.len()
            &&& all[k].kind == DisplayRowKind::Subtotal
            &&& heads.len() == cells.len() == first + shown + if block.include_burn_rate {
                1int
            } else {
                0
            }
            &&& heads[0] == "Metric"@ && cells[0] == rows[k].metric
            &&& block.include_today ==> heads[1] == "Today"@ && cells[1] == rows[k].today
            &&& forall|i: int|
                first <= i < first + shown ==> #[trigger] heads[i] == headers[block.model_start + i
                    - first] && cells[i] == rows[k].per_model[block.model_start + i - first]
            &&& block.include_burn_rate ==> heads.last() == "Burn Rate (/h)"@ && cells.last()
                == rows[k].burn_rate
        }),
{
}

/// The last row of a block tells when it was updated: the date under the day and the time under the
/// rate, where the block shows them, and nothing under the models.
pub proof fn law_update_row_tells_the_time(
    headers: Seq<Seq<char>>,
    date: Seq<char>,
    updated_time: Seq<char>,
    block: WatchTableBlock,
)
    requires
        block.model_start <= block.model_end <= headers.len(),
    ensures
        ({
            let row = watch_table::updated_row(date, updated_time, block);
            let first: int = if block.include_today {
                2
            } else {
                1
            };
            let shown = block.model_end - block.model_start;
            &&& row.kind == DisplayRowKind::GrandTotal
            &&& row.cells.len() == watch_table::block_headers(headers, block).len()
            &&& row.cells[0] == "Updated"@
            &&& block.include_today ==> row.cells[1] == date
            &&& forall|i: int| first <= i < first + shown ==> (#[trigger] row.cells[i]).len() == 0
            &&& block.include_burn_rate ==> row.cells.last() == updated_time
        }),
{
}

proof fn lemma_layout_blocks(
    facts: LayoutFacts,
    start: int,
    today: bool,
    layout: Seq<WatchTableBlock>,
    k: int,
)
    requires
        facts.valid_layout(start, today, layout),
        0 <= start,
        0 <= k < layout.len(),
        facts.headers.len() <= usize::MAX,
    ensures
        layout[0].model_start == start,
        layout[k].model_start < layout[k].model_end <= facts.headers.len(),
        layout[k].include_today == (k == 0 && today),
        layout[k].include_burn_rate == (k == layout.len() - 1),
        k > 0 ==> layout[k].model_start == layout[k - 1].model_end,
        k == layout.len() - 1 ==> layout[k].model_end == facts.headers.len(),
        table::frame_width(facts.block_widths(layout[k])) <= facts.terminal_width
            || layout[k].model_end == layout[k].model_start + 1 || table::frame_width(
            facts.block_widths(layout[k]),
        ) > usize::MAX,
    decreases layout.len(),
{
    let end = layout[0].model_end as int;
    if k > 0 {
        let rest = layout.skip(1);
        lemma_layout_blocks(facts, end, false, rest, k - 1);
        assert(rest[k - 1] == layout[k]);
        if k > 1 {
            assert(rest[k - 2] == layout[k - 1]);
        }
        assert(rest[0] == layout[1]);
    } else {
        if end < facts.headers.len() {
            assert(facts.valid_layout(end, false, layout.skip(1)));
            assert(layout.skip(1).len() > 0);
        }
    }
}

/// Where the models are spread over several blocks, the first block alone shows the day and the last
/// alone the rate; each begins with the model behind the last one of the block before it, from the
/// first model to the last; and each fits the terminal or shows one model only.
pub proof fn law_models_are_spread_over_blocks(facts: LayoutFacts, k: int)
    requires
        0 < facts.headers.len() <= usize::MAX,
        0 <= k < facts.best_layout(0, true).len(),
    ensures
        ({
            let layout = facts.best_layout(0, true);
            &&& layout[0].model_start == 0
            &&& layout[k].model_start < layout[k].model_end
            &&& layout[k].include_today == (k == 0)
            &&& layout[k].include_burn_rate == (k == layout.len() - 1)
            &&& k > 0 ==> layout[k].model_start == layout[k - 1].model_end
            &&& k == layout.len() - 1 ==> layout[k].model_end == facts.headers.len()
            &&& layout[k].model_end > layout[k].model_start + 1 && table::frame_width(
                facts.block_widths(layout[k]),
            ) <= usize::MAX ==> table::frame_width(facts.block_widths(layout[k]))
                <= facts.terminal_width
        }),
{
    watch_layout::lemma_best_exists(facts, 0, true);
    watch_layout::lemma_best_valid(facts, 0, true, 1);
    lemma_layout_blocks(facts, 0, true, facts.best_layout(0, true), k);
}

proof fn lemma_first_block_is_wide(
    facts: LayoutFacts,
    start: int,
    today: bool,
    end: int,
    layout: Seq<WatchTableBlock>,
)
    requires
        0 <= start < end <= facts.headers.len() + 1,
        facts.headers.len() <= usize::MAX,
        facts.valid_layout(start, today, layout),
        layout[0].model_end >= end,
        layout.len() == facts.best_with_end(start, today, end).len(),
    ensures
        layout[0].model_end <= facts.best_with_end(start, today, end)[0].model_end,
    decreases facts.headers.len() + 1 - end,
{
    let best = facts.best_with_end(start, today, end);
    let wider = facts.best_with_end(start, today, end + 1);
    let candidate = facts.layout_with(start, today, end);
    assert(candidate[0] == facts.block(today, start, end));
    if layout[0].model_end > end {
        watch_layout::lemma_best_minimal(facts, start, today, end + 1, layout);
        assert(best == wider);
        lemma_first_block_is_wide(facts, start, today, end + 1, layout);
    } else {
        lemma_best_end(facts, start, today, end);
    }
}

proof fn lemma_best_end(facts: LayoutFacts, start: int, today: bool, end: int)
    requires
        0 <= start < end <= facts.headers.len() + 1,
        facts.headers.len() <= usize::MAX,
        facts.best_with_end(start, today, end).len() > 0,
    ensures
        facts.best_with_end(start, today, end)[0].model_end >= end,
    decreases facts.headers.len() + 1 - end,
{
    let wider = facts.best_with_end(start, today, end + 1);
    let candidate = facts.layout_with(start, today, end);
    assert(candidate[0] == facts.block(today, start, end));
    if wider.len() > 0 {
        lemma_best_end(facts, start, today, end + 1);
    }
}

/// Of the layouts with the fewest blocks the one with the widest first block is taken.
pub proof fn law_first_block_is_as_wide_as_possible(
    facts: LayoutFacts,
    layout: Seq<WatchTableBlock>,
)
    requires
        0 < facts.headers.len() <= usize::MAX,
        facts.valid_layout(0, true, layout),
        layout.len() == facts.best_layout(0, true).len(),
    ensures
        layout[0].model_end <= facts.best_layout(0, true)[0].model_end,
{
    lemma_first_block_is_wide(facts, 0, true, 1, layout);
}

/// The table is shown in one block where the width of the terminal is not known, where no models are
/// shown and where the block fits; else it is spread over blocks.
pub proof fn law_table_is_whole_where_it_fits(facts: LayoutFacts, width_known: bool)
    requires
        facts.headers.len() <= usize::MAX,
    ensures
        ({
            let full = WatchTableBlock {
                include_today: true,
                model_start: 0,
                model_end: facts.headers.len() as usize,
                include_burn_rate: true,
            };
            let fits = table::frame_width(facts.block_widths(full)) <= facts.terminal_width;
            &&& !width_known || facts.headers.len() == 0 || fits ==> watch_layout::table_blocks(
                facts,
                width_known,
            ) == seq![full]
            &&& width_known && facts.headers.len() > 0 && !fits && facts.terminal_width < usize::MAX
                ==> watch_layout::table_blocks(facts, width_known) == facts.best_layout(0, true)
        }),
{
}

/// A plain block is a table of its own: its head, its rows with the update row as the last, and the
/// closing rule; the blocks follow one another with an empty line between them.
pub proof fn law_blocks_follow_one_another(
    facts: LayoutFacts,
    config: TableRenderConfig,
    blocks: Seq<WatchTableBlock>,
    block: WatchTableBlock,
)
    requires
        config.style == TableStyle::Plain,
    ensures
        ({
            let headers = watch_table::block_headers(facts.headers, block);
            let rows = watch_table::block_rows(facts.rows, block).push(
                watch_table::updated_row(facts.date, facts.updated_time, block),
            );
            let widths = table::table_widths(headers, rows, facts.number_format);
            let whole = table::header_text(config, headers, widths) + watch_layout::rows_text(
                config,
                headers,
                widths,
                rows,
            ) + table::rule_text(TableRuleKind::Bottom, config.borders, widths) + seq!['\n'];
            &&& facts.block_widths(block) == widths
            &&& watch_layout::blocks_text(facts, config, seq![block]) == whole
            &&& blocks.len() > 0 ==> watch_layout::blocks_text(facts, config, blocks.push(block))
                == watch_layout::blocks_text(facts, config, blocks) + seq!['\n'] + whole
        }),
{
    let one = seq![block];
    assert(one.drop_last() =~= Seq::<WatchTableBlock>::empty());
    assert(watch_layout::blocks_text(facts, config, one.drop_last()) =~= Seq::<char>::empty());
    assert(watch_layout::blocks_text(facts, config, one) =~= watch_layout::block_text(
        facts,
        config,
        block,
    ));
    assert(blocks.push(block).drop_last() =~= blocks);
}

/// The rows of a block are written in order, each in a line of its own.
pub proof fn law_block_rows_are_written_line_by_line(
    config: TableRenderConfig,
    headers: Seq<Seq<char>>,
    widths: Seq<nat>,
    rows: Seq<table::RowFacts>,
    row: table::RowFacts,
)
    ensures
        watch_layout::rows_text(config, headers, widths, Seq::empty()) == Seq::<char>::empty(),
        watch_layout::rows_text(config, headers, widths, rows.push(row)) == watch_layout::rows_text(
            config,
            headers,
            widths,
            rows,
        ) + table::row_text(config, headers, widths, row.cells, table::row_element(row.kind))
            + seq!['\n'],
{
    assert(rows.push(row).drop_last() =~= rows);
}

/// The table of a snapshot has a column for each part of a model that burns, where they are asked
/// for, and none otherwise, each under its label, and shows the date and the time of the snapshot.
pub proof fn law_snapshot_is_laid_out(
    snapshot: WatchSnapshot,
    number_format: NumberFormat,
    show_model_burn_rate: bool,
    mode: CacheReadMode,
    terminal_width: Option<usize>,
)
    ensures
        ({
            let facts = watch_layout::snapshot_layout(
                snapshot,
                number_format,
                show_model_burn_rate,
                mode,
                terminal_width,
            );
            let columns = if show_model_burn_rate {
                watch_table::burn_columns(snapshot.per_model.entries@)
            } else {
                Seq::empty()
            };
            &&& facts.headers.len() == columns.len()
            &&& forall|i: int| 0 <= i < columns.len() ==> #[trigger] facts.headers[i]
                == columns[i].label
            &&& facts.rows == watch_table::metric_rows(snapshot, number_format, columns, mode)
            &&& facts.date == snapshot.date@
            &&& facts.updated_time == snapshot.updated_time@
            &&& facts.number_format == number_format
            &&& terminal_width matches Some(width) ==> facts.terminal_width == width
        }),
{
}

/// A horizon has a point for each quarter of its hours and one for its start.
pub proof fn law_horizons_count_quarter_hours()
    ensures
        watch_graph::horizon_points(WatchGraphHorizon::EightHours) == 8 * 4 + 1,
        watch_graph::horizon_points(WatchGraphHorizon::FourHours) == 4 * 4 + 1,
{
}

/// The graph shows the latest points of the history, and nothing where there are not enough.
pub proof fn law_latest_points_are_shown(
    history: Seq<BurnRateHistoryPoint>,
    horizon: WatchGraphHorizon,
)
    ensures
        ({
            let wanted = watch_graph::horizon_points(horizon) as int;
            match watch_graph::latest_points(history, horizon) {
                Some(points) => {
                    &&& points.len() == wanted
                    &&& forall|i: int|
                        0 <= i < wanted ==> #[trigger] points[i] == history[history.len() - wanted
                            + i]
                },
                None => history.len() < wanted,
            }
        }),
{
}

/// The highest cost is that of one of the points, and none is higher.
pub proof fn law_highest_cost_is_found(points: Seq<BurnRateHistoryPoint>)
    ensures
        forall|i: int|
            0 <= i < points.len() ==> (#[trigger] points[i]).cost_rank <= watch_graph::max_rank(
                points,
            ),
        watch_graph::max_rank(points) == 0 || exists|i: int|
            0 <= i < points.len() && (#[trigger] points[i]).cost_rank == watch_graph::max_rank(
                points,
            ),
    decreases points.len(),
{
    if points.len() > 0 {
        let init = points.drop_last();
        law_highest_cost_is_found(init);
        assert(points[points.len() - 1] == points.last());
        assert forall|i: int| 0 <= i < points.len() implies (#[trigger] points[i]).cost_rank
            <= watch_graph::max_rank(points) by {
            if i < points.len() - 1 {
                assert(init[i] == points[i]);
            }
        }
        if watch_graph::max_rank(points) != points.last().cost_rank && watch_graph::max_rank(points)
            != 0 {
            let i = choose|i: int|
                0 <= i < init.len() && (#[trigger] init[i]).cost_rank == watch_graph::max_rank(
                    init,
                );
            assert(points[i] == init[i]);
        }
    }
}

proof fn lemma_height_is_the_first_threshold(rank: u64, thresholds: Seq<u64>, from: int)
    requires
        0 <= from < thresholds.len(),
    ensures
        ({
            let height = watch_graph::height_from(rank, thresholds, from);
            &&& from < height <= thresholds.len()
            &&& forall|i: int| from <= i < height - 1 ==> #[trigger] thresholds[i] < rank
            &&& rank <= thresholds[height - 1] || height == thresholds.len()
        }),
    decreases thresholds.len() - from,
{
    if rank > thresholds[from] && from + 1 < thresholds.len() {
        lemma_height_is_the_first_threshold(rank, thresholds, from + 1);
    } else if rank > thresholds[from] {
        assert(watch_graph::height_from(rank, thresholds, from + 1) == thresholds.len());
    }
}

/// A cost reaches up to the first threshold that it does not pass, or to the top; nothing reaches
/// nowhere.
pub proof fn law_cost_reaches_its_threshold(rank: u64, max: u64, thresholds: Seq<u64>)
    requires
        thresholds.len() > 0,
    ensures
        ({
            let height = watch_graph::column_height(rank, max, thresholds);
            &&& height == 0 <==> rank == 0 || max == 0
            &&& height > 0 ==> {
                &&& height <= thresholds.len()
                &&& forall|i: int| 0 <= i < height - 1 ==> #[trigger] thresholds[i] < rank
                &&& rank <= thresholds[height - 1] || height == thresholds.len()
            }
        }),
{
    lemma_height_is_the_first_threshold(rank, thresholds, 0);
}

/// A row is filled by as many eighths as the column reaches into it, from the bottom row up.
pub proof fn law_rows_are_filled_from_the_bottom(height: int, level: int)
    requires
        0 <= height <= 32,
        1 <= level <= 4,
    ensures
        height >= 8 * level ==> watch_graph::row_units(height, level) == 8,
        height <= 8 * (level - 1) ==> watch_graph::row_units(height, level) == 0,
        8 * (level - 1) <= height <= 8 * level ==> watch_graph::row_units(height, level) == height
            - 8 * (level - 1),
{
}

/// Each number of eighths has a sign of its own: the block that fills that many of them, or one of
/// growing darkness.
pub proof fn law_eighths_are_told_apart(units: int)
    requires
        0 <= units <= 8,
    ensures
        units > 0 ==> watch_graph::units_glyph(units, BorderStyle::Unicode) as int == 0x2580
            + units,
        watch_graph::units_glyph(units, BorderStyle::Ascii) == " .:-=+*#%"@[units],
        watch_graph::units_glyph(0, BorderStyle::Unicode) == ' ',
{
    reveal_strlit(" .:-=+*#%");
}

/// In the graph every point has a column, and the four rows show it from the top down.
pub proof fn law_points_are_drawn_in_columns(
    points: Seq<BurnRateHistoryPoint>,
    max: u64,
    thresholds: Seq<u64>,
    borders: BorderStyle,
    row: int,
    column: int,
)
    requires
        0 <= row < 4,
        0 <= column < points.len(),
    ensures
        ({
            let rows = watch_graph::plot_rows(points, max, thresholds, borders);
            let height = watch_graph::column_height(points[column].cost_rank, max, thresholds);
            &&& rows.len() == 4
            &&& rows[row].len() == points.len()
            &&& rows[row][column] == watch_graph::units_glyph(
                watch_graph::row_units(height, 4 - row),
                borders,
            )
        }),
{
}

/// Beside each row of the graph stands what it costs by the hour, all of them equally wide; below
/// them runs the time axis from the first point to the last.
pub proof fn law_graph_has_a_legend_and_an_axis(
    points: Seq<BurnRateHistoryPoint>,
    thresholds: Seq<u64>,
    legend: Seq<UsdAmount>,
    borders: BorderStyle,
    row: int,
)
    requires
        legend.len() == 4,
        points.len() > 0,
        0 <= row < 4,
    ensures
        ({
            let lines = watch_graph::graph_lines(points, thresholds, legend, borders);
            let plot = watch_graph::plot_rows(
                points,
                watch_graph::max_rank(points),
                thresholds,
                borders,
            );
            let mark = match borders {
                BorderStyle::Unicode => '─',
                BorderStyle::Ascii => '-',
            };
            let label = seq![mark, ' '] + number::currency_text(legend[row]) + seq!['/', 'h'];
            let beside = plot[row] + seq![' ', ' '] + label;
            &&& lines.len() == 5
            &&& lines[row].len() == lines[0].len()
            &&& beside.len() <= lines[row].len()
            &&& lines[row].take(beside.len() as int) == beside
            &&& forall|i: int| beside.len() <= i < lines[row].len() ==> #[trigger] lines[row][i]
                == ' '
            &&& lines[4] == watch_graph::axis_text(
                points[0].end_time@,
                points[points.len() - 1].end_time@,
                points.len(),
                borders,
            )
        }),
{
    reveal_strlit("/h");
    reveal_strlit("  ");
    assert("/h"@ =~= seq!['/', 'h']);
    assert("  "@ =~= seq![' ', ' ']);
    let lines = watch_graph::graph_lines(points, thresholds, legend, borders);
    let plot = watch_graph::plot_rows(points, watch_graph::max_rank(points), thresholds, borders);
    let labels = watch_graph::legend_labels(legend, borders);
    let width = watch_graph::longest(labels);
    lemma_longest(labels, row);
    lemma_longest(labels, 0);
    let room = table::filling(labels[row], width);
    let beside = plot[row] + seq![' ', ' '] + labels[row];
    assert(labels[row].len() <= width && labels[0].len() <= width);
    assert(lines[row] =~= beside + room);
    assert(lines[0] =~= plot[0] + seq![' ', ' '] + labels[0] + table::filling(labels[0], width));
    assert(lines[row].take(beside.len() as int) =~= beside);
    assert(forall|i: int| 0 <= i < room.len() ==> #[trigger] room[i] == ' ');
}

proof fn lemma_longest(parts: Seq<Seq<char>>, i: int)
    requires
        0 <= i < parts.len(),
    ensures
        parts[i].len() <= watch_graph::longest(parts),
    decreases parts.len(),
{
    if i < parts.len() - 1 {
        assert(parts.drop_last()[i] == parts[i]);
        lemma_longest(parts.drop_last(), i);
    } else {
        assert(parts.last() == parts[i]);
    }
}

/// The axis begins with the first time and ends with the last, with a line between them that makes it
/// as wide as the graph where there is room.
pub proof fn law_axis_runs_between_its_times(
    first: Seq<char>,
    last: Seq<char>,
    points: nat,
    borders: BorderStyle,
)
    ensures
        ({
            let axis = watch_graph::axis_text(first, last, points, borders);
            let ends = first.len() + last.len() + 2;
            let mark = match borders {
                BorderStyle::Unicode => '─',
                BorderStyle::Ascii => '-',
            };
            &&& axis.len() == if ends < points {
                points
            } else {
                ends
            }
            &&& axis.take(first.len() as int) == first
            &&& axis.skip(axis.len() - last.len()) == last
            &&& axis[first.len() as int] == ' '
            &&& axis[axis.len() - last.len() - 1] == ' '
            &&& forall|i: int| first.len() < i < axis.len() - last.len() - 1 ==> #[trigger] axis[i]
                == mark
        }),
{
    reveal_strlit(" ");
    let axis = watch_graph::axis_text(first, last, points, borders);
    assert(axis.take(first.len() as int) =~= first);
    assert(axis.skip(axis.len() - last.len()) =~= last);
}

proof fn lemma_escape_end_behind(front: Seq<char>, s: Seq<char>, from: int)
    requires
        0 <= from,
    ensures
        watch_graph::escape_end(front + s, front.len() + from) == front.len()
            + watch_graph::escape_end(s, from) || from > s.len(),
    decreases s.len() - from,
{
    if from < s.len() {
        assert((front + s)[front.len() + from] == s[from]);
        lemma_escape_end_behind(front, s, from + 1);
    }
}

proof fn lemma_visible_width_behind(front: Seq<char>, s: Seq<char>, from: int)
    requires
        0 <= from <= s.len(),
    ensures
        watch_graph::visible_width(front + s, front.len() + from) == watch_graph::visible_width(
            s,
            from,
        ),
    decreases s.len() - from,
{
    let all = front + s;
    let n = front.len() as int;
    if from < s.len() {
        assert(all[n + from] == s[from]);
        if from + 1 < s.len() {
            assert(all[n + from + 1] == s[from + 1]);
        }
        if s[from] == '\u{1b}' && from + 1 < s.len() && s[from + 1] == '[' {
            watch_graph::lemma_escape_end(s, from + 2);
            lemma_escape_end_behind(front, s, from + 2);
            lemma_visible_width_behind(front, s, watch_graph::escape_end(s, from + 2));
        } else {
            lemma_visible_width_behind(front, s, from + 1);
        }
    }
}

proof fn lemma_escape_end_at(s: Seq<char>, from: int, at: int)
    requires
        0 <= from <= at < s.len(),
        forall|i: int|
            from <= i < at ==> !('a' <= #[trigger] s[i] && s[i] <= 'z') && !('A' <= s[i] && s[i]
                <= 'Z'),
        ('a' <= s[at] && s[at] <= 'z') || ('A' <= s[at] && s[at] <= 'Z'),
    ensures
        watch_graph::escape_end(s, from) == at + 1,
    decreases at - from,
{
    if from < at {
        lemma_escape_end_at(s, from + 1, at);
    }
}

/// Every character counts toward the visible width of a line but those of an escape sequence, which
/// ends with its first letter.
pub proof fn law_escapes_are_not_visible(codes: Seq<char>, letter: char, c: char, rest: Seq<char>)
    requires
        forall|i: int|
            0 <= i < codes.len() ==> !('a' <= #[trigger] codes[i] && codes[i] <= 'z') && !('A'
                <= codes[i] && codes[i] <= 'Z'),
        ('a' <= letter && letter <= 'z') || ('A' <= letter && letter <= 'Z'),
        c != '\u{1b}',
    ensures
        watch_graph::visible_width(Seq::empty(), 0) == 0,
        watch_graph::visible_width(seq!['\u{1b}', '['] + codes + seq![letter] + rest, 0)
            == watch_graph::visible_width(rest, 0),
        watch_graph::visible_width(seq![c] + rest, 0) == 1 + watch_graph::visible_width(rest, 0),
{
    let front = seq!['\u{1b}', '['] + codes + seq![letter];
    let s = front + rest;
    assert(seq!['\u{1b}', '['] + codes + seq![letter] + rest =~= s);
    assert(s[0] == '\u{1b}' && s[1] == '[');
    let at = codes.len() + 2;
    assert(s[at as int] == letter);
    assert forall|i: int| 2 <= i < at implies !('a' <= #[trigger] s[i] && s[i] <= 'z') && !('A'
        <= s[i] && s[i] <= 'Z') by {
        assert(s[i] == codes[i - 2]);
    }
    lemma_escape_end_at(s, 2, at as int);
    lemma_visible_width_behind(front, rest, 0);
    lemma_visible_width_behind(seq![c], rest, 0);
    assert((seq![c] + rest)[0] == c);
}

/// A graph fits where each of its lines is visible in the width of the terminal, and where it fits
/// below the lines that are taken and one empty line; an unknown size sets no bound.
pub proof fn law_fitting_graph_stays_within_the_terminal(
    block: Seq<char>,
    width: usize,
    height: usize,
    taken: int,
)
    requires
        0 <= taken,
        height < usize::MAX,
    ensures
        watch_graph::fits_terminal(block, None, None, taken),
        watch_graph::fits_terminal(block, Some(width), None, taken) <==> forall|i: int|
            0 <= i < text::lines(block).len() ==> watch_graph::visible_width(
                #[trigger] text::lines(block)[i],
                0,
            ) <= width,
        watch_graph::fits_terminal(block, None, Some(height), taken) <==> taken + 1 + text::lines(
            block,
        ).len() <= height,
        watch_graph::fits_terminal(block, Some(width), Some(height), taken)
            <==> watch_graph::fits_terminal(block, Some(width), None, taken)
            && watch_graph::fits_terminal(block, None, Some(height), taken),
{
}

/// The graph of the longer horizon is shown where there are points enough and it fits; else that of
/// the shorter one, by the same rule; else none.
pub proof fn law_longer_horizon_goes_first(
    history: Seq<BurnRateHistoryPoint>,
    scales: GraphScales,
    config: TableRenderConfig,
    terminal_width: Option<usize>,
    terminal_height: Option<usize>,
    taken: int,
)
    ensures
        ({
            let shown = watch_graph::shown_graph(
                history,
                scales,
                config,
                terminal_width,
                terminal_height,
                taken,
            );
            let long = watch_graph::graph_text(
                history.skip(history.len() - 33),
                scales.eight_hours.thresholds@,
                scales.eight_hours.legend@,
                config,
            );
            let short = watch_graph::graph_text(
                history.skip(history.len() - 17),
                scales.four_hours.thresholds@,
                scales.four_hours.legend@,
                config,
            );
            let long_fits = history.len() >= 33 && watch_graph::fits_terminal(
                long,
                terminal_width,
                terminal_height,
                taken,
            );
            let short_fits = history.len() >= 17 && watch_graph::fits_terminal(
                short,
                terminal_width,
                terminal_height,
                taken,
            );
            &&& long_fits ==> shown == Some(long)
            &&& !long_fits && short_fits ==> shown == Some(short)
            &&& !long_fits && !short_fits ==> shown is None
        }),
{
}

/// The screen shows the missing directories, the title, the table, the limits where there are any
/// and the graph where it is shown, in this order, with an empty line before the limits and before
/// the graph.
pub proof fn law_screen_shows_its_parts_in_order(request: WatchRenderRequest<'_>)
    requires
        request.render_config.style == TableStyle::Plain,
    ensures
        ({
            let snapshot = *request.snapshot;
            let missing = text::texts(snapshot.missing_directories@);
            let table_text = watch_layout::watch_table_text(
                snapshot,
                request.render_config,
                request.show_model_burn_rate,
                request.cache_read_mode,
                request.terminal_width,
            );
            let limits_block = match request.codex_limit_status {
                Some(status) => seq!['\n'] + limits_view::limits_text(
                    *status,
                    request.render_config,
                    request.now_epoch_seconds,
                ),
                None => Seq::empty(),
            };
            let graph_block = match watch_screen::screen_graph(request) {
                Some(graph) => seq!['\n'] + graph,
                None => Seq::empty(),
            };
            let head = "Current Day Codex Usage Watch"@ + "\nDate: "@ + snapshot.date@
                + "  Window: "@ + text::decimal(snapshot.burn_rate.window_minutes as nat)
                + " minutes\n\n"@;
            watch_screen::screen_text(request) == report_view::missing_warning(missing) + (head
                + table_text + limits_block + graph_block)
        }),
{
}

/// The graph is kept below everything else on the screen: the table, the limits and the empty line
/// before them, and the missing directories.
pub proof fn law_graph_leaves_room_for_the_rest(request: WatchRenderRequest<'_>)
    ensures
        watch_screen::screen_graph(request) == watch_graph::shown_graph(
            request.snapshot.burn_history@,
            *request.graph_scales,
            request.render_config,
            request.terminal_width,
            request.terminal_height,
            text::lines(watch_screen::screen_table(request)).len() + (
            match request.codex_limit_status {
                Some(status) => 1 + text::lines(
                    limits_view::limits_text(
                        *status,
                        request.render_config,
                        request.now_epoch_seconds,
                    ),
                ).len() as int,
                None => 0,
            }) + text::lines(
                report_view::missing_warning(text::texts(request.snapshot.missing_directories@)),
            ).len() as int,
        ),
{
    let missing = text::texts(request.snapshot.missing_directories@);
    if missing.len() == 0 {
        assert(report_view::missing_warning(missing) =~= Seq::<char>::empty());
        assert(text::lines(Seq::<char>::empty()).len() == 0);
    }
}

} // verus!
