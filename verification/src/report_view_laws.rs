//! What holds of the report tables: which figure stands under which heading.

use vstd::prelude::*;

use crate::model;
use crate::model::{
    CacheReadMode, DailyRow, ModelBreakdown, MonthlyRow, ReportOutput, SessionRow, Totals,
    UsageTotals, UsdAmount,
};
use crate::number;
use crate::report_view;
use crate::table;
use crate::table::{DisplayRowKind, TableRenderConfig, TableRuleKind, TableStyle};
use crate::text;

verus! {

/// Whether a row has a value under a heading, and no other under it.
pub open spec fn shows_under(
    headers: Seq<Seq<char>>,
    cells: Seq<Seq<char>>,
    header: Seq<char>,
    value: Seq<char>,
) -> bool {
    &&& headers.len() == cells.len()
    &&& headers.contains(header)
    &&& forall|i: int| 0 <= i < headers.len() && #[trigger] headers[i] == header ==> cells[i] == value
}

/// Whether a row has the counts of a usage and its cost under their headings. Cache reads have a
/// column only where they are reported.
pub open spec fn shows_usage(
    headers: Seq<Seq<char>>,
    cells: Seq<Seq<char>>,
    usage: UsageTotals,
    cost: UsdAmount,
    mode: CacheReadMode,
) -> bool {
    &&& shows_under(headers, cells, "Input"@, text::decimal(usage.input as nat))
    &&& shows_under(headers, cells, "Output"@, text::decimal(usage.output as nat))
    &&& shows_under(headers, cells, "Reasoning"@, text::decimal(usage.reasoning_output as nat))
    &&& shows_under(headers, cells, "Total"@, text::decimal(usage.total as nat))
    &&& shows_under(headers, cells, "Cost"@, number::currency_text(cost))
    &&& mode == CacheReadMode::Include ==> shows_under(
        headers,
        cells,
        "Cache"@,
        text::decimal(usage.cached_input as nat),
    )
    &&& mode == CacheReadMode::Exclude ==> !headers.contains("Cache"@)
}

/// The headings are told apart.
proof fn lemma_headings_differ()
    ensures
        "Input"@.len() == 5 && "Cache"@.len() == 5 && "Output"@.len() == 6 && "Reasoning"@.len()
            == 9 && "Total"@.len() == 5 && "Cost"@.len() == 4,
        "Input"@[0] == 'I' && "Cache"@[0] == 'C' && "Total"@[0] == 'T' && "Cost"@[0] == 'C'
            && "Reasoning"@[0] == 'R',
        "Date"@.len() == 4 && "Month"@.len() == 5 && "Model"@.len() == 5 && "Directory"@.len() == 9
            && "Session"@.len() == 7 && "Last Activity"@.len() == 13,
        "Date"@[0] == 'D' && "Month"@[0] == 'M' && "Model"@[0] == 'M' && "Month"@[2] == 'n'
            && "Model"@[2] == 'd' && "Directory"@[0] == 'D',
{
    reveal_strlit("Input");
    reveal_strlit("Cache");
    reveal_strlit("Output");
    reveal_strlit("Reasoning");
    reveal_strlit("Total");
    reveal_strlit("Cost");
    reveal_strlit("Date");
    reveal_strlit("Month");
    reveal_strlit("Model");
    reveal_strlit("Directory");
    reveal_strlit("Session");
    reveal_strlit("Last Activity");
}

/// Whether a heading is none of those of counts and costs.
pub open spec fn other_heading(header: Seq<char>) -> bool {
    header != "Input"@ && header != "Cache"@ && header != "Output"@ && header != "Reasoning"@
        && header != "Total"@ && header != "Cost"@
}

proof fn lemma_usage_cells(
    heads: Seq<Seq<char>>,
    before: Seq<Seq<char>>,
    tail_heads: Seq<Seq<char>>,
    tail: Seq<Seq<char>>,
    usage: UsageTotals,
    cost: UsdAmount,
    mode: CacheReadMode,
)
    requires
        heads.len() == before.len(),
        tail_heads.len() == tail.len(),
        forall|i: int| 0 <= i < heads.len() ==> other_heading(#[trigger] heads[i]),
        forall|i: int| 0 <= i < tail_heads.len() ==> other_heading(#[trigger] tail_heads[i]),
    ensures
        shows_usage(
            heads + report_view::usage_headers(mode) + tail_heads,
            before + report_view::usage_cells(usage, cost, mode) + tail,
            usage,
            cost,
            mode,
        ),
{
    lemma_headings_differ();
    let n = heads.len() as int;
    let inner = report_view::usage_headers(mode);
    let cells = report_view::usage_cells(usage, cost, mode);
    let headers = heads + inner + tail_heads;
    let row = before + cells + tail;
    let m = inner.len() as int;
    assert(cells.len() == m);
    assert forall|i: int| 0 <= i < headers.len() implies (i < n || i >= n + m ==> other_heading(
        #[trigger] headers[i],
    )) && (n <= i < n + m ==> headers[i] == inner[i - n] && row[i] == cells[i - n]) by {
        if i < n {
            assert(headers[i] == heads[i]);
        } else if i >= n + m {
            assert(headers[i] == tail_heads[i - n - m]);
        }
    }
    assert(headers[n] == inner[0]);
    assert(headers[n + 1] == inner[1]);
    assert(headers[n + 2] == inner[2]);
    assert(headers[n + 3] == inner[3]);
    assert(headers[n + 4] == inner[4]);
    if mode == CacheReadMode::Include {
        assert(headers[n + 5] == inner[5]);
    }
}

/// The subtotal of a day stands in one line under its date: the counts and the cost of the day, each
/// under its heading. The lines of its models follow it, and a rule parts it from the day before.
pub proof fn law_days_are_listed(rows: Seq<DailyRow>, row: DailyRow, mode: CacheReadMode)
    ensures
        ({
            let headers = report_view::period_headers("Date"@, mode);
            let before = report_view::daily_rows(rows, mode);
            let after = report_view::daily_rows(rows.push(row), mode);
            let at = before.len() + if rows.len() == 0 {
                0int
            } else {
                1
            };
            &&& rows.len() == 0 ==> before.len() == 0
            &&& at < after.len()
            &&& after.take(before.len() as int) == before
            &&& rows.len() > 0 ==> after[before.len() as int].kind == DisplayRowKind::Spacer
            &&& after[at].kind == DisplayRowKind::Subtotal
            &&& shows_under(headers, after[at].cells, "Date"@, row.date@)
            &&& shows_under(headers, after[at].cells, "Model"@, "TOTAL"@)
            &&& shows_usage(
                headers,
                after[at].cells,
                UsageTotals {
                    input: row.input_tokens,
                    cached_input: row.cached_input_tokens,
                    output: row.output_tokens,
                    reasoning_output: row.reasoning_output_tokens,
                    total: row.total_tokens,
                },
                row.cost_usd,
                mode,
            )
            &&& after.skip(at + 1) == report_view::model_rows(1, false, row.models.entries@, mode)
        }),
{
    lemma_headings_differ();
    let headers = report_view::period_headers("Date"@, mode);
    let usage = report_view::daily_usage(row);
    let heads = seq!["Date"@, "Model"@];
    let names = seq![row.date@, "TOTAL"@];
    let cells = names + report_view::usage_cells(usage, row.cost_usd, mode);
    lemma_usage_cells(heads, names, Seq::empty(), Seq::empty(), usage, row.cost_usd, mode);
    assert(heads + report_view::usage_headers(mode) + Seq::<Seq<char>>::empty() =~= headers);
    assert(names + report_view::usage_cells(usage, row.cost_usd, mode) + Seq::<Seq<char>>::empty()
        =~= cells);
    lemma_heading_at(headers, cells, 0);
    lemma_heading_at(headers, cells, 1);
    assert(rows.push(row).drop_last() =~= rows);
    lemma_group_rows(
        report_view::daily_rows(rows, mode),
        rows.len() == 0,
        cells,
        report_view::model_rows(1, false, row.models.entries@, mode),
    );
}

/// The subtotal of a month stands in one line under its name, as that of a day does.
pub proof fn law_months_are_listed(rows: Seq<MonthlyRow>, row: MonthlyRow, mode: CacheReadMode)
    ensures
        ({
            let headers = report_view::period_headers("Month"@, mode);
            let before = report_view::monthly_rows(rows, mode);
            let after = report_view::monthly_rows(rows.push(row), mode);
            let at = before.len() + if rows.len() == 0 {
                0int
            } else {
                1
            };
            &&& rows.len() == 0 ==> before.len() == 0
            &&& at < after.len()
            &&& after.take(before.len() as int) == before
            &&& rows.len() > 0 ==> after[before.len() as int].kind == DisplayRowKind::Spacer
            &&& after[at].kind == DisplayRowKind::Subtotal
            &&& shows_under(headers, after[at].cells, "Month"@, row.month@)
            &&& shows_under(headers, after[at].cells, "Model"@, "TOTAL"@)
            &&& shows_usage(
                headers,
                after[at].cells,
                UsageTotals {
                    input: row.input_tokens,
                    cached_input: row.cached_input_tokens,
                    output: row.output_tokens,
                    reasoning_output: row.reasoning_output_tokens,
                    total: row.total_tokens,
                },
                row.cost_usd,
                mode,
            )
            &&& after.skip(at + 1) == report_view::model_rows(1, false, row.models.entries@, mode)
        }),
{
    lemma_headings_differ();
    let headers = report_view::period_headers("Month"@, mode);
    let usage = report_view::monthly_usage(row);
    let heads = seq!["Month"@, "Model"@];
    let names = seq![row.month@, "TOTAL"@];
    let cells = names + report_view::usage_cells(usage, row.cost_usd, mode);
    lemma_usage_cells(heads, names, Seq::empty(), Seq::empty(), usage, row.cost_usd, mode);
    assert(heads + report_view::usage_headers(mode) + Seq::<Seq<char>>::empty() =~= headers);
    assert(names + report_view::usage_cells(usage, row.cost_usd, mode) + Seq::<Seq<char>>::empty()
        =~= cells);
    lemma_heading_at(headers, cells, 0);
    lemma_heading_at(headers, cells, 1);
    assert(rows.push(row).drop_last() =~= rows);
    lemma_group_rows(
        report_view::monthly_rows(rows, mode),
        rows.len() == 0,
        cells,
        report_view::model_rows(1, false, row.models.entries@, mode),
    );
}

/// The subtotal of a session stands in one line under its directory, where a dash stands for none,
/// and its file, with its last activity at the end.
pub proof fn law_sessions_are_listed(rows: Seq<SessionRow>, row: SessionRow, mode: CacheReadMode)
    ensures
        ({
            let headers = report_view::session_headers(mode);
            let before = report_view::session_rows(rows, mode);
            let after = report_view::session_rows(rows.push(row), mode);
            let at = before.len() + if rows.len() == 0 {
                0int
            } else {
                1
            };
            &&& rows.len() == 0 ==> before.len() == 0
            &&& at < after.len()
            &&& after.take(before.len() as int) == before
            &&& rows.len() > 0 ==> after[before.len() as int].kind == DisplayRowKind::Spacer
            &&& after[at].kind == DisplayRowKind::Subtotal
            &&& shows_under(
                headers,
                after[at].cells,
                "Directory"@,
                if row.directory@.len() == 0 {
                    "-"@
                } else {
                    row.directory@
                },
            )
            &&& shows_under(headers, after[at].cells, "Session"@, row.session_file@)
            &&& shows_under(headers, after[at].cells, "Model"@, "TOTAL"@)
            &&& shows_under(headers, after[at].cells, "Last Activity"@, row.last_activity@)
            &&& shows_usage(
                headers,
                after[at].cells,
                UsageTotals {
                    input: row.input_tokens,
                    cached_input: row.cached_input_tokens,
                    output: row.output_tokens,
                    reasoning_output: row.reasoning_output_tokens,
                    total: row.total_tokens,
                },
                row.cost_usd,
                mode,
            )
            &&& after.skip(at + 1) == report_view::model_rows(2, true, row.models.entries@, mode)
        }),
{
    lemma_headings_differ();
    let headers = report_view::session_headers(mode);
    let usage = report_view::session_usage(row);
    let heads = seq!["Directory"@, "Session"@, "Model"@];
    let directory = report_view::directory_cell(row.directory@);
    let names = seq![directory, row.session_file@, "TOTAL"@];
    let cells = (names + report_view::usage_cells(usage, row.cost_usd, mode)).push(
        row.last_activity@,
    );
    lemma_usage_cells(
        heads,
        names,
        seq!["Last Activity"@],
        seq![row.last_activity@],
        usage,
        row.cost_usd,
        mode,
    );
    assert(heads + report_view::usage_headers(mode) + seq!["Last Activity"@] =~= headers);
    assert(names + report_view::usage_cells(usage, row.cost_usd, mode) + seq![row.last_activity@]
        =~= cells);
    lemma_heading_at(headers, cells, 0);
    lemma_heading_at(headers, cells, 1);
    lemma_heading_at(headers, cells, 2);
    lemma_heading_at(headers, cells, headers.len() - 1);
    assert(rows.push(row).drop_last() =~= rows);
    lemma_group_rows(
        report_view::session_rows(rows, mode),
        rows.len() == 0,
        cells,
        report_view::model_rows(2, true, row.models.entries@, mode),
    );
}

proof fn lemma_heading_at(headers: Seq<Seq<char>>, cells: Seq<Seq<char>>, at: int)
    requires
        headers.len() == cells.len(),
        0 <= at < headers.len(),
        forall|i: int| 0 <= i < headers.len() && i != at ==> #[trigger] headers[i] != headers[at],
    ensures
        shows_under(headers, cells, headers[at], cells[at]),
{
}

proof fn lemma_group_rows(
    before: Seq<table::RowFacts>,
    first: bool,
    cells: Seq<Seq<char>>,
    models: Seq<table::RowFacts>,
)
    ensures
        ({
            let after = before + report_view::group_rows(first, cells, models);
            let at = before.len() + if first {
                0int
            } else {
                1
            };
            &&& at < after.len()
            &&& after.take(before.len() as int) == before
            &&& !first ==> after[before.len() as int].kind == DisplayRowKind::Spacer
            &&& after[at].kind == DisplayRowKind::Subtotal
            &&& after[at].cells == cells
            &&& after.skip(at + 1) == models
        }),
{
    let after = before + report_view::group_rows(first, cells, models);
    let at = before.len() + if first {
        0int
    } else {
        1
    };
    assert(after.take(before.len() as int) =~= before);
    assert(after.skip(at + 1) =~= models);
}

/// The line of a model has its label, set in by two spaces, under the heading of the models and its
/// counts and cost under theirs; every other column of it is empty.
pub proof fn law_model_line_shows_its_usage(
    label: Seq<char>,
    usage: UsageTotals,
    cost: UsdAmount,
    mode: CacheReadMode,
    period: Seq<char>,
)
    requires
        period == "Date"@ || period == "Month"@,
    ensures
        ({
            let headers = report_view::period_headers(period, mode);
            let row = report_view::model_row(1, false, label, usage, cost, mode);
            &&& row.kind == DisplayRowKind::Detail
            &&& shows_under(headers, row.cells, period, Seq::empty())
            &&& shows_under(headers, row.cells, "Model"@, seq![' ', ' '] + label)
            &&& shows_usage(headers, row.cells, usage, cost, mode)
        }),
        ({
            let headers = report_view::session_headers(mode);
            let row = report_view::model_row(2, true, label, usage, cost, mode);
            &&& row.kind == DisplayRowKind::Detail
            &&& shows_under(headers, row.cells, "Directory"@, Seq::empty())
            &&& shows_under(headers, row.cells, "Session"@, Seq::empty())
            &&& shows_under(headers, row.cells, "Last Activity"@, Seq::empty())
            &&& shows_under(headers, row.cells, "Model"@, seq![' ', ' '] + label)
            &&& shows_usage(headers, row.cells, usage, cost, mode)
        }),
{
    lemma_headings_differ();
    reveal_strlit("  ");
    assert("  "@ =~= seq![' ', ' ']);
    let mark = seq![' ', ' '] + label;
    let inner = report_view::usage_cells(usage, cost, mode);
    let empty = Seq::<char>::empty();
    {
        let headers = report_view::period_headers(period, mode);
        let row = report_view::model_row(1, false, label, usage, cost, mode);
        let heads = seq![period, "Model"@];
        let names = seq![empty, mark];
        lemma_usage_cells(heads, names, Seq::empty(), Seq::empty(), usage, cost, mode);
        assert(heads + report_view::usage_headers(mode) + Seq::<Seq<char>>::empty() =~= headers);
        assert(names + inner + Seq::<Seq<char>>::empty() =~= row.cells);
        lemma_heading_at(headers, row.cells, 0);
        lemma_heading_at(headers, row.cells, 1);
    }
    let headers = report_view::session_headers(mode);
    let row = report_view::model_row(2, true, label, usage, cost, mode);
    let heads = seq!["Directory"@, "Session"@, "Model"@];
    let names = seq![empty, empty, mark];
    lemma_usage_cells(heads, names, seq!["Last Activity"@], seq![empty], usage, cost, mode);
    assert(heads + report_view::usage_headers(mode) + seq!["Last Activity"@] =~= headers);
    assert(names + inner + seq![empty] =~= row.cells);
    lemma_heading_at(headers, row.cells, 0);
    lemma_heading_at(headers, row.cells, 1);
    lemma_heading_at(headers, row.cells, 2);
    lemma_heading_at(headers, row.cells, headers.len() - 1);
}

/// A model has one line for what was counted for it by name and one for what fell to it as fallback,
/// each with its own cost and only where there is any; the lines of the models follow one another.
pub proof fn law_models_are_listed_by_their_parts(
    columns_before: nat,
    last_activity: bool,
    models: Seq<(String, ModelBreakdown)>,
    name: String,
    breakdown: ModelBreakdown,
    mode: CacheReadMode,
)
    ensures
        ({
            let before = report_view::model_rows(columns_before, last_activity, models, mode);
            let after = report_view::model_rows(
                columns_before,
                last_activity,
                models.push((name, breakdown)),
                mode,
            );
            let explicit = model::explicit_part(breakdown);
            let fallback = breakdown.fallback_usage;
            let by_name = explicit.input > 0 || explicit.cached_input > 0 || explicit.output > 0
                || explicit.reasoning_output > 0 || explicit.total > 0;
            let by_fallback = fallback.input > 0 || fallback.cached_input > 0 || fallback.output > 0
                || fallback.reasoning_output > 0 || fallback.total > 0;
            let n = before.len() as int;
            &&& models.len() == 0 ==> n == 0
            &&& after.take(n) == before
            &&& after.len() == n + (if by_name {
                1int
            } else {
                0
            }) + (if by_fallback {
                1int
            } else {
                0
            })
            &&& by_name ==> after[n] == report_view::model_row(
                columns_before,
                last_activity,
                name@,
                explicit,
                breakdown.cost_usd,
                mode,
            )
            &&& by_fallback ==> after.last() == report_view::model_row(
                columns_before,
                last_activity,
                name@ + seq![' ', '(', 'f', 'a', 'l', 'l', 'b', 'a', 'c', 'k', ')'],
                fallback,
                breakdown.fallback_cost_usd,
                mode,
            )
        }),
{
    reveal_strlit(" (fallback)");
    assert(" (fallback)"@ =~= seq![' ', '(', 'f', 'a', 'l', 'l', 'b', 'a', 'c', 'k', ')']);
    let before = report_view::model_rows(columns_before, last_activity, models, mode);
    let after = report_view::model_rows(
        columns_before,
        last_activity,
        models.push((name, breakdown)),
        mode,
    );
    assert(models.push((name, breakdown)).drop_last() =~= models);
    assert(after.take(before.len() as int) =~= before);
}

/// The grand total stands in the last line of a table, behind its label, with the counts and the cost
/// of the whole report under their headings.
pub proof fn law_grand_total_shows_the_whole(totals: Totals, mode: CacheReadMode, period: Seq<char>)
    requires
        period == "Date"@ || period == "Month"@,
    ensures
        ({
            let usage = UsageTotals {
                input: totals.input_tokens,
                cached_input: totals.cached_input_tokens,
                output: totals.output_tokens,
                reasoning_output: totals.reasoning_output_tokens,
                total: totals.total_tokens,
            };
            let headers = report_view::period_headers(period, mode);
            let row = report_view::grand_total_facts(false, totals, mode);
            &&& row.kind == DisplayRowKind::GrandTotal
            &&& shows_under(headers, row.cells, period, Seq::empty())
            &&& shows_under(headers, row.cells, "Model"@, "GRAND TOTAL"@)
            &&& shows_usage(headers, row.cells, usage, totals.cost_usd, mode)
        }),
        ({
            let usage = UsageTotals {
                input: totals.input_tokens,
                cached_input: totals.cached_input_tokens,
                output: totals.output_tokens,
                reasoning_output: totals.reasoning_output_tokens,
                total: totals.total_tokens,
            };
            let headers = report_view::session_headers(mode);
            let row = report_view::grand_total_facts(true, totals, mode);
            &&& row.kind == DisplayRowKind::GrandTotal
            &&& shows_under(headers, row.cells, "Directory"@, Seq::empty())
            &&& shows_under(headers, row.cells, "Session"@, Seq::empty())
            &&& shows_under(headers, row.cells, "Last Activity"@, Seq::empty())
            &&& shows_under(headers, row.cells, "Model"@, "GRAND TOTAL"@)
            &&& shows_usage(headers, row.cells, usage, totals.cost_usd, mode)
        }),
{
    lemma_headings_differ();
    let usage = report_view::grand_usage(totals);
    let cost = totals.cost_usd;
    let inner = report_view::usage_cells(usage, cost, mode);
    let empty = Seq::<char>::empty();
    {
        let headers = report_view::period_headers(period, mode);
        let row = report_view::grand_total_facts(false, totals, mode);
        let heads = seq![period, "Model"@];
        let names = seq![empty, "GRAND TOTAL"@];
        lemma_usage_cells(heads, names, Seq::empty(), Seq::empty(), usage, cost, mode);
        assert(heads + report_view::usage_headers(mode) + Seq::<Seq<char>>::empty() =~= headers);
        assert(names + inner + Seq::<Seq<char>>::empty() =~= row.cells);
        lemma_heading_at(headers, row.cells, 0);
        lemma_heading_at(headers, row.cells, 1);
    }
    let headers = report_view::session_headers(mode);
    let row = report_view::grand_total_facts(true, totals, mode);
    let heads = seq!["Directory"@, "Session"@, "Model"@];
    let names = seq![empty, empty, "GRAND TOTAL"@];
    lemma_usage_cells(heads, names, seq!["Last Activity"@], seq![empty], usage, cost, mode);
    assert(heads + report_view::usage_headers(mode) + seq!["Last Activity"@] =~= headers);
    assert(names + inner + seq![empty] =~= row.cells);
    lemma_heading_at(headers, row.cells, 0);
    lemma_heading_at(headers, row.cells, 1);
    lemma_heading_at(headers, row.cells, 2);
    lemma_heading_at(headers, row.cells, headers.len() - 1);
}

/// The rows of a table are written in order, each in a line of its own; a spacer is written as the
/// rule between two groups.
pub proof fn law_rows_are_written_line_by_line(
    config: TableRenderConfig,
    headers: Seq<Seq<char>>,
    widths: Seq<nat>,
    rows: Seq<table::RowFacts>,
    row: table::RowFacts,
)
    requires
        config.style == TableStyle::Plain,
    ensures
        report_view::body_text(config, headers, widths, Seq::empty()) == Seq::<char>::empty(),
        report_view::body_text(config, headers, widths, rows.push(row)) == report_view::body_text(
            config,
            headers,
            widths,
            rows,
        ) + (if row.kind == DisplayRowKind::Spacer {
            table::rule_text(TableRuleKind::GroupSeparator, config.borders, widths)
        } else {
            table::row_text(config, headers, widths, row.cells, table::row_element(row.kind))
        }) + seq!['\n'],
{
    assert(rows.push(row).drop_last() =~= rows);
    assert(report_view::body_text(config, headers, widths, rows.push(row)) =~= (
    report_view::body_text(config, headers, widths, rows) + (if row.kind
        == DisplayRowKind::Spacer {
        table::rule_text(TableRuleKind::GroupSeparator, config.borders, widths)
    } else {
        table::row_text(config, headers, widths, row.cells, table::row_element(row.kind))
    })) + seq!['\n']);
}

/// A plain report is its title, an empty line, the head of the table, its rows with the grand total
/// as the last one, and the closing rule; the columns are wide enough for all of these rows.
pub proof fn law_reports_are_titled_tables(
    days: Seq<DailyRow>,
    months: Seq<MonthlyRow>,
    sessions: Seq<SessionRow>,
    totals: Totals,
    config: TableRenderConfig,
    mode: CacheReadMode,
)
    requires
        config.style == TableStyle::Plain,
    ensures
        report_view::daily_text(days, totals, config, mode) == titled_table(
            "Daily"@,
            config,
            report_view::period_headers("Date"@, mode),
            report_view::daily_rows(days, mode),
            report_view::grand_total_facts(false, totals, mode),
        ),
        report_view::monthly_text(months, totals, config, mode) == titled_table(
            "Monthly"@,
            config,
            report_view::period_headers("Month"@, mode),
            report_view::monthly_rows(months, mode),
            report_view::grand_total_facts(false, totals, mode),
        ),
        report_view::session_text(sessions, totals, config, mode) == titled_table(
            "Session"@,
            config,
            report_view::session_headers(mode),
            report_view::session_rows(sessions, mode),
            report_view::grand_total_facts(true, totals, mode),
        ),
{
}

/// A plain table under its title.
pub open spec fn titled_table(
    title: Seq<char>,
    config: TableRenderConfig,
    headers: Seq<Seq<char>>,
    rows: Seq<table::RowFacts>,
    total: table::RowFacts,
) -> Seq<char> {
    let widths = table::table_widths(headers, rows.push(total), config.number_format);
    title + " Codex Usage Report"@ + seq!['\n'] + seq!['\n'] + table::header_text(
        config,
        headers,
        widths,
    ) + report_view::body_text(config, headers, widths, rows.push(total)) + table::rule_text(
        TableRuleKind::Bottom,
        config.borders,
        widths,
    ) + seq!['\n']
}

/// The directories that are missing are named before the report, each in a line of its own, and
/// only where there is one.
pub proof fn law_missing_directories_are_named(directories: Seq<Seq<char>>, directory: Seq<char>)
    ensures
        report_view::missing_warning(Seq::empty()) == Seq::<char>::empty(),
        report_view::missing_warning(seq![directory])
            == "Warning: missing session directories\n"@ + seq!['-', ' '] + directory + seq![
            '\n',
            '\n',
        ],
        directories.len() > 0 ==> report_view::missing_warning(directories.push(directory))
            == report_view::missing_warning(directories).drop_last() + seq!['-', ' '] + directory
            + seq!['\n', '\n'],
{
    reveal_strlit("- ");
    assert("- "@ =~= seq!['-', ' ']);
    let head = "Warning: missing session directories\n"@;
    let one = seq![directory];
    assert(one.drop_last() =~= Seq::<Seq<char>>::empty());
    assert(report_view::directory_lines(one.drop_last()) =~= Seq::<char>::empty());
    assert(report_view::missing_warning(one) =~= head + seq!['-', ' '] + directory + seq![
        '\n',
        '\n',
    ]);
    if directories.len() > 0 {
        let more = directories.push(directory);
        assert(more.drop_last() =~= directories);
        assert(report_view::missing_warning(directories).drop_last() =~= head
            + report_view::directory_lines(directories));
        assert(report_view::missing_warning(more) =~= report_view::missing_warning(
            directories,
        ).drop_last() + seq!['-', ' '] + directory + seq!['\n', '\n']);
    }
}

/// A report is the table of its kind, behind the directories that are missing.
pub proof fn law_reports_begin_with_the_missing_directories(
    days: Vec<DailyRow>,
    months: Vec<MonthlyRow>,
    sessions: Vec<SessionRow>,
    totals: Totals,
    missing_directories: Vec<String>,
    config: TableRenderConfig,
    mode: CacheReadMode,
)
    ensures
        ({
            let warning = report_view::missing_warning(text::texts(missing_directories@));
            &&& report_view::report_text(
                ReportOutput::Daily { rows: days, totals, missing_directories },
                config,
                mode,
            ) == warning + report_view::daily_text(days@, totals, config, mode)
            &&& report_view::report_text(
                ReportOutput::Monthly { rows: months, totals, missing_directories },
                config,
                mode,
            ) == warning + report_view::monthly_text(months@, totals, config, mode)
            &&& report_view::report_text(
                ReportOutput::Session { rows: sessions, totals, missing_directories },
                config,
                mode,
            ) == warning + report_view::session_text(sessions@, totals, config, mode)
        }),
{
}

} // verus!
