//! Report table rendering.

use vstd::prelude::*;
use vstd::string::*;

use crate::model;
use crate::model::{
    explicit_usage, CacheReadMode, DailyRow, ModelBreakdown, MonthlyRow, ReportOutput, SessionRow,
    Totals, UsageTotals, UsdAmount,
};
use crate::number;
use crate::number::format_currency;
use crate::table;
use crate::table::{
    column_widths, row_table_element, table_rule, table_rule_element, write_table_header,
    write_table_row, write_table_rule, write_table_title, DisplayRow, DisplayRowKind,
    TableElement, TableRenderConfig, TableRuleKind,
};
use crate::text;
use crate::text::{decimal_text, text_eq};

verus! {

/// A count as a cell.
pub open spec fn count_cell(n: u64) -> Seq<char> {
    text::decimal(n as nat)
}

/// The cells of a usage and its cost. Cached input has a cell of its own where it is shown.
pub open spec fn usage_cells(usage: UsageTotals, cost: UsdAmount, mode: CacheReadMode) -> Seq<
    Seq<char>,
> {
    if mode == CacheReadMode::Include {
        seq![
            count_cell(usage.input),
            count_cell(usage.cached_input),
            count_cell(usage.output),
            count_cell(usage.reasoning_output),
            count_cell(usage.total),
            number::currency_text(cost),
        ]
    } else {
        seq![
            count_cell(usage.input),
            count_cell(usage.output),
            count_cell(usage.reasoning_output),
            count_cell(usage.total),
            number::currency_text(cost),
        ]
    }
}

/// Append usage and cost cells in the active cache-read column layout.
pub fn append_usage_cells(
    cells: &mut Vec<String>,
    usage: &UsageTotals,
    cost_usd: UsdAmount,
    cache_read_mode: CacheReadMode,
)
    ensures
        text::texts(final(cells)@) == text::texts(old(cells)@) + usage_cells(
            *usage,
            cost_usd,
            cache_read_mode,
        ),
{
    cells.push(decimal_text(usage.input));
    if cache_read_mode == CacheReadMode::Include {
        cells.push(decimal_text(usage.cached_input));
    }
    cells.push(decimal_text(usage.output));
    cells.push(decimal_text(usage.reasoning_output));
    cells.push(decimal_text(usage.total));
    cells.push(format_currency(cost_usd));
    assert(text::texts(cells@) =~= text::texts(old(cells)@) + usage_cells(
        *usage,
        cost_usd,
        cache_read_mode,
    ));
}

/// Blank cells.
pub open spec fn blanks(count: nat) -> Seq<Seq<char>> {
    Seq::new(count, |i: int| Seq::<char>::empty())
}

/// The row of a model.
pub open spec fn model_row(
    columns_before: nat,
    last_activity: bool,
    label: Seq<char>,
    usage: UsageTotals,
    cost: UsdAmount,
    mode: CacheReadMode,
) -> table::RowFacts {
    let cells = blanks(columns_before).push("  "@ + label) + usage_cells(usage, cost, mode);
    table::RowFacts {
        cells: if last_activity {
            cells.push(Seq::empty())
        } else {
            cells
        },
        kind: DisplayRowKind::Detail,
    }
}

/// The rows of a model: one for the usage under its own name and one for that by fallback, each
/// where there is any.
pub open spec fn model_pair(
    columns_before: nat,
    last_activity: bool,
    name: Seq<char>,
    breakdown: ModelBreakdown,
    mode: CacheReadMode,
) -> Seq<table::RowFacts> {
    let explicit = model::explicit_part(breakdown);
    (if explicit != model::no_usage() {
        seq![
            model_row(columns_before, last_activity, name, explicit, breakdown.cost_usd, mode),
        ]
    } else {
        Seq::empty()
    }) + (if breakdown.fallback_usage != model::no_usage() {
        seq![
            model_row(
                columns_before,
                last_activity,
                name + " (fallback)"@,
                breakdown.fallback_usage,
                breakdown.fallback_cost_usd,
                mode,
            ),
        ]
    } else {
        Seq::empty()
    })
}

/// The rows of the models of a group.
pub open spec fn model_rows(
    columns_before: nat,
    last_activity: bool,
    models: Seq<(String, ModelBreakdown)>,
    mode: CacheReadMode,
) -> Seq<table::RowFacts>
    decreases models.len(),
{
    if models.len() == 0 {
        Seq::empty()
    } else {
        model_rows(columns_before, last_activity, models.drop_last(), mode) + model_pair(
            columns_before,
            last_activity,
            models.last().0@,
            models.last().1,
            mode,
        )
    }
}

/// How many columns a report table has.
pub open spec fn column_count(columns_before: nat, last_activity: bool, mode: CacheReadMode) -> nat {
    columns_before + 1 + (if mode == CacheReadMode::Include {
        6nat
    } else {
        5nat
    }) + (if last_activity {
        1nat
    } else {
        0nat
    })
}

/// Build one child row for a model breakdown.
pub fn model_display_row(
    columns_before_model: usize,
    include_last_activity_column: bool,
    model_label: &str,
    usage: &UsageTotals,
    cost_usd: UsdAmount,
    cache_read_mode: CacheReadMode,
) -> (row: DisplayRow)
    ensures
        row@ == model_row(
            columns_before_model as nat,
            include_last_activity_column,
            model_label@,
            *usage,
            cost_usd,
            cache_read_mode,
        ),
        row.cells.len() == column_count(
            columns_before_model as nat,
            include_last_activity_column,
            cache_read_mode,
        ),
{
    let mut cells: Vec<String> = Vec::new();
    let mut i: usize = 0;
    assert(text::texts(cells@) =~= blanks(0));
    while i < columns_before_model
        invariant
            i <= columns_before_model,
            text::texts(cells@) == blanks(i as nat),
        decreases columns_before_model - i,
    {
        let ghost before = text::texts(cells@);
        cells.push(String::new());
        assert(text::texts(cells@) =~= before.push(Seq::<char>::empty()));
        i += 1;
        assert(text::texts(cells@) =~= blanks(i as nat));
    }
    let mut label = String::from_str("  ");
    label.append(model_label);
    let ghost shown = label@;
    cells.push(label);
    assert(text::texts(cells@) =~= blanks(columns_before_model as nat).push(shown));
    append_usage_cells(&mut cells, usage, cost_usd, cache_read_mode);
    let ghost before = text::texts(cells@);
    if include_last_activity_column {
        cells.push(String::new());
        assert(text::texts(cells@) =~= before.push(Seq::<char>::empty()));
    }
    assert(text::texts(cells@).len() == cells.len());
    DisplayRow { cells, kind: DisplayRowKind::Detail }
}

fn push_row(rows: &mut Vec<DisplayRow>, row: DisplayRow)
    ensures
        final(rows)@ == old(rows)@.push(row),
        table::rows_facts(final(rows)@) == table::rows_facts(old(rows)@).push(row@),
{
    let ghost before = table::rows_facts(rows@);
    rows.push(row);
    assert(table::rows_facts(rows@) =~= before.push(row@));
}

/// Append child rows for every model in a group.
pub fn append_model_display_rows(
    display_rows: &mut Vec<DisplayRow>,
    columns_before_model: usize,
    include_last_activity_column: bool,
    models: &Vec<(String, ModelBreakdown)>,
    cache_read_mode: CacheReadMode,
)
    ensures
        table::rows_facts(final(display_rows)@) == table::rows_facts(old(display_rows)@)
            + model_rows(
            columns_before_model as nat,
            include_last_activity_column,
            models@,
            cache_read_mode,
        ),
        table::rows_fit(
            old(display_rows)@,
            column_count(
                columns_before_model as nat,
                include_last_activity_column,
                cache_read_mode,
            ),
        ) ==> table::rows_fit(
            final(display_rows)@,
            column_count(
                columns_before_model as nat,
                include_last_activity_column,
                cache_read_mode,
            ),
        ),
{
    let ghost start = table::rows_facts(display_rows@);
    let ghost before = columns_before_model as nat;
    assert(models@.take(0) == Seq::<(String, ModelBreakdown)>::empty());
    assert(start + Seq::<table::RowFacts>::empty() =~= start);
    let mut i: usize = 0;
    while i < models.len()
        invariant
            i <= models.len(),
            before == columns_before_model,
            start == table::rows_facts(old(display_rows)@),
            table::rows_facts(display_rows@) == start + model_rows(
                before,
                include_last_activity_column,
                models@.take(i as int),
                cache_read_mode,
            ),
            table::rows_fit(
                old(display_rows)@,
                column_count(before, include_last_activity_column, cache_read_mode),
            ) ==> table::rows_fit(
                display_rows@,
                column_count(before, include_last_activity_column, cache_read_mode),
            ),
        decreases models.len() - i,
    {
        let model = &models[i].0;
        let breakdown = &models[i].1;
        let ghost done = table::rows_facts(display_rows@);
        let explicit = explicit_usage(breakdown);
        if explicit.has_usage() {
            push_row(
                display_rows,
                model_display_row(
                    columns_before_model,
                    include_last_activity_column,
                    model.as_str(),
                    &explicit,
                    breakdown.cost_usd,
                    cache_read_mode,
                ),
            );
        }
        if breakdown.fallback_usage.has_usage() {
            let mut label = model.clone();
            label.append(" (fallback)");
            push_row(
                display_rows,
                model_display_row(
                    columns_before_model,
                    include_last_activity_column,
                    label.as_str(),
                    &breakdown.fallback_usage,
                    breakdown.fallback_cost_usd,
                    cache_read_mode,
                ),
            );
        }
        proof {
            let pair = model_pair(
                before,
                include_last_activity_column,
                model@,
                *breakdown,
                cache_read_mode,
            );
            assert(table::rows_facts(display_rows@) =~= done + pair);
            assert(models@.take(i + 1).drop_last() == models@.take(i as int));
            assert(models@.take(i + 1).last() == models[i as int]);
            assert(table::rows_facts(display_rows@) =~= start + model_rows(
                before,
                include_last_activity_column,
                models@.take(i + 1),
                cache_read_mode,
            ));
        }
        i += 1;
    }
    assert(models@.take(models.len() as int) == models@);
}

/// A row that separates two groups.
pub open spec fn spacer() -> table::RowFacts {
    table::RowFacts { cells: Seq::empty(), kind: DisplayRowKind::Spacer }
}

/// The rows of a group: a separator before every group but the first, the subtotal and the models.
pub open spec fn group_rows(
    first: bool,
    subtotal: Seq<Seq<char>>,
    models: Seq<table::RowFacts>,
) -> Seq<table::RowFacts> {
    (if first {
        Seq::empty()
    } else {
        seq![spacer()]
    }).push(table::RowFacts { cells: subtotal, kind: DisplayRowKind::Subtotal }) + models
}

/// Append the separator and the subtotal of a group, and then its models.
fn append_group(
    display_rows: &mut Vec<DisplayRow>,
    first: bool,
    subtotal: Vec<String>,
    columns_before_model: usize,
    include_last_activity_column: bool,
    models: &Vec<(String, ModelBreakdown)>,
    cache_read_mode: CacheReadMode,
)
    requires
        table::rows_fit(
            old(display_rows)@,
            column_count(
                columns_before_model as nat,
                include_last_activity_column,
                cache_read_mode,
            ),
        ),
        subtotal.len() == column_count(
            columns_before_model as nat,
            include_last_activity_column,
            cache_read_mode,
        ),
    ensures
        table::rows_facts(final(display_rows)@) == table::rows_facts(old(display_rows)@)
            + group_rows(
            first,
            text::texts(subtotal@),
            model_rows(
                columns_before_model as nat,
                include_last_activity_column,
                models@,
                cache_read_mode,
            ),
        ),
        table::rows_fit(
            final(display_rows)@,
            column_count(
                columns_before_model as nat,
                include_last_activity_column,
                cache_read_mode,
            ),
        ),
{
    let ghost start = table::rows_facts(display_rows@);
    if !first {
        let gap = DisplayRow { cells: Vec::new(), kind: DisplayRowKind::Spacer };
        assert(gap@ =~= spacer());
        push_row(display_rows, gap);
    }
    push_row(display_rows, DisplayRow { cells: subtotal, kind: DisplayRowKind::Subtotal });
    append_model_display_rows(
        display_rows,
        columns_before_model,
        include_last_activity_column,
        models,
        cache_read_mode,
    );
    assert(table::rows_facts(display_rows@) =~= start + group_rows(
        first,
        text::texts(subtotal@),
        model_rows(
            columns_before_model as nat,
            include_last_activity_column,
            models@,
            cache_read_mode,
        ),
    ));
}

/// The usage of a daily row.
pub open spec fn daily_usage(row: DailyRow) -> UsageTotals {
    UsageTotals {
        input: row.input_tokens,
        cached_input: row.cached_input_tokens,
        output: row.output_tokens,
        reasoning_output: row.reasoning_output_tokens,
        total: row.total_tokens,
    }
}

/// The usage of a monthly row.
pub open spec fn monthly_usage(row: MonthlyRow) -> UsageTotals {
    UsageTotals {
        input: row.input_tokens,
        cached_input: row.cached_input_tokens,
        output: row.output_tokens,
        reasoning_output: row.reasoning_output_tokens,
        total: row.total_tokens,
    }
}

/// The usage of a session row.
pub open spec fn session_usage(row: SessionRow) -> UsageTotals {
    UsageTotals {
        input: row.input_tokens,
        cached_input: row.cached_input_tokens,
        output: row.output_tokens,
        reasoning_output: row.reasoning_output_tokens,
        total: row.total_tokens,
    }
}

/// The rows of a daily table.
pub open spec fn daily_rows(rows: Seq<DailyRow>, mode: CacheReadMode) -> Seq<table::RowFacts>
    decreases rows.len(),
{
    if rows.len() == 0 {
        Seq::empty()
    } else {
        let row = rows.last();
        daily_rows(rows.drop_last(), mode) + group_rows(
            rows.len() == 1,
            seq![row.date@, "TOTAL"@] + usage_cells(daily_usage(row), row.cost_usd, mode),
            model_rows(1, false, row.models.entries@, mode),
        )
    }
}

/// Build display rows for a daily report.
pub fn daily_display_rows(rows: &Vec<DailyRow>, cache_read_mode: CacheReadMode) -> (display_rows: Vec<
    DisplayRow,
>)
    ensures
        table::rows_facts(display_rows@) == daily_rows(rows@, cache_read_mode),
        table::rows_fit(display_rows@, column_count(1, false, cache_read_mode)),
{
    let mut display_rows: Vec<DisplayRow> = Vec::new();
    assert(rows@.take(0) == Seq::<DailyRow>::empty());
    assert(table::rows_facts(display_rows@) =~= Seq::<table::RowFacts>::empty());
    let mut i: usize = 0;
    while i < rows.len()
        invariant
            i <= rows.len(),
            table::rows_facts(display_rows@) == daily_rows(rows@.take(i as int), cache_read_mode),
            table::rows_fit(display_rows@, column_count(1, false, cache_read_mode)),
        decreases rows.len() - i,
    {
        let row = &rows[i];
        let usage = UsageTotals {
            input: row.input_tokens,
            cached_input: row.cached_input_tokens,
            output: row.output_tokens,
            reasoning_output: row.reasoning_output_tokens,
            total: row.total_tokens,
        };
        let mut subtotal: Vec<String> = Vec::new();
        subtotal.push(row.date.clone());
        subtotal.push(String::from_str("TOTAL"));
        assert(text::texts(subtotal@) =~= seq![row.date@, "TOTAL"@]);
        append_usage_cells(&mut subtotal, &usage, row.cost_usd, cache_read_mode);
        assert(text::texts(subtotal@).len() == subtotal.len());
        proof {
            assert(rows@.take(i + 1).drop_last() == rows@.take(i as int));
            assert(rows@.take(i + 1).last() == *row);
        }
        append_group(
            &mut display_rows,
            i == 0,
            subtotal,
            1,
            false,
            &row.models.entries,
            cache_read_mode,
        );
        i += 1;
    }
    assert(rows@.take(rows.len() as int) == rows@);
    display_rows
}

/// The rows of a monthly table.
pub open spec fn monthly_rows(rows: Seq<MonthlyRow>, mode: CacheReadMode) -> Seq<table::RowFacts>
    decreases rows.len(),
{
    if rows.len() == 0 {
        Seq::empty()
    } else {
        let row = rows.last();
        monthly_rows(rows.drop_last(), mode) + group_rows(
            rows.len() == 1,
            seq![row.month@, "TOTAL"@] + usage_cells(monthly_usage(row), row.cost_usd, mode),
            model_rows(1, false, row.models.entries@, mode),
        )
    }
}

/// Build display rows for a monthly report.
pub fn monthly_display_rows(rows: &Vec<MonthlyRow>, cache_read_mode: CacheReadMode) -> (display_rows:
    Vec<DisplayRow>)
    ensures
        table::rows_facts(display_rows@) == monthly_rows(rows@, cache_read_mode),
        table::rows_fit(display_rows@, column_count(1, false, cache_read_mode)),
{
    let mut display_rows: Vec<DisplayRow> = Vec::new();
    assert(rows@.take(0) == Seq::<MonthlyRow>::empty());
    assert(table::rows_facts(display_rows@) =~= Seq::<table::RowFacts>::empty());
    let mut i: usize = 0;
    while i < rows.len()
        invariant
            i <= rows.len(),
            table::rows_facts(display_rows@) == monthly_rows(
                rows@.take(i as int),
                cache_read_mode,
            ),
            table::rows_fit(display_rows@, column_count(1, false, cache_read_mode)),
        decreases rows.len() - i,
    {
        let row = &rows[i];
        let usage = UsageTotals {
            input: row.input_tokens,
            cached_input: row.cached_input_tokens,
            output: row.output_tokens,
            reasoning_output: row.reasoning_output_tokens,
            total: row.total_tokens,
        };
        let mut subtotal: Vec<String> = Vec::new();
        subtotal.push(row.month.clone());
        subtotal.push(String::from_str("TOTAL"));
        assert(text::texts(subtotal@) =~= seq![row.month@, "TOTAL"@]);
        append_usage_cells(&mut subtotal, &usage, row.cost_usd, cache_read_mode);
        assert(text::texts(subtotal@).len() == subtotal.len());
        proof {
            assert(rows@.take(i + 1).drop_last() == rows@.take(i as int));
            assert(rows@.take(i + 1).last() == *row);
        }
        append_group(
            &mut display_rows,
            i == 0,
            subtotal,
            1,
            false,
            &row.models.entries,
            cache_read_mode,
        );
        i += 1;
    }
    assert(rows@.take(rows.len() as int) == rows@);
    display_rows
}

/// The directory as a cell; a session at the root shows a dash.
pub open spec fn directory_cell(directory: Seq<char>) -> Seq<char> {
    if directory.len() == 0 {
        "-"@
    } else {
        directory
    }
}

/// The rows of a session table.
pub open spec fn session_rows(rows: Seq<SessionRow>, mode: CacheReadMode) -> Seq<table::RowFacts>
    decreases rows.len(),
{
    if rows.len() == 0 {
        Seq::empty()
    } else {
        let row = rows.last();
        session_rows(rows.drop_last(), mode) + group_rows(
            rows.len() == 1,
            (seq![directory_cell(row.directory@), row.session_file@, "TOTAL"@] + usage_cells(
                session_usage(row),
                row.cost_usd,
                mode,
            )).push(row.last_activity@),
            model_rows(2, true, row.models.entries@, mode),
        )
    }
}

/// Build display rows for a session report.
pub fn session_display_rows(rows: &Vec<SessionRow>, cache_read_mode: CacheReadMode) -> (display_rows:
    Vec<DisplayRow>)
    ensures
        table::rows_facts(display_rows@) == session_rows(rows@, cache_read_mode),
        table::rows_fit(display_rows@, column_count(2, true, cache_read_mode)),
{
    let mut display_rows: Vec<DisplayRow> = Vec::new();
    assert(rows@.take(0) == Seq::<SessionRow>::empty());
    assert(table::rows_facts(display_rows@) =~= Seq::<table::RowFacts>::empty());
    let mut i: usize = 0;
    while i < rows.len()
        invariant
            i <= rows.len(),
            table::rows_facts(display_rows@) == session_rows(
                rows@.take(i as int),
                cache_read_mode,
            ),
            table::rows_fit(display_rows@, column_count(2, true, cache_read_mode)),
        decreases rows.len() - i,
    {
        let row = &rows[i];
        let usage = UsageTotals {
            input: row.input_tokens,
            cached_input: row.cached_input_tokens,
            output: row.output_tokens,
            reasoning_output: row.reasoning_output_tokens,
            total: row.total_tokens,
        };
        let mut subtotal: Vec<String> = Vec::new();
        if row.directory.as_str().is_empty() {
            subtotal.push(String::from_str("-"));
        } else {
            subtotal.push(row.directory.clone());
        }
        subtotal.push(row.session_file.clone());
        subtotal.push(String::from_str("TOTAL"));
        assert(text::texts(subtotal@) =~= seq![
            directory_cell(row.directory@),
            row.session_file@,
            "TOTAL"@,
        ]);
        append_usage_cells(&mut subtotal, &usage, row.cost_usd, cache_read_mode);
        let ghost before = text::texts(subtotal@);
        subtotal.push(row.last_activity.clone());
        assert(text::texts(subtotal@) =~= before.push(row.last_activity@));
        assert(text::texts(subtotal@).len() == subtotal.len());
        proof {
            assert(rows@.take(i + 1).drop_last() == rows@.take(i as int));
            assert(rows@.take(i + 1).last() == *row);
        }
        append_group(
            &mut display_rows,
            i == 0,
            subtotal,
            2,
            true,
            &row.models.entries,
            cache_read_mode,
        );
        i += 1;
    }
    assert(rows@.take(rows.len() as int) == rows@);
    display_rows
}

/// The usage of grand totals.
pub open spec fn grand_usage(totals: Totals) -> UsageTotals {
    UsageTotals {
        input: totals.input_tokens,
        cached_input: totals.cached_input_tokens,
        output: totals.output_tokens,
        reasoning_output: totals.reasoning_output_tokens,
        total: totals.total_tokens,
    }
}

/// The grand total row of a table.
pub open spec fn grand_total_facts(
    sessions: bool,
    totals: Totals,
    mode: CacheReadMode,
) -> table::RowFacts {
    let cells = blanks(
        if sessions {
            2
        } else {
            1
        },
    ).push("GRAND TOTAL"@) + usage_cells(grand_usage(totals), totals.cost_usd, mode);
    table::RowFacts {
        cells: if sessions {
            cells.push(Seq::empty())
        } else {
            cells
        },
        kind: DisplayRowKind::GrandTotal,
    }
}

/// Build the final grand total row for a table.
pub fn grand_total_row(headers: &[&str], totals: &Totals) -> (row: DisplayRow)
    ensures
        ({
            let names = table::strs(headers@);
            let sessions = names.len() > 0 && names[0] == "Directory"@;
            let mode = if names.contains("Cache"@) {
                CacheReadMode::Include
            } else {
                CacheReadMode::Exclude
            };
            &&& row@ == grand_total_facts(sessions, *totals, mode)
            &&& row.cells.len() == column_count(
                if sessions {
                    2
                } else {
                    1
                },
                sessions,
                mode,
            )
        }),
{
    let ghost names = table::strs(headers@);
    let cache_read_mode = if holds_header(headers, "Cache") {
        CacheReadMode::Include
    } else {
        CacheReadMode::Exclude
    };
    let sessions = headers.len() > 0 && text_eq(headers[0], "Directory");
    assert(names.len() > 0 ==> names[0] == headers@[0]@);
    let mut cells: Vec<String> = Vec::new();
    cells.push(String::new());
    if sessions {
        cells.push(String::new());
    }
    cells.push(String::from_str("GRAND TOTAL"));
    assert(text::texts(cells@) =~= blanks(
        if sessions {
            2
        } else {
            1
        },
    ).push("GRAND TOTAL"@));
    let usage = UsageTotals {
        input: totals.input_tokens,
        cached_input: totals.cached_input_tokens,
        output: totals.output_tokens,
        reasoning_output: totals.reasoning_output_tokens,
        total: totals.total_tokens,
    };
    append_usage_cells(&mut cells, &usage, totals.cost_usd, cache_read_mode);
    let ghost before = text::texts(cells@);
    if sessions {
        cells.push(String::new());
        assert(text::texts(cells@) =~= before.push(Seq::<char>::empty()));
    }
    assert(text::texts(cells@).len() == cells.len());
    DisplayRow { cells, kind: DisplayRowKind::GrandTotal }
}

fn holds_header(headers: &[&str], name: &str) -> (r: bool)
    ensures
        r == table::strs(headers@).contains(name@),
{
    let ghost names = table::strs(headers@);
    let mut i: usize = 0;
    while i < headers.len()
        invariant
            i <= headers@.len(),
            names == table::strs(headers@),
            forall|k: int| 0 <= k < i ==> names[k] != name@,
        decreases headers@.len() - i,
    {
        assert(names[i as int] == headers@[i as int]@);
        if text_eq(headers[i], name) {
            return true;
        }
        i += 1;
    }
    false
}

/// A line of the table body: a rule for a separator, a row of cells for all else.
pub open spec fn body_line(
    config: TableRenderConfig,
    headers: Seq<Seq<char>>,
    widths: Seq<nat>,
    row: table::RowFacts,
) -> Seq<char> {
    (if row.kind == DisplayRowKind::Spacer {
        table::painted(
            config.style,
            TableElement::Border,
            table::rule_text(TableRuleKind::GroupSeparator, config.borders, widths),
        )
    } else {
        table::row_text(config, headers, widths, row.cells, table::row_element(row.kind))
    }) + table::one('\n')
}

/// The lines of the table body.
pub open spec fn body_text(
    config: TableRenderConfig,
    headers: Seq<Seq<char>>,
    widths: Seq<nat>,
    rows: Seq<table::RowFacts>,
) -> Seq<char>
    decreases rows.len(),
{
    if rows.len() == 0 {
        Seq::empty()
    } else {
        body_text(config, headers, widths, rows.drop_last()) + body_line(
            config,
            headers,
            widths,
            rows.last(),
        )
    }
}

/// A table with a title, grouped rows and a totals row.
pub open spec fn usage_table(
    title: Seq<char>,
    config: TableRenderConfig,
    headers: Seq<Seq<char>>,
    rows: Seq<table::RowFacts>,
) -> Seq<char> {
    let widths = table::table_widths(headers, rows, config.number_format);
    table::painted(config.style, TableElement::Title, title + " Codex Usage Report"@) + table::one(
        '\n',
    ) + table::one('\n') + table::header_text(config, headers, widths) + body_text(
        config,
        headers,
        widths,
        rows,
    ) + table::painted(
        config.style,
        TableElement::Border,
        table::rule_text(TableRuleKind::Bottom, config.borders, widths),
    ) + table::one('\n')
}

/// Render a rectangular table with grouped rows and a totals row.
pub fn render_usage_table(
    title: &str,
    render_config: TableRenderConfig,
    headers: &[&str],
    rows: Vec<DisplayRow>,
    total_row: DisplayRow,
) -> (output: String)
    requires
        table::rows_fit(rows@, headers@.len()),
        total_row.cells.len() <= headers@.len(),
    ensures
        output@ == usage_table(
            title@,
            render_config,
            table::strs(headers@),
            table::rows_facts(rows@).push(total_row@),
        ),
{
    let ghost names = table::strs(headers@);
    let ghost facts = table::rows_facts(rows@).push(total_row@);
    let widths = column_widths(headers, &rows, &total_row, render_config.number_format);
    let ghost columns = table::nats(widths@);
    let mut all_rows = rows;
    push_row(&mut all_rows, total_row);
    let mut output = String::new();
    write_table_title(&mut output, render_config.style, title);
    output.push('\n');
    write_table_header(&mut output, render_config, headers, widths.as_slice());
    let ghost head = output@;
    assert(facts.take(0) == Seq::<table::RowFacts>::empty());
    assert(head =~= head + body_text(render_config, names, columns, facts.take(0)));
    let mut i: usize = 0;
    while i < all_rows.len()
        invariant
            i <= all_rows.len(),
            names == table::strs(headers@),
            facts == table::rows_facts(all_rows@),
            columns == table::nats(widths@),
            widths.len() == headers@.len(),
            table::rows_fit(all_rows@, headers@.len()),
            output@ == head + body_text(render_config, names, columns, facts.take(i as int)),
        decreases all_rows.len() - i,
    {
        let row = &all_rows[i];
        let ghost before = output@;
        if row.kind == DisplayRowKind::Spacer {
            write_table_rule(
                &mut output,
                render_config.style,
                table_rule_element(TableRuleKind::GroupSeparator),
                table_rule(
                    TableRuleKind::GroupSeparator,
                    render_config.borders,
                    widths.as_slice(),
                ).as_str(),
            );
        } else {
            write_table_row(
                &mut output,
                render_config,
                headers,
                widths.as_slice(),
                row.cells.as_slice(),
                row_table_element(row.kind),
            );
        }
        proof {
            assert(facts.take(i + 1).drop_last() == facts.take(i as int));
            assert(facts.take(i + 1).last() == row@);
            assert(output@ =~= before + body_line(render_config, names, columns, row@));
            assert(output@ =~= head + body_text(
                render_config,
                names,
                columns,
                facts.take(i + 1),
            ));
        }
        i += 1;
    }
    assert(facts.take(facts.len() as int) == facts);
    write_table_rule(
        &mut output,
        render_config.style,
        table_rule_element(TableRuleKind::Bottom),
        table_rule(TableRuleKind::Bottom, render_config.borders, widths.as_slice()).as_str(),
    );
    assert(output@ =~= usage_table(title@, render_config, names, facts));
    output
}

/// The usage headings.
pub open spec fn usage_headers(mode: CacheReadMode) -> Seq<Seq<char>> {
    if mode == CacheReadMode::Include {
        seq!["Input"@, "Cache"@, "Output"@, "Reasoning"@, "Total"@, "Cost"@]
    } else {
        seq!["Input"@, "Output"@, "Reasoning"@, "Total"@, "Cost"@]
    }
}

/// The headings of a table by day or month.
pub open spec fn period_headers(period: Seq<char>, mode: CacheReadMode) -> Seq<Seq<char>> {
    seq![period, "Model"@] + usage_headers(mode)
}

/// The headings of a table by session.
pub open spec fn session_headers(mode: CacheReadMode) -> Seq<Seq<char>> {
    (seq!["Directory"@, "Session"@, "Model"@] + usage_headers(mode)).push("Last Activity"@)
}

fn push_usage_headers(headers: &mut Vec<&str>, mode: CacheReadMode)
    ensures
        table::strs(final(headers)@) == table::strs(old(headers)@) + usage_headers(mode),
{
    headers.push("Input");
    if mode == CacheReadMode::Include {
        headers.push("Cache");
    }
    headers.push("Output");
    headers.push("Reasoning");
    headers.push("Total");
    headers.push("Cost");
    assert(table::strs(headers@) =~= table::strs(old(headers)@) + usage_headers(mode));
}

proof fn lemma_headings_differ()
    ensures
        "Directory"@ != "Date"@,
        "Directory"@ != "Month"@,
        "Cache"@ != "Date"@,
        "Cache"@ != "Month"@,
        "Cache"@ != "Model"@,
        "Cache"@ != "Input"@,
        "Cache"@ != "Output"@,
        "Cache"@ != "Reasoning"@,
        "Cache"@ != "Total"@,
        "Cache"@ != "Cost"@,
        "Cache"@ != "Directory"@,
        "Cache"@ != "Session"@,
        "Cache"@ != "Last Activity"@,
{
    reveal_strlit("Directory");
    reveal_strlit("Date");
    reveal_strlit("Month");
    reveal_strlit("Cache");
    reveal_strlit("Model");
    reveal_strlit("Input");
    reveal_strlit("Output");
    reveal_strlit("Reasoning");
    reveal_strlit("Total");
    reveal_strlit("Cost");
    reveal_strlit("Session");
    reveal_strlit("Last Activity");
    assert("Cache"@[0] != "Month"@[0]);
    assert("Cache"@[0] != "Model"@[0]);
    assert("Cache"@[0] != "Input"@[0]);
    assert("Cache"@[0] != "Total"@[0]);
    assert("Directory"@.len() != "Date"@.len());
    assert("Cache"@.len() != "Cost"@.len());
}

proof fn lemma_period_headers(period: Seq<char>, mode: CacheReadMode)
    requires
        period == "Date"@ || period == "Month"@,
    ensures
        period_headers(period, mode)[0] != "Directory"@,
        period_headers(period, mode).contains("Cache"@) <==> mode == CacheReadMode::Include,
        period_headers(period, mode).len() == column_count(1, false, mode),
{
    lemma_headings_differ();
    let headers = period_headers(period, mode);
    if mode == CacheReadMode::Include {
        assert(headers[3] == "Cache"@);
    } else {
        assert forall|i: int| 0 <= i < headers.len() implies headers[i] != "Cache"@ by {
            if i >= 2 {
                assert(headers[i] == usage_headers(mode)[i - 2]);
            }
        }
    }
}

proof fn lemma_session_headers(mode: CacheReadMode)
    ensures
        session_headers(mode)[0] == "Directory"@,
        session_headers(mode).contains("Cache"@) <==> mode == CacheReadMode::Include,
        session_headers(mode).len() == column_count(2, true, mode),
{
    lemma_headings_differ();
    let headers = session_headers(mode);
    if mode == CacheReadMode::Include {
        assert(headers[4] == "Cache"@);
    } else {
        assert forall|i: int| 0 <= i < headers.len() implies headers[i] != "Cache"@ by {
            if 3 <= i < 8 {
                assert(headers[i] == usage_headers(mode)[i - 3]);
            }
        }
    }
}

/// The rendered daily report.
pub open spec fn daily_text(
    rows: Seq<DailyRow>,
    totals: Totals,
    config: TableRenderConfig,
    mode: CacheReadMode,
) -> Seq<char> {
    usage_table(
        "Daily"@,
        config,
        period_headers("Date"@, mode),
        daily_rows(rows, mode).push(grand_total_facts(false, totals, mode)),
    )
}

/// Render the daily report body.
pub fn render_daily_report(
    rows: &Vec<DailyRow>,
    totals: &Totals,
    render_config: TableRenderConfig,
    cache_read_mode: CacheReadMode,
) -> (output: String)
    ensures
        output@ == daily_text(rows@, *totals, render_config, cache_read_mode),
{
    let mut headers: Vec<&str> = Vec::new();
    headers.push("Date");
    headers.push("Model");
    assert(table::strs(headers@) =~= seq!["Date"@, "Model"@]);
    push_usage_headers(&mut headers, cache_read_mode);
    proof {
        lemma_period_headers("Date"@, cache_read_mode);
        assert(table::strs(headers@) =~= period_headers("Date"@, cache_read_mode));
        assert(table::strs(headers@).len() == headers.len());
    }
    let display_rows = daily_display_rows(rows, cache_read_mode);
    let total_row = grand_total_row(headers.as_slice(), totals);
    render_usage_table("Daily", render_config, headers.as_slice(), display_rows, total_row)
}

/// The rendered monthly report.
pub open spec fn monthly_text(
    rows: Seq<MonthlyRow>,
    totals: Totals,
    config: TableRenderConfig,
    mode: CacheReadMode,
) -> Seq<char> {
    usage_table(
        "Monthly"@,
        config,
        period_headers("Month"@, mode),
        monthly_rows(rows, mode).push(grand_total_facts(false, totals, mode)),
    )
}

/// Render the monthly report body.
pub fn render_monthly_report(
    rows: &Vec<MonthlyRow>,
    totals: &Totals,
    render_config: TableRenderConfig,
    cache_read_mode: CacheReadMode,
) -> (output: String)
    ensures
        output@ == monthly_text(rows@, *totals, render_config, cache_read_mode),
{
    let mut headers: Vec<&str> = Vec::new();
    headers.push("Month");
    headers.push("Model");
    assert(table::strs(headers@) =~= seq!["Month"@, "Model"@]);
    push_usage_headers(&mut headers, cache_read_mode);
    proof {
        lemma_period_headers("Month"@, cache_read_mode);
        assert(table::strs(headers@) =~= period_headers("Month"@, cache_read_mode));
        assert(table::strs(headers@).len() == headers.len());
    }
    let display_rows = monthly_display_rows(rows, cache_read_mode);
    let total_row = grand_total_row(headers.as_slice(), totals);
    render_usage_table("Monthly", render_config, headers.as_slice(), display_rows, total_row)
}

/// The rendered session report.
pub open spec fn session_text(
    rows: Seq<SessionRow>,
    totals: Totals,
    config: TableRenderConfig,
    mode: CacheReadMode,
) -> Seq<char> {
    usage_table(
        "Session"@,
        config,
        session_headers(mode),
        session_rows(rows, mode).push(grand_total_facts(true, totals, mode)),
    )
}

/// Render the session report body.
pub fn render_session_report(
    rows: &Vec<SessionRow>,
    totals: &Totals,
    render_config: TableRenderConfig,
    cache_read_mode: CacheReadMode,
) -> (output: String)
    ensures
        output@ == session_text(rows@, *totals, render_config, cache_read_mode),
{
    let mut headers: Vec<&str> = Vec::new();
    headers.push("Directory");
    headers.push("Session");
    headers.push("Model");
    assert(table::strs(headers@) =~= seq!["Directory"@, "Session"@, "Model"@]);
    push_usage_headers(&mut headers, cache_read_mode);
    let ghost before = table::strs(headers@);
    headers.push("Last Activity");
    proof {
        lemma_session_headers(cache_read_mode);
        assert(table::strs(headers@) =~= before.push("Last Activity"@));
        assert(table::strs(headers@) =~= session_headers(cache_read_mode));
        assert(table::strs(headers@).len() == headers.len());
    }
    let display_rows = session_display_rows(rows, cache_read_mode);
    let total_row = grand_total_row(headers.as_slice(), totals);
    render_usage_table("Session", render_config, headers.as_slice(), display_rows, total_row)
}

/// The lines that name directories.
pub open spec fn directory_lines(directories: Seq<Seq<char>>) -> Seq<char>
    decreases directories.len(),
{
    if directories.len() == 0 {
        Seq::empty()
    } else {
        directory_lines(directories.drop_last()) + "- "@ + directories.last() + table::one('\n')
    }
}

/// The warning about missing directories, empty where none is missing.
pub open spec fn missing_warning(directories: Seq<Seq<char>>) -> Seq<char> {
    if directories.len() == 0 {
        Seq::empty()
    } else {
        "Warning: missing session directories\n"@ + directory_lines(directories) + table::one('\n')
    }
}

/// Build the missing-directory warning prefix.
pub fn missing_directory_warning(missing_directories: &Vec<String>) -> (warning: Option<String>)
    ensures
        match warning {
            Some(s) => missing_directories.len() > 0 && s@ == missing_warning(
                text::texts(missing_directories@),
            ),
            None => missing_directories.len() == 0,
        },
{
    if missing_directories.len() == 0 {
        return None;
    }
    let ghost all = text::texts(missing_directories@);
    let mut warning = String::from_str("Warning: missing session directories\n");
    let ghost head = warning@;
    assert(all.take(0) == Seq::<Seq<char>>::empty());
    assert(head =~= head + directory_lines(all.take(0)));
    let mut i: usize = 0;
    while i < missing_directories.len()
        invariant
            i <= missing_directories.len(),
            all == text::texts(missing_directories@),
            warning@ == head + directory_lines(all.take(i as int)),
        decreases missing_directories.len() - i,
    {
        warning.append("- ");
        warning.append(missing_directories[i].as_str());
        warning.push('\n');
        proof {
            assert(all.take(i + 1).drop_last() == all.take(i as int));
            assert(all.take(i + 1).last() == missing_directories[i as int]@);
            assert(warning@ =~= head + directory_lines(all.take(i + 1)));
        }
        i += 1;
    }
    assert(all.take(all.len() as int) == all);
    warning.push('\n');
    assert(warning@ =~= missing_warning(all));
    Some(warning)
}

/// The rendered report.
pub open spec fn report_text(
    report: ReportOutput,
    config: TableRenderConfig,
    mode: CacheReadMode,
) -> Seq<char> {
    match report {
        ReportOutput::Daily { rows, totals, missing_directories } => missing_warning(
            text::texts(missing_directories@),
        ) + daily_text(rows@, totals, config, mode),
        ReportOutput::Monthly { rows, totals, missing_directories } => missing_warning(
            text::texts(missing_directories@),
        ) + monthly_text(rows@, totals, config, mode),
        ReportOutput::Session { rows, totals, missing_directories } => missing_warning(
            text::texts(missing_directories@),
        ) + session_text(rows@, totals, config, mode),
    }
}

/// Render a report output into the human-readable table format.
pub fn render_report(
    report: &ReportOutput,
    render_config: TableRenderConfig,
    cache_read_mode: CacheReadMode,
) -> (output: String)
    ensures
        output@ == report_text(*report, render_config, cache_read_mode),
{
    let (body, missing) = match report {
        ReportOutput::Daily { rows, totals, missing_directories } => (
            render_daily_report(rows, totals, render_config, cache_read_mode),
            missing_directories,
        ),
        ReportOutput::Monthly { rows, totals, missing_directories } => (
            render_monthly_report(rows, totals, render_config, cache_read_mode),
            missing_directories,
        ),
        ReportOutput::Session { rows, totals, missing_directories } => (
            render_session_report(rows, totals, render_config, cache_read_mode),
            missing_directories,
        ),
    };
    match missing_directory_warning(missing) {
        Some(warning) => {
            let mut output = warning;
            output.append(body.as_str());
            output
        },
        None => {
            assert(missing_warning(text::texts(missing@)) + body@ =~= body@);
            body
        },
    }
}

/// Whether every row is a separator or has a cell in every column.
pub open spec fn rows_cover_columns(rows: Seq<table::RowFacts>, columns: nat) -> bool {
    forall|k: int|
        0 <= k < rows.len() ==> (#[trigger] rows[k]).kind == DisplayRowKind::Spacer
            || rows[k].cells.len() == columns
}

proof fn lemma_model_rows_cover(
    columns_before: nat,
    last_activity: bool,
    models: Seq<(String, ModelBreakdown)>,
    mode: CacheReadMode,
)
    ensures
        rows_cover_columns(
            model_rows(columns_before, last_activity, models, mode),
            column_count(columns_before, last_activity, mode),
        ),
    decreases models.len(),
{
    if models.len() > 0 {
        lemma_model_rows_cover(columns_before, last_activity, models.drop_last(), mode);
    }
}

proof fn lemma_daily_rows_cover(rows: Seq<DailyRow>, mode: CacheReadMode)
    ensures
        rows_cover_columns(daily_rows(rows, mode), column_count(1, false, mode)),
    decreases rows.len(),
{
    if rows.len() > 0 {
        lemma_daily_rows_cover(rows.drop_last(), mode);
        lemma_model_rows_cover(1, false, rows.last().models.entries@, mode);
    }
}

proof fn lemma_monthly_rows_cover(rows: Seq<MonthlyRow>, mode: CacheReadMode)
    ensures
        rows_cover_columns(monthly_rows(rows, mode), column_count(1, false, mode)),
    decreases rows.len(),
{
    if rows.len() > 0 {
        lemma_monthly_rows_cover(rows.drop_last(), mode);
        lemma_model_rows_cover(1, false, rows.last().models.entries@, mode);
    }
}

proof fn lemma_session_rows_cover(rows: Seq<SessionRow>, mode: CacheReadMode)
    ensures
        rows_cover_columns(session_rows(rows, mode), column_count(2, true, mode)),
    decreases rows.len(),
{
    if rows.len() > 0 {
        lemma_session_rows_cover(rows.drop_last(), mode);
        lemma_model_rows_cover(2, true, rows.last().models.entries@, mode);
    }
}

/// Whether all lines of a plain table body are as wide as its frame.
pub open spec fn body_is_rectangular(
    config: TableRenderConfig,
    headers: Seq<Seq<char>>,
    rows: Seq<table::RowFacts>,
) -> bool {
    let widths = table::table_widths(headers, rows, config.number_format);
    forall|k: int|
        0 <= k < rows.len() ==> body_line(config, headers, widths, #[trigger] rows[k]).len()
            == table::frame_width(widths) + 1
}

proof fn lemma_body_is_rectangular(
    config: TableRenderConfig,
    headers: Seq<Seq<char>>,
    rows: Seq<table::RowFacts>,
)
    requires
        config.style == table::TableStyle::Plain,
        headers.len() > 0,
        rows_cover_columns(rows, headers.len()),
    ensures
        body_is_rectangular(config, headers, rows),
{
    let widths = table::table_widths(headers, rows, config.number_format);
    table::law_columns_hold_their_cells(headers, rows, config.number_format);
    table::law_rules_span_the_table(TableRuleKind::GroupSeparator, config.borders, widths);
    assert forall|k: int| 0 <= k < rows.len() implies body_line(
        config,
        headers,
        widths,
        #[trigger] rows[k],
    ).len() == table::frame_width(widths) + 1 by {
        if rows[k].kind != DisplayRowKind::Spacer {
            table::law_rows_span_the_table(
                config,
                headers,
                widths,
                rows[k].cells,
                table::row_element(rows[k].kind),
            );
        }
    }
}

/// All lines of a plain daily table are equally wide.
pub proof fn law_daily_table_is_rectangular(
    rows: Seq<DailyRow>,
    totals: Totals,
    config: TableRenderConfig,
    mode: CacheReadMode,
)
    requires
        config.style == table::TableStyle::Plain,
    ensures
        body_is_rectangular(
            config,
            period_headers("Date"@, mode),
            daily_rows(rows, mode).push(grand_total_facts(false, totals, mode)),
        ),
{
    lemma_daily_rows_cover(rows, mode);
    lemma_body_is_rectangular(
        config,
        period_headers("Date"@, mode),
        daily_rows(rows, mode).push(grand_total_facts(false, totals, mode)),
    );
}

/// All lines of a plain monthly table are equally wide.
pub proof fn law_monthly_table_is_rectangular(
    rows: Seq<MonthlyRow>,
    totals: Totals,
    config: TableRenderConfig,
    mode: CacheReadMode,
)
    requires
        config.style == table::TableStyle::Plain,
    ensures
        body_is_rectangular(
            config,
            period_headers("Month"@, mode),
            monthly_rows(rows, mode).push(grand_total_facts(false, totals, mode)),
        ),
{
    lemma_monthly_rows_cover(rows, mode);
    lemma_body_is_rectangular(
        config,
        period_headers("Month"@, mode),
        monthly_rows(rows, mode).push(grand_total_facts(false, totals, mode)),
    );
}

/// All lines of a plain session table are equally wide.
pub proof fn law_session_table_is_rectangular(
    rows: Seq<SessionRow>,
    totals: Totals,
    config: TableRenderConfig,
    mode: CacheReadMode,
)
    requires
        config.style == table::TableStyle::Plain,
    ensures
        body_is_rectangular(
            config,
            session_headers(mode),
            session_rows(rows, mode).push(grand_total_facts(true, totals, mode)),
        ),
{
    lemma_session_rows_cover(rows, mode);
    lemma_body_is_rectangular(
        config,
        session_headers(mode),
        session_rows(rows, mode).push(grand_total_facts(true, totals, mode)),
    );
}

} // verus!
