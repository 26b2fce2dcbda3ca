//! Rendering of the account limits on the watch screen.

use vstd::prelude::*;
use vstd::string::*;

use crate::limits;
use crate::limits::{
    CodexLimitStatus, CodexLimitUnavailableReason, CodexLimitWindow, CODEX_LIMIT_BAR_WIDTH,
};
use crate::table;
use crate::table::{
    column_widths, table_rule, table_rule_element, write_table_header, BorderStyle, DisplayRow,
    DisplayRowKind, TableElement, TableRenderConfig, TableRuleKind,
};
use crate::text;
use crate::text::{push_decimal, push_repeated};
use crate::watch_layout;
use crate::watch_layout::write_rows;

verus! {

/// The bar of a limit: filled cells for what is left, empty ones for what is used.
pub open spec fn bar_text(filled: nat, borders: BorderStyle) -> Seq<char> {
    let empty = if filled < CODEX_LIMIT_BAR_WIDTH {
        (CODEX_LIMIT_BAR_WIDTH - filled) as nat
    } else {
        0
    };
    match borders {
        BorderStyle::Ascii => text::repeated('#', filled) + text::repeated('-', empty),
        BorderStyle::Unicode => text::repeated('█', filled) + text::repeated('░', empty),
    }
}

/// Format one fixed-width Codex account limit bar.
pub fn format_limit_bar(filled_cells: u8, borders: BorderStyle) -> (bar: String)
    ensures
        bar@ == bar_text(filled_cells as nat, borders),
{
    let filled: usize = filled_cells as usize;
    let empty: usize = CODEX_LIMIT_BAR_WIDTH.saturating_sub(filled);
    let (full_cell, empty_cell) = match borders {
        BorderStyle::Ascii => ('#', '-'),
        BorderStyle::Unicode => ('█', '░'),
    };
    let mut bar = String::new();
    push_repeated(&mut bar, full_cell, filled);
    push_repeated(&mut bar, empty_cell, empty);
    assert(bar@ =~= bar_text(filled_cells as nat, borders));
    bar
}

/// A bar of at most as many filled cells as it has is always of the same width.
pub proof fn law_bars_have_one_width(filled: nat, borders: BorderStyle)
    requires
        filled <= CODEX_LIMIT_BAR_WIDTH,
    ensures
        bar_text(filled, borders).len() == CODEX_LIMIT_BAR_WIDTH,
{
}

/// A count of a unit of time.
pub open spec fn unit_text(value: int, label: char) -> Seq<char> {
    text::decimal(value as nat).push(label)
}

/// The units of a duration that are not zero, from days to seconds. No duration at all is zero
/// seconds.
pub open spec fn countdown_parts(seconds: int) -> Seq<Seq<char>> {
    let days = seconds / 86_400;
    let hours = seconds % 86_400 / 3_600;
    let minutes = seconds % 3_600 / 60;
    let rest = seconds % 60;
    (if days > 0 {
        seq![unit_text(days, 'd')]
    } else {
        Seq::empty()
    }) + (if hours > 0 {
        seq![unit_text(hours, 'h')]
    } else {
        Seq::empty()
    }) + (if minutes > 0 {
        seq![unit_text(minutes, 'm')]
    } else {
        Seq::empty()
    }) + (if rest > 0 || seconds == 0 {
        seq![unit_text(rest, 's')]
    } else {
        Seq::empty()
    })
}

/// A duration as its two largest units that are not zero.
pub open spec fn countdown_text(seconds: int) -> Seq<char> {
    let parts = countdown_parts(seconds);
    text::joined(
        if parts.len() > 2 {
            parts.take(2)
        } else {
            parts
        },
        " "@,
    )
}

fn unit_part(value: u64, label: char) -> (s: String)
    ensures
        s@ == unit_text(value as int, label),
{
    let mut s = String::new();
    push_decimal(&mut s, value as u128);
    s.push(label);
    assert(s@ =~= unit_text(value as int, label));
    s
}

/// Format a duration as up to two non-zero major units. A negative duration is none.
pub fn format_reset_countdown(total_seconds: i64) -> (s: String)
    ensures
        s@ == countdown_text(
            if total_seconds < 0 {
                0
            } else {
                total_seconds as int
            },
        ),
{
    let seconds: u64 = if total_seconds < 0 {
        0
    } else {
        total_seconds as u64
    };
    let ghost all = countdown_parts(seconds as int);
    let days: u64 = seconds / 86_400;
    let hours: u64 = seconds % 86_400 / 3_600;
    let minutes: u64 = seconds % 3_600 / 60;
    let rest: u64 = seconds % 60;
    let mut parts: Vec<String> = Vec::new();
    if days > 0 {
        parts.push(unit_part(days, 'd'));
    }
    if hours > 0 {
        parts.push(unit_part(hours, 'h'));
    }
    if minutes > 0 && parts.len() < 2 {
        parts.push(unit_part(minutes, 'm'));
    }
    if (rest > 0 || parts.len() == 0) && parts.len() < 2 {
        parts.push(unit_part(rest, 's'));
    }
    proof {
        assert(seconds == 0 <==> days == 0 && hours == 0 && minutes == 0 && rest == 0);
        let shown = if all.len() > 2 {
            all.take(2)
        } else {
            all
        };
        assert(text::texts(parts@) =~= shown);
    }
    let mut s = String::new();
    text::push_joined(&mut s, &parts, " ");
    assert(s@ =~= countdown_text(seconds as int));
    s
}

/// The seconds until a window resets, none where it reports no reset.
pub open spec fn seconds_left(window: CodexLimitWindow, now: i64) -> Option<int> {
    match window.resets_at_epoch_seconds {
        Some(at) => Some(
            if at > now {
                if at - now > i64::MAX {
                    i64::MAX as int
                } else {
                    at - now
                }
            } else {
                0
            },
        ),
        None => None,
    }
}

/// Format the locally computed reset countdown for one limit window.
pub fn limit_reset_countdown(window: &CodexLimitWindow, now_epoch_seconds: i64) -> (s: Option<
    String,
>)
    ensures
        match s {
            Some(countdown) => seconds_left(*window, now_epoch_seconds) matches Some(seconds)
                && countdown@ == countdown_text(seconds),
            None => seconds_left(*window, now_epoch_seconds) is None,
        },
{
    match window.resets_at_epoch_seconds {
        Some(at) => {
            let left: i128 = at as i128 - now_epoch_seconds as i128;
            let seconds: i64 = if left <= 0 {
                0
            } else if left > i64::MAX as i128 {
                i64::MAX
            } else {
                left as i64
            };
            Some(format_reset_countdown(seconds))
        },
        None => None,
    }
}

/// A text filled up on the right.
pub open spec fn padded_right(s: Seq<char>, width: nat) -> Seq<char> {
    s + table::filling(s, width)
}

/// A text filled up on the left.
pub open spec fn padded_left(s: Seq<char>, width: nat) -> Seq<char> {
    table::filling(s, width) + s
}

/// The row of a limit.
pub open spec fn limit_row(
    label: Seq<char>,
    window: Option<CodexLimitWindow>,
    borders: BorderStyle,
    now: i64,
) -> Seq<char> {
    match window {
        Some(w) => padded_right(label, 6) + " ["@ + bar_text(w.share.filled_cells as nat, borders)
            + "] "@ + padded_left(text::decimal(w.share.left_percent as nat), 3) + "% left"@ + (
        match seconds_left(w, now) {
            Some(seconds) => ", "@ + countdown_text(seconds),
            None => Seq::empty(),
        }),
        None => padded_right(label, 6) + " unavailable"@,
    }
}

fn push_blanks(out: &mut String, shown: usize, width: usize)
    ensures
        final(out)@ == old(out)@ + text::repeated(
            ' ',
            if shown < width {
                (width - shown) as nat
            } else {
                0
            },
        ),
{
    push_repeated(out, ' ', width.saturating_sub(shown));
}

/// Render one Codex account limit row.
pub fn render_codex_limit_row(
    label: &str,
    window: &Option<CodexLimitWindow>,
    borders: BorderStyle,
    now_epoch_seconds: i64,
) -> (row: String)
    ensures
        row@ == limit_row(label@, *window, borders, now_epoch_seconds),
{
    let mut row = String::from_str(label);
    push_blanks(&mut row, label.unicode_len(), 6);
    let found = match window {
        Some(found) => found,
        None => {
            row.append(" unavailable");
            assert(row@ =~= limit_row(label@, *window, borders, now_epoch_seconds));
            return row;
        },
    };
    row.append(" [");
    row.append(format_limit_bar(found.share.filled_cells, borders).as_str());
    row.append("] ");
    let mut percent = String::new();
    push_decimal(&mut percent, found.share.left_percent as u128);
    assert(percent@ =~= text::decimal(found.share.left_percent as nat));
    push_blanks(&mut row, percent.as_str().unicode_len(), 3);
    row.append(percent.as_str());
    row.append("% left");
    if let Some(countdown) = limit_reset_countdown(found, now_epoch_seconds) {
        row.append(", ");
        row.append(countdown.as_str());
    }
    assert(row@ =~= limit_row(label@, *window, borders, now_epoch_seconds));
    row
}

/// A table in the frame of the watch tables, without a final line break.
pub open spec fn limit_table(
    config: TableRenderConfig,
    headers: Seq<Seq<char>>,
    rows: Seq<table::RowFacts>,
) -> Seq<char> {
    let widths = table::table_widths(headers, rows, config.number_format);
    table::header_text(config, headers, widths) + watch_layout::rows_text(
        config,
        headers,
        widths,
        rows,
    ) + table::painted(
        config.style,
        TableElement::Border,
        table::rule_text(TableRuleKind::Bottom, config.borders, widths),
    )
}

/// A row of a single cell.
pub open spec fn single_row(cell: Seq<char>) -> table::RowFacts {
    table::RowFacts { cells: seq![cell], kind: DisplayRowKind::Subtotal }
}

/// The rows of single cells.
pub open spec fn single_rows(cells: Seq<Seq<char>>) -> Seq<table::RowFacts> {
    cells.map_values(|cell: Seq<char>| single_row(cell))
}

/// Render a Codex limit table with the standard watch table frame. The last row counts into the
/// widths as the others do.
pub fn render_codex_limit_table(
    render_config: TableRenderConfig,
    headers: &[&str],
    rows: Vec<DisplayRow>,
) -> (output: String)
    requires
        rows.len() > 0,
        table::rows_fit(rows@, headers@.len()),
    ensures
        output@ == limit_table(render_config, table::strs(headers@), table::rows_facts(rows@)),
{
    let mut rows = rows;
    let ghost facts = table::rows_facts(rows@);
    let ghost given = rows@;
    let last = match rows.pop() {
        Some(last) => last,
        None => DisplayRow { cells: Vec::new(), kind: DisplayRowKind::Subtotal },
    };
    let ghost init = table::rows_facts(rows@);
    let ghost final_row = last@;
    assert(init.push(final_row) =~= facts);
    assert forall|k: int| 0 <= k < rows.len() implies (#[trigger] rows[k]).cells.len()
        <= headers@.len() by {
        assert(rows[k] == given[k]);
    }
    let widths = column_widths(headers, &rows, &last, render_config.number_format);
    rows.push(last);
    assert(rows@ =~= given);
    let mut output = String::new();
    write_table_header(&mut output, render_config, headers, widths.as_slice());
    write_rows(&mut output, render_config, headers, widths.as_slice(), &rows);
    let bottom = table_rule(TableRuleKind::Bottom, render_config.borders, widths.as_slice());
    output.append(
        table::paint(
            render_config.style,
            table_rule_element(TableRuleKind::Bottom),
            bottom.as_str(),
        ).as_str(),
    );
    assert(output@ =~= limit_table(render_config, table::strs(headers@), facts));
    output
}

/// Render a table of one column from its header and its lines.
pub(crate) fn render_single_column(
    render_config: TableRenderConfig,
    header: &str,
    lines: &Vec<String>,
) -> (output: String)
    requires
        lines.len() > 0,
    ensures
        output@ == limit_table(render_config, seq![header@], single_rows(text::texts(lines@))),
{
    let mut headers: Vec<&str> = Vec::new();
    headers.push(header);
    assert(table::strs(headers@) =~= seq![header@]);
    let mut rows: Vec<DisplayRow> = Vec::new();
    let mut i: usize = 0;
    while i < lines.len()
        invariant
            i <= lines.len(),
            rows.len() == i,
            forall|k: int|
                0 <= k < i ==> (#[trigger] rows[k])@ == single_row(lines[k]@)
                    && rows[k].cells.len() == 1,
        decreases lines.len() - i,
    {
        let mut cells: Vec<String> = Vec::new();
        cells.push(lines[i].clone());
        assert(text::texts(cells@) =~= seq![lines[i as int]@]);
        rows.push(DisplayRow { cells, kind: DisplayRowKind::Subtotal });
        i += 1;
    }
    assert(table::rows_facts(rows@) =~= single_rows(text::texts(lines@)));
    render_codex_limit_table(render_config, headers.as_slice(), rows)
}

/// The block of the account limits.
pub open spec fn limits_text(
    status: CodexLimitStatus,
    config: TableRenderConfig,
    now: i64,
) -> Seq<char> {
    limit_table(
        config,
        seq!["Codex Limits"@],
        single_rows(
            match status {
                CodexLimitStatus::Available(found) => seq![
                    limit_row("5h"@, found.five_hour, config.borders, now),
                    limit_row("Weekly"@, found.weekly, config.borders, now),
                ],
                CodexLimitStatus::Unavailable(reason) => seq![
                    "unavailable ("@ + limits::reason_text(reason) + ")"@,
                ],
            },
        ),
    )
}

/// Render the unavailable Codex account limit table.
pub fn render_unavailable_codex_limits(
    reason: CodexLimitUnavailableReason,
    render_config: TableRenderConfig,
) -> (output: String)
    ensures
        output@ == limits_text(CodexLimitStatus::Unavailable(reason), render_config, 0),
{
    let mut line = String::from_str("unavailable (");
    line.append(reason.as_str());
    line.append(")");
    let ghost cell = line@;
    let mut lines: Vec<String> = Vec::new();
    lines.push(line);
    assert(text::texts(lines@) =~= seq![cell]);
    render_single_column(render_config, "Codex Limits", &lines)
}

/// Render Codex account limit status as horizontal bars.
pub fn render_codex_limits(
    status: &CodexLimitStatus,
    render_config: TableRenderConfig,
    now_epoch_seconds: i64,
) -> (output: String)
    ensures
        output@ == limits_text(*status, render_config, now_epoch_seconds),
{
    match status {
        CodexLimitStatus::Available(found) => {
            let mut lines: Vec<String> = Vec::new();
            lines.push(
                render_codex_limit_row(
                    "5h",
                    &found.five_hour,
                    render_config.borders,
                    now_epoch_seconds,
                ),
            );
            lines.push(
                render_codex_limit_row(
                    "Weekly",
                    &found.weekly,
                    render_config.borders,
                    now_epoch_seconds,
                ),
            );
            assert(text::texts(lines@) =~= seq![
                limit_row("5h"@, found.five_hour, render_config.borders, now_epoch_seconds),
                limit_row("Weekly"@, found.weekly, render_config.borders, now_epoch_seconds),
            ]);
            render_single_column(render_config, "Codex Limits", &lines)
        },
        CodexLimitStatus::Unavailable(reason) => render_unavailable_codex_limits(
            *reason,
            render_config,
        ),
    }
}

} // verus!
