//! What holds of the tables: the widths of their columns, the places of their cells and the lines
//! between them.

use vstd::prelude::*;

use crate::model::NumberFormat;
use crate::number;
use crate::table;
use crate::table::{
    BorderStyle, DisplayRowKind, RowFacts, TableElement, TableRenderConfig, TableRuleKind,
    TableStyle,
};
use crate::text;

verus! {

/// The first locale value that is set and not empty decides.
pub proof fn law_first_locale_decides(lc_all: &str, lc_ctype: Option<&str>, lang: Option<&str>)
    ensures
        lc_all@.len() > 0 ==> table::locale(Some(lc_all), lc_ctype, lang) == lc_all@,
        lc_all@.len() == 0 ==> table::locale(Some(lc_all), lc_ctype, lang) == table::locale(
            None,
            lc_ctype,
            lang,
        ),
        match lc_ctype {
            Some(s) => table::locale(None, lc_ctype, lang) == if s@.len() > 0 {
                s@
            } else {
                table::locale(None, None, lang)
            },
            None => true,
        },
        match lang {
            Some(s) => table::locale(None, None, lang) == s@,
            None => table::locale(None, None, lang).len() == 0,
        },
{
    if let Some(s) = lang {
        if s@.len() == 0 {
            assert(s@ =~= Seq::<char>::empty());
        }
    }
}

/// Whether a column holds token counts.
pub open spec fn counts_tokens(header: Seq<char>) -> bool {
    header == "Input"@ || header == "Cache"@ || header == "Output"@ || header == "Reasoning"@
        || header == "Total"@
}

/// A count in a token column is shown in the chosen number format; in every other column, and where
/// it is no count, a cell is shown as it is.
pub proof fn law_token_counts_are_formatted(
    header: Seq<char>,
    count: u64,
    cell: Seq<char>,
    number_format: NumberFormat,
)
    ensures
        counts_tokens(header) ==> table::cell_text(
            header,
            text::decimal(count as nat),
            number_format,
        ) == number::count_text(count as nat, number_format),
        !counts_tokens(header) ==> table::cell_text(header, cell, number_format) == cell,
        text::u64_notation(cell) is None ==> table::cell_text(header, cell, number_format) == cell,
{
    number::lemma_decimal_value(count as nat);
    let digits = text::decimal(count as nat);
    assert(text::is_digit(digits[0]));
    assert(text::without_plus(digits) == digits);
}

/// A column is as wide as its heading or as its widest cell, and no wider.
pub proof fn law_columns_are_no_wider_than_needed(
    headers: Seq<Seq<char>>,
    rows: Seq<RowFacts>,
    number_format: NumberFormat,
    i: int,
)
    requires
        0 <= i < headers.len(),
    ensures
        table::table_widths(headers, rows, number_format).len() == headers.len(),
        table::table_widths(headers, rows, number_format)[i] == headers[i].len() || exists|k: int|
            0 <= k < rows.len() && i < rows[k].cells.len() && table::table_widths(
                headers,
                rows,
                number_format,
            )[i] == table::cell_text(
                headers[i],
                (#[trigger] rows[k]).cells[i],
                number_format,
            ).len(),
    decreases rows.len(),
{
    if rows.len() > 0 {
        let init = rows.drop_last();
        law_columns_are_no_wider_than_needed(headers, init, number_format, i);
        let before = table::table_widths(headers, init, number_format);
        let after = table::table_widths(headers, rows, number_format);
        assert(rows[rows.len() - 1] == rows.last());
        if after[i] == before[i] && before[i] != headers[i].len() {
            let k = choose|k: int|
                0 <= k < init.len() && i < init[k].cells.len() && before[i] == table::cell_text(
                    headers[i],
                    (#[trigger] init[k]).cells[i],
                    number_format,
                ).len();
            assert(rows[k] == init[k]);
        }
    }
}

/// Whether a column holds names or dates.
pub open spec fn holds_names(header: Seq<char>) -> bool {
    header == "Date"@ || header == "Month"@ || header == "Metric"@ || header == "Directory"@
        || header == "Session"@ || header == "Model"@ || header == "Last Activity"@ || header
        == "Codex Limits"@
}

/// Whether a text stands in a line of spaces, from a place on.
pub open spec fn stands_at(line: Seq<char>, s: Seq<char>, at: int) -> bool {
    &&& 0 <= at
    &&& at + s.len() <= line.len()
    &&& forall|i: int| 0 <= i < s.len() ==> line[at + i] == #[trigger] s[i]
    &&& forall|i: int|
        0 <= i < line.len() && !(at <= i < at + s.len()) ==> #[trigger] line[i] == ' '
}

/// A cell fills its column and one space on either side. Names and dates stand at the left of the
/// column, everything else at its right.
pub proof fn law_cells_are_aligned(
    header: Seq<char>,
    cell: Seq<char>,
    width: nat,
    number_format: NumberFormat,
)
    requires
        table::cell_text(header, cell, number_format).len() <= width,
        header != "Today"@,
    ensures
        table::aligned_cell(header, cell, width, number_format).len() == width + 2,
        holds_names(header) ==> stands_at(
            table::aligned_cell(header, cell, width, number_format),
            table::cell_text(header, cell, number_format),
            1,
        ),
        !holds_names(header) ==> stands_at(
            table::aligned_cell(header, cell, width, number_format),
            table::cell_text(header, cell, number_format),
            width + 1 - table::cell_text(header, cell, number_format).len(),
        ),
{
    let shown = table::cell_text(header, cell, number_format);
    let line = table::aligned_cell(header, cell, width, number_format);
    let room = table::filling(shown, width);
    assert(room.len() == width - shown.len());
    assert(forall|i: int| 0 <= i < room.len() ==> #[trigger] room[i] == ' ');
    if holds_names(header) {
        assert(line =~= seq![' '] + shown + room + seq![' ']);
    } else {
        assert(line =~= seq![' '] + room + shown + seq![' ']);
    }
}

/// In the column of the current day, its heading and its dates stand at the left and its numbers at
/// the right.
pub proof fn law_day_column_is_aligned(cell: Seq<char>, width: nat, number_format: NumberFormat)
    requires
        cell.len() <= width,
    ensures
        table::aligned_cell("Today"@, cell, width, number_format).len() == width + 2,
        cell.contains('-') || cell == "Today"@ ==> stands_at(
            table::aligned_cell("Today"@, cell, width, number_format),
            cell,
            1,
        ),
        !cell.contains('-') && cell != "Today"@ ==> stands_at(
            table::aligned_cell("Today"@, cell, width, number_format),
            cell,
            width + 1 - cell.len(),
        ),
{
    lemma_today_is_its_own_heading();
    let line = table::aligned_cell("Today"@, cell, width, number_format);
    assert(table::cell_text("Today"@, cell, number_format) == cell);
    let room = table::filling(cell, width);
    assert(room.len() == width - cell.len());
    assert(forall|i: int| 0 <= i < room.len() ==> #[trigger] room[i] == ' ');
    if cell.contains('-') || cell == "Today"@ {
        assert(line =~= seq![' '] + cell + room + seq![' ']);
    } else {
        assert(line =~= seq![' '] + room + cell + seq![' ']);
    }
}

proof fn lemma_today_is_its_own_heading()
    ensures
        !counts_tokens("Today"@),
        !holds_names("Today"@),
{
    reveal_strlit("Today");
    reveal_strlit("Input");
    reveal_strlit("Cache");
    reveal_strlit("Output");
    reveal_strlit("Reasoning");
    reveal_strlit("Total");
    reveal_strlit("Date");
    reveal_strlit("Month");
    reveal_strlit("Metric");
    reveal_strlit("Directory");
    reveal_strlit("Session");
    reveal_strlit("Model");
    reveal_strlit("Last Activity");
    reveal_strlit("Codex Limits");
    assert("Today"@[0] == 'T' && "Today"@[2] == 'd');
    assert("Input"@[0] == 'I' && "Cache"@[0] == 'C' && "Total"@[2] == 't' && "Month"@[0] == 'M'
        && "Model"@[0] == 'M');
}

/// Whether a rule of some kind is drawn with these signs at its left end, between columns and at its
/// right end.
pub open spec fn drawn_with(
    kind: TableRuleKind,
    borders: BorderStyle,
    horizontal: char,
    left: char,
    middle: char,
    right: char,
) -> bool {
    match borders {
        BorderStyle::Ascii => horizontal == '-' && left == '+' && middle == '+' && right == '+',
        BorderStyle::Unicode => horizontal == '─' && match kind {
            TableRuleKind::Top => left == '┌' && middle == '┬' && right == '┐',
            TableRuleKind::HeaderSeparator => left == '├' && middle == '┼' && right == '┤',
            TableRuleKind::GroupSeparator => left == '├' && middle == '┼' && right == '┤',
            TableRuleKind::Bottom => left == '└' && middle == '┴' && right == '┘',
        },
    }
}

/// A rule is drawn over the width of each column and the spaces beside it, with one sign between two
/// columns and one at either end.
pub proof fn law_rules_are_drawn(
    kind: TableRuleKind,
    borders: BorderStyle,
    widths: Seq<nat>,
    width: nat,
    horizontal: char,
    left: char,
    middle: char,
    right: char,
)
    requires
        drawn_with(kind, borders, horizontal, left, middle, right),
    ensures
        table::rule_text(kind, borders, seq![width]) == seq![left] + Seq::new(
            width + 2,
            |i: int| horizontal,
        ) + seq![right],
        widths.len() > 0 ==> table::rule_text(kind, borders, widths.push(width))
            == table::rule_text(kind, borders, widths).drop_last() + seq![middle] + Seq::new(
            width + 2,
            |i: int| horizontal,
        ) + seq![right],
{
    let line = Seq::new(width + 2, |i: int| horizontal);
    assert(text::repeated(horizontal, width + 2) =~= line);
    let one = table::rule_segments(horizontal, seq![width]);
    assert(one =~= seq![line]);
    assert(table::rule_text(kind, borders, seq![width]) =~= seq![left] + line + seq![right]);
    if widths.len() > 0 {
        let all = table::rule_segments(horizontal, widths);
        let more = table::rule_segments(horizontal, widths.push(width));
        assert(more =~= all.push(line));
        assert(more.drop_last() =~= all);
        let body = text::joined(all, seq![middle]);
        assert(table::rule_text(kind, borders, widths) =~= seq![left] + body + seq![right]);
        assert(table::rule_text(kind, borders, widths).drop_last() =~= seq![left] + body);
        assert(table::rule_text(kind, borders, widths.push(width)) =~= seq![left] + (body + seq![
            middle,
        ] + line) + seq![right]);
        assert(table::rule_text(kind, borders, widths.push(width)) =~= table::rule_text(
            kind,
            borders,
            widths,
        ).drop_last() + seq![middle] + line + seq![right]);
    }
}

/// The sign between the cells of a row.
pub open spec fn between_cells(borders: BorderStyle) -> char {
    match borders {
        BorderStyle::Ascii => '|',
        BorderStyle::Unicode => '│',
    }
}

/// A plain row is its cells in order, each in its column, with one sign before, between and behind
/// them.
pub proof fn law_rows_hold_their_cells_in_order(
    config: TableRenderConfig,
    headers: Seq<Seq<char>>,
    widths: Seq<nat>,
    cells: Seq<Seq<char>>,
    cell: Seq<char>,
    element: TableElement,
)
    requires
        config.style == TableStyle::Plain,
        cells.len() < headers.len() == widths.len(),
    ensures
        ({
            let sign = seq![between_cells(config.borders)];
            let n = cells.len() as int;
            table::row_text(config, headers, widths, cells.push(cell), element) == (if n == 0 {
                sign
            } else {
                table::row_text(config, headers, widths, cells, element)
            }) + table::aligned_cell(headers[n], cell, widths[n], config.number_format) + sign
        }),
{
    let sign = seq![between_cells(config.borders)];
    let n = cells.len() as int;
    let last = table::aligned_cell(headers[n], cell, widths[n], config.number_format);
    let before = table::painted_all(
        config.style,
        element,
        table::aligned_cells(headers, widths, cells, config.number_format),
    );
    let after = table::painted_all(
        config.style,
        element,
        table::aligned_cells(headers, widths, cells.push(cell), config.number_format),
    );
    assert(after =~= before.push(last));
    assert(after.drop_last() =~= before);
    if n == 0 {
        assert(before.len() == 0);
        assert(table::row_text(config, headers, widths, cells.push(cell), element) =~= sign + last
            + sign);
    } else {
        assert(table::row_text(config, headers, widths, cells.push(cell), element) =~= sign + (
        text::joined(before, sign) + sign + last) + sign);
        assert(table::row_text(config, headers, widths, cells.push(cell), element)
            =~= table::row_text(config, headers, widths, cells, element) + last + sign);
    }
}

/// Paint leaves the text as it is: without colors nothing is added, and with colors one sequence
/// before it that tells its element, and the reset behind it.
pub proof fn law_paint_keeps_the_text(element: TableElement, other: TableElement, s: Seq<char>)
    ensures
        table::painted(TableStyle::Plain, element, s) == s,
        table::painted(TableStyle::Ansi256, element, s) == table::painted(
            TableStyle::Ansi256,
            element,
            Seq::empty(),
        ).take(table::element_escape(element).len() as int) + s + seq!['\u{1b}', '[', '0', 'm'],
        table::element_escape(element)[0] == '\u{1b}',
        table::element_escape(element)[1] == '[',
        table::element_escape(element).last() == 'm',
        element != other ==> table::element_escape(element) != table::element_escape(other),
        (table::element_escape(element)[2] == '1' && table::element_escape(element)[3] == ';')
            <==> element != TableElement::Border && element != TableElement::Detail,
{
    reveal_strlit("\u{1b}[0m");
    reveal_strlit("\u{1b}[1;38;5;81m");
    reveal_strlit("\u{1b}[1;38;5;45m");
    reveal_strlit("\u{1b}[38;5;24m");
    reveal_strlit("\u{1b}[1;38;5;117m");
    reveal_strlit("\u{1b}[38;5;153m");
    reveal_strlit("\u{1b}[1;38;5;39m");
    let escape = table::element_escape(element);
    let reset = seq!['\u{1b}', '[', '0', 'm'];
    assert("\u{1b}[0m"@ =~= reset);
    let bare = table::painted(TableStyle::Ansi256, element, Seq::empty());
    assert(bare.take(escape.len() as int) =~= escape);
    assert("\u{1b}[1;38;5;81m"@[9] == '8');
    assert("\u{1b}[1;38;5;45m"@[9] == '4');
    assert("\u{1b}[1;38;5;39m"@[9] == '3');
    assert("\u{1b}[1;38;5;117m"@.len() == 13);
    assert("\u{1b}[1;38;5;81m"@.len() == 12);
    assert("\u{1b}[1;38;5;45m"@.len() == 12);
    assert("\u{1b}[1;38;5;39m"@.len() == 12);
    assert("\u{1b}[38;5;24m"@.len() == 10);
    assert("\u{1b}[38;5;153m"@.len() == 11);
    assert("\u{1b}[1;38;5;81m"@[2] == '1' && "\u{1b}[1;38;5;81m"@[3] == ';');
    assert("\u{1b}[1;38;5;45m"@[2] == '1' && "\u{1b}[1;38;5;45m"@[3] == ';');
    assert("\u{1b}[1;38;5;39m"@[2] == '1' && "\u{1b}[1;38;5;39m"@[3] == ';');
    assert("\u{1b}[1;38;5;117m"@[2] == '1' && "\u{1b}[1;38;5;117m"@[3] == ';');
    assert("\u{1b}[38;5;24m"@[2] == '3' && "\u{1b}[38;5;153m"@[2] == '3');
}

/// The rows of the groups, their models and the grand total are painted as what they are.
pub proof fn law_rows_are_painted_by_kind(kind: DisplayRowKind)
    ensures
        table::row_element(kind) == TableElement::Subtotal <==> kind == DisplayRowKind::Subtotal,
        table::row_element(kind) == TableElement::GrandTotal <==> kind
            == DisplayRowKind::GrandTotal,
        kind == DisplayRowKind::Detail ==> table::row_element(kind) == TableElement::Detail,
{
}

/// The head of a plain table is a rule, the headings in their columns and another rule, line by line.
pub proof fn law_head_stands_between_rules(
    config: TableRenderConfig,
    headers: Seq<Seq<char>>,
    widths: Seq<nat>,
)
    requires
        config.style == TableStyle::Plain,
    ensures
        table::header_text(config, headers, widths) == table::rule_text(
            TableRuleKind::Top,
            config.borders,
            widths,
        ) + seq!['\n'] + table::row_text(config, headers, widths, headers, TableElement::Header)
            + seq!['\n'] + table::rule_text(TableRuleKind::HeaderSeparator, config.borders, widths)
            + seq!['\n'],
{
}

/// Each column adds its width, the spaces beside it and one border to the width of a table.
pub proof fn law_frame_grows_with_each_column(widths: Seq<nat>, width: nat)
    ensures
        table::frame_width(widths.push(width)) == table::frame_width(widths) + width + 3,
        table::frame_width(Seq::empty()) == 1,
{
    assert(widths.push(width).drop_last() =~= widths);
    assert(table::width_sum(Seq::empty()) == 0);
}

} // verus!
