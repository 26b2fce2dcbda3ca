//! Shared table styling and layout helpers.

use vstd::prelude::*;
use vstd::string::*;

use crate::model::NumberFormat;
use crate::number;
use crate::number::format_u64_with;
use crate::text;
use crate::text::{
    chars_contain, chars_of, eq_ignore_case, lower_chars, parse_u64, push_joined, push_repeated,
    text_contains, text_eq,
};

verus! {

/// One logical row rendered by the table layout helpers.
#[derive(Debug)]
pub struct DisplayRow {
    /// Cells in table order.
    pub cells: Vec<String>,
    /// Visual styling for the row.
    pub kind: DisplayRowKind,
}

/// Styling group for one display row.
#[derive(Clone, Copy, Debug, PartialEq, Eq, Structural)]
pub enum DisplayRowKind {
    /// Insert a rule before the next row.
    Spacer,
    /// Group subtotal row.
    Subtotal,
    /// Per-model child row.
    Detail,
    /// Final grand total row.
    GrandTotal,
}

/// What a row says.
#[verifier::ext_equal]
pub struct RowFacts {
    /// Cells in table order.
    pub cells: Seq<Seq<char>>,
    /// Visual styling for the row.
    pub kind: DisplayRowKind,
}

impl View for DisplayRow {
    type V = RowFacts;

    open spec fn view(&self) -> RowFacts {
        RowFacts { cells: text::texts(self.cells@), kind: self.kind }
    }
}

/// What rows say.
pub open spec fn rows_facts(rows: Seq<DisplayRow>) -> Seq<RowFacts> {
    rows.map_values(|row: DisplayRow| row@)
}

/// Terminal color mode for table rendering.
#[derive(Clone, Copy, Debug, PartialEq, Eq, Structural)]
pub enum TableStyle {
    /// Do not emit ANSI escapes.
    Plain,
    /// Emit 256-color ANSI escapes.
    Ansi256,
}

/// Border style for the rendered table.
#[derive(Clone, Copy, Debug, PartialEq, Eq, Structural)]
pub enum BorderStyle {
    /// ASCII-safe borders.
    Ascii,
    /// Unicode box-drawing borders.
    Unicode,
}

/// Rendering controls for the human-readable table.
#[derive(Clone, Copy, Debug)]
pub struct TableRenderConfig {
    /// ANSI styling mode.
    pub style: TableStyle,
    /// Border glyph mode.
    pub borders: BorderStyle,
    /// Numeric display mode.
    pub number_format: NumberFormat,
}

/// The texts of string slices.
pub open spec fn strs(strings: Seq<&str>) -> Seq<Seq<char>> {
    strings.map_values(|s: &str| s@)
}

/// The value where it is given and not empty.
pub open spec fn non_empty(value: Option<&str>) -> Option<Seq<char>> {
    match value {
        Some(s) => if s@.len() > 0 {
            Some(s@)
        } else {
            None
        },
        None => None,
    }
}

/// The locale that the environment selects: the first setting that is not empty.
pub open spec fn locale(lc_all: Option<&str>, lc_ctype: Option<&str>, lang: Option<&str>) -> Seq<
    char,
> {
    match (non_empty(lc_all), non_empty(lc_ctype), non_empty(lang)) {
        (Some(value), _, _) => value,
        (None, Some(value), _) => value,
        (None, None, Some(value)) => value,
        (None, None, None) => Seq::empty(),
    }
}

/// Decide whether Unicode box-drawing is safe for the current environment.
pub fn detect_border_style_for(
    stdout_is_terminal: bool,
    lc_all: Option<&str>,
    lc_ctype: Option<&str>,
    lang: Option<&str>,
) -> (style: BorderStyle)
    ensures
        style == BorderStyle::Unicode <==> stdout_is_terminal && (text::contains_text(
            text::ascii_lower(locale(lc_all, lc_ctype, lang)),
            "utf-8"@,
        ) || text::contains_text(
            text::ascii_lower(locale(lc_all, lc_ctype, lang)),
            "utf8"@,
        )),
{
    if !stdout_is_terminal {
        return BorderStyle::Ascii;
    }
    let selected = match given(lc_all) {
        Some(value) => value,
        None => match given(lc_ctype) {
            Some(value) => value,
            None => match given(lang) {
                Some(value) => value,
                None => {
                    proof {
                        reveal_strlit("");
                        assert(""@ =~= Seq::<char>::empty());
                    }
                    ""
                },
            },
        },
    };
    let lower = lower_chars(selected);
    if chars_contain(&lower, &chars_of("utf-8")) || chars_contain(&lower, &chars_of("utf8")) {
        BorderStyle::Unicode
    } else {
        BorderStyle::Ascii
    }
}

fn given(value: Option<&str>) -> (r: Option<&str>)
    ensures
        match r {
            Some(s) => non_empty(value) == Some(s@),
            None => non_empty(value) is None,
        },
{
    match value {
        Some(s) => if s.is_empty() {
            None
        } else {
            Some(s)
        },
        None => None,
    }
}

/// The value, or the empty text where there is none.
pub open spec fn or_empty(value: Option<&str>) -> Seq<char> {
    match value {
        Some(s) => s@,
        None => Seq::empty(),
    }
}

/// Decide whether styled output should be enabled.
pub fn detect_table_style_for(
    stdout_is_terminal: bool,
    term: Option<&str>,
    colorterm: Option<&str>,
    no_color: bool,
) -> (style: TableStyle)
    ensures
        style == TableStyle::Ansi256 <==> !no_color && stdout_is_terminal && or_empty(term).len() > 0
            && or_empty(term) != "dumb"@ && (text::contains_text(or_empty(term), "256color"@)
            || text::ascii_lower(or_empty(colorterm)) == text::ascii_lower("truecolor"@)
            || text::ascii_lower(or_empty(colorterm)) == text::ascii_lower("24bit"@)),
{
    if no_color || !stdout_is_terminal {
        return TableStyle::Plain;
    }
    proof {
        reveal_strlit("");
        assert(""@ =~= Seq::<char>::empty());
    }
    let term = match term {
        Some(value) => value,
        None => "",
    };
    if term.is_empty() || text_eq(term, "dumb") {
        return TableStyle::Plain;
    }
    let colorterm = match colorterm {
        Some(value) => value,
        None => "",
    };
    if text_contains(term, "256color") || eq_ignore_case(colorterm, "truecolor") || eq_ignore_case(
        colorterm,
        "24bit",
    ) {
        TableStyle::Ansi256
    } else {
        TableStyle::Plain
    }
}

/// The number of terminal columns that a text takes up.
fn display_width(value: &str) -> (width: usize)
    ensures
        width == value@.len(),
{
    value.unicode_len()
}

/// Whether a table column contains token counts.
pub open spec fn token_column(header: Seq<char>) -> bool {
    header == "Input"@ || header == "Cache"@ || header == "Output"@ || header == "Reasoning"@
        || header == "Total"@
}

/// Return whether the table column contains token counts.
pub fn is_token_column(header: &str) -> (r: bool)
    ensures
        r == token_column(header@),
{
    text_eq(header, "Input") || text_eq(header, "Cache") || text_eq(header, "Output") || text_eq(
        header,
        "Reasoning",
    ) || text_eq(header, "Total")
}

/// A cell as it is shown: numbers in token columns are formatted, all else stands as it is.
pub open spec fn cell_text(
    header: Seq<char>,
    cell: Seq<char>,
    number_format: NumberFormat,
) -> Seq<char> {
    if token_column(header) {
        match text::u64_notation(cell) {
            Some(value) => number::count_text(value as nat, number_format),
            None => cell,
        }
    } else {
        cell
    }
}

/// Format one table cell according to its column semantics.
pub fn format_table_cell(headers: &[&str], index: usize, cell: &str, number_format: NumberFormat) -> (s:
    String)
    requires
        index < headers.len(),
    ensures
        s@ == cell_text(headers@[index as int]@, cell@, number_format),
{
    if is_token_column(headers[index]) {
        match parse_u64(cell) {
            Some(value) => format_u64_with(value, number_format),
            None => String::from_str(cell),
        }
    } else {
        String::from_str(cell)
    }
}

/// The larger of two lengths.
pub open spec fn wider(a: nat, b: nat) -> nat {
    if a < b {
        b
    } else {
        a
    }
}

/// Column widths with one more row.
pub open spec fn widened(
    widths: Seq<nat>,
    headers: Seq<Seq<char>>,
    cells: Seq<Seq<char>>,
    number_format: NumberFormat,
) -> Seq<nat> {
    Seq::new(
        widths.len(),
        |i: int|
            if i < cells.len() {
                wider(widths[i], cell_text(headers[i], cells[i], number_format).len())
            } else {
                widths[i]
            },
    )
}

/// Column widths: those of the widest cell, heading included.
pub open spec fn table_widths(
    headers: Seq<Seq<char>>,
    rows: Seq<RowFacts>,
    number_format: NumberFormat,
) -> Seq<nat>
    decreases rows.len(),
{
    if rows.len() == 0 {
        headers.map_values(|header: Seq<char>| header.len())
    } else {
        widened(
            table_widths(headers, rows.drop_last(), number_format),
            headers,
            rows.last().cells,
            number_format,
        )
    }
}

/// The numbers of a row of machine numbers.
pub open spec fn nats(numbers: Seq<usize>) -> Seq<nat> {
    numbers.map_values(|n: usize| n as nat)
}

proof fn lemma_widths_len(
    headers: Seq<Seq<char>>,
    rows: Seq<RowFacts>,
    number_format: NumberFormat,
)
    ensures
        table_widths(headers, rows, number_format).len() == headers.len(),
    decreases rows.len(),
{
    if rows.len() > 0 {
        lemma_widths_len(headers, rows.drop_last(), number_format);
    }
}

/// Widen columns for one more row.
fn widen(
    widths: &mut Vec<usize>,
    headers: &[&str],
    cells: &Vec<String>,
    number_format: NumberFormat,
)
    requires
        old(widths).len() == headers.len(),
        cells.len() <= headers.len(),
    ensures
        final(widths).len() == headers.len(),
        nats(final(widths)@) == widened(
            nats(old(widths)@),
            strs(headers@),
            text::texts(cells@),
            number_format,
        ),
{
    let ghost start = nats(widths@);
    let mut i: usize = 0;
    while i < cells.len()
        invariant
            i <= cells.len() <= headers.len(),
            widths.len() == headers.len(),
            start == nats(old(widths)@),
            start.len() == headers.len(),
            forall|k: int|
                0 <= k < i ==> (#[trigger] widths[k]) == wider(
                    start[k],
                    cell_text(strs(headers@)[k], cells[k]@, number_format).len(),
                ),
            forall|k: int| i <= k < widths.len() ==> (#[trigger] widths[k]) == start[k],
        decreases cells.len() - i,
    {
        let shown = format_table_cell(headers, i, cells[i].as_str(), number_format);
        let width: usize = display_width(shown.as_str());
        assert(strs(headers@)[i as int] == headers@[i as int]@);
        if widths[i] < width {
            widths.set(i, width);
        }
        i += 1;
    }
    assert(nats(widths@) =~= widened(
        start,
        strs(headers@),
        text::texts(cells@),
        number_format,
    ));
}

/// Whether every row has at most as many cells as there are headings.
pub open spec fn rows_fit(rows: Seq<DisplayRow>, columns: nat) -> bool {
    forall|i: int| 0 <= i < rows.len() ==> (#[trigger] rows[i]).cells.len() <= columns
}

/// Compute display widths for every table column.
pub fn column_widths(
    headers: &[&str],
    rows: &Vec<DisplayRow>,
    grand_total_row: &DisplayRow,
    number_format: NumberFormat,
) -> (widths: Vec<usize>)
    requires
        rows_fit(rows@, headers@.len()),
        grand_total_row.cells.len() <= headers.len(),
    ensures
        widths.len() == headers.len(),
        nats(widths@) == table_widths(
            strs(headers@),
            rows_facts(rows@).push(grand_total_row@),
            number_format,
        ),
{
    let ghost names = strs(headers@);
    let ghost facts = rows_facts(rows@);
    let mut widths: Vec<usize> = Vec::new();
    let mut i: usize = 0;
    while i < headers.len()
        invariant
            i <= headers.len(),
            widths.len() == i,
            names == strs(headers@),
            forall|k: int| 0 <= k < i ==> (#[trigger] widths[k]) == names[k].len(),
        decreases headers.len() - i,
    {
        widths.push(display_width(headers[i]));
        i += 1;
    }
    assert(facts.take(0) == Seq::<RowFacts>::empty());
    assert(nats(widths@) =~= table_widths(names, facts.take(0), number_format));
    let mut k: usize = 0;
    while k < rows.len()
        invariant
            k <= rows.len(),
            rows_fit(rows@, headers@.len()),
            names == strs(headers@),
            facts == rows_facts(rows@),
            widths.len() == headers.len(),
            nats(widths@) == table_widths(names, facts.take(k as int), number_format),
        decreases rows.len() - k,
    {
        proof {
            assert(facts.take(k + 1).drop_last() == facts.take(k as int));
            assert(facts.take(k + 1).last() == rows[k as int]@);
        }
        widen(&mut widths, headers, &rows[k].cells, number_format);
        k += 1;
    }
    proof {
        assert(facts.take(facts.len() as int) == facts);
        let all = facts.push(grand_total_row@);
        assert(all.drop_last() =~= facts);
        assert(all.last() == grand_total_row@);
    }
    widen(&mut widths, headers, &grand_total_row.cells, number_format);
    widths
}

/// One styleable table element.
#[derive(Clone, Copy, Debug, PartialEq, Eq, Structural)]
pub enum TableElement {
    /// Report title.
    Title,
    /// Header row.
    Header,
    /// Separator row.
    Border,
    /// Group subtotal row.
    Subtotal,
    /// Model detail row.
    Detail,
    /// Grand total row.
    GrandTotal,
}

/// The escape sequence that starts an element.
pub open spec fn element_escape(element: TableElement) -> Seq<char> {
    match element {
        TableElement::Title => "\u{1b}[1;38;5;81m"@,
        TableElement::Header => "\u{1b}[1;38;5;45m"@,
        TableElement::Border => "\u{1b}[38;5;24m"@,
        TableElement::Subtotal => "\u{1b}[1;38;5;117m"@,
        TableElement::Detail => "\u{1b}[38;5;153m"@,
        TableElement::GrandTotal => "\u{1b}[1;38;5;39m"@,
    }
}

/// A text with the escapes of an element around it, where the style has any.
pub open spec fn painted(style: TableStyle, element: TableElement, s: Seq<char>) -> Seq<char> {
    match style {
        TableStyle::Plain => s,
        TableStyle::Ansi256 => element_escape(element) + s + "\u{1b}[0m"@,
    }
}

/// Apply ANSI styling when enabled.
pub fn paint(style: TableStyle, element: TableElement, s: &str) -> (out: String)
    ensures
        out@ == painted(style, element, s@),
{
    match style {
        TableStyle::Plain => String::from_str(s),
        TableStyle::Ansi256 => {
            let sequence = match element {
                TableElement::Title => "\u{1b}[1;38;5;81m",
                TableElement::Header => "\u{1b}[1;38;5;45m",
                TableElement::Border => "\u{1b}[38;5;24m",
                TableElement::Subtotal => "\u{1b}[1;38;5;117m",
                TableElement::Detail => "\u{1b}[38;5;153m",
                TableElement::GrandTotal => "\u{1b}[1;38;5;39m",
            };
            let mut out = String::from_str(sequence);
            out.append(s);
            out.append("\u{1b}[0m");
            out
        },
    }
}

/// The text of a single character.
pub open spec fn one(c: char) -> Seq<char> {
    seq![c]
}

/// Write the table title.
pub fn write_table_title(output: &mut String, style: TableStyle, title: &str)
    ensures
        final(output)@ == old(output)@ + painted(
            style,
            TableElement::Title,
            title@ + " Codex Usage Report"@,
        ) + one('\n'),
{
    let mut line = String::from_str(title);
    line.append(" Codex Usage Report");
    output.append(paint(style, TableElement::Title, line.as_str()).as_str());
    output.push('\n');
    assert(output@ =~= old(output)@ + painted(
        style,
        TableElement::Title,
        title@ + " Codex Usage Report"@,
    ) + one('\n'));
}

/// One row-rule kind for the table frame.
#[derive(Clone, Copy, Debug, PartialEq, Eq, Structural)]
pub enum TableRuleKind {
    /// Top border.
    Top,
    /// Header separator.
    HeaderSeparator,
    /// Group separator between report sections.
    GroupSeparator,
    /// Bottom border.
    Bottom,
}

/// Static characters used to draw a table.
#[derive(Clone, Copy, Debug)]
pub struct BorderTheme {
    /// Horizontal line segment.
    pub horizontal: char,
    /// Outer vertical border.
    pub vertical: char,
    /// Left corner/junction.
    pub left: char,
    /// Inner junction.
    pub middle: char,
    /// Right corner/junction.
    pub right: char,
}

/// The drawing theme of a border style.
pub open spec fn theme_of(style: BorderStyle) -> BorderTheme {
    match style {
        BorderStyle::Ascii => BorderTheme {
            horizontal: '-',
            vertical: '|',
            left: '+',
            middle: '+',
            right: '+',
        },
        BorderStyle::Unicode => BorderTheme {
            horizontal: '─',
            vertical: '│',
            left: '┌',
            middle: '┬',
            right: '┐',
        },
    }
}

/// Return the concrete drawing theme for one border style.
pub fn border_theme(style: BorderStyle) -> (theme: BorderTheme)
    ensures
        theme == theme_of(style),
{
    match style {
        BorderStyle::Ascii => BorderTheme {
            horizontal: '-',
            vertical: '|',
            left: '+',
            middle: '+',
            right: '+',
        },
        BorderStyle::Unicode => BorderTheme {
            horizontal: '─',
            vertical: '│',
            left: '┌',
            middle: '┬',
            right: '┐',
        },
    }
}

/// The drawing theme of a rule.
pub open spec fn rule_theme_of(kind: TableRuleKind, style: BorderStyle) -> BorderTheme {
    match style {
        BorderStyle::Ascii => theme_of(style),
        BorderStyle::Unicode => match kind {
            TableRuleKind::Top => theme_of(style),
            TableRuleKind::HeaderSeparator | TableRuleKind::GroupSeparator => BorderTheme {
                horizontal: '─',
                vertical: '│',
                left: '├',
                middle: '┼',
                right: '┤',
            },
            TableRuleKind::Bottom => BorderTheme {
                horizontal: '─',
                vertical: '│',
                left: '└',
                middle: '┴',
                right: '┘',
            },
        },
    }
}

/// Return the concrete drawing theme for one border rule.
pub fn rule_theme(kind: TableRuleKind, style: BorderStyle) -> (theme: BorderTheme)
    ensures
        theme == rule_theme_of(kind, style),
{
    match style {
        BorderStyle::Ascii => border_theme(style),
        BorderStyle::Unicode => match kind {
            TableRuleKind::Top => border_theme(style),
            TableRuleKind::HeaderSeparator | TableRuleKind::GroupSeparator => BorderTheme {
                horizontal: '─',
                vertical: '│',
                left: '├',
                middle: '┼',
                right: '┤',
            },
            TableRuleKind::Bottom => BorderTheme {
                horizontal: '─',
                vertical: '│',
                left: '└',
                middle: '┴',
                right: '┘',
            },
        },
    }
}

/// The segments of a rule: a line over each column and the space on both of its sides.
pub open spec fn rule_segments(horizontal: char, widths: Seq<nat>) -> Seq<Seq<char>> {
    widths.map_values(|width: nat| text::repeated(horizontal, width + 2))
}

/// A rule line.
pub open spec fn rule_text(kind: TableRuleKind, borders: BorderStyle, widths: Seq<nat>) -> Seq<char> {
    let theme = rule_theme_of(kind, borders);
    one(theme.left) + text::joined(rule_segments(theme.horizontal, widths), one(theme.middle))
        + one(theme.right)
}

/// Build one table border rule line.
pub fn table_rule(kind: TableRuleKind, borders: BorderStyle, widths: &[usize]) -> (line: String)
    ensures
        line@ == rule_text(kind, borders, nats(widths@)),
{
    let theme = rule_theme(kind, borders);
    let ghost segments = rule_segments(theme.horizontal, nats(widths@));
    let mut line = String::new();
    line.push(theme.left);
    assert(segments.take(0) =~= Seq::<Seq<char>>::empty());
    assert(line@ =~= one(theme.left) + text::joined(segments.take(0), one(theme.middle)));
    let mut i: usize = 0;
    while i < widths.len()
        invariant
            i <= widths.len(),
            segments == rule_segments(theme.horizontal, nats(widths@)),
            line@ == one(theme.left) + text::joined(segments.take(i as int), one(theme.middle)),
        decreases widths.len() - i,
    {
        let ghost before = line@;
        if i > 0 {
            line.push(theme.middle);
        }
        push_repeated(&mut line, theme.horizontal, widths[i]);
        push_repeated(&mut line, theme.horizontal, 2);
        proof {
            let next = segments.take(i + 1);
            assert(next.drop_last() =~= segments.take(i as int));
            assert(next.last() == segments[i as int]);
            assert(segments[i as int] =~= text::repeated(theme.horizontal, widths@[i as int] as nat)
                + text::repeated(theme.horizontal, 2));
            assert(line@ =~= one(theme.left) + text::joined(next, one(theme.middle)));
        }
        i += 1;
    }
    assert(segments.take(segments.len() as int) =~= segments);
    line.push(theme.right);
    assert(line@ =~= rule_text(kind, borders, nats(widths@)));
    line
}

/// Map one rule kind to the border styling bucket.
pub fn table_rule_element(kind: TableRuleKind) -> (element: TableElement)
    ensures
        element == TableElement::Border,
{
    match kind {
        TableRuleKind::Top | TableRuleKind::HeaderSeparator | TableRuleKind::GroupSeparator
        | TableRuleKind::Bottom => TableElement::Border,
    }
}

/// The element of a row.
pub open spec fn row_element(kind: DisplayRowKind) -> TableElement {
    match kind {
        DisplayRowKind::Subtotal => TableElement::Subtotal,
        DisplayRowKind::Spacer | DisplayRowKind::Detail => TableElement::Detail,
        DisplayRowKind::GrandTotal => TableElement::GrandTotal,
    }
}

/// Map one display row kind to its table element style.
pub fn row_table_element(kind: DisplayRowKind) -> (element: TableElement)
    ensures
        element == row_element(kind),
{
    match kind {
        DisplayRowKind::Subtotal => TableElement::Subtotal,
        DisplayRowKind::Spacer | DisplayRowKind::Detail => TableElement::Detail,
        DisplayRowKind::GrandTotal => TableElement::GrandTotal,
    }
}

/// Write one border rule with styling.
pub fn write_table_rule(output: &mut String, style: TableStyle, element: TableElement, line: &str)
    ensures
        final(output)@ == old(output)@ + painted(style, element, line@) + one('\n'),
{
    output.append(paint(style, element, line).as_str());
    output.push('\n');
    assert(output@ =~= old(output)@ + painted(style, element, line@) + one('\n'));
}

/// Whether a cell is left-aligned: names, dates and account limits are, and so is the heading of the
/// current day.
pub open spec fn left_aligned(header: Seq<char>, display: Seq<char>) -> bool {
    ||| header == "Today"@ && (display.contains('-') || display == "Today"@)
    ||| header == "Date"@
    ||| header == "Month"@
    ||| header == "Metric"@
    ||| header == "Directory"@
    ||| header == "Session"@
    ||| header == "Model"@
    ||| header == "Last Activity"@
    ||| header == "Codex Limits"@
}

/// Return whether this cell should be left-aligned.
pub fn should_left_align(header: &str, display: &str) -> (r: bool)
    ensures
        r == left_aligned(header@, display@),
{
    if text_eq(header, "Today") && (holds_char(display, '-') || text_eq(display, "Today")) {
        return true;
    }
    text_eq(header, "Date") || text_eq(header, "Month") || text_eq(header, "Metric") || text_eq(
        header,
        "Directory",
    ) || text_eq(header, "Session") || text_eq(header, "Model") || text_eq(
        header,
        "Last Activity",
    ) || text_eq(header, "Codex Limits")
}

fn holds_char(s: &str, c: char) -> (r: bool)
    ensures
        r == s@.contains(c),
{
    let chars = chars_of(s);
    let mut i: usize = 0;
    while i < chars.len()
        invariant
            i <= chars.len(),
            chars@ == s@,
            forall|k: int| 0 <= k < i ==> s@[k] != c,
        decreases chars.len() - i,
    {
        if chars[i] == c {
            return true;
        }
        i += 1;
    }
    false
}

/// The blanks that fill a cell up to a width.
pub open spec fn filling(s: Seq<char>, width: nat) -> Seq<char> {
    text::repeated(
        ' ',
        if s.len() < width {
            (width - s.len()) as nat
        } else {
            0
        },
    )
}

/// A cell filled up to the width of its column, with a blank on both sides.
pub open spec fn aligned_cell(
    header: Seq<char>,
    cell: Seq<char>,
    width: nat,
    number_format: NumberFormat,
) -> Seq<char> {
    let display = cell_text(header, cell, number_format);
    one(' ') + (if left_aligned(header, display) {
        display + filling(display, width)
    } else {
        filling(display, width) + display
    }) + one(' ')
}

/// Cells filled up to the widths of their columns.
pub open spec fn aligned_cells(
    headers: Seq<Seq<char>>,
    widths: Seq<nat>,
    cells: Seq<Seq<char>>,
    number_format: NumberFormat,
) -> Seq<Seq<char>> {
    Seq::new(
        cells.len(),
        |i: int| aligned_cell(headers[i], cells[i], widths[i], number_format),
    )
}

fn push_filling(out: &mut String, shown: usize, width: usize)
    ensures
        final(out)@ == old(out)@ + text::repeated(
            ' ',
            if shown < width {
                (width - shown) as nat
            } else {
                0
            },
        ),
{
    push_repeated(
        out,
        ' ',
        if shown < width {
            width - shown
        } else {
            0
        },
    );
}

/// Align row cells before borders or colors are applied.
pub fn format_aligned_cells(
    headers: &[&str],
    widths: &[usize],
    cells: &[String],
    number_format: NumberFormat,
) -> (aligned: Vec<String>)
    requires
        cells@.len() <= headers@.len(),
        cells@.len() <= widths@.len(),
    ensures
        text::texts(aligned@) == aligned_cells(
            strs(headers@),
            nats(widths@),
            text::texts(cells@),
            number_format,
        ),
{
    let mut aligned: Vec<String> = Vec::new();
    let mut i: usize = 0;
    while i < cells.len()
        invariant
            i <= cells@.len() <= headers@.len(),
            cells@.len() <= widths@.len(),
            aligned.len() == i,
            forall|k: int|
                0 <= k < i ==> (#[trigger] aligned[k])@ == aligned_cell(
                    headers@[k]@,
                    cells@[k]@,
                    widths@[k] as nat,
                    number_format,
                ),
        decreases cells@.len() - i,
    {
        let display = format_table_cell(headers, i, cells[i].as_str(), number_format);
        let shown: usize = display_width(display.as_str());
        let mut cell = String::new();
        cell.push(' ');
        if should_left_align(headers[i], display.as_str()) {
            cell.append(display.as_str());
            push_filling(&mut cell, shown, widths[i]);
        } else {
            push_filling(&mut cell, shown, widths[i]);
            cell.append(display.as_str());
        }
        cell.push(' ');
        assert(cell@ =~= aligned_cell(
            headers@[i as int]@,
            cells@[i as int]@,
            widths@[i as int] as nat,
            number_format,
        ));
        aligned.push(cell);
        i += 1;
    }
    assert(text::texts(aligned@) =~= aligned_cells(
        strs(headers@),
        nats(widths@),
        text::texts(cells@),
        number_format,
    ));
    aligned
}

/// Parts painted as an element.
pub open spec fn painted_all(style: TableStyle, element: TableElement, parts: Seq<Seq<char>>) -> Seq<
    Seq<char>,
> {
    parts.map_values(|part: Seq<char>| painted(style, element, part))
}

/// A row between its borders.
pub open spec fn row_text(
    config: TableRenderConfig,
    headers: Seq<Seq<char>>,
    widths: Seq<nat>,
    cells: Seq<Seq<char>>,
    element: TableElement,
) -> Seq<char> {
    let border = painted(
        config.style,
        TableElement::Border,
        one(theme_of(config.borders).vertical),
    );
    border + text::joined(
        painted_all(
            config.style,
            element,
            aligned_cells(headers, widths, cells, config.number_format),
        ),
        border,
    ) + border
}

/// Render one row with border segments styled independently from the cell text.
pub fn write_table_row(
    output: &mut String,
    render_config: TableRenderConfig,
    headers: &[&str],
    widths: &[usize],
    cells: &[String],
    cell_element: TableElement,
)
    requires
        cells@.len() <= headers@.len(),
        cells@.len() <= widths@.len(),
    ensures
        final(output)@ == old(output)@ + row_text(
            render_config,
            strs(headers@),
            nats(widths@),
            text::texts(cells@),
            cell_element,
        ) + one('\n'),
{
    let theme = border_theme(render_config.borders);
    let mut vertical = String::new();
    vertical.push(theme.vertical);
    assert(vertical@ =~= one(theme.vertical));
    let border = paint(render_config.style, TableElement::Border, vertical.as_str());
    let aligned = format_aligned_cells(headers, widths, cells, render_config.number_format);
    let mut styled: Vec<String> = Vec::new();
    let mut i: usize = 0;
    while i < aligned.len()
        invariant
            i <= aligned.len(),
            styled.len() == i,
            forall|k: int|
                0 <= k < i ==> (#[trigger] styled[k])@ == painted(
                    render_config.style,
                    cell_element,
                    aligned[k]@,
                ),
        decreases aligned.len() - i,
    {
        styled.push(paint(render_config.style, cell_element, aligned[i].as_str()));
        i += 1;
    }
    assert(text::texts(styled@) =~= painted_all(
        render_config.style,
        cell_element,
        text::texts(aligned@),
    ));
    output.append(border.as_str());
    push_joined(output, &styled, border.as_str());
    output.append(border.as_str());
    output.push('\n');
    assert(output@ =~= old(output)@ + row_text(
        render_config,
        strs(headers@),
        nats(widths@),
        text::texts(cells@),
        cell_element,
    ) + one('\n'));
}

/// The lines of a table header: the top rule, the headings and the separator.
pub open spec fn header_text(
    config: TableRenderConfig,
    headers: Seq<Seq<char>>,
    widths: Seq<nat>,
) -> Seq<char> {
    painted(
        config.style,
        TableElement::Border,
        rule_text(TableRuleKind::Top, config.borders, widths),
    ) + one('\n') + row_text(config, headers, widths, headers, TableElement::Header) + one('\n')
        + painted(
        config.style,
        TableElement::Border,
        rule_text(TableRuleKind::HeaderSeparator, config.borders, widths),
    ) + one('\n')
}

/// Write the table header and separator.
pub fn write_table_header(
    output: &mut String,
    render_config: TableRenderConfig,
    headers: &[&str],
    widths: &[usize],
)
    requires
        headers@.len() <= widths@.len(),
    ensures
        final(output)@ == old(output)@ + header_text(render_config, strs(headers@), nats(widths@)),
{
    write_table_rule(
        output,
        render_config.style,
        table_rule_element(TableRuleKind::Top),
        table_rule(TableRuleKind::Top, render_config.borders, widths).as_str(),
    );
    let mut header_cells: Vec<String> = Vec::new();
    let mut i: usize = 0;
    while i < headers.len()
        invariant
            i <= headers@.len(),
            header_cells.len() == i,
            forall|k: int| 0 <= k < i ==> (#[trigger] header_cells[k])@ == headers@[k]@,
        decreases headers@.len() - i,
    {
        header_cells.push(String::from_str(headers[i]));
        i += 1;
    }
    assert(text::texts(header_cells@) =~= strs(headers@));
    write_table_row(
        output,
        render_config,
        headers,
        widths,
        header_cells.as_slice(),
        TableElement::Header,
    );
    write_table_rule(
        output,
        render_config.style,
        table_rule_element(TableRuleKind::HeaderSeparator),
        table_rule(TableRuleKind::HeaderSeparator, render_config.borders, widths).as_str(),
    );
    assert(output@ =~= old(output)@ + header_text(
        render_config,
        strs(headers@),
        nats(widths@),
    ));
}

/// Format one data row with aligned cells.
pub fn format_data_row(
    headers: &[&str],
    borders: BorderStyle,
    widths: &[usize],
    cells: &[String],
) -> (line: String)
    requires
        cells@.len() <= headers@.len(),
        cells@.len() <= widths@.len(),
    ensures
        line@ == row_text(
            (TableRenderConfig {
                style: TableStyle::Plain,
                borders,
                number_format: NumberFormat::Full,
            }),
            strs(headers@),
            nats(widths@),
            text::texts(cells@),
            TableElement::Detail,
        ),
{
    let theme = border_theme(borders);
    let mut vertical = String::new();
    vertical.push(theme.vertical);
    assert(vertical@ =~= one(theme.vertical));
    let aligned = format_aligned_cells(headers, widths, cells, NumberFormat::Full);
    let mut line = String::new();
    line.append(vertical.as_str());
    push_joined(&mut line, &aligned, vertical.as_str());
    line.append(vertical.as_str());
    proof {
        let parts = text::texts(aligned@);
        assert(painted_all(TableStyle::Plain, TableElement::Detail, parts) =~= parts);
        let config = TableRenderConfig {
            style: TableStyle::Plain,
            borders,
            number_format: NumberFormat::Full,
        };
        assert(line@ =~= row_text(
            config,
            strs(headers@),
            nats(widths@),
            text::texts(cells@),
            TableElement::Detail,
        ));
    }
    line
}

/// The widths of columns added up.
pub open spec fn width_sum(widths: Seq<nat>) -> nat
    decreases widths.len(),
{
    if widths.len() == 0 {
        0
    } else {
        width_sum(widths.drop_last()) + widths.last()
    }
}

/// The width of a table: its columns, a blank on both sides of each, and the borders.
pub open spec fn frame_width(widths: Seq<nat>) -> nat {
    width_sum(widths) + widths.len() * 3 + 1
}

/// Return the rendered table width in terminal columns, cut at the largest machine number.
pub fn table_display_width(widths: &[usize]) -> (width: usize)
    ensures
        width == if frame_width(nats(widths@)) > usize::MAX {
            usize::MAX as nat
        } else {
            frame_width(nats(widths@))
        },
{
    let ghost all = nats(widths@);
    let mut sum: usize = 1;
    assert(all.take(0) =~= Seq::<nat>::empty());
    let mut i: usize = 0;
    while i < widths.len()
        invariant
            i <= widths@.len(),
            all == nats(widths@),
            sum == if width_sum(all.take(i as int)) + i * 3 + 1 > usize::MAX {
                usize::MAX as int
            } else {
                width_sum(all.take(i as int)) + i * 3 + 1
            },
        decreases widths@.len() - i,
    {
        proof {
            assert(all.take(i + 1).drop_last() =~= all.take(i as int));
            assert(all.take(i + 1).last() == widths@[i as int]);
        }
        sum = sum.saturating_add(widths[i]).saturating_add(3);
        i += 1;
    }
    assert(all.take(all.len() as int) =~= all);
    sum
}

/// The lengths of texts added up.
spec fn length_sum(parts: Seq<Seq<char>>) -> nat
    decreases parts.len(),
{
    if parts.len() == 0 {
        0
    } else {
        length_sum(parts.drop_last()) + parts.last().len()
    }
}

proof fn lemma_joined_len(parts: Seq<Seq<char>>, separator: Seq<char>)
    requires
        parts.len() > 0,
        separator.len() == 1,
    ensures
        text::joined(parts, separator).len() == length_sum(parts) + parts.len() - 1,
    decreases parts.len(),
{
    if parts.len() > 1 {
        lemma_joined_len(parts.drop_last(), separator);
    } else {
        assert(length_sum(parts.drop_last()) == 0);
        assert(parts.last() == parts[0]);
    }
}

proof fn lemma_length_sum(parts: Seq<Seq<char>>, widths: Seq<nat>)
    requires
        parts.len() == widths.len(),
        forall|i: int| 0 <= i < parts.len() ==> (#[trigger] parts[i]).len() == widths[i] + 2,
    ensures
        length_sum(parts) == width_sum(widths) + 2 * widths.len(),
    decreases parts.len(),
{
    if parts.len() > 0 {
        let init = parts.drop_last();
        let rest = widths.drop_last();
        assert forall|i: int| 0 <= i < init.len() implies (#[trigger] init[i]).len() == rest[i]
            + 2 by {
            assert(init[i] == parts[i]);
        }
        lemma_length_sum(init, rest);
        assert(parts.last() == parts[parts.len() - 1]);
    }
}

/// Every rule is as wide as the table.
pub proof fn law_rules_span_the_table(
    kind: TableRuleKind,
    borders: BorderStyle,
    widths: Seq<nat>,
)
    requires
        widths.len() > 0,
    ensures
        rule_text(kind, borders, widths).len() == frame_width(widths),
{
    let theme = rule_theme_of(kind, borders);
    let segments = rule_segments(theme.horizontal, widths);
    lemma_joined_len(segments, one(theme.middle));
    lemma_length_sum(segments, widths);
}

/// Every row of plain cells is as wide as the table, where its cells fit their columns.
pub proof fn law_rows_span_the_table(
    config: TableRenderConfig,
    headers: Seq<Seq<char>>,
    widths: Seq<nat>,
    cells: Seq<Seq<char>>,
    element: TableElement,
)
    requires
        config.style == TableStyle::Plain,
        0 < cells.len() == widths.len() == headers.len(),
        forall|i: int|
            0 <= i < cells.len() ==> cell_text(
                headers[i],
                #[trigger] cells[i],
                config.number_format,
            ).len() <= widths[i],
    ensures
        row_text(config, headers, widths, cells, element).len() == frame_width(widths),
{
    let aligned = aligned_cells(headers, widths, cells, config.number_format);
    let parts = painted_all(config.style, element, aligned);
    assert forall|i: int| 0 <= i < parts.len() implies (#[trigger] parts[i]).len() == widths[i]
        + 2 by {
        let display = cell_text(headers[i], cells[i], config.number_format);
        assert(display.len() <= widths[i]);
        assert(parts[i] == aligned_cell(headers[i], cells[i], widths[i], config.number_format));
    }
    lemma_joined_len(parts, one(theme_of(config.borders).vertical));
    lemma_length_sum(parts, widths);
}

/// Every cell of every row, headings included, fits the width of its column.
pub proof fn law_columns_hold_their_cells(
    headers: Seq<Seq<char>>,
    rows: Seq<RowFacts>,
    number_format: NumberFormat,
)
    ensures
        table_widths(headers, rows, number_format).len() == headers.len(),
        forall|i: int|
            0 <= i < headers.len() ==> (#[trigger] headers[i]).len() <= table_widths(
                headers,
                rows,
                number_format,
            )[i],
        forall|k: int, i: int|
            0 <= k < rows.len() && 0 <= i < rows[k].cells.len() && i < headers.len()
                ==> cell_text(headers[i], #[trigger] rows[k].cells[i], number_format).len()
                <= table_widths(headers, rows, number_format)[i],
    decreases rows.len(),
{
    lemma_widths_len(headers, rows, number_format);
    if rows.len() > 0 {
        let init = rows.drop_last();
        law_columns_hold_their_cells(headers, init, number_format);
        let before = table_widths(headers, init, number_format);
        let after = table_widths(headers, rows, number_format);
        assert forall|i: int| 0 <= i < headers.len() implies before[i] <= #[trigger] after[i] by {}
        assert forall|k: int, i: int|
            0 <= k < rows.len() && 0 <= i < rows[k].cells.len() && i < headers.len() implies
            cell_text(headers[i], #[trigger] rows[k].cells[i], number_format).len() <= after[i] by {
            if k < rows.len() - 1 {
                assert(init[k] == rows[k]);
                assert(cell_text(headers[i], init[k].cells[i], number_format).len() <= before[i]);
                assert(before[i] <= after[i]);
            } else {
                assert(rows[k] == rows.last());
            }
        }
        assert forall|i: int| 0 <= i < headers.len() implies (#[trigger] headers[i]).len()
            <= after[i] by {
            assert(before[i] <= after[i]);
        }
    }
}

} // verus!
