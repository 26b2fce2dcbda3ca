//! The cost burn-rate graph of the watch screen.

use vstd::prelude::*;
use vstd::string::*;

use crate::limits_view;
use crate::limits_view::render_single_column;
use crate::model::UsdAmount;
use crate::number;
use crate::number::format_currency;
use crate::snapshot::BurnRateHistoryPoint;
use crate::table;
use crate::table::{BorderStyle, TableRenderConfig};
use crate::text;
use crate::text::{chars_of, push_repeated, text_lines};

verus! {

/// Number of terminal rows used by the watch cost graph body.
pub const WATCH_GRAPH_BODY_HEIGHT: usize = 4;

/// Number of vertical subunits represented by one graph body row.
pub const WATCH_GRAPH_ROW_UNITS: usize = 8;

/// Total vertical subunits represented by the graph body.
pub const WATCH_GRAPH_VERTICAL_UNITS: usize = 32;

/// Cost graph horizon selected by available terminal space.
#[derive(Clone, Copy, Debug, PartialEq, Eq, Structural)]
pub enum WatchGraphHorizon {
    /// Render the past eight hours.
    EightHours,
    /// Render the past four hours.
    FourHours,
}

/// The quarter-hour samples of a horizon, both ends counted.
pub open spec fn horizon_points(horizon: WatchGraphHorizon) -> nat {
    match horizon {
        WatchGraphHorizon::EightHours => 33,
        WatchGraphHorizon::FourHours => 17,
    }
}

impl WatchGraphHorizon {
    /// Return the expected number of 15-minute samples including both endpoints.
    pub fn point_count(self) -> (count: usize)
        ensures
            count == horizon_points(self),
    {
        match self {
            WatchGraphHorizon::EightHours => 33,
            WatchGraphHorizon::FourHours => 17,
        }
    }
}

/// The scale of a graph: the cost at each subunit of its height, and the cost in the middle of each
/// of its rows, from top to bottom.
#[derive(Debug)]
pub struct GraphScale {
    /// Place of the cost at each subunit in the order of costs, from the lowest subunit up.
    pub thresholds: Vec<u64>,
    /// Cost in the middle of each row.
    pub legend: Vec<UsdAmount>,
}

impl GraphScale {
    /// There is a threshold for each subunit and a legend for each row.
    pub open spec fn wf(&self) -> bool {
        self.thresholds.len() == WATCH_GRAPH_VERTICAL_UNITS && self.legend.len()
            == WATCH_GRAPH_BODY_HEIGHT
    }
}

/// The latest points of a horizon, where there are enough of them.
pub open spec fn latest_points(
    history: Seq<BurnRateHistoryPoint>,
    horizon: WatchGraphHorizon,
) -> Option<Seq<BurnRateHistoryPoint>> {
    if history.len() < horizon_points(horizon) {
        None
    } else {
        Some(history.skip(history.len() - horizon_points(horizon)))
    }
}

/// Return the suffix of graph history needed for one horizon.
pub fn burn_history_for_horizon(
    history: &Vec<BurnRateHistoryPoint>,
    horizon: WatchGraphHorizon,
) -> (points: Option<&[BurnRateHistoryPoint]>)
    ensures
        match points {
            Some(found) => latest_points(history@, horizon) == Some(found@),
            None => latest_points(history@, horizon) is None,
        },
{
    let count: usize = horizon.point_count();
    if history.len() < count {
        return None;
    }
    let start: usize = history.len() - count;
    let found = vstd::slice::slice_subrange(history.as_slice(), start, history.len());
    assert(found@ =~= history@.skip(start as int));
    Some(found)
}

/// The largest place in the order of costs among points; zero where no cost is positive.
pub open spec fn max_rank(points: Seq<BurnRateHistoryPoint>) -> u64
    decreases points.len(),
{
    if points.len() == 0 {
        0
    } else {
        let rest = max_rank(points.drop_last());
        if points.last().cost_rank > rest {
            points.last().cost_rank
        } else {
            rest
        }
    }
}

/// Return the place of the largest cost in a graph point set.
pub fn max_graph_cost(points: &[BurnRateHistoryPoint]) -> (rank: u64)
    ensures
        rank == max_rank(points@),
{
    let mut rank: u64 = 0;
    assert(points@.take(0) == Seq::<BurnRateHistoryPoint>::empty());
    let mut i: usize = 0;
    while i < points.len()
        invariant
            i <= points@.len(),
            rank == max_rank(points@.take(i as int)),
        decreases points@.len() - i,
    {
        assert(points@.take(i + 1).drop_last() == points@.take(i as int));
        assert(points@.take(i + 1).last() == points@[i as int]);
        if points[i].cost_rank > rank {
            rank = points[i].cost_rank;
        }
        i += 1;
    }
    assert(points@.take(points@.len() as int) == points@);
    rank
}

/// The subunits that a cost fills, from a height on: the first whose threshold it does not exceed.
pub open spec fn height_from(rank: u64, thresholds: Seq<u64>, from: int) -> int
    decreases thresholds.len() - from,
{
    if from >= thresholds.len() {
        thresholds.len() as int
    } else if rank <= thresholds[from] {
        from + 1
    } else {
        height_from(rank, thresholds, from + 1)
    }
}

/// The subunits that a cost fills. A cost that is not positive fills none, and so does every cost of
/// a graph without a positive one.
pub open spec fn column_height(rank: u64, max: u64, thresholds: Seq<u64>) -> int {
    if rank == 0 || max == 0 {
        0
    } else {
        height_from(rank, thresholds, 0)
    }
}

proof fn lemma_height_bounds(rank: u64, thresholds: Seq<u64>, from: int)
    requires
        0 <= from <= thresholds.len(),
    ensures
        from <= height_from(rank, thresholds, from) <= thresholds.len(),
    decreases thresholds.len() - from,
{
    if from < thresholds.len() && rank > thresholds[from] {
        lemma_height_bounds(rank, thresholds, from + 1);
    }
}

/// Map a cost value onto the fixed graph height.
pub fn graph_column_height(rank: u64, max: u64, scale: &GraphScale) -> (height: usize)
    requires
        scale.wf(),
    ensures
        height == column_height(rank, max, scale.thresholds@),
        height <= WATCH_GRAPH_VERTICAL_UNITS,
{
    if rank == 0 || max == 0 {
        return 0;
    }
    let mut i: usize = 0;
    while i < scale.thresholds.len()
        invariant
            i <= scale.thresholds.len() == WATCH_GRAPH_VERTICAL_UNITS,
            rank != 0,
            max != 0,
            height_from(rank, scale.thresholds@, 0) == height_from(
                rank,
                scale.thresholds@,
                i as int,
            ),
        decreases scale.thresholds.len() - i,
    {
        if rank <= scale.thresholds[i] {
            return i + 1;
        }
        i += 1;
    }
    scale.thresholds.len()
}

/// A higher cost never fills fewer subunits.
pub proof fn law_higher_cost_is_drawn_higher(a: u64, b: u64, max: u64, thresholds: Seq<u64>)
    requires
        a <= b,
    ensures
        column_height(a, max, thresholds) <= column_height(b, max, thresholds),
{
    if b > 0 && max > 0 {
        lemma_height_bounds(b, thresholds, 0);
        if a > 0 {
            lemma_height_grows(a, b, thresholds, 0);
        }
    }
}

proof fn lemma_height_grows(a: u64, b: u64, thresholds: Seq<u64>, from: int)
    requires
        a <= b,
        0 <= from <= thresholds.len(),
    ensures
        height_from(a, thresholds, from) <= height_from(b, thresholds, from),
    decreases thresholds.len() - from,
{
    if from < thresholds.len() {
        lemma_height_grows(a, b, thresholds, from + 1);
        if a <= thresholds[from] && b > thresholds[from] {
            lemma_height_bounds(b, thresholds, from + 1);
        }
    }
}

/// The subunits of a row that a column of a given height fills.
pub open spec fn row_units(height: int, level: int) -> int {
    let bottom = if level > 0 {
        (level - 1) * 8
    } else {
        0
    };
    if height <= bottom {
        0
    } else if height - bottom >= 8 {
        8
    } else {
        height - bottom
    }
}

/// Return how many vertical subunits are filled inside one text row.
pub fn graph_row_filled_units(column_height: usize, row_level: usize) -> (units: usize)
    requires
        (row_level - 1) * WATCH_GRAPH_ROW_UNITS <= usize::MAX,
    ensures
        units == row_units(column_height as int, row_level as int),
        units <= WATCH_GRAPH_ROW_UNITS,
{
    let row_bottom: usize = row_level.saturating_sub(1) * WATCH_GRAPH_ROW_UNITS;
    let above: usize = column_height.saturating_sub(row_bottom);
    if above < WATCH_GRAPH_ROW_UNITS {
        above
    } else {
        WATCH_GRAPH_ROW_UNITS
    }
}

/// The rows of a column together fill its height.
pub proof fn law_rows_fill_the_column(height: int)
    requires
        0 <= height <= WATCH_GRAPH_VERTICAL_UNITS,
    ensures
        row_units(height, 1) + row_units(height, 2) + row_units(height, 3) + row_units(height, 4)
            == height,
{
}

/// The glyph of a number of filled subunits.
pub open spec fn units_glyph(units: int, borders: BorderStyle) -> char {
    match borders {
        BorderStyle::Ascii => if units <= 0 {
            ' '
        } else if units == 1 {
            '.'
        } else if units == 2 {
            ':'
        } else if units == 3 {
            '-'
        } else if units == 4 {
            '='
        } else if units == 5 {
            '+'
        } else if units == 6 {
            '*'
        } else if units == 7 {
            '#'
        } else {
            '%'
        },
        BorderStyle::Unicode => if units <= 0 {
            ' '
        } else if units == 1 {
            '▁'
        } else if units == 2 {
            '▂'
        } else if units == 3 {
            '▃'
        } else if units == 4 {
            '▄'
        } else if units == 5 {
            '▅'
        } else if units == 6 {
            '▆'
        } else if units == 7 {
            '▇'
        } else {
            '█'
        },
    }
}

/// Return the graph glyph for one high-resolution bar column at one text row.
pub fn graph_column_glyph(column_height: usize, row_level: usize, borders: BorderStyle) -> (glyph: char)
    requires
        (row_level - 1) * WATCH_GRAPH_ROW_UNITS <= usize::MAX,
    ensures
        glyph == units_glyph(row_units(column_height as int, row_level as int), borders),
{
    let units: usize = graph_row_filled_units(column_height, row_level);
    match borders {
        BorderStyle::Ascii => match units {
            0 => ' ',
            1 => '.',
            2 => ':',
            3 => '-',
            4 => '=',
            5 => '+',
            6 => '*',
            7 => '#',
            _ => '%',
        },
        BorderStyle::Unicode => match units {
            0 => ' ',
            1 => '▁',
            2 => '▂',
            3 => '▃',
            4 => '▄',
            5 => '▅',
            6 => '▆',
            7 => '▇',
            _ => '█',
        },
    }
}

/// A row of the plot.
pub open spec fn plot_row(
    points: Seq<BurnRateHistoryPoint>,
    max: u64,
    thresholds: Seq<u64>,
    level: int,
    borders: BorderStyle,
) -> Seq<char> {
    points.map_values(
        |point: BurnRateHistoryPoint|
            units_glyph(
                row_units(column_height(point.cost_rank, max, thresholds), level),
                borders,
            ),
    )
}

/// The rows of the plot, the highest first.
pub open spec fn plot_rows(
    points: Seq<BurnRateHistoryPoint>,
    max: u64,
    thresholds: Seq<u64>,
    borders: BorderStyle,
) -> Seq<Seq<char>> {
    seq![
        plot_row(points, max, thresholds, 4, borders),
        plot_row(points, max, thresholds, 3, borders),
        plot_row(points, max, thresholds, 2, borders),
        plot_row(points, max, thresholds, 1, borders),
    ]
}

fn draw_row(
    points: &[BurnRateHistoryPoint],
    max: u64,
    scale: &GraphScale,
    level: usize,
    borders: BorderStyle,
) -> (row: String)
    requires
        scale.wf(),
        level <= WATCH_GRAPH_BODY_HEIGHT,
    ensures
        row@ == plot_row(points@, max, scale.thresholds@, level as int, borders),
{
    let ghost whole = plot_row(points@, max, scale.thresholds@, level as int, borders);
    let mut row = String::new();
    assert(row@ =~= whole.take(0));
    let mut i: usize = 0;
    while i < points.len()
        invariant
            i <= points@.len(),
            scale.wf(),
            level <= WATCH_GRAPH_BODY_HEIGHT,
            whole == plot_row(points@, max, scale.thresholds@, level as int, borders),
            row@ == whole.take(i as int),
        decreases points@.len() - i,
    {
        let height: usize = graph_column_height(points[i].cost_rank, max, scale);
        row.push(graph_column_glyph(height, level, borders));
        assert(row@ =~= whole.take(i + 1));
        i += 1;
    }
    assert(whole.take(whole.len() as int) =~= whole);
    row
}

/// Render graph points as fixed-height high-resolution bar plot rows.
pub fn cost_plot_rows(
    points: &[BurnRateHistoryPoint],
    max: u64,
    scale: &GraphScale,
    borders: BorderStyle,
) -> (rows: Vec<String>)
    requires
        scale.wf(),
    ensures
        text::texts(rows@) == plot_rows(points@, max, scale.thresholds@, borders),
{
    let mut rows: Vec<String> = Vec::new();
    rows.push(draw_row(points, max, scale, 4, borders));
    rows.push(draw_row(points, max, scale, 3, borders));
    rows.push(draw_row(points, max, scale, 2, borders));
    rows.push(draw_row(points, max, scale, 1, borders));
    assert(text::texts(rows@) =~= plot_rows(points@, max, scale.thresholds@, borders));
    rows
}

/// The horizontal line of a border style.
pub open spec fn dash(borders: BorderStyle) -> char {
    match borders {
        BorderStyle::Unicode => '─',
        BorderStyle::Ascii => '-',
    }
}

fn dash_of(borders: BorderStyle) -> (c: char)
    ensures
        c == dash(borders),
{
    match borders {
        BorderStyle::Unicode => '─',
        BorderStyle::Ascii => '-',
    }
}

/// A label of the cost scale.
pub open spec fn legend_label(cost: UsdAmount, borders: BorderStyle) -> Seq<char> {
    seq![dash(borders), ' '] + number::currency_text(cost) + "/h"@
}

/// Build one right-side cost scale label.
pub fn cost_legend_label(cost: UsdAmount, borders: BorderStyle) -> (label: String)
    ensures
        label@ == legend_label(cost, borders),
{
    let mut label = String::new();
    label.push(dash_of(borders));
    label.push(' ');
    label.append(format_currency(cost).as_str());
    label.append("/h");
    assert(label@ =~= legend_label(cost, borders));
    label
}

/// The labels of the cost scale.
pub open spec fn legend_labels(legend: Seq<UsdAmount>, borders: BorderStyle) -> Seq<Seq<char>> {
    legend.map_values(|cost: UsdAmount| legend_label(cost, borders))
}

/// Build right-side cost scale labels centered on each fixed-height graph row.
pub fn cost_legend_labels(legend: &Vec<UsdAmount>, borders: BorderStyle) -> (labels: Vec<String>)
    ensures
        text::texts(labels@) == legend_labels(legend@, borders),
{
    let mut labels: Vec<String> = Vec::new();
    let mut i: usize = 0;
    while i < legend.len()
        invariant
            i <= legend.len(),
            labels.len() == i,
            forall|k: int|
                0 <= k < i ==> (#[trigger] labels[k])@ == legend_label(legend[k], borders),
        decreases legend.len() - i,
    {
        labels.push(cost_legend_label(legend[i], borders));
        i += 1;
    }
    assert(text::texts(labels@) =~= legend_labels(legend@, borders));
    labels
}

/// The length of the longest text.
pub open spec fn longest(parts: Seq<Seq<char>>) -> nat
    decreases parts.len(),
{
    if parts.len() == 0 {
        0
    } else {
        table::wider(longest(parts.drop_last()), parts.last().len())
    }
}

fn longest_text(parts: &Vec<String>) -> (width: usize)
    ensures
        width == longest(text::texts(parts@)),
{
    let ghost all = text::texts(parts@);
    let mut width: usize = 0;
    assert(all.take(0) =~= Seq::<Seq<char>>::empty());
    let mut i: usize = 0;
    while i < parts.len()
        invariant
            i <= parts.len(),
            all == text::texts(parts@),
            width == longest(all.take(i as int)),
        decreases parts.len() - i,
    {
        assert(all.take(i + 1).drop_last() =~= all.take(i as int));
        assert(all.take(i + 1).last() == parts[i as int]@);
        let len: usize = parts[i].as_str().unicode_len();
        if width < len {
            width = len;
        }
        i += 1;
    }
    assert(all.take(all.len() as int) =~= all);
    width
}

/// A plot row with a label behind it, the label filled up on the right.
pub open spec fn legend_line(line: Seq<char>, label: Seq<char>, width: nat) -> Seq<char> {
    line + "  "@ + label + table::filling(label, width)
}

/// Append one left-aligned cost label after the graph plot area.
pub fn append_cost_legend(line: &str, label: &str, label_width: usize) -> (s: String)
    ensures
        s@ == legend_line(line@, label@, label_width as nat),
{
    let mut s = String::from_str(line);
    s.append("  ");
    s.append(label);
    push_repeated(&mut s, ' ', label_width.saturating_sub(label.unicode_len()));
    assert(s@ =~= legend_line(line@, label@, label_width as nat));
    s
}

/// The dashes between the labels of the axis: what the labels and two blanks leave of the points.
pub open spec fn axis_dashes(points: int, first: int, last: int) -> nat {
    let rest = points - first - last - 2;
    if rest > 0 {
        rest as nat
    } else {
        0
    }
}

/// The axis of a graph.
pub open spec fn axis_text(
    first: Seq<char>,
    last: Seq<char>,
    points: nat,
    borders: BorderStyle,
) -> Seq<char> {
    first + " "@ + text::repeated(
        dash(borders),
        axis_dashes(points as int, first.len() as int, last.len() as int),
    ) + " "@ + last
}

/// Build the graph axis row with start and end labels aligned on one line.
pub fn graph_axis_line(
    first: &BurnRateHistoryPoint,
    last: &BurnRateHistoryPoint,
    point_count: usize,
    borders: BorderStyle,
) -> (line: String)
    ensures
        line@ == axis_text(first.end_time@, last.end_time@, point_count as nat, borders),
{
    let first_width: usize = first.end_time.as_str().unicode_len();
    let last_width: usize = last.end_time.as_str().unicode_len();
    let separator: usize = point_count.saturating_sub(first_width).saturating_sub(
        last_width,
    ).saturating_sub(2);
    let mut line = first.end_time.clone();
    line.append(" ");
    push_repeated(&mut line, dash_of(borders), separator);
    line.append(" ");
    line.append(last.end_time.as_str());
    assert(line@ =~= axis_text(
        first.end_time@,
        last.end_time@,
        point_count as nat,
        borders,
    ));
    line
}

/// The lines inside the frame of a graph: the plot with its legend, and the axis.
pub open spec fn graph_lines(
    points: Seq<BurnRateHistoryPoint>,
    thresholds: Seq<u64>,
    legend: Seq<UsdAmount>,
    borders: BorderStyle,
) -> Seq<Seq<char>> {
    let plot = plot_rows(points, max_rank(points), thresholds, borders);
    let labels = legend_labels(legend, borders);
    let width = longest(labels);
    Seq::new(4, |i: int| legend_line(plot[i], labels[i], width)).push(
        axis_text(
            points.first().end_time@,
            points.last().end_time@,
            points.len(),
            borders,
        ),
    )
}

/// A graph in its frame.
pub open spec fn graph_text(
    points: Seq<BurnRateHistoryPoint>,
    thresholds: Seq<u64>,
    legend: Seq<UsdAmount>,
    config: TableRenderConfig,
) -> Seq<char> {
    limits_view::limit_table(
        config,
        seq!["Burn Rate History"@],
        limits_view::single_rows(graph_lines(points, thresholds, legend, config.borders)),
    )
}

/// Format one graph block.
pub fn format_watch_graph(
    points: &[BurnRateHistoryPoint],
    scale: &GraphScale,
    render_config: TableRenderConfig,
) -> (graph: Option<String>)
    requires
        scale.wf(),
    ensures
        match graph {
            Some(s) => points@.len() > 0 && s@ == graph_text(
                points@,
                scale.thresholds@,
                scale.legend@,
                render_config,
            ),
            None => points@.len() == 0,
        },
{
    if points.len() == 0 {
        return None;
    }
    let max: u64 = max_graph_cost(points);
    let plot = cost_plot_rows(points, max, scale, render_config.borders);
    let axis = graph_axis_line(
        &points[0],
        &points[points.len() - 1],
        points.len(),
        render_config.borders,
    );
    let ghost axis_shown = axis@;
    let labels = cost_legend_labels(&scale.legend, render_config.borders);
    let ghost plot_texts = text::texts(plot@);
    let ghost label_texts = text::texts(labels@);
    assert(plot_texts.len() == plot.len() && label_texts.len() == labels.len());
    let label_width: usize = longest_text(&labels);
    let mut lines: Vec<String> = Vec::new();
    let mut i: usize = 0;
    while i < 4
        invariant
            i <= 4,
            plot.len() == 4,
            labels.len() == 4,
            lines.len() == i,
            forall|k: int|
                0 <= k < i ==> (#[trigger] lines[k])@ == legend_line(
                    plot[k]@,
                    labels[k]@,
                    label_width as nat,
                ),
        decreases 4 - i,
    {
        lines.push(append_cost_legend(plot[i].as_str(), labels[i].as_str(), label_width));
        i += 1;
    }
    lines.push(axis);
    proof {
        let expected = graph_lines(
            points@,
            scale.thresholds@,
            scale.legend@,
            render_config.borders,
        );
        assert forall|k: int| 0 <= k < 4 implies plot_texts[k] == plot[k]@ && label_texts[k]
            == labels[k]@ by {}
        assert(text::texts(lines@) =~= expected);
    }
    Some(render_single_column(render_config, "Burn Rate History", &lines))
}

/// The position behind an escape sequence: behind its first letter, or the end of the text.
pub open spec fn escape_end(s: Seq<char>, from: int) -> int
    decreases s.len() - from,
{
    if from >= s.len() {
        s.len() as int
    } else if ('a' <= s[from] && s[from] <= 'z') || ('A' <= s[from] && s[from] <= 'Z') {
        from + 1
    } else {
        escape_end(s, from + 1)
    }
}

/// An escape sequence ends behind its beginning and within the text.
pub proof fn lemma_escape_end(s: Seq<char>, from: int)
    requires
        0 <= from,
    ensures
        from <= s.len() ==> from <= escape_end(s, from) <= s.len(),
        from < s.len() ==> from < escape_end(s, from),
    decreases s.len() - from,
{
    if from < s.len() && !(('a' <= s[from] && s[from] <= 'z') || ('A' <= s[from] && s[from]
        <= 'Z')) {
        lemma_escape_end(s, from + 1);
    }
}

/// The terminal columns that a text takes up from a position on; escape sequences take up none.
pub open spec fn visible_width(s: Seq<char>, from: int) -> nat
    decreases s.len() - from,
{
    if from < 0 || from >= s.len() {
        0
    } else if s[from] == '\u{1b}' && from + 1 < s.len() && s[from + 1] == '[' {
        proof {
            lemma_escape_end(s, from + 2);
        }
        visible_width(s, escape_end(s, from + 2))
    } else {
        1 + visible_width(s, from + 1)
    }
}

/// Return the terminal-column width of one rendered line.
pub fn rendered_width(value: &str) -> (width: usize)
    ensures
        width == visible_width(value@, 0),
{
    let chars = chars_of(value);
    let ghost s = value@;
    let mut width: usize = 0;
    let mut i: usize = 0;
    while i < chars.len()
        invariant
            chars@ == s,
            i <= chars.len(),
            width <= i,
            visible_width(s, 0) == width + visible_width(s, i as int),
        decreases chars.len() - i,
    {
        if chars[i] == '\u{1b}' && i + 1 < chars.len() && chars[i + 1] == '[' {
            let ghost start = i as int;
            i += 2;
            let ghost body = i as int;
            let mut ended = false;
            proof {
                lemma_escape_end(s, body);
            }
            while i < chars.len() && !ended
                invariant
                    chars@ == s,
                    body <= i <= chars.len(),
                    !ended ==> escape_end(s, body) == escape_end(s, i as int),
                    ended ==> escape_end(s, body) == i,
                decreases chars.len() - i,
            {
                let c = chars[i];
                if ('a' <= c && c <= 'z') || ('A' <= c && c <= 'Z') {
                    ended = true;
                }
                i += 1;
            }
            assert(i == escape_end(s, body));
            assert(visible_width(s, start) == visible_width(s, i as int));
        } else {
            width += 1;
            i += 1;
        }
    }
    width
}

/// Count rendered lines in one output block.
pub fn rendered_line_count(value: &str) -> (count: usize)
    ensures
        count == text::lines(value@).len(),
{
    let lines = text_lines(value);
    assert(text::texts(lines@).len() == lines.len());
    lines.len()
}

/// A number cut at the largest machine number.
pub open spec fn capped(n: int) -> int {
    if n > usize::MAX {
        usize::MAX as int
    } else {
        n
    }
}

/// Whether a block fits the terminal: no line is too wide, and a blank line and the block fit below
/// the lines that are taken. A size that is not known is large enough.
pub open spec fn fits_terminal(
    block: Seq<char>,
    terminal_width: Option<usize>,
    terminal_height: Option<usize>,
    reserved_lines: int,
) -> bool {
    &&& terminal_width matches Some(width) ==> forall|i: int|
        0 <= i < text::lines(block).len() ==> visible_width(
            #[trigger] text::lines(block)[i],
            0,
        ) <= width
    &&& terminal_height matches Some(height) ==> capped(
        reserved_lines + 1 + text::lines(block).len(),
    ) <= height
}

/// Return whether the graph block fits the available terminal area.
pub fn graph_fits(
    graph: &str,
    terminal_width: Option<usize>,
    terminal_height: Option<usize>,
    reserved_lines: usize,
) -> (r: bool)
    ensures
        r == fits_terminal(graph@, terminal_width, terminal_height, reserved_lines as int),
{
    let lines = text_lines(graph);
    let ghost all = text::lines(graph@);
    assert(text::texts(lines@).len() == lines.len());
    if let Some(width) = terminal_width {
        let mut i: usize = 0;
        while i < lines.len()
            invariant
                i <= lines.len(),
                all == text::texts(lines@),
                all == text::lines(graph@),
                forall|k: int| 0 <= k < i ==> visible_width(#[trigger] all[k], 0) <= width,
                terminal_width == Some(width),
            decreases lines.len() - i,
        {
            assert(all[i as int] == lines[i as int]@);
            if rendered_width(lines[i].as_str()) > width {
                assert(visible_width(text::lines(graph@)[i as int], 0) > width);
                return false;
            }
            i += 1;
        }
    }
    if let Some(height) = terminal_height {
        let needed: usize = reserved_lines.saturating_add(1).saturating_add(lines.len());
        if needed > height {
            return false;
        }
    }
    true
}

/// The scales of the two horizons.
#[derive(Debug)]
pub struct GraphScales {
    /// Scale of the past eight hours.
    pub eight_hours: GraphScale,
    /// Scale of the past four hours.
    pub four_hours: GraphScale,
}

impl GraphScales {
    /// Both scales are complete.
    pub open spec fn wf(&self) -> bool {
        self.eight_hours.wf() && self.four_hours.wf()
    }
}

/// The graph of a horizon, where there are enough points for it.
pub open spec fn horizon_graph(
    history: Seq<BurnRateHistoryPoint>,
    horizon: WatchGraphHorizon,
    scale: GraphScale,
    config: TableRenderConfig,
) -> Option<Seq<char>> {
    match latest_points(history, horizon) {
        Some(points) => Some(graph_text(points, scale.thresholds@, scale.legend@, config)),
        None => None,
    }
}

/// The graph that is shown: that of the longest horizon that there are points for and that fits the
/// terminal.
pub open spec fn shown_graph(
    history: Seq<BurnRateHistoryPoint>,
    scales: GraphScales,
    config: TableRenderConfig,
    terminal_width: Option<usize>,
    terminal_height: Option<usize>,
    reserved_lines: int,
) -> Option<Seq<char>> {
    let long = horizon_graph(
        history,
        WatchGraphHorizon::EightHours,
        scales.eight_hours,
        config,
    );
    let short = horizon_graph(
        history,
        WatchGraphHorizon::FourHours,
        scales.four_hours,
        config,
    );
    if long matches Some(graph) && fits_terminal(
        graph,
        terminal_width,
        terminal_height,
        reserved_lines,
    ) {
        long
    } else if short matches Some(graph) && fits_terminal(
        graph,
        terminal_width,
        terminal_height,
        reserved_lines,
    ) {
        short
    } else {
        None
    }
}

fn fitting_graph(
    history: &Vec<BurnRateHistoryPoint>,
    horizon: WatchGraphHorizon,
    scale: &GraphScale,
    render_config: TableRenderConfig,
    terminal_width: Option<usize>,
    terminal_height: Option<usize>,
    reserved_lines: usize,
) -> (graph: Option<String>)
    requires
        scale.wf(),
    ensures
        match graph {
            Some(s) => horizon_graph(history@, horizon, *scale, render_config) == Some(s@)
                && fits_terminal(s@, terminal_width, terminal_height, reserved_lines as int),
            None => horizon_graph(history@, horizon, *scale, render_config) matches Some(g)
                ==> !fits_terminal(g, terminal_width, terminal_height, reserved_lines as int),
        },
{
    let points = match burn_history_for_horizon(history, horizon) {
        Some(points) => points,
        None => return None,
    };
    match format_watch_graph(points, scale, render_config) {
        Some(graph) => {
            if graph_fits(
                graph.as_str(),
                terminal_width,
                terminal_height,
                reserved_lines,
            ) {
                Some(graph)
            } else {
                None
            }
        },
        None => None,
    }
}

/// Render the compact cost burn-rate graph when terminal space allows it.
pub fn render_watch_graph(
    history: &Vec<BurnRateHistoryPoint>,
    scales: &GraphScales,
    render_config: TableRenderConfig,
    terminal_width: Option<usize>,
    terminal_height: Option<usize>,
    reserved_lines: usize,
) -> (graph: Option<String>)
    requires
        scales.wf(),
    ensures
        match graph {
            Some(s) => shown_graph(
                history@,
                *scales,
                render_config,
                terminal_width,
                terminal_height,
                reserved_lines as int,
            ) == Some(s@),
            None => shown_graph(
                history@,
                *scales,
                render_config,
                terminal_width,
                terminal_height,
                reserved_lines as int,
            ) is None,
        },
{
    if let Some(graph) = fitting_graph(
        history,
        WatchGraphHorizon::EightHours,
        &scales.eight_hours,
        render_config,
        terminal_width,
        terminal_height,
        reserved_lines,
    ) {
        return Some(graph);
    }
    fitting_graph(
        history,
        WatchGraphHorizon::FourHours,
        &scales.four_hours,
        render_config,
        terminal_width,
        terminal_height,
        reserved_lines,
    )
}

} // verus!
