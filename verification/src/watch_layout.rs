//! The stacking of the watch table into blocks that fit the terminal.

use vstd::prelude::*;
use vstd::string::*;

use crate::model::{CacheReadMode, NumberFormat};
use crate::snapshot::{WatchSnapshot, DURATION_LIMIT};
use crate::table;
use crate::table::{
    column_widths, row_table_element, table_display_width, table_rule, table_rule_element,
    write_table_header, write_table_row, write_table_rule, DisplayRow, TableElement,
    TableRenderConfig, TableRuleKind,
};
use crate::text;
use crate::watch_table;
use crate::watch_table::{
    active_watch_burn_columns, watch_block_headers, watch_block_rows, watch_rows,
    watch_updated_row, WatchBurnColumn, WatchMetricRow, WatchTableBlock,
};

verus! {

/// What decides about the layout of the watch table.
pub struct LayoutFacts {
    /// Model headings.
    pub headers: Seq<Seq<char>>,
    /// Metric rows.
    pub rows: Seq<watch_table::MetricFacts>,
    /// The day shown.
    pub date: Seq<char>,
    /// The time of the last update.
    pub updated_time: Seq<char>,
    /// Numeric display mode.
    pub number_format: NumberFormat,
    /// Terminal columns available.
    pub terminal_width: usize,
}

impl LayoutFacts {
    /// All rows of a block, the update row last.
    pub open spec fn block_rows(self, block: WatchTableBlock) -> Seq<table::RowFacts> {
        watch_table::block_rows(self.rows, block).push(
            watch_table::updated_row(self.date, self.updated_time, block),
        )
    }

    /// The column widths of a block.
    pub open spec fn block_widths(self, block: WatchTableBlock) -> Seq<nat> {
        table::table_widths(
            watch_table::block_headers(self.headers, block),
            self.block_rows(block),
            self.number_format,
        )
    }

    /// The width of a block, cut at the largest machine number.
    pub open spec fn block_width(self, block: WatchTableBlock) -> nat {
        let width = table::frame_width(self.block_widths(block));
        if width > usize::MAX {
            usize::MAX as nat
        } else {
            width
        }
    }

    /// Whether a block may stand in a layout: it fits the terminal, or it shows just one model and
    /// cannot be made narrower.
    pub open spec fn allowed(self, block: WatchTableBlock) -> bool {
        self.block_width(block) <= self.terminal_width || block.count() == 1
    }

    /// The block over a range of model columns. The last one shows the burn rate.
    pub open spec fn block(self, today: bool, start: int, end: int) -> WatchTableBlock {
        WatchTableBlock {
            include_today: today,
            model_start: start as usize,
            model_end: end as usize,
            include_burn_rate: end == self.headers.len(),
        }
    }

    /// Whether blocks in a row show the model columns from `start` on: each once and in order, in
    /// blocks that may stand there. Only the first shows the day, and only the last the burn rate.
    pub open spec fn valid_layout(
        self,
        start: int,
        today: bool,
        layout: Seq<WatchTableBlock>,
    ) -> bool
        decreases layout.len(),
    {
        layout.len() > 0 && {
            let first = layout[0];
            let end = first.model_end as int;
            &&& start < end <= self.headers.len()
            &&& first == self.block(today, start, end)
            &&& self.allowed(first)
            &&& if end == self.headers.len() {
                layout.len() == 1
            } else {
                self.valid_layout(end, false, layout.skip(1))
            }
        }
    }

    /// The layout that starts with a given block and goes on with the best one behind it.
    pub open spec fn layout_with(self, start: int, today: bool, end: int) -> Seq<WatchTableBlock>
        decreases self.headers.len() - start, 0int,
        when 0 <= start < end <= self.headers.len()
    {
        seq![self.block(today, start, end)] + (if end == self.headers.len() {
            Seq::empty()
        } else {
            self.best_layout(end, false)
        })
    }

    /// The best layout whose first block ends at `end` or behind it, empty where there is none: one
    /// with the fewest blocks, and among those the one with the widest first block.
    pub open spec fn best_with_end(self, start: int, today: bool, end: int) -> Seq<WatchTableBlock>
        decreases self.headers.len() - start, 1 + self.headers.len() - end,
        when 0 <= start < end <= self.headers.len() + 1
    {
        if end > self.headers.len() {
            Seq::empty()
        } else {
            let wider = self.best_with_end(start, today, end + 1);
            let candidate = self.layout_with(start, today, end);
            if !self.allowed(self.block(today, start, end)) {
                wider
            } else if wider.len() == 0 || candidate.len() < wider.len() {
                candidate
            } else {
                wider
            }
        }
    }

    /// The best layout of the model columns from `start` on.
    pub open spec fn best_layout(self, start: int, today: bool) -> Seq<WatchTableBlock>
        decreases self.headers.len() - start, 2 + self.headers.len() - start,
        when 0 <= start < self.headers.len()
    {
        self.best_with_end(start, today, start + 1)
    }
}

/// There is always a layout.
pub proof fn lemma_best_exists(facts: LayoutFacts, start: int, today: bool)
    requires
        0 <= start < facts.headers.len() <= usize::MAX,
    ensures
        facts.best_layout(start, today).len() > 0,
{
    assert(facts.block(today, start, start + 1).count() == 1);
}

/// The best layout from a first end on is a layout.
pub proof fn lemma_best_valid(facts: LayoutFacts, start: int, today: bool, end: int)
    requires
        0 <= start < end <= facts.headers.len() + 1,
        facts.headers.len() <= usize::MAX,
    ensures
        facts.best_with_end(start, today, end).len() > 0 ==> facts.valid_layout(
            start,
            today,
            facts.best_with_end(start, today, end),
        ),
    decreases facts.headers.len() - start, 1 + facts.headers.len() - end,
{
    if end <= facts.headers.len() {
        lemma_best_valid(facts, start, today, end + 1);
        let candidate = facts.layout_with(start, today, end);
        assert(candidate[0] == facts.block(today, start, end));
        if end < facts.headers.len() {
            lemma_best_valid(facts, end, false, end + 1);
            lemma_best_exists(facts, end, false);
            assert(candidate.skip(1) =~= facts.best_layout(end, false));
        }
    }
}

/// No layout from a first end on has fewer blocks.
pub proof fn lemma_best_minimal(
    facts: LayoutFacts,
    start: int,
    today: bool,
    end: int,
    layout: Seq<WatchTableBlock>,
)
    requires
        0 <= start < end <= facts.headers.len() + 1,
        facts.headers.len() <= usize::MAX,
        facts.valid_layout(start, today, layout),
        layout[0].model_end >= end,
    ensures
        0 < facts.best_with_end(start, today, end).len() <= layout.len(),
    decreases facts.headers.len() - start, 1 + facts.headers.len() - end,
{
    reveal_with_fuel(LayoutFacts::valid_layout, 2);
    let first = layout[0].model_end as int;
    if first > end {
        lemma_best_minimal(facts, start, today, end + 1, layout);
        assert(facts.layout_with(start, today, end).len() > 0);
    } else {
        let candidate = facts.layout_with(start, today, end);
        assert(facts.allowed(facts.block(today, start, end)));
        if end < facts.headers.len() {
            let rest = layout.skip(1);
            lemma_best_minimal(facts, end, false, end + 1, rest);
            assert(candidate.len() == 1 + facts.best_layout(end, false).len());
        } else {
            assert(candidate.len() == 1);
        }
    }
}

/// The best layout shows every model column once and in order, in blocks that fit the terminal or
/// hold a single model.
pub proof fn law_layout_is_valid(facts: LayoutFacts)
    requires
        0 < facts.headers.len() <= usize::MAX,
    ensures
        facts.valid_layout(0, true, facts.best_layout(0, true)),
{
    lemma_best_exists(facts, 0, true);
    lemma_best_valid(facts, 0, true, 1);
}

/// No other layout has fewer blocks than the best one.
pub proof fn law_layout_is_minimal(facts: LayoutFacts, layout: Seq<WatchTableBlock>)
    requires
        facts.headers.len() <= usize::MAX,
        facts.valid_layout(0, true, layout),
    ensures
        facts.best_layout(0, true).len() <= layout.len(),
{
    lemma_best_minimal(facts, 0, true, 1, layout);
}

proof fn lemma_layout_starts(
    facts: LayoutFacts,
    start: int,
    today: bool,
    layout: Seq<WatchTableBlock>,
    k: int,
)
    requires
        facts.valid_layout(start, today, layout),
        0 <= start,
        0 <= k < layout.len(),
        facts.headers.len() <= usize::MAX,
    ensures
        start <= layout[k].model_start < layout[k].model_end <= facts.headers.len(),
        k > 0 ==> layout[0].model_end <= layout[k].model_start,
    decreases layout.len(),
{
    if k > 0 {
        let end = layout[0].model_end as int;
        lemma_layout_starts(facts, end, false, layout.skip(1), k - 1);
        assert(layout.skip(1)[k - 1] == layout[k]);
    }
}

/// In a valid layout every model column stands in exactly one block.
pub proof fn law_every_model_is_shown_once(
    facts: LayoutFacts,
    start: int,
    today: bool,
    layout: Seq<WatchTableBlock>,
    column: int,
)
    requires
        facts.headers.len() <= usize::MAX,
        0 <= start <= column < facts.headers.len(),
        facts.valid_layout(start, today, layout),
    ensures
        exists|k: int|
            #![trigger layout[k]]
            0 <= k < layout.len() && layout[k].model_start <= column < layout[k].model_end && (
            forall|j: int|
                0 <= j < layout.len() && j != k ==> !((#[trigger] layout[j]).model_start <= column
                    < layout[j].model_end)),
    decreases layout.len(),
{
    let end = layout[0].model_end as int;
    if column < end {
        assert forall|j: int| 0 <= j < layout.len() && j != 0 implies !((
        #[trigger] layout[j]).model_start <= column < layout[j].model_end) by {
            lemma_layout_starts(facts, start, today, layout, j);
        }
        assert(layout[0].model_start <= column < layout[0].model_end);
    } else {
        let rest = layout.skip(1);
        law_every_model_is_shown_once(facts, end, false, rest, column);
        let k = choose|k: int|
            #![trigger rest[k]]
            0 <= k < rest.len() && rest[k].model_start <= column < rest[k].model_end && (forall|
                j: int,
            |
                0 <= j < rest.len() && j != k ==> !((#[trigger] rest[j]).model_start <= column
                    < rest[j].model_end));
        assert(layout[k + 1] == rest[k]);
        assert forall|j: int| 0 <= j < layout.len() && j != k + 1 implies !((
        #[trigger] layout[j]).model_start <= column < layout[j].model_end) by {
            if j > 0 {
                assert(layout[j] == rest[j - 1]);
            }
        }
    }
}

/// Shared inputs for stacked watch-table layout decisions.
#[derive(Debug)]
pub struct WatchBlockLayoutContext<'a> {
    /// Ordered per-model header labels.
    pub model_headers: &'a Vec<String>,
    /// Logical watch rows projected into blocks during layout.
    pub rows: &'a Vec<WatchMetricRow>,
    /// Snapshot metadata used by the repeated `Updated` row.
    pub snapshot: &'a WatchSnapshot,
    /// Shared table rendering configuration.
    pub render_config: TableRenderConfig,
    /// Maximum width available for one rendered table block.
    pub terminal_width: usize,
}

/// The slices of texts.
fn header_refs<'a>(headers: &'a Vec<String>) -> (refs: Vec<&'a str>)
    ensures
        table::strs(refs@) == text::texts(headers@),
        refs.len() == headers.len(),
{
    let mut refs: Vec<&'a str> = Vec::new();
    let mut i: usize = 0;
    while i < headers.len()
        invariant
            i <= headers.len(),
            refs.len() == i,
            forall|k: int| 0 <= k < i ==> (#[trigger] refs[k])@ == headers[k]@,
        decreases headers.len() - i,
    {
        refs.push(headers[i].as_str());
        i += 1;
    }
    assert(table::strs(refs@) =~= text::texts(headers@));
    refs
}

impl<'a> WatchBlockLayoutContext<'a> {
    /// What decides about the layout.
    pub open spec fn facts(&self) -> LayoutFacts {
        LayoutFacts {
            headers: text::texts(self.model_headers@),
            rows: watch_table::metrics_facts(self.rows@),
            date: self.snapshot.date@,
            updated_time: self.snapshot.updated_time@,
            number_format: self.render_config.number_format,
            terminal_width: self.terminal_width,
        }
    }

    /// Every row has a cell for each model column.
    pub open spec fn wf(&self) -> bool {
        watch_table::rows_cover(self.rows@, self.model_headers.len() as nat)
    }

    /// Compute the rendered width of one stacked watch block.
    pub fn block_width(&self, block: WatchTableBlock) -> (width: usize)
        requires
            self.wf(),
            block.within(self.model_headers.len() as nat),
        ensures
            width == self.facts().block_width(block),
    {
        let headers = watch_block_headers(self.model_headers, &block);
        assert(text::texts(headers@).len() == headers.len());
        let refs = header_refs(&headers);
        let projected = watch_block_rows(self.rows, &block);
        let updated = watch_updated_row(self.snapshot, &block);
        let widths = column_widths(
            refs.as_slice(),
            &projected,
            &updated,
            self.render_config.number_format,
        );
        table_display_width(widths.as_slice())
    }

    /// Return whether the block fits the terminal or qualifies for forced one-column overflow.
    pub fn block_fits_or_forces(&self, block: WatchTableBlock) -> (r: bool)
        requires
            self.wf(),
            block.within(self.model_headers.len() as nat),
        ensures
            r == self.facts().allowed(block),
    {
        self.block_width(block) <= self.terminal_width || block.model_count() == 1
    }

    /// Pick the minimal stacked block layout from one model-column offset.
    pub fn best_layout_from(
        &self,
        model_start: usize,
        include_today: bool,
        best_tails: &Vec<Vec<WatchTableBlock>>,
    ) -> (layout: Vec<WatchTableBlock>)
        requires
            self.wf(),
            model_start < self.model_headers.len(),
            best_tails.len() == self.model_headers.len() + 1,
            forall|k: int|
                model_start < k < self.model_headers.len() ==> (#[trigger] best_tails[k])@
                    == self.facts().best_layout(k, false),
        ensures
            layout@ == self.facts().best_layout(model_start as int, include_today),
    {
        let ghost facts = self.facts();
        let count: usize = self.model_headers.len();
        assert(facts.headers.len() == count);
        let mut best: Vec<WatchTableBlock> = Vec::new();
        assert(best@ =~= facts.best_with_end(model_start as int, include_today, count + 1));
        let mut model_end: usize = count;
        while model_end > model_start
            invariant
                self.wf(),
                facts == self.facts(),
                count == self.model_headers.len(),
                facts.headers.len() == count,
                model_start <= model_end <= count,
                model_start < count,
                best_tails.len() == count + 1,
                forall|k: int|
                    model_start < k < count ==> (#[trigger] best_tails[k])@ == facts.best_layout(
                        k,
                        false,
                    ),
                best@ == facts.best_with_end(model_start as int, include_today, model_end + 1),
            decreases model_end,
        {
            let block = WatchTableBlock::new(
                include_today,
                model_start,
                model_end,
                model_end == count,
            );
            assert(block == facts.block(include_today, model_start as int, model_end as int));
            if self.block_fits_or_forces(block) {
                let mut candidate: Vec<WatchTableBlock> = Vec::new();
                candidate.push(block);
                if model_end < count {
                    let mut i: usize = 0;
                    let tail = &best_tails[model_end];
                    let ghost whole = tail@;
                    assert(candidate@ =~= seq![block] + whole.take(0));
                    while i < tail.len()
                        invariant
                            i <= tail.len(),
                            whole == tail@,
                            candidate@ == seq![block] + whole.take(i as int),
                        decreases tail.len() - i,
                    {
                        candidate.push(tail[i]);
                        assert(candidate@ =~= seq![block] + whole.take(i + 1));
                        i += 1;
                    }
                    assert(whole.take(whole.len() as int) =~= whole);
                    assert(whole == facts.best_layout(model_end as int, false));
                }
                assert(candidate@ =~= facts.layout_with(
                    model_start as int,
                    include_today,
                    model_end as int,
                ));
                if best.len() == 0 || candidate.len() < best.len() {
                    best = candidate;
                }
            }
            model_end -= 1;
        }
        best
    }
}

/// The blocks of the watch table: a single one where it fits or the width of the terminal is not
/// known, else the best layout.
pub open spec fn table_blocks(facts: LayoutFacts, width_known: bool) -> Seq<WatchTableBlock> {
    let full = WatchTableBlock {
        include_today: true,
        model_start: 0,
        model_end: facts.headers.len() as usize,
        include_burn_rate: true,
    };
    if !width_known || facts.headers.len() == 0 || facts.block_width(full)
        <= facts.terminal_width {
        seq![full]
    } else {
        facts.best_layout(0, true)
    }
}

/// The layout decision of a table.
pub open spec fn layout_facts(
    headers: Seq<Seq<char>>,
    rows: Seq<watch_table::MetricFacts>,
    snapshot: WatchSnapshot,
    number_format: NumberFormat,
    terminal_width: Option<usize>,
) -> LayoutFacts {
    LayoutFacts {
        headers,
        rows,
        date: snapshot.date@,
        updated_time: snapshot.updated_time@,
        number_format,
        terminal_width: match terminal_width {
            Some(width) => width,
            None => 0,
        },
    }
}

/// Build the stacked watch-table blocks for the current terminal width.
pub fn watch_table_blocks(
    model_headers: &Vec<String>,
    rows: &Vec<WatchMetricRow>,
    snapshot: &WatchSnapshot,
    render_config: TableRenderConfig,
    terminal_width: Option<usize>,
) -> (blocks: Vec<WatchTableBlock>)
    requires
        watch_table::rows_cover(rows@, model_headers.len() as nat),
    ensures
        blocks@ == table_blocks(
            layout_facts(
                text::texts(model_headers@),
                watch_table::metrics_facts(rows@),
                *snapshot,
                render_config.number_format,
                terminal_width,
            ),
            terminal_width is Some,
        ),
{
    let count: usize = model_headers.len();
    let full_block = WatchTableBlock::new(true, 0, count, true);
    let mut single: Vec<WatchTableBlock> = Vec::new();
    single.push(full_block);
    assert(single@ =~= seq![full_block]);
    assert(text::texts(model_headers@).len() == count);
    let width: usize = match terminal_width {
        Some(width) => width,
        None => return single,
    };
    let layout = WatchBlockLayoutContext {
        model_headers,
        rows,
        snapshot,
        render_config,
        terminal_width: width,
    };
    let ghost facts = layout.facts();
    if count == 0 || layout.block_width(full_block) <= width {
        return single;
    }
    let mut best_tails: Vec<Vec<WatchTableBlock>> = Vec::new();
    let mut filled: usize = 0;
    while filled < count
        invariant
            filled <= count,
            best_tails.len() == filled,
        decreases count - filled,
    {
        best_tails.push(Vec::new());
        filled += 1;
    }
    best_tails.push(Vec::new());
    let mut model_start: usize = count;
    while model_start > 0
        invariant
            model_start <= count == model_headers.len(),
            layout.wf(),
            layout.model_headers.len() == count,
            facts == layout.facts(),
            best_tails.len() == count + 1,
            forall|k: int|
                model_start <= k < count ==> (#[trigger] best_tails[k])@ == facts.best_layout(
                    k,
                    false,
                ),
        decreases model_start,
    {
        model_start -= 1;
        let tail = layout.best_layout_from(model_start, false, &best_tails);
        best_tails.set(model_start, tail);
    }
    layout.best_layout_from(0, true, &best_tails)
}

/// The lines of a block.
pub open spec fn block_text(
    facts: LayoutFacts,
    config: TableRenderConfig,
    block: WatchTableBlock,
) -> Seq<char> {
    let headers = watch_table::block_headers(facts.headers, block);
    let widths = facts.block_widths(block);
    table::header_text(config, headers, widths) + rows_text(
        config,
        headers,
        widths,
        facts.block_rows(block),
    ) + table::painted(
        config.style,
        TableElement::Border,
        table::rule_text(TableRuleKind::Bottom, config.borders, widths),
    ) + table::one('\n')
}

/// The lines of rows.
pub open spec fn rows_text(
    config: TableRenderConfig,
    headers: Seq<Seq<char>>,
    widths: Seq<nat>,
    rows: Seq<table::RowFacts>,
) -> Seq<char>
    decreases rows.len(),
{
    if rows.len() == 0 {
        Seq::empty()
    } else {
        rows_text(config, headers, widths, rows.drop_last()) + table::row_text(
            config,
            headers,
            widths,
            rows.last().cells,
            table::row_element(rows.last().kind),
        ) + table::one('\n')
    }
}

/// Write rows one after the other.
pub fn write_rows(
    output: &mut String,
    render_config: TableRenderConfig,
    headers: &[&str],
    widths: &[usize],
    rows: &Vec<DisplayRow>,
)
    requires
        table::rows_fit(rows@, headers@.len()),
        headers@.len() <= widths@.len(),
    ensures
        final(output)@ == old(output)@ + rows_text(
            render_config,
            table::strs(headers@),
            table::nats(widths@),
            table::rows_facts(rows@),
        ),
{
    let ghost facts = table::rows_facts(rows@);
    let ghost names = table::strs(headers@);
    let ghost columns = table::nats(widths@);
    assert(facts.take(0) == Seq::<table::RowFacts>::empty());
    assert(output@ =~= old(output)@ + rows_text(render_config, names, columns, facts.take(0)));
    let mut i: usize = 0;
    while i < rows.len()
        invariant
            i <= rows.len(),
            table::rows_fit(rows@, headers@.len()),
            headers@.len() <= widths@.len(),
            facts == table::rows_facts(rows@),
            names == table::strs(headers@),
            columns == table::nats(widths@),
            output@ == old(output)@ + rows_text(
                render_config,
                names,
                columns,
                facts.take(i as int),
            ),
        decreases rows.len() - i,
    {
        write_table_row(
            output,
            render_config,
            headers,
            widths,
            rows[i].cells.as_slice(),
            row_table_element(rows[i].kind),
        );
        proof {
            assert(facts.take(i + 1).drop_last() == facts.take(i as int));
            assert(facts.take(i + 1).last() == rows[i as int]@);
            assert(output@ =~= old(output)@ + rows_text(
                render_config,
                names,
                columns,
                facts.take(i + 1),
            ));
        }
        i += 1;
    }
    assert(facts.take(facts.len() as int) == facts);
}

fn write_block(
    output: &mut String,
    render_config: TableRenderConfig,
    model_headers: &Vec<String>,
    rows: &Vec<WatchMetricRow>,
    snapshot: &WatchSnapshot,
    block: &WatchTableBlock,
    Ghost(facts): Ghost<LayoutFacts>,
)
    requires
        watch_table::rows_cover(rows@, model_headers.len() as nat),
        block.within(model_headers.len() as nat),
        facts.headers == text::texts(model_headers@),
        facts.rows == watch_table::metrics_facts(rows@),
        facts.date == snapshot.date@,
        facts.updated_time == snapshot.updated_time@,
        facts.number_format == render_config.number_format,
    ensures
        final(output)@ == old(output)@ + block_text(facts, render_config, *block),
{
    let headers = watch_block_headers(model_headers, block);
    assert(text::texts(headers@).len() == headers.len());
    let refs = header_refs(&headers);
    let projected = watch_block_rows(rows, block);
    let updated = watch_updated_row(snapshot, block);
    let widths = column_widths(
        refs.as_slice(),
        &projected,
        &updated,
        render_config.number_format,
    );
    let ghost before = table::rows_facts(projected@);
    let ghost last = updated@;
    let mut all = projected;
    all.push(updated);
    assert(table::rows_facts(all@) =~= before.push(last));
    write_table_header(output, render_config, refs.as_slice(), widths.as_slice());
    write_rows(output, render_config, refs.as_slice(), widths.as_slice(), &all);
    write_table_rule(
        output,
        render_config.style,
        table_rule_element(TableRuleKind::Bottom),
        table_rule(TableRuleKind::Bottom, render_config.borders, widths.as_slice()).as_str(),
    );
    assert(output@ =~= old(output)@ + block_text(facts, render_config, *block));
}

/// The lines of blocks, with a blank line between them.
pub open spec fn blocks_text(
    facts: LayoutFacts,
    config: TableRenderConfig,
    blocks: Seq<WatchTableBlock>,
) -> Seq<char>
    decreases blocks.len(),
{
    if blocks.len() == 0 {
        Seq::empty()
    } else {
        blocks_text(facts, config, blocks.drop_last()) + (if blocks.len() > 1 {
            table::one('\n')
        } else {
            Seq::empty()
        }) + block_text(facts, config, blocks.last())
    }
}

/// The model columns of a table: those with usage or cost, where they are asked for.
pub open spec fn shown_columns(snapshot: WatchSnapshot, show_model_burn_rate: bool) -> Seq<
    watch_table::ColumnFacts,
> {
    if show_model_burn_rate {
        watch_table::burn_columns(snapshot.per_model.entries@)
    } else {
        Seq::empty()
    }
}

/// The labels of columns.
pub open spec fn column_labels(columns: Seq<watch_table::ColumnFacts>) -> Seq<Seq<char>> {
    columns.map_values(|column: watch_table::ColumnFacts| column.label)
}

/// What decides about the layout of the table of a snapshot.
pub open spec fn snapshot_layout(
    snapshot: WatchSnapshot,
    number_format: NumberFormat,
    show_model_burn_rate: bool,
    mode: CacheReadMode,
    terminal_width: Option<usize>,
) -> LayoutFacts {
    let columns = shown_columns(snapshot, show_model_burn_rate);
    layout_facts(
        column_labels(columns),
        watch_table::metric_rows(snapshot, number_format, columns, mode),
        snapshot,
        number_format,
        terminal_width,
    )
}

/// The watch metrics table.
pub open spec fn watch_table_text(
    snapshot: WatchSnapshot,
    config: TableRenderConfig,
    show_model_burn_rate: bool,
    mode: CacheReadMode,
    terminal_width: Option<usize>,
) -> Seq<char> {
    let facts = snapshot_layout(
        snapshot,
        config.number_format,
        show_model_burn_rate,
        mode,
        terminal_width,
    );
    blocks_text(facts, config, table_blocks(facts, terminal_width is Some))
}

fn column_headers(columns: &Vec<WatchBurnColumn>) -> (headers: Vec<String>)
    ensures
        text::texts(headers@) == column_labels(watch_table::columns_facts(columns@)),
        headers.len() == columns.len(),
{
    let mut headers: Vec<String> = Vec::new();
    let mut i: usize = 0;
    while i < columns.len()
        invariant
            i <= columns.len(),
            headers.len() == i,
            forall|k: int| 0 <= k < i ==> (#[trigger] headers[k])@ == columns[k].label@,
        decreases columns.len() - i,
    {
        headers.push(columns[i].label.clone());
        i += 1;
    }
    assert(text::texts(headers@) =~= column_labels(watch_table::columns_facts(columns@)));
    headers
}

proof fn lemma_layout_within(
    facts: LayoutFacts,
    start: int,
    today: bool,
    layout: Seq<WatchTableBlock>,
)
    requires
        facts.valid_layout(start, today, layout),
        0 <= start,
        facts.headers.len() <= usize::MAX,
    ensures
        forall|k: int|
            0 <= k < layout.len() ==> (#[trigger] layout[k]).within(facts.headers.len()),
{
    assert forall|k: int| 0 <= k < layout.len() implies (#[trigger] layout[k]).within(
        facts.headers.len(),
    ) by {
        lemma_layout_starts(facts, start, today, layout, k);
    }
}

/// Render the watch metrics table.
pub fn write_watch_table(
    output: &mut String,
    render_config: TableRenderConfig,
    snapshot: &WatchSnapshot,
    show_model_burn_rate: bool,
    cache_read_mode: CacheReadMode,
    terminal_width: Option<usize>,
)
    requires
        snapshot.burn_rate.window_duration < DURATION_LIMIT,
    ensures
        final(output)@ == old(output)@ + watch_table_text(
            *snapshot,
            render_config,
            show_model_burn_rate,
            cache_read_mode,
            terminal_width,
        ),
{
    let columns = if show_model_burn_rate {
        active_watch_burn_columns(snapshot)
    } else {
        Vec::new()
    };
    assert(watch_table::columns_facts(columns@) =~= shown_columns(
        *snapshot,
        show_model_burn_rate,
    ));
    let model_headers = column_headers(&columns);
    let rows = watch_rows(snapshot, render_config.number_format, &columns, cache_read_mode);
    let ghost facts = snapshot_layout(
        *snapshot,
        render_config.number_format,
        show_model_burn_rate,
        cache_read_mode,
        terminal_width,
    );
    let blocks = watch_table_blocks(
        &model_headers,
        &rows,
        snapshot,
        render_config,
        terminal_width,
    );
    let ghost all = blocks@;
    proof {
        assert(text::texts(model_headers@).len() == model_headers.len());
        assert(all == table_blocks(facts, terminal_width is Some));
        if facts.headers.len() > 0 {
            law_layout_is_valid(facts);
            lemma_layout_within(facts, 0, true, facts.best_layout(0, true));
        }
        assert forall|k: int| 0 <= k < all.len() implies (#[trigger] all[k]).within(
            model_headers.len() as nat,
        ) by {}
        assert(all.take(0) == Seq::<WatchTableBlock>::empty());
        assert(output@ =~= old(output)@ + blocks_text(facts, render_config, all.take(0)));
    }
    let mut i: usize = 0;
    while i < blocks.len()
        invariant
            i <= blocks.len(),
            all == blocks@,
            watch_table::rows_cover(rows@, model_headers.len() as nat),
            forall|k: int|
                0 <= k < all.len() ==> (#[trigger] all[k]).within(model_headers.len() as nat),
            facts.headers == text::texts(model_headers@),
            facts.rows == watch_table::metrics_facts(rows@),
            facts.date == snapshot.date@,
            facts.updated_time == snapshot.updated_time@,
            facts.number_format == render_config.number_format,
            output@ == old(output)@ + blocks_text(facts, render_config, all.take(i as int)),
        decreases blocks.len() - i,
    {
        assert(all.take(i + 1).drop_last() == all.take(i as int));
        assert(all.take(i + 1).last() == blocks[i as int]);
        if i > 0 {
            output.push('\n');
        }
        write_block(
            output,
            render_config,
            &model_headers,
            &rows,
            snapshot,
            &blocks[i],
            Ghost(facts),
        );
        assert(output@ =~= old(output)@ + blocks_text(facts, render_config, all.take(i + 1)));
        i += 1;
    }
    assert(all.take(all.len() as int) == all);
}

} // verus!
