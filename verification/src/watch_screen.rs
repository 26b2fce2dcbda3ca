//! The live watch screen.

use vstd::prelude::*;
use vstd::string::*;

use crate::calendar;
use crate::limits::CodexLimitStatus;
use crate::limits_view;
use crate::limits_view::render_codex_limits;
use crate::model::CacheReadMode;
use crate::report_view;
use crate::report_view::missing_directory_warning;
use crate::snapshot::{WatchSnapshot, DURATION_LIMIT};
use crate::table;
use crate::table::{paint, TableElement, TableRenderConfig};
use crate::text;
use crate::text::push_decimal;
use crate::watch_graph;
use crate::watch_graph::{render_watch_graph, rendered_line_count, GraphScales};
use crate::watch_layout;
use crate::watch_layout::write_watch_table;

verus! {

/// Inputs for one watch screen render.
#[derive(Debug)]
pub struct WatchRenderRequest<'a> {
    /// Usage snapshot to render.
    pub snapshot: &'a WatchSnapshot,
    /// Style, borders and number format.
    pub render_config: TableRenderConfig,
    /// Whether model-level burn columns should be shown.
    pub show_model_burn_rate: bool,
    /// Cache-read reporting mode.
    pub cache_read_mode: CacheReadMode,
    /// Available terminal width, when known.
    pub terminal_width: Option<usize>,
    /// Available terminal height, when known.
    pub terminal_height: Option<usize>,
    /// Optional Codex limit status to render.
    pub codex_limit_status: Option<&'a CodexLimitStatus>,
    /// Current wall-clock time used for local reset countdown rendering.
    pub now_epoch_seconds: i64,
    /// Scales of the burn-rate graph.
    pub graph_scales: &'a GraphScales,
}

impl<'a> WatchRenderRequest<'a> {
    /// The burn window is a duration, and the graph has its scales.
    pub open spec fn wf(&self) -> bool {
        self.snapshot.burn_rate.window_duration < DURATION_LIMIT && self.graph_scales.wf()
    }
}

/// The lines above the table.
pub open spec fn screen_head(config: TableRenderConfig, snapshot: WatchSnapshot) -> Seq<char> {
    table::painted(config.style, TableElement::Title, "Current Day Codex Usage Watch"@)
        + "\nDate: "@ + snapshot.date@ + "  Window: "@ + text::decimal(
        snapshot.burn_rate.window_minutes as nat,
    ) + " minutes\n\n"@
}

/// The head and the table.
pub open spec fn screen_table(request: WatchRenderRequest<'_>) -> Seq<char> {
    screen_head(request.render_config, *request.snapshot) + watch_layout::watch_table_text(
        *request.snapshot,
        request.render_config,
        request.show_model_burn_rate,
        request.cache_read_mode,
        request.terminal_width,
    )
}

/// The block of the account limits, where they are shown.
pub open spec fn screen_limits(request: WatchRenderRequest<'_>) -> Option<Seq<char>> {
    match request.codex_limit_status {
        Some(status) => Some(
            limits_view::limits_text(*status, request.render_config, request.now_epoch_seconds),
        ),
        None => None,
    }
}

/// The warning that stands first, where directories are missing.
pub open spec fn screen_warning(snapshot: WatchSnapshot) -> Option<Seq<char>> {
    if snapshot.missing_directories.len() == 0 {
        None
    } else {
        Some(report_view::missing_warning(text::texts(snapshot.missing_directories@)))
    }
}

/// The lines of a screen that the graph cannot have: those of the warning, the head, the table and
/// the limits with the blank line above them.
pub open spec fn reserved_lines(request: WatchRenderRequest<'_>) -> nat {
    text::lines(screen_table(request)).len() + (match screen_limits(request) {
        Some(block) => text::lines(block).len() + 1,
        None => 0,
    }) + (match screen_warning(*request.snapshot) {
        Some(warning) => text::lines(warning).len(),
        None => 0,
    })
}

/// The graph of a screen, where there is room for it.
pub open spec fn screen_graph(request: WatchRenderRequest<'_>) -> Option<Seq<char>> {
    watch_graph::shown_graph(
        request.snapshot.burn_history@,
        *request.graph_scales,
        request.render_config,
        request.terminal_width,
        request.terminal_height,
        reserved_lines(request) as int,
    )
}

/// A block behind a line break, or nothing.
pub open spec fn own_block(block: Option<Seq<char>>) -> Seq<char> {
    match block {
        Some(s) => seq!['\n'] + s,
        None => Seq::empty(),
    }
}

/// A screen: the warning, the head, the table, the limits and the graph.
pub open spec fn screen_text(request: WatchRenderRequest<'_>) -> Seq<char> {
    (match screen_warning(*request.snapshot) {
        Some(warning) => warning,
        None => Seq::empty(),
    }) + (screen_table(request) + own_block(screen_limits(request)) + own_block(
        screen_graph(request),
    ))
}

fn write_screen_table(request: &WatchRenderRequest<'_>) -> (output: String)
    requires
        request.wf(),
    ensures
        output@ == screen_table(*request),
{
    let mut output = paint(
        request.render_config.style,
        TableElement::Title,
        "Current Day Codex Usage Watch",
    );
    output.append("\nDate: ");
    output.append(request.snapshot.date.as_str());
    output.append("  Window: ");
    push_decimal(&mut output, request.snapshot.burn_rate.window_minutes as u128);
    output.append(" minutes\n\n");
    assert(output@ =~= screen_head(request.render_config, *request.snapshot));
    write_watch_table(
        &mut output,
        request.render_config,
        request.snapshot,
        request.show_model_burn_rate,
        request.cache_read_mode,
        request.terminal_width,
    );
    output
}

fn block_lines(block: &Option<String>) -> (count: usize)
    ensures
        count == match *block {
            Some(s) => text::lines(s@).len(),
            None => 0,
        },
{
    match block {
        Some(s) => rendered_line_count(s.as_str()),
        None => 0,
    }
}

fn count_reserved_lines(
    shown: &String,
    limit_block: &Option<String>,
    warning: &Option<String>,
) -> (count: usize)
    ensures
        count == watch_graph::capped(
            (text::lines(shown@).len() + (match *limit_block {
                Some(s) => text::lines(s@).len() + 1,
                None => 0,
            }) + (match *warning {
                Some(s) => text::lines(s@).len(),
                None => 0,
            })) as int,
        ),
{
    let mut count: usize = rendered_line_count(shown.as_str());
    if limit_block.is_some() {
        count = count.saturating_add(block_lines(limit_block)).saturating_add(1);
    }
    count.saturating_add(block_lines(warning))
}

fn push_own_block(output: &mut String, block: &Option<String>)
    ensures
        final(output)@ == old(output)@ + own_block(calendar::optional_text(*block)),
{
    match block {
        Some(s) => {
            output.append("\n");
            output.append(s.as_str());
            proof {
                reveal_strlit("\n");
            }
            assert(output@ =~= old(output)@ + (seq!['\n'] + s@));
        },
        None => {
            assert(output@ =~= old(output)@ + Seq::<char>::empty());
        },
    }
}

/// Lines beyond the largest machine number leave as little room as the largest machine number.
proof fn lemma_reserved_lines_saturate(request: WatchRenderRequest<'_>)
    ensures
        watch_graph::shown_graph(
            request.snapshot.burn_history@,
            *request.graph_scales,
            request.render_config,
            request.terminal_width,
            request.terminal_height,
            watch_graph::capped(reserved_lines(request) as int),
        ) == screen_graph(request),
{
}

/// Render one live watch snapshot from a compact request.
pub fn render_watch_screen_with_request(request: &WatchRenderRequest<'_>) -> (screen: String)
    requires
        request.wf(),
    ensures
        screen@ == screen_text(*request),
{
    let mut output = write_screen_table(request);
    let limit_block = match request.codex_limit_status {
        Some(status) => Some(
            render_codex_limits(status, request.render_config, request.now_epoch_seconds),
        ),
        None => None,
    };
    assert(calendar::optional_text(limit_block) == screen_limits(*request));
    let warning = missing_directory_warning(&request.snapshot.missing_directories);
    assert(calendar::optional_text(warning) == screen_warning(*request.snapshot));
    let reserved: usize = count_reserved_lines(&output, &limit_block, &warning);
    assert(reserved == watch_graph::capped(reserved_lines(*request) as int));
    push_own_block(&mut output, &limit_block);
    let graph = render_watch_graph(
        &request.snapshot.burn_history,
        request.graph_scales,
        request.render_config,
        request.terminal_width,
        request.terminal_height,
        reserved,
    );
    proof {
        lemma_reserved_lines_saturate(*request);
    }
    assert(calendar::optional_text(graph) == screen_graph(*request));
    push_own_block(&mut output, &graph);
    prefix_warning(warning, output)
}

fn prefix_warning(warning: Option<String>, output: String) -> (screen: String)
    ensures
        screen@ == (match warning {
            Some(s) => s@,
            None => Seq::empty(),
        }) + output@,
{
    match warning {
        Some(warning) => {
            let mut screen = warning;
            screen.append(output.as_str());
            screen
        },
        None => {
            assert(output@ =~= Seq::<char>::empty() + output@);
            output
        },
    }
}

/// Render one live watch snapshot with Codex account limits.
pub fn render_watch_screen_with_limits<'a>(
    snapshot: &'a WatchSnapshot,
    render_config: TableRenderConfig,
    show_model_burn_rate: bool,
    cache_read_mode: CacheReadMode,
    terminal_size: Option<(usize, usize)>,
    graph_scales: &'a GraphScales,
    codex_limit_status: &'a CodexLimitStatus,
    now_epoch_seconds: i64,
) -> (screen: String)
    requires
        snapshot.burn_rate.window_duration < DURATION_LIMIT,
        graph_scales.wf(),
    ensures
        screen@ == screen_text(
            (WatchRenderRequest {
                snapshot,
                render_config,
                show_model_burn_rate,
                cache_read_mode,
                terminal_width: match terminal_size {
                    Some((width, _)) => Some(width),
                    None => None,
                },
                terminal_height: match terminal_size {
                    Some((_, height)) => Some(height),
                    None => None,
                },
                codex_limit_status: Some(codex_limit_status),
                now_epoch_seconds,
                graph_scales,
            }),
        ),
{
    let terminal_width = match terminal_size {
        Some((width, _)) => Some(width),
        None => None,
    };
    let terminal_height = match terminal_size {
        Some((_, height)) => Some(height),
        None => None,
    };
    render_watch_screen_with_request(
        &WatchRenderRequest {
            snapshot,
            render_config,
            show_model_burn_rate,
            cache_read_mode,
            terminal_width,
            terminal_height,
            codex_limit_status: Some(codex_limit_status),
            now_epoch_seconds,
            graph_scales,
        },
    )
}

/// Render one live watch snapshot with explicit terminal dimensions.
pub fn render_watch_screen_with_size<'a>(
    snapshot: &'a WatchSnapshot,
    render_config: TableRenderConfig,
    show_model_burn_rate: bool,
    cache_read_mode: CacheReadMode,
    terminal_width: Option<usize>,
    terminal_height: Option<usize>,
    graph_scales: &'a GraphScales,
) -> (screen: String)
    requires
        snapshot.burn_rate.window_duration < DURATION_LIMIT,
        graph_scales.wf(),
    ensures
        screen@ == screen_text(
            (WatchRenderRequest {
                snapshot,
                render_config,
                show_model_burn_rate,
                cache_read_mode,
                terminal_width,
                terminal_height,
                codex_limit_status: None,
                now_epoch_seconds: 0,
                graph_scales,
            }),
        ),
{
    render_watch_screen_with_request(
        &WatchRenderRequest {
            snapshot,
            render_config,
            show_model_burn_rate,
            cache_read_mode,
            terminal_width,
            terminal_height,
            codex_limit_status: None,
            now_epoch_seconds: 0,
            graph_scales,
        },
    )
}

/// Render one live watch snapshot with an explicit terminal width override.
pub fn render_watch_screen_with_width<'a>(
    snapshot: &'a WatchSnapshot,
    render_config: TableRenderConfig,
    show_model_burn_rate: bool,
    cache_read_mode: CacheReadMode,
    terminal_width: Option<usize>,
    graph_scales: &'a GraphScales,
) -> (screen: String)
    requires
        snapshot.burn_rate.window_duration < DURATION_LIMIT,
        graph_scales.wf(),
    ensures
        screen@ == screen_text(
            (WatchRenderRequest {
                snapshot,
                render_config,
                show_model_burn_rate,
                cache_read_mode,
                terminal_width,
                terminal_height: None,
                codex_limit_status: None,
                now_epoch_seconds: 0,
                graph_scales,
            }),
        ),
{
    render_watch_screen_with_size(
        snapshot,
        render_config,
        show_model_burn_rate,
        cache_read_mode,
        terminal_width,
        None,
        graph_scales,
    )
}

/// A newline ends a line; any other character belongs to the line that goes on behind it.
proof fn lemma_lines_step(s: Seq<char>, at: int)
    requires
        0 <= at < s.len(),
    ensures
        s[at] == '\n' ==> text::lines_from(s, at).len() == 1 + text::lines_from(
            s,
            at + 1,
        ).len(),
        s[at] != '\n' && at + 1 == s.len() ==> text::lines_from(s, at).len() == 1,
        s[at] != '\n' && at + 1 < s.len() ==> text::lines_from(s, at).len()
            == text::lines_from(s, at + 1).len(),
{
    lemma_newline_bounds(s, at + 1);
    assert(text::newline_from(s, s.len() as int) == s.len());
}

proof fn lemma_newline_bounds(s: Seq<char>, at: int)
    requires
        0 <= at <= s.len(),
    ensures
        at <= text::newline_from(s, at) <= s.len(),
    decreases s.len() - at,
{
    if at < s.len() && s[at] != '\n' {
        lemma_newline_bounds(s, at + 1);
    }
}

proof fn lemma_lines_behind(a: Seq<char>, b: Seq<char>, at: int)
    requires
        0 <= at <= b.len(),
    ensures
        text::lines_from(a + b, a.len() + at).len() == text::lines_from(b, at).len(),
    decreases b.len() - at,
{
    if at < b.len() {
        lemma_lines_step(a + b, a.len() + at);
        lemma_lines_step(b, at);
        lemma_lines_behind(a, b, at + 1);
    }
}

proof fn lemma_lines_of_sum(a: Seq<char>, b: Seq<char>, at: int)
    requires
        0 <= at <= a.len(),
    ensures
        text::lines_from(a + b, at).len() <= text::lines_from(a, at).len() + text::lines(b).len(),
    decreases a.len() - at,
{
    if at < a.len() {
        lemma_lines_step(a, at);
        lemma_lines_step(a + b, at);
        lemma_lines_of_sum(a, b, at + 1);
    } else {
        lemma_lines_behind(a, b, 0);
    }
}

proof fn lemma_own_block_lines(block: Option<Seq<char>>)
    ensures
        block matches Some(s) ==> text::lines(own_block(block)).len() <= 1 + text::lines(s).len(),
        block is None ==> text::lines(own_block(block)).len() == 0,
{
    if let Some(s) = block {
        let head = seq!['\n'];
        lemma_lines_step(head, 0);
        lemma_lines_of_sum(head, s, 0);
        assert(text::lines_from(head, 1).len() == 0);
    }
}

/// A screen on which the graph is shown is no longer than the terminal.
pub proof fn law_graph_keeps_the_screen_within_the_terminal(
    request: WatchRenderRequest<'_>,
    height: usize,
)
    requires
        request.terminal_height == Some(height),
        height < usize::MAX,
        screen_graph(request) is Some,
    ensures
        text::lines(screen_text(request)).len() <= height,
{
    let top = match screen_warning(*request.snapshot) {
        Some(warning) => warning,
        None => Seq::empty(),
    };
    let shown = screen_table(request);
    let limits = own_block(screen_limits(request));
    let graph = own_block(screen_graph(request));
    lemma_lines_of_sum(top, shown + limits + graph, 0);
    lemma_lines_of_sum(shown + limits, graph, 0);
    lemma_lines_of_sum(shown, limits, 0);
    lemma_own_block_lines(screen_limits(request));
    lemma_own_block_lines(screen_graph(request));
}

/// Render one watch snapshot to terminal output, on a cleared screen.
pub fn write_watch_snapshot(output: &mut String, request: &WatchRenderRequest<'_>)
    requires
        request.wf(),
    ensures
        final(output)@ == old(output)@ + "\x1b[2J\x1b[H"@ + screen_text(*request),
{
    output.append("\x1b[2J\x1b[H");
    output.append(render_watch_screen_with_request(request).as_str());
}

} // verus!
