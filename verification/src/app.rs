//! Views, filters and sort modes of the interactive viewer.

use vstd::prelude::*;
use vstd::view::View as _;

verus! {

/// Available views of the viewer.
#[derive(Debug, Clone, Copy, PartialEq, Eq, Structural)]
pub enum View {
    Overview,
    Transcript,
    Latency,
    Charts,
    Agents,
    Tools,
    Context,
    Logs,
    Spans,
}

/// Position of a view in the tab bar (0-based).
pub open spec fn view_index(v: View) -> int {
    match v {
        View::Overview => 0,
        View::Transcript => 1,
        View::Latency => 2,
        View::Charts => 3,
        View::Agents => 4,
        View::Tools => 5,
        View::Context => 6,
        View::Logs => 7,
        View::Spans => 8,
    }
}

/// The view at a tab-bar position (taken modulo the number of views).
pub open spec fn view_at(i: int) -> View {
    let k = i % 9;
    if k == 0 { View::Overview }
    else if k == 1 { View::Transcript }
    else if k == 2 { View::Latency }
    else if k == 3 { View::Charts }
    else if k == 4 { View::Agents }
    else if k == 5 { View::Tools }
    else if k == 6 { View::Context }
    else if k == 7 { View::Logs }
    else { View::Spans }
}

pub open spec fn spec_view_label(v: View) -> Seq<char> {
    match v {
        View::Overview => "Overview"@,
        View::Transcript => "Transcript"@,
        View::Latency => "Latency"@,
        View::Charts => "Charts"@,
        View::Agents => "Agents"@,
        View::Tools => "Tools"@,
        View::Context => "Context"@,
        View::Logs => "Logs"@,
        View::Spans => "Spans"@,
    }
}

impl View {
    /// All views in tab-bar order.
    pub fn all() -> (res: Vec<View>)
        ensures
            res@.len() == 9,
            forall|i: int| 0 <= i < 9 ==> #[trigger] res@[i] == view_at(i),
    {
        vec![
            View::Overview,
            View::Transcript,
            View::Latency,
            View::Charts,
            View::Agents,
            View::Tools,
            View::Context,
            View::Logs,
            View::Spans,
        ]
    }

    pub fn label(&self) -> (s: &'static str)
        ensures
            s@ == spec_view_label(*self),
    {
        match self {
            View::Overview => "Overview",
            View::Transcript => "Transcript",
            View::Latency => "Latency",
            View::Charts => "Charts",
            View::Agents => "Agents",
            View::Tools => "Tools",
            View::Context => "Context",
            View::Logs => "Logs",
            View::Spans => "Spans",
        }
    }

    /// The digit that selects this view: '1' for the first tab up to '9'.
    pub fn hotkey(&self) -> (c: char)
        ensures
            c as int == '1' as int + view_index(*self),
    {
        match self {
            View::Overview => '1',
            View::Transcript => '2',
            View::Latency => '3',
            View::Charts => '4',
            View::Agents => '5',
            View::Tools => '6',
            View::Context => '7',
            View::Logs => '8',
            View::Spans => '9',
        }
    }

    pub fn from_hotkey(c: char) -> (res: Option<View>)
        ensures
            ('1' <= c <= '9') ==> res == Some(view_at(c as int - '1' as int)),
            !('1' <= c <= '9') ==> res is None,
    {
        match c {
            '1' => Some(View::Overview),
            '2' => Some(View::Transcript),
            '3' => Some(View::Latency),
            '4' => Some(View::Charts),
            '5' => Some(View::Agents),
            '6' => Some(View::Tools),
            '7' => Some(View::Context),
            '8' => Some(View::Logs),
            '9' => Some(View::Spans),
            _ => None,
        }
    }

    /// The next tab, wrapping from the last to the first.
    pub fn next(&self) -> (res: View)
        ensures
            res == view_at(view_index(*self) + 1),
    {
        match self {
            View::Overview => View::Transcript,
            View::Transcript => View::Latency,
            View::Latency => View::Charts,
            View::Charts => View::Agents,
            View::Agents => View::Tools,
            View::Tools => View::Context,
            View::Context => View::Logs,
            View::Logs => View::Spans,
            View::Spans => View::Overview,
        }
    }

    /// The previous tab, wrapping from the first to the last.
    pub fn prev(&self) -> (res: View)
        ensures
            res == view_at(view_index(*self) + 8),
    {
        match self {
            View::Overview => View::Spans,
            View::Transcript => View::Overview,
            View::Latency => View::Transcript,
            View::Charts => View::Latency,
            View::Agents => View::Charts,
            View::Tools => View::Agents,
            View::Context => View::Tools,
            View::Logs => View::Context,
            View::Spans => View::Logs,
        }
    }
}

/// Log severity filter.
#[derive(Debug, Clone, Copy, PartialEq, Eq, Structural)]
pub enum LogFilter {
    All,
    ErrorsOnly,
    WarningsOnly,
}

pub open spec fn spec_log_filter_label(f: LogFilter) -> Seq<char> {
    match f {
        LogFilter::All => "All"@,
        LogFilter::ErrorsOnly => "Errors"@,
        LogFilter::WarningsOnly => "Warnings"@,
    }
}

pub open spec fn spec_log_filter_cycle(f: LogFilter) -> LogFilter {
    match f {
        LogFilter::All => LogFilter::ErrorsOnly,
        LogFilter::ErrorsOnly => LogFilter::WarningsOnly,
        LogFilter::WarningsOnly => LogFilter::All,
    }
}

impl LogFilter {
    pub fn label(&self) -> (s: &'static str)
        ensures
            s@ == spec_log_filter_label(*self),
    {
        match self {
            LogFilter::All => "All",
            LogFilter::ErrorsOnly => "Errors",
            LogFilter::WarningsOnly => "Warnings",
        }
    }

    pub fn cycle(&self) -> (res: LogFilter)
        ensures
            res == spec_log_filter_cycle(*self),
    {
        match self {
            LogFilter::All => LogFilter::ErrorsOnly,
            LogFilter::ErrorsOnly => LogFilter::WarningsOnly,
            LogFilter::WarningsOnly => LogFilter::All,
        }
    }
}

/// Span filter for key spans.
#[derive(Debug, Clone, Copy, PartialEq, Eq, Structural)]
pub enum SpanFilter {
    KeySpans,
    AllSpans,
}

pub open spec fn spec_span_filter_label(f: SpanFilter) -> Seq<char> {
    match f {
        SpanFilter::KeySpans => "Key Spans"@,
        SpanFilter::AllSpans => "All Spans"@,
    }
}

pub open spec fn spec_span_filter_toggle(f: SpanFilter) -> SpanFilter {
    match f {
        SpanFilter::KeySpans => SpanFilter::AllSpans,
        SpanFilter::AllSpans => SpanFilter::KeySpans,
    }
}

impl SpanFilter {
    pub fn label(&self) -> (s: &'static str)
        ensures
            s@ == spec_span_filter_label(*self),
    {
        match self {
            SpanFilter::KeySpans => "Key Spans",
            SpanFilter::AllSpans => "All Spans",
        }
    }

    pub fn toggle(&self) -> (res: SpanFilter)
        ensures
            res == spec_span_filter_toggle(*self),
    {
        match self {
            SpanFilter::KeySpans => SpanFilter::AllSpans,
            SpanFilter::AllSpans => SpanFilter::KeySpans,
        }
    }
}

/// Sort mode for the latency view.
#[derive(Debug, Clone, Copy, PartialEq, Eq, Structural)]
pub enum LatencySortMode {
    ByLatency,
    ByTurn,
    ByLLM,
    ByTTS,
}

pub open spec fn spec_sort_label(m: LatencySortMode) -> Seq<char> {
    match m {
        LatencySortMode::ByLatency => "E2E"@,
        LatencySortMode::ByTurn => "Turn#"@,
        LatencySortMode::ByLLM => "LLM"@,
        LatencySortMode::ByTTS => "TTS"@,
    }
}

pub open spec fn spec_sort_cycle(m: LatencySortMode) -> LatencySortMode {
    match m {
        LatencySortMode::ByLatency => LatencySortMode::ByTurn,
        LatencySortMode::ByTurn => LatencySortMode::ByLLM,
        LatencySortMode::ByLLM => LatencySortMode::ByTTS,
        LatencySortMode::ByTTS => LatencySortMode::ByLatency,
    }
}

impl LatencySortMode {
    pub fn label(&self) -> (s: &'static str)
        ensures
            s@ == spec_sort_label(*self),
    {
        match self {
            LatencySortMode::ByLatency => "E2E",
            LatencySortMode::ByTurn => "Turn#",
            LatencySortMode::ByLLM => "LLM",
            LatencySortMode::ByTTS => "TTS",
        }
    }

    pub fn cycle(&self) -> (res: LatencySortMode)
        ensures
            res == spec_sort_cycle(*self),
    {
        match self {
            LatencySortMode::ByLatency => LatencySortMode::ByTurn,
            LatencySortMode::ByTurn => LatencySortMode::ByLLM,
            LatencySortMode::ByLLM => LatencySortMode::ByTTS,
            LatencySortMode::ByTTS => LatencySortMode::ByLatency,
        }
    }
}

} // verus!

verus! {

use crate::data::{LogEntry, Span, is_error_log, is_warning_log, is_error_severity, is_warning_severity};
use crate::thresholds::{is_key_span, spec_is_key_span};

/// What the scrolling logic reads of an analysed call: the logs (all, errors
/// and warnings), the spans, and the sizes of the other lists shown.
pub struct ViewContent {
    pub logs: Vec<LogEntry>,
    pub errors: Vec<LogEntry>,
    pub warnings: Vec<LogEntry>,
    pub spans: Vec<Span>,
    pub turn_count: usize,
    pub llm_turn_count: usize,
    pub tool_call_count: usize,
    pub pipeline_cycle_count: usize,
    /// Number of slow turns of each cause, when a diagnosis was computed.
    pub slow_turn_counts: Option<Vec<usize>>,
}

/// Logs shown under the "All" filter: errors and warnings of any spelling.
pub open spec fn shown_in_all(l: LogEntry) -> bool {
    is_error_severity(l.severity@) || is_warning_severity(l.severity@)
}

/// Lines taken by one cause section of the overview: a header of three lines
/// and two lines for each of at most three turns.
pub open spec fn cause_section_lines(n: int) -> int {
    3 + (if n < 3 { n } else { 3 }) * 2
}

pub open spec fn cause_lines_sum(counts: Seq<usize>) -> int
    decreases counts.len(),
{
    if counts.len() == 0 {
        0
    } else {
        cause_lines_sum(counts.drop_last()) + cause_section_lines(counts.last() as int)
    }
}

/// Estimated number of lines of the overview's diagnosis panel.
pub open spec fn overview_lines(c: ViewContent) -> int {
    20 + c.pipeline_cycle_count * 2 + match c.slow_turn_counts {
        Some(v) => cause_lines_sum(v@),
        None => 0,
    }
}

pub open spec fn sat_pred(n: int) -> int {
    if n > 0 { n - 1 } else { 0 }
}

/// Application state of the viewer.
pub struct App {
    pub content: ViewContent,
    pub current_view: View,
    pub show_help: bool,
    pub transcript_scroll: usize,
    pub logs_scroll: usize,
    pub spans_scroll: usize,
    pub context_scroll: usize,
    pub tools_scroll: usize,
    pub overview_scroll: usize,
    pub log_filter: LogFilter,
    pub span_filter: SpanFilter,
    pub latency_sort: LatencySortMode,
}

impl App {
    /// Logs selected by the current log filter.
    pub open spec fn spec_filtered_logs(self) -> Seq<LogEntry> {
        match self.log_filter {
            LogFilter::All => self.content.logs@.filter(|l: LogEntry| shown_in_all(l)),
            LogFilter::ErrorsOnly => self.content.errors@,
            LogFilter::WarningsOnly => self.content.warnings@,
        }
    }

    /// Spans selected by the current span filter.
    pub open spec fn spec_filtered_spans(self) -> Seq<Span> {
        match self.span_filter {
            SpanFilter::KeySpans => self.content.spans@.filter(|s: Span| spec_is_key_span(s.name@)),
            SpanFilter::AllSpans => self.content.spans@,
        }
    }

    /// Largest scroll position of a view.
    pub open spec fn max_scroll_of(self, v: View) -> int {
        match v {
            View::Overview => overview_lines(self.content),
            View::Transcript => sat_pred(self.content.turn_count as int),
            View::Logs => sat_pred(self.spec_filtered_logs().len() as int),
            View::Spans => sat_pred(self.spec_filtered_spans().len() as int),
            View::Context => sat_pred(self.content.llm_turn_count as int),
            View::Tools => sat_pred(self.content.tool_call_count as int),
            _ => 0,
        }
    }

    pub open spec fn spec_max_scroll(self) -> int {
        self.max_scroll_of(self.current_view)
    }

    /// Whether a view keeps a scroll position.
    pub open spec fn scrollable(v: View) -> bool {
        match v {
            View::Overview | View::Transcript | View::Logs | View::Spans | View::Context | View::Tools => true,
            _ => false,
        }
    }

    /// Scroll position of a view (0 for views without one).
    pub open spec fn scroll_of(self, v: View) -> int {
        match v {
            View::Overview => self.overview_scroll as int,
            View::Transcript => self.transcript_scroll as int,
            View::Logs => self.logs_scroll as int,
            View::Spans => self.spans_scroll as int,
            View::Context => self.context_scroll as int,
            View::Tools => self.tools_scroll as int,
            _ => 0,
        }
    }

    pub open spec fn spec_current_scroll(self) -> int {
        self.scroll_of(self.current_view)
    }

    /// The state with the scroll position of view `v` set to `x` (no change
    /// for views without a scroll position).
    pub open spec fn with_scroll(self, v: View, x: usize) -> App {
        match v {
            View::Overview => App { overview_scroll: x, ..self },
            View::Transcript => App { transcript_scroll: x, ..self },
            View::Logs => App { logs_scroll: x, ..self },
            View::Spans => App { spans_scroll: x, ..self },
            View::Context => App { context_scroll: x, ..self },
            View::Tools => App { tools_scroll: x, ..self },
            _ => self,
        }
    }

    /// The scroll limits can be computed without overflow.
    pub open spec fn wf(self) -> bool {
        overview_lines(self.content) <= usize::MAX
    }

    /// Every scroll position lies within its view's limit.
    pub open spec fn scrolls_in_range(self) -> bool {
        forall|v: View| Self::scrollable(v) ==> #[trigger] self.scroll_of(v) <= self.max_scroll_of(v)
    }

    /// A fresh viewer state on the overview, with all scroll positions at
    /// the top, all logs shown, key spans only and sorting by latency.
    pub fn new(content: ViewContent) -> (app: App)
        ensures
            app.content == content,
            app.current_view == View::Overview,
            !app.show_help,
            app.transcript_scroll == 0 && app.logs_scroll == 0 && app.spans_scroll == 0,
            app.context_scroll == 0 && app.tools_scroll == 0 && app.overview_scroll == 0,
            app.log_filter == LogFilter::All,
            app.span_filter == SpanFilter::KeySpans,
            app.latency_sort == LatencySortMode::ByLatency,
    {
        App {
            content,
            current_view: View::Overview,
            show_help: false,
            transcript_scroll: 0,
            logs_scroll: 0,
            spans_scroll: 0,
            context_scroll: 0,
            tools_scroll: 0,
            overview_scroll: 0,
            log_filter: LogFilter::All,
            span_filter: SpanFilter::KeySpans,
            latency_sort: LatencySortMode::ByLatency,
        }
    }

    /// Get filtered logs based on current filter.
    pub fn filtered_logs(&self) -> (res: Vec<&LogEntry>)
        ensures
            res@.map_values(|l: &LogEntry| *l) == self.spec_filtered_logs(),
    {
        let mut res: Vec<&LogEntry> = Vec::new();
        match self.log_filter {
            LogFilter::All => {
                let ghost src = self.content.logs@;
                let mut i: usize = 0;
                while i < self.content.logs.len()
                    invariant
                        0 <= i <= self.content.logs.len(),
                        src == self.content.logs@,
                        res@.map_values(|l: &LogEntry| *l) == src.take(i as int).filter(|l: LogEntry| shown_in_all(l)),
                    decreases self.content.logs.len() - i,
                {
                    let l = &self.content.logs[i];
                    proof {
                        assert(src.take(i + 1).drop_last() =~= src.take(i as int));
                        reveal_with_fuel(Seq::filter, 1);
                    }
                    if is_error_log(l) || is_warning_log(l) {
                        res.push(l);
                    }
                    proof {
                        assert(res@.map_values(|l: &LogEntry| *l) =~= src.take(i + 1).filter(|l: LogEntry| shown_in_all(l)));
                    }
                    i = i + 1;
                }
                proof {
                    assert(src.take(i as int) =~= src);
                }
            }
            LogFilter::ErrorsOnly => {
                let mut i: usize = 0;
                while i < self.content.errors.len()
                    invariant
                        0 <= i <= self.content.errors.len(),
                        res@.map_values(|l: &LogEntry| *l) == self.content.errors@.take(i as int),
                    decreases self.content.errors.len() - i,
                {
                    let l = &self.content.errors[i];
                    let ghost prev = res@;
                    res.push(l);
                    proof {
                        assert(res@ == prev.push(l));
                        assert(self.content.errors@.take(i + 1) =~= self.content.errors@.take(i as int).push(*l));
                        assert(res@.map_values(|l: &LogEntry| *l) =~= prev.map_values(|l: &LogEntry| *l).push(*l));
                    }
                    i = i + 1;
                }
                proof {
                    assert(self.content.errors@.take(i as int) =~= self.content.errors@);
                }
            }
            LogFilter::WarningsOnly => {
                let mut i: usize = 0;
                while i < self.content.warnings.len()
                    invariant
                        0 <= i <= self.content.warnings.len(),
                        res@.map_values(|l: &LogEntry| *l) == self.content.warnings@.take(i as int),
                    decreases self.content.warnings.len() - i,
                {
                    let l = &self.content.warnings[i];
                    let ghost prev = res@;
                    res.push(l);
                    proof {
                        assert(res@ == prev.push(l));
                        assert(self.content.warnings@.take(i + 1) =~= self.content.warnings@.take(i as int).push(*l));
                        assert(res@.map_values(|l: &LogEntry| *l) =~= prev.map_values(|l: &LogEntry| *l).push(*l));
                    }
                    i = i + 1;
                }
                proof {
                    assert(self.content.warnings@.take(i as int) =~= self.content.warnings@);
                }
            }
        }
        res
    }

    /// Get filtered spans based on current filter.
    pub fn filtered_spans(&self) -> (res: Vec<&Span>)
        ensures
            res@.map_values(|s: &Span| *s) == self.spec_filtered_spans(),
    {
        let mut res: Vec<&Span> = Vec::new();
        let ghost src = self.content.spans@;
        let key_only = match self.span_filter {
            SpanFilter::KeySpans => true,
            SpanFilter::AllSpans => false,
        };
        let mut i: usize = 0;
        while i < self.content.spans.len()
            invariant
                0 <= i <= self.content.spans.len(),
                src == self.content.spans@,
                key_only == (self.span_filter == SpanFilter::KeySpans),
                key_only ==> res@.map_values(|s: &Span| *s) == src.take(i as int).filter(|s: Span| spec_is_key_span(s.name@)),
                !key_only ==> res@.map_values(|s: &Span| *s) == src.take(i as int),
            decreases self.content.spans.len() - i,
        {
            let s = &self.content.spans[i];
            proof {
                assert(src.take(i + 1).drop_last() =~= src.take(i as int));
                reveal_with_fuel(Seq::filter, 1);
            }
            if !key_only || is_key_span(s.name.as_str()) {
                res.push(s);
            }
            proof {
                if key_only {
                    assert(res@.map_values(|s: &Span| *s) =~= src.take(i + 1).filter(|s: Span| spec_is_key_span(s.name@)));
                } else {
                    assert(res@.map_values(|s: &Span| *s) =~= src.take(i + 1));
                }
            }
            i = i + 1;
        }
        proof {
            assert(src.take(i as int) =~= src);
        }
        res
    }

    /// Navigate to next view.
    pub fn next_view(&mut self)
        ensures
            *final(self) == (App { current_view: view_at(view_index(old(self).current_view) + 1), ..*old(self) }),
    {
        self.current_view = self.current_view.next();
    }

    /// Navigate to previous view.
    pub fn prev_view(&mut self)
        ensures
            *final(self) == (App { current_view: view_at(view_index(old(self).current_view) + 8), ..*old(self) }),
    {
        self.current_view = self.current_view.prev();
    }

    /// Set view by hotkey.
    pub fn set_view(&mut self, view: View)
        ensures
            *final(self) == (App { current_view: view, ..*old(self) }),
    {
        self.current_view = view;
    }

    /// Toggle help modal.
    pub fn toggle_help(&mut self)
        ensures
            *final(self) == (App { show_help: !old(self).show_help, ..*old(self) }),
    {
        self.show_help = !self.show_help;
    }

    /// Get current scroll position for the active view.
    pub fn current_scroll(&self) -> (res: usize)
        ensures
            res == self.spec_current_scroll(),
    {
        match self.current_view {
            View::Overview => self.overview_scroll,
            View::Transcript => self.transcript_scroll,
            View::Logs => self.logs_scroll,
            View::Spans => self.spans_scroll,
            View::Context => self.context_scroll,
            View::Tools => self.tools_scroll,
            _ => 0,
        }
    }

    /// Get max scroll for the active view.
    pub fn max_scroll(&self) -> (res: usize)
        requires
            self.wf(),
        ensures
            res == self.spec_max_scroll(),
    {
        match self.current_view {
            View::Overview => {
                proof {
                    if self.content.slow_turn_counts is Some {
                        let v = self.content.slow_turn_counts->0;
                        lemma_cause_lines_sum_nonneg(v@);
                    }
                }
                let mut lines: usize = 20;
                lines = lines + self.content.pipeline_cycle_count * 2;
                if let Some(ref counts) = self.content.slow_turn_counts {
                    let mut i: usize = 0;
                    proof {
                        lemma_cause_lines_sum_nonneg(counts@);
                    }
                    while i < counts.len()
                        invariant
                            0 <= i <= counts.len(),
                            self.wf(),
                            self.content.slow_turn_counts == Some(*counts),
                            lines == 20 + self.content.pipeline_cycle_count * 2 + cause_lines_sum(counts@.take(i as int)),
                        decreases counts.len() - i,
                    {
                        proof {
                            lemma_cause_lines_sum_prefix(counts@, i as int + 1);
                            assert(counts@.take(i + 1).drop_last() =~= counts@.take(i as int));
                        }
                        let n = counts[i];
                        let shown = if n < 3 { n } else { 3 };
                        lines = lines + (3 + shown * 2);
                        i = i + 1;
                    }
                    proof {
                        assert(counts@.take(i as int) =~= counts@);
                    }
                }
                lines
            }
            View::Transcript => self.content.turn_count.saturating_sub(1),
            View::Logs => self.filtered_logs().len().saturating_sub(1),
            View::Spans => self.filtered_spans().len().saturating_sub(1),
            View::Context => self.content.llm_turn_count.saturating_sub(1),
            View::Tools => self.content.tool_call_count.saturating_sub(1),
            _ => 0,
        }
    }

    /// Scroll down by n lines, stopping at the view's last position.
    pub fn scroll_down(&mut self, n: usize)
        requires
            old(self).wf(),
            Self::scrollable(old(self).current_view) ==> old(self).spec_current_scroll() + n <= usize::MAX,
        ensures
            *final(self) == old(self).with_scroll(
                old(self).current_view,
                min(old(self).spec_current_scroll() + n, old(self).spec_max_scroll()) as usize,
            ),
    {
        let max = self.max_scroll();
        match self.current_view {
            View::Overview => {
                self.overview_scroll = min_usize(self.overview_scroll + n, max);
            }
            View::Transcript => {
                self.transcript_scroll = min_usize(self.transcript_scroll + n, max);
            }
            View::Logs => {
                self.logs_scroll = min_usize(self.logs_scroll + n, max);
            }
            View::Spans => {
                self.spans_scroll = min_usize(self.spans_scroll + n, max);
            }
            View::Context => {
                self.context_scroll = min_usize(self.context_scroll + n, max);
            }
            View::Tools => {
                self.tools_scroll = min_usize(self.tools_scroll + n, max);
            }
            _ => {}
        }
    }

    /// Scroll up by n lines, stopping at the top.
    pub fn scroll_up(&mut self, n: usize)
        ensures
            *final(self) == old(self).with_scroll(
                old(self).current_view,
                sat_sub(old(self).spec_current_scroll(), n as int) as usize,
            ),
    {
        match self.current_view {
            View::Overview => {
                self.overview_scroll = self.overview_scroll.saturating_sub(n);
            }
            View::Transcript => {
                self.transcript_scroll = self.transcript_scroll.saturating_sub(n);
            }
            View::Logs => {
                self.logs_scroll = self.logs_scroll.saturating_sub(n);
            }
            View::Spans => {
                self.spans_scroll = self.spans_scroll.saturating_sub(n);
            }
            View::Context => {
                self.context_scroll = self.context_scroll.saturating_sub(n);
            }
            View::Tools => {
                self.tools_scroll = self.tools_scroll.saturating_sub(n);
            }
            _ => {}
        }
    }

    /// Page down (scroll by viewport height less two lines).
    pub fn page_down(&mut self, viewport_height: usize)
        requires
            old(self).wf(),
            Self::scrollable(old(self).current_view) ==> old(self).spec_current_scroll()
                + sat_sub(viewport_height as int, 2) <= usize::MAX,
        ensures
            *final(self) == old(self).with_scroll(
                old(self).current_view,
                min(old(self).spec_current_scroll() + sat_sub(viewport_height as int, 2), old(self).spec_max_scroll()) as usize,
            ),
    {
        self.scroll_down(viewport_height.saturating_sub(2));
    }

    /// Page up (scroll by viewport height less two lines).
    pub fn page_up(&mut self, viewport_height: usize)
        ensures
            *final(self) == old(self).with_scroll(
                old(self).current_view,
                sat_sub(old(self).spec_current_scroll(), sat_sub(viewport_height as int, 2)) as usize,
            ),
    {
        self.scroll_up(viewport_height.saturating_sub(2));
    }

    /// Cycle log filter and go back to the first log.
    pub fn cycle_log_filter(&mut self)
        ensures
            *final(self) == (App { log_filter: spec_log_filter_cycle(old(self).log_filter), logs_scroll: 0, ..*old(self) }),
    {
        self.log_filter = self.log_filter.cycle();
        self.logs_scroll = 0;
    }

    /// Toggle span filter and go back to the first span.
    pub fn toggle_span_filter(&mut self)
        ensures
            *final(self) == (App { span_filter: spec_span_filter_toggle(old(self).span_filter), spans_scroll: 0, ..*old(self) }),
    {
        self.span_filter = self.span_filter.toggle();
        self.spans_scroll = 0;
    }

    /// Cycle latency sort mode.
    pub fn cycle_latency_sort(&mut self)
        ensures
            *final(self) == (App { latency_sort: spec_sort_cycle(old(self).latency_sort), ..*old(self) }),
    {
        self.latency_sort = self.latency_sort.cycle();
    }
}

pub open spec fn min(a: int, b: int) -> int {
    if a < b { a } else { b }
}

pub open spec fn sat_sub(a: int, b: int) -> int {
    if a > b { a - b } else { 0 }
}

fn min_usize(a: usize, b: usize) -> (r: usize)
    ensures
        r == min(a as int, b as int),
{
    if a < b { a } else { b }
}

proof fn lemma_cause_lines_sum_nonneg(counts: Seq<usize>)
    ensures
        cause_lines_sum(counts) >= 0,
    decreases counts.len(),
{
    if counts.len() > 0 {
        lemma_cause_lines_sum_nonneg(counts.drop_last());
    }
}

proof fn lemma_cause_lines_sum_prefix(counts: Seq<usize>, k: int)
    requires
        0 <= k <= counts.len(),
    ensures
        0 <= cause_lines_sum(counts.take(k)) <= cause_lines_sum(counts),
    decreases counts.len(),
{
    if k == counts.len() {
        assert(counts.take(k) =~= counts);
        lemma_cause_lines_sum_nonneg(counts);
    } else {
        assert(counts.drop_last().take(k) =~= counts.take(k));
        lemma_cause_lines_sum_prefix(counts.drop_last(), k);
    }
}

} // verus!

verus! {

/// Tab positions and views correspond one to one: the position of the view
/// at position `i` is `i` modulo the number of views, and the view at a
/// view's position is that view.
pub proof fn lemma_view_positions(v: View, i: int)
    requires
        i >= 0,
    ensures
        view_at(view_index(v)) == v,
        view_index(view_at(i)) == i % 9,
        0 <= view_index(v) < 9,
{
}

/// Going to the next view and then to the previous one (or the other way
/// round) returns to the view one started from.
pub proof fn lemma_next_prev_inverse(v: View)
    ensures
        view_at(view_index(view_at(view_index(v) + 1)) + 8) == v,
        view_at(view_index(view_at(view_index(v) + 8)) + 1) == v,
{
}

/// Nine steps to the next view lead back to the starting view.
pub proof fn lemma_next_cycle(v: View)
    ensures
        ({
            let step = |w: View| view_at(view_index(w) + 1);
            step(step(step(step(step(step(step(step(step(v))))))))) == v
        }),
{
    let step = |w: View| view_at(view_index(w) + 1);
    assert(step(View::Overview) == View::Transcript);
    assert(step(View::Transcript) == View::Latency);
    assert(step(View::Latency) == View::Charts);
    assert(step(View::Charts) == View::Agents);
    assert(step(View::Agents) == View::Tools);
    assert(step(View::Tools) == View::Context);
    assert(step(View::Context) == View::Logs);
    assert(step(View::Logs) == View::Spans);
    assert(step(View::Spans) == View::Overview);
}

/// The hotkey of a view is a digit from '1' to '9' and selects that view
/// again.
pub proof fn lemma_hotkey_roundtrip(v: View, c: char)
    requires
        c as int == '1' as int + view_index(v),
    ensures
        '1' <= c <= '9',
        view_at(c as int - '1' as int) == v,
{
}

/// Cycling the log filter three times, toggling the span filter twice and
/// cycling the sort mode four times each return to the starting setting,
/// and no shorter repetition does.
pub proof fn lemma_filter_cycles(f: LogFilter, s: SpanFilter, m: LatencySortMode)
    ensures
        spec_log_filter_cycle(spec_log_filter_cycle(spec_log_filter_cycle(f))) == f,
        spec_log_filter_cycle(f) != f,
        spec_log_filter_cycle(spec_log_filter_cycle(f)) != f,
        spec_span_filter_toggle(spec_span_filter_toggle(s)) == s,
        spec_span_filter_toggle(s) != s,
        spec_sort_cycle(spec_sort_cycle(spec_sort_cycle(spec_sort_cycle(m)))) == m,
        spec_sort_cycle(m) != m,
        spec_sort_cycle(spec_sort_cycle(m)) != m,
        spec_sort_cycle(spec_sort_cycle(spec_sort_cycle(m))) != m,
{
}

/// Setting a scroll position changes that position only: the content, the
/// view, the filters and every limit stay as they were.
pub proof fn lemma_with_scroll(app: App, v: View, x: usize)
    ensures
        app.with_scroll(v, x).content == app.content,
        app.with_scroll(v, x).current_view == app.current_view,
        app.with_scroll(v, x).log_filter == app.log_filter,
        app.with_scroll(v, x).span_filter == app.span_filter,
        app.with_scroll(v, x).show_help == app.show_help,
        app.with_scroll(v, x).latency_sort == app.latency_sort,
        forall|w: View| #[trigger] app.with_scroll(v, x).max_scroll_of(w) == app.max_scroll_of(w),
        App::scrollable(v) ==> app.with_scroll(v, x).scroll_of(v) == x,
        forall|w: View| w != v ==> #[trigger] app.with_scroll(v, x).scroll_of(w) == app.scroll_of(w),
{
}

/// Every scroll limit is a valid position: at least zero and, for a
/// well-formed state, at most `usize::MAX`.
pub proof fn lemma_max_scroll_range(app: App, v: View)
    requires
        app.wf(),
    ensures
        0 <= app.max_scroll_of(v) <= usize::MAX,
{
    if app.content.slow_turn_counts is Some {
        lemma_cause_lines_sum_nonneg(app.content.slow_turn_counts->0@);
    }
    assert(app.content.logs@.len() == app.content.logs.len());
    assert(app.content.errors@.len() == app.content.errors.len());
    assert(app.content.warnings@.len() == app.content.warnings.len());
    assert(app.content.spans@.len() == app.content.spans.len());
    app.content.logs@.lemma_filter_len(|l: LogEntry| shown_in_all(l));
    app.content.spans@.lemma_filter_len(|s: Span| spec_is_key_span(s.name@));
}

/// Scrolling down by `n` and then up by `n` returns to the same state when
/// the first step did not stop at the view's last position.
pub proof fn lemma_scroll_down_up(app: App, n: usize)
    requires
        app.wf(),
        App::scrollable(app.current_view),
        app.spec_current_scroll() + n <= app.spec_max_scroll(),
    ensures
        ({
            let down = app.with_scroll(
                app.current_view,
                min(app.spec_current_scroll() + n, app.spec_max_scroll()) as usize,
            );
            down.with_scroll(down.current_view, sat_sub(down.spec_current_scroll(), n as int) as usize) == app
        }),
{
    lemma_max_scroll_range(app, app.current_view);
    let x = (app.spec_current_scroll() + n) as usize;
    lemma_with_scroll(app, app.current_view, x);
}

/// A scroll-down never passes the view's last position, and a scroll-up
/// never goes below the top nor moves down.
pub proof fn lemma_scroll_bounds(app: App, n: usize)
    requires
        app.wf(),
        App::scrollable(app.current_view),
    ensures
        ({
            let down = app.with_scroll(
                app.current_view,
                min(app.spec_current_scroll() + n, app.spec_max_scroll()) as usize,
            );
            down.spec_current_scroll() <= down.spec_max_scroll()
        }),
        ({
            let up = app.with_scroll(app.current_view, sat_sub(app.spec_current_scroll(), n as int) as usize);
            0 <= up.spec_current_scroll() <= app.spec_current_scroll()
        }),
{
    lemma_max_scroll_range(app, app.current_view);
    let x = min(app.spec_current_scroll() + n, app.spec_max_scroll()) as usize;
    lemma_with_scroll(app, app.current_view, x);
    let y = sat_sub(app.spec_current_scroll(), n as int) as usize;
    lemma_with_scroll(app, app.current_view, y);
}

} // verus!
