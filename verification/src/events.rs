//! Keyboard handling of the viewer: from the current state and a key press
//! to the next state and whether to quit.

use vstd::prelude::*;
use vstd::view::View as _;
use crate::app::{lemma_max_scroll_range, lemma_with_scroll, App, View, view_at, view_index, sat_sub, min, spec_log_filter_cycle, spec_span_filter_toggle, spec_sort_cycle};

verus! {

/// Result of handling an event.
#[derive(Debug, Clone, Copy, PartialEq, Eq, Structural)]
pub enum EventResult {
    /// Continue running the app.
    Continue,
    /// Quit the app.
    Quit,
}

/// The key of a key press, as far as the viewer distinguishes keys.
#[derive(Debug, Clone, Copy, PartialEq, Eq, Structural)]
pub enum KeyCode {
    Char(char),
    Esc,
    Tab,
    BackTab,
    Up,
    Down,
    PageUp,
    PageDown,
    Home,
    End,
    Other,
}

/// A key press with the modifiers the viewer reads.
#[derive(Debug, Clone, Copy, PartialEq, Eq, Structural)]
pub struct KeyPress {
    pub code: KeyCode,
    pub control: bool,
    pub shift: bool,
}

pub open spec fn is_scroll_down_key(k: KeyPress) -> bool {
    k.code == KeyCode::Down || k.code == KeyCode::Char('j')
}

pub open spec fn is_page_down_key(k: KeyPress) -> bool {
    (k.code == KeyCode::Char('d') && k.control) || k.code == KeyCode::PageDown
}

/// The key can be handled without an arithmetic overflow of the scroll
/// position.
pub open spec fn key_fits(app: App, k: KeyPress, viewport_height: usize) -> bool {
    !app.show_help && App::scrollable(app.current_view) ==> {
        &&& is_scroll_down_key(k) ==> app.spec_current_scroll() + 1 <= usize::MAX
        &&& is_page_down_key(k) && !is_scroll_down_key(k) ==> app.spec_current_scroll()
            + sat_sub(viewport_height as int, 2) <= usize::MAX
    }
}

/// The state and result after a key press.
pub open spec fn key_outcome(app: App, k: KeyPress, vh: usize) -> (App, EventResult) {
    if app.show_help {
        (App { show_help: false, ..app }, EventResult::Continue)
    } else if k.code == KeyCode::Char('q') || (k.code == KeyCode::Char('c') && k.control) {
        (app, EventResult::Quit)
    } else {
        let v = app.current_view;
        let next = if k.code == KeyCode::Char('?') {
            App { show_help: !app.show_help, ..app }
        } else if k.code == KeyCode::Tab {
            if k.shift {
                App { current_view: view_at(view_index(v) + 8), ..app }
            } else {
                App { current_view: view_at(view_index(v) + 1), ..app }
            }
        } else if k.code == KeyCode::BackTab {
            App { current_view: view_at(view_index(v) + 8), ..app }
        } else if k.code matches KeyCode::Char(c) && '1' <= c <= '9' {
            App { current_view: view_at(k.code->Char_0 as int - '1' as int), ..app }
        } else if is_scroll_down_key(k) {
            app.with_scroll(v, min(app.spec_current_scroll() + 1, app.spec_max_scroll()) as usize)
        } else if k.code == KeyCode::Up || k.code == KeyCode::Char('k') {
            app.with_scroll(v, sat_sub(app.spec_current_scroll(), 1) as usize)
        } else if is_page_down_key(k) {
            app.with_scroll(
                v,
                min(app.spec_current_scroll() + sat_sub(vh as int, 2), app.spec_max_scroll()) as usize,
            )
        } else if (k.code == KeyCode::Char('u') && k.control) || k.code == KeyCode::PageUp {
            app.with_scroll(v, sat_sub(app.spec_current_scroll(), sat_sub(vh as int, 2)) as usize)
        } else if k.code == KeyCode::Home || k.code == KeyCode::Char('g') {
            app.with_scroll(v, 0)
        } else if k.code == KeyCode::End || k.code == KeyCode::Char('G') {
            app.with_scroll(v, app.spec_max_scroll() as usize)
        } else if k.code == KeyCode::Char('f') {
            if v == View::Logs {
                App { log_filter: spec_log_filter_cycle(app.log_filter), logs_scroll: 0, ..app }
            } else if v == View::Spans {
                App { span_filter: spec_span_filter_toggle(app.span_filter), spans_scroll: 0, ..app }
            } else {
                app
            }
        } else if k.code == KeyCode::Char('s') {
            if v == View::Latency {
                App { latency_sort: spec_sort_cycle(app.latency_sort), ..app }
            } else {
                app
            }
        } else {
            app
        };
        (next, EventResult::Continue)
    }
}

/// Handle a keyboard event.
pub fn handle_key_event(app: &mut App, key: KeyPress, viewport_height: usize) -> (res: EventResult)
    requires
        old(app).wf(),
        key_fits(*old(app), key, viewport_height),
    ensures
        (*final(app), res) == key_outcome(*old(app), key, viewport_height),
{
    // While the help is shown, any key closes it.
    if app.show_help {
        app.show_help = false;
        return EventResult::Continue;
    }
    match key.code {
        KeyCode::Char('q') => return EventResult::Quit,
        KeyCode::Char('c') if key.control => return EventResult::Quit,
        KeyCode::Char('?') => app.toggle_help(),
        KeyCode::Tab => {
            if key.shift {
                app.prev_view();
            } else {
                app.next_view();
            }
        },
        KeyCode::BackTab => app.prev_view(),
        KeyCode::Char(c) if '1' <= c && c <= '9' => {
            if let Some(view) = View::from_hotkey(c) {
                app.set_view(view);
            }
        },
        KeyCode::Down | KeyCode::Char('j') => app.scroll_down(1),
        KeyCode::Up | KeyCode::Char('k') => app.scroll_up(1),
        KeyCode::Char('d') if key.control => {
            app.page_down(viewport_height);
        },
        KeyCode::Char('u') if key.control => {
            app.page_up(viewport_height);
        },
        KeyCode::PageDown => app.page_down(viewport_height),
        KeyCode::PageUp => app.page_up(viewport_height),
        KeyCode::Home | KeyCode::Char('g') => {
            match app.current_view {
                View::Overview => app.overview_scroll = 0,
                View::Transcript => app.transcript_scroll = 0,
                View::Logs => app.logs_scroll = 0,
                View::Spans => app.spans_scroll = 0,
                View::Context => app.context_scroll = 0,
                View::Tools => app.tools_scroll = 0,
                _ => {},
            }
        },
        KeyCode::End | KeyCode::Char('G') => {
            let max = app.max_scroll();
            match app.current_view {
                View::Overview => app.overview_scroll = max,
                View::Transcript => app.transcript_scroll = max,
                View::Logs => app.logs_scroll = max,
                View::Spans => app.spans_scroll = max,
                View::Context => app.context_scroll = max,
                View::Tools => app.tools_scroll = max,
                _ => {},
            }
        },
        KeyCode::Char('f') => {
            match app.current_view {
                View::Logs => app.cycle_log_filter(),
                View::Spans => app.toggle_span_filter(),
                _ => {},
            }
        },
        KeyCode::Char('s') => {
            if app.current_view == View::Latency {
                app.cycle_latency_sort();
            }
        },
        _ => {},
    }
    EventResult::Continue
}

} // verus!

verus! {

/// While the help is shown, any key closes it and changes nothing else, and
/// no key quits.
pub proof fn lemma_help_modal(app: App, k: KeyPress, vh: usize)
    requires
        app.show_help,
    ensures
        key_outcome(app, k, vh).1 == EventResult::Continue,
        key_outcome(app, k, vh).0 == (App { show_help: false, ..app }),
{
}

/// Outside the help, Home and 'g' scroll the current view to the top, and End
/// and 'G' scroll it to its last position, in every view that scrolls.
pub proof fn lemma_home_end(app: App, k: KeyPress, vh: usize)
    requires
        !app.show_help,
        App::scrollable(app.current_view),
    ensures
        (k.code == KeyCode::Home || k.code == KeyCode::Char('g')) ==> {
            &&& key_outcome(app, k, vh).1 == EventResult::Continue
            &&& key_outcome(app, k, vh).0.spec_current_scroll() == 0
        },
        (k.code == KeyCode::End || k.code == KeyCode::Char('G')) && app.wf() ==> {
            &&& key_outcome(app, k, vh).1 == EventResult::Continue
            &&& key_outcome(app, k, vh).0.spec_current_scroll() == app.spec_max_scroll()
        },
{
    if app.wf() {
        lemma_max_scroll_range(app, app.current_view);
    }
}

/// Outside the help, 'q' and Ctrl+C quit and leave the state unchanged, and
/// no other key quits.
pub proof fn lemma_quit_keys(app: App, k: KeyPress, vh: usize)
    requires
        !app.show_help,
    ensures
        (key_outcome(app, k, vh).1 == EventResult::Quit) <==> (k.code == KeyCode::Char('q') || (
        k.code == KeyCode::Char('c') && k.control)),
        key_outcome(app, k, vh).1 == EventResult::Quit ==> key_outcome(app, k, vh).0 == app,
{
}

/// Key handling never changes the analysed content, and it keeps every
/// scroll position within its view's limit.
pub proof fn lemma_key_keeps_scrolls_in_range(app: App, k: KeyPress, vh: usize)
    requires
        app.wf(),
        app.scrolls_in_range(),
    ensures
        key_outcome(app, k, vh).0.content == app.content,
        key_outcome(app, k, vh).0.wf(),
        key_outcome(app, k, vh).0.scrolls_in_range(),
{
    let next = key_outcome(app, k, vh).0;
    let v = app.current_view;
    lemma_max_scroll_range(app, v);
    if !app.show_help && !(k.code == KeyCode::Char('q') || (k.code == KeyCode::Char('c') && k.control)) {
        if is_scroll_down_key(k) {
            lemma_with_scroll(app, v, min(app.spec_current_scroll() + 1, app.spec_max_scroll()) as usize);
        } else if k.code == KeyCode::Up || k.code == KeyCode::Char('k') {
            lemma_with_scroll(app, v, sat_sub(app.spec_current_scroll(), 1) as usize);
        } else if is_page_down_key(k) {
            lemma_with_scroll(app, v, min(app.spec_current_scroll() + sat_sub(vh as int, 2), app.spec_max_scroll()) as usize);
        } else if (k.code == KeyCode::Char('u') && k.control) || k.code == KeyCode::PageUp {
            lemma_with_scroll(app, v, sat_sub(app.spec_current_scroll(), sat_sub(vh as int, 2)) as usize);
        } else if k.code == KeyCode::Home || k.code == KeyCode::Char('g') {
            lemma_with_scroll(app, v, 0);
        } else if k.code == KeyCode::End || k.code == KeyCode::Char('G') {
            lemma_with_scroll(app, v, app.spec_max_scroll() as usize);
        }
    }
    assert forall|w: View| App::scrollable(w) implies #[trigger] next.scroll_of(w) <= next.max_scroll_of(w) by {
        assert(app.scroll_of(w) <= app.max_scroll_of(w));
    }
}

/// Outside the help, in a view that scrolls, Up and 'k' move the view one
/// line up, stopping at the top, and Down and 'j' move it one line down,
/// stopping at the view's last position; the key leaves the view, the other
/// views' positions, the help, the filters, the sort and the content as they
/// were, and does not quit.
pub proof fn lemma_line_keys(app: App, k: KeyPress, vh: usize)
    requires
        !app.show_help,
        App::scrollable(app.current_view),
        app.wf(),
        app.spec_current_scroll() <= app.spec_max_scroll(),
    ensures
        (k.code == KeyCode::Up || k.code == KeyCode::Char('k') || k.code == KeyCode::Down || k.code == KeyCode::Char('j'))
            ==> {
            let next = key_outcome(app, k, vh);
            &&& next.1 == EventResult::Continue
            &&& next.0.current_view == app.current_view
            &&& next.0.show_help == app.show_help
            &&& next.0.content == app.content
            &&& next.0.log_filter == app.log_filter
            &&& next.0.span_filter == app.span_filter
            &&& next.0.latency_sort == app.latency_sort
            &&& forall|w: View| w != app.current_view ==> #[trigger] next.0.scroll_of(w) == app.scroll_of(w)
        },
        (k.code == KeyCode::Up || k.code == KeyCode::Char('k')) ==> {
            let cur = app.spec_current_scroll();
            key_outcome(app, k, vh).0.spec_current_scroll() == if cur > 0 { cur - 1 } else { 0 }
        },
        (k.code == KeyCode::Down || k.code == KeyCode::Char('j')) ==> {
            let cur = app.spec_current_scroll();
            key_outcome(app, k, vh).0.spec_current_scroll() == if cur < app.spec_max_scroll() { cur + 1 } else { cur }
        },
{
    lemma_max_scroll_range(app, app.current_view);
}

} // verus!
