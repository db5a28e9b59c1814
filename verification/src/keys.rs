//! Keyboard input: what each key does in each mode, the command line, the
//! filter and the confirmation prompt.

use vstd::prelude::*;
use vstd::string::*;
use vstd::view::View as ViewOf;
use crate::app::{App, Mode, Effect, EffectV, effs, HSTEP, Confirm, PendingAction};
use crate::app::{move_spec, snap_spec, ensure_spec, with_sel, clamp_spec, switch_post, visible_spec};
use crate::app::{tabs_spec, tab_index_spec, half_page_spec, selected_spec, lemma_visible_bounds, lemma_clamp_frame};
use crate::app::{lemma_tabs_same, lemma_ensure_frame};
use crate::app::{cycle_sort_post, toggle_post, mark_all_post, unmark_post, invert_post};
use crate::actions::{drill_post, compose_open_post, start_logs_post, start_stats_post, start_inspect_post};
use crate::actions::{edit_compose_post, noted, log_path_spec};
use crate::ops::{action_post, delete_post, prune_prompt, sysprune_prompt, noun_of};
use crate::events::{fetch_eff, target_views};
use crate::docker::View;
use crate::mark::{MarkSet, targets_spec, lemma_ids_at_rows};
use crate::text::{views_of, lit, cat3, chars_of, string_of, trim_chars, trimmed, lower_chars, lowercase_of};
use crate::text::{chars_equal, push_char, pop_char, pop_spec, decimal, join_spec};

verus! {

/// A key press, as far as the state machine tells keys apart.
#[derive(Clone, Copy, Debug, PartialEq, Eq, Structural)]
pub enum Key {
    Char(char),
    Enter,
    Esc,
    Tab,
    BackTab,
    Backspace,
    Up,
    Down,
    Left,
    Right,
    PageUp,
    PageDown,
    Home,
    End,
    Other,
}

/// `a - b`, or 0 when `b` is larger.
pub open spec fn sat_sub(a: usize, b: usize) -> usize {
    if a >= b {
        (a - b) as usize
    } else {
        0
    }
}

/// The key leaves the scroll positions in range: a press would otherwise
/// overflow them.
pub open spec fn key_fits(s: App, key: Key) -> bool {
    &&& key == Key::Right ==> s.hscroll + HSTEP <= usize::MAX
    &&& s.mode == Mode::Logs ==> {
        &&& (key == Key::Char('k') || key == Key::Up) ==> s.log_scroll + 1 <= usize::MAX
        &&& key == Key::Char('u') ==> s.log_scroll + half_page_spec(s) <= usize::MAX
        &&& key == Key::PageUp ==> s.log_scroll + s.page_size <= usize::MAX
    }
    &&& s.mode == Mode::Inspect ==> {
        &&& (key == Key::Char('j') || key == Key::Down) ==> s.inspect_scroll + 1 <= usize::MAX
        &&& key == Key::Char('d') ==> s.inspect_scroll + half_page_spec(s) <= usize::MAX
        &&& key == Key::PageDown ==> s.inspect_scroll + s.page_size <= usize::MAX
    }
}

/// The state with the selection moved by `d` rows.
pub open spec fn moved(old: App, new: App, d: int, eff: Seq<EffectV>) -> bool {
    new == move_spec(old, d) && eff.len() == 0
}

/// The tab for digit key `c` (`1` is the first shown tab).
pub open spec fn digit_tab(s: App, c: char) -> Option<View> {
    let i = c as int - '1' as int;
    if '1' <= c && c <= '9' && i < tabs_spec(s).len() {
        Some(tabs_spec(s)[i])
    } else {
        None
    }
}

/// The tab after the current one (wrapping).
pub open spec fn next_tab(s: App) -> View {
    tabs_spec(s)[(tab_index_spec(s) + 1) % (tabs_spec(s).len() as int)]
}

/// The tab before the current one (wrapping).
pub open spec fn prev_tab(s: App) -> View {
    tabs_spec(s)[(tab_index_spec(s) + tabs_spec(s).len() - 1) % (tabs_spec(s).len() as int)]
}

/// Enter in the table: open what the row leads to.
pub open spec fn enter_post(old: App, new: App, eff: Seq<EffectV>) -> bool {
    match old.view {
        View::Compose => compose_open_post(old, new, eff),
        View::Contexts => new == old && eff == match selected_spec(old) {
            Some(it) => seq![EffectV::SwitchContext { name: it.name@ }],
            None => Seq::<EffectV>::empty(),
        },
        View::Stacks => drill_post(old, new, View::StackTasks, eff),
        View::Services => drill_post(old, new, View::ServiceTasks, eff),
        View::Containers | View::ServiceTasks | View::StackTasks => start_logs_post(old, new, eff),
        _ => new == old && eff.len() == 0,
    }
}

/// Esc in the table: back out of a drill-down view, else clear the filter.
pub open spec fn table_esc_post(old: App, new: App, eff: Seq<EffectV>) -> bool {
    if old.view == View::ServiceTasks || old.view == View::StackTasks {
        switch_post(old, new, old.prev_view, eff)
    } else if old.filter@.len() > 0 {
        &&& new == clamp_spec(App { filter: new.filter, ..old })
        &&& new.filter@.len() == 0
        &&& eff.len() == 0
    } else {
        new == old && eff.len() == 0
    }
}

/// `e` in the table: a shell in the selected container, or edit the
/// selected compose project's file.
pub open spec fn e_key_post(old: App, new: App) -> bool {
    if old.view == View::Containers {
        match selected_spec(old) {
            Some(it) => new == (App { pending_exec: new.pending_exec, ..old }) && opt_id(new.pending_exec) == Some(
                it.id@,
            ),
            None => new == old,
        }
    } else if old.view == View::Compose {
        edit_compose_post(old, new)
    } else {
        noted(old, new, "e: exec (Containers) / edit (Compose)"@)
    }
}

/// The view of an optional id.
pub open spec fn opt_id(o: Option<String>) -> Option<Seq<char>> {
    match o {
        Some(s) => Some(s@),
        None => None,
    }
}

/// Moving keys: `q` quits, `j`/`k` move a row, `d`/`u` half a page,
/// `g`/`G` to the top or bottom.
pub open spec fn nav_char_post(old: App, new: App, c: char, eff: Seq<EffectV>) -> bool {
    if c == 'q' {
        new == (App { should_quit: true, ..old }) && eff.len() == 0
    } else if c == 'j' {
        moved(old, new, 1, eff)
    } else if c == 'k' {
        moved(old, new, -1, eff)
    } else if c == 'd' {
        moved(old, new, half_page_spec(old) as int, eff)
    } else if c == 'u' {
        moved(old, new, -(half_page_spec(old) as int), eff)
    } else if c == 'g' {
        new == snap_spec(with_sel(old, 0, 0)) && eff.len() == 0
    } else {
        went_bottom(old, new) && eff.len() == 0
    }
}

/// Keys that switch tabs or open an input: digits pick a tab, `l`/`h`
/// the next or previous one, `:` the command line, `/` the filter.
pub open spec fn tab_char_post(old: App, new: App, c: char, eff: Seq<EffectV>) -> bool {
    if '1' <= c && c <= '9' {
        match digit_tab(old, c) {
            Some(v) => switch_post(old, new, v, eff),
            None => new == old && eff.len() == 0,
        }
    } else if c == ':' {
        new == (App { commanding: true, command: new.command, ..old }) && new.command@.len() == 0 && eff.len() == 0
    } else if c == '/' {
        new == (App { filtering: true, filter: new.filter, ..old }) && new.filter@.len() == 0 && eff.len() == 0
    } else if c == 'l' {
        switch_post(old, new, next_tab(old), eff)
    } else {
        switch_post(old, new, prev_tab(old), eff)
    }
}

/// Keys that open something on the selected row: `i` inspect, `e` shell
/// or compose file, `t` stats, `p` peek, `A` attach.
pub open spec fn open_char_post(old: App, new: App, c: char, eff: Seq<EffectV>) -> bool {
    if c == 'i' {
        start_inspect_post(old, new, eff)
    } else if c == 'e' {
        e_key_post(old, new) && eff.len() == 0
    } else if c == 't' {
        start_stats_post(old, new, eff)
    } else if c == 'p' {
        eff.len() == 0 && if selected_spec(old) is Some {
            new == (App { mode: Mode::Peek, ..old })
        } else {
            new == old
        }
    } else {
        eff.len() == 0 && if old.view == View::Containers {
            match selected_spec(old) {
                Some(it) => new == (App { pending_attach: new.pending_attach, ..old }) && opt_id(new.pending_attach)
                    == Some(it.id@),
                None => new == old,
            }
        } else {
            new == old
        }
    }
}

/// Keys on marks and the listing: `m`, `M`, `U`, `T` mark, `o`/`O` sort,
/// `a` all or running containers.
pub open spec fn mark_char_post(old: App, new: App, c: char, eff: Seq<EffectV>) -> bool {
    if c == 'm' {
        toggle_post(old, new) && eff.len() == 0
    } else if c == 'M' {
        mark_all_post(old, new) && eff.len() == 0
    } else if c == 'U' {
        unmark_post(old, new) && eff.len() == 0
    } else if c == 'T' {
        invert_post(old, new) && eff.len() == 0
    } else if c == 'o' {
        cycle_sort_post(old, new) && eff.len() == 0
    } else if c == 'O' {
        new == (App { sort_desc: !old.sort_desc, ..old }) && eff.len() == 0
    } else if old.view == View::Containers {
        let s1 = App { show_all: !old.show_all, selected: 0, loading: true, ..old };
        new == s1 && eff == seq![fetch_eff(s1)]
    } else {
        noted(old, new, "a: only in Containers (all/running)"@) && eff.len() == 0
    }
}

/// Keys that act on resources: `s`, `r`, `S` stop, restart, start, `x`
/// delete, `+`/`=`/`-` scale.
pub open spec fn act_char_post(old: App, new: App, c: char, eff: Seq<EffectV>) -> bool {
    if c == 's' {
        action_post(old, new, "stop"@, eff)
    } else if c == 'r' {
        action_post(old, new, "restart"@, eff)
    } else if c == 'S' {
        action_post(old, new, "start"@, eff)
    } else if c == 'x' {
        delete_post(old, new) && eff.len() == 0
    } else if c == '+' || c == '=' {
        scale_post(old, new, 1i64, eff)
    } else {
        scale_post(old, new, -1i64, eff)
    }
}

/// Moving characters.
pub open spec fn is_nav_char(c: char) -> bool {
    c == 'q' || c == 'j' || c == 'k' || c == 'd' || c == 'u' || c == 'g' || c == 'G'
}

/// Tab and input characters.
pub open spec fn is_tab_char(c: char) -> bool {
    ('1' <= c && c <= '9') || c == ':' || c == '/' || c == 'l' || c == 'h'
}

/// Opening characters.
pub open spec fn is_open_char(c: char) -> bool {
    c == 'i' || c == 'e' || c == 't' || c == 'p' || c == 'A'
}

/// Mark and listing characters.
pub open spec fn is_mark_char(c: char) -> bool {
    c == 'm' || c == 'M' || c == 'U' || c == 'T' || c == 'o' || c == 'O' || c == 'a'
}

/// Resource action characters.
pub open spec fn is_act_char(c: char) -> bool {
    c == 's' || c == 'r' || c == 'S' || c == 'x' || c == '+' || c == '=' || c == '-'
}

/// A character key in the table.
pub open spec fn table_char_post(old: App, new: App, c: char, eff: Seq<EffectV>) -> bool {
    if is_nav_char(c) {
        nav_char_post(old, new, c, eff)
    } else if is_tab_char(c) {
        tab_char_post(old, new, c, eff)
    } else if is_open_char(c) {
        open_char_post(old, new, c, eff)
    } else if is_mark_char(c) {
        mark_char_post(old, new, c, eff)
    } else if is_act_char(c) {
        act_char_post(old, new, c, eff)
    } else {
        new == old && eff.len() == 0
    }
}

/// Scaling the selected service by `delta`.
pub open spec fn scale_post(old: App, new: App, delta: i64, eff: Seq<EffectV>) -> bool {
    if old.view != View::Services {
        noted(old, new, "scale: only for services"@) && eff.len() == 0
    } else {
        match selected_spec(old) {
            Some(it) => noted(old, new, "scaling "@ + it.name@ + "…"@) && eff == seq![
                EffectV::Scale { name: it.name@, delta },
            ],
            None => new == old && eff.len() == 0,
        }
    }
}

/// The selection on the last shown row (off headers, on screen).
pub open spec fn went_bottom(old: App, new: App) -> bool {
    let n = visible_spec(old).len();
    let last = if n >= 1 {
        (n - 1) as usize
    } else {
        0usize
    };
    new == ensure_spec(snap_spec(with_sel(old, last, old.voffset)))
}

/// A moving key in the table (arrows, pages, Home and End).
pub open spec fn table_move_post(old: App, new: App, key: Key) -> bool {
    match key {
        Key::Down => new == move_spec(old, 1),
        Key::Up => new == move_spec(old, -1),
        Key::PageDown => new == move_spec(old, old.page_size as int),
        Key::PageUp => new == move_spec(old, -(old.page_size as int)),
        Key::Home => new == snap_spec(with_sel(old, 0, 0)),
        Key::End => went_bottom(old, new),
        Key::Right => new == (App { hscroll: (old.hscroll + HSTEP) as usize, ..old }),
        Key::Left => new == (App { hscroll: sat_sub(old.hscroll, HSTEP), ..old }),
        _ => new == old,
    }
}

/// A key in the table.
pub open spec fn table_key_post(old: App, new: App, key: Key, eff: Seq<EffectV>) -> bool {
    match key {
        Key::Char(c) => table_char_post(old, new, c, eff),
        Key::Enter => enter_post(old, new, eff),
        Key::Esc => table_esc_post(old, new, eff),
        _ => table_move_post(old, new, key) && eff.len() == 0,
    }
}

/// The view a command names.
pub open spec fn command_view(cmd: Seq<char>) -> Option<View> {
    if cmd == "co"@ || cmd == "container"@ || cmd == "containers"@ || cmd == "ps"@ {
        Some(View::Containers)
    } else if cmd == "im"@ || cmd == "image"@ || cmd == "images"@ {
        Some(View::Images)
    } else if cmd == "svc"@ || cmd == "service"@ || cmd == "services"@ {
        Some(View::Services)
    } else if cmd == "no"@ || cmd == "node"@ || cmd == "nodes"@ {
        Some(View::Nodes)
    } else if cmd == "st"@ || cmd == "stack"@ || cmd == "stacks"@ {
        Some(View::Stacks)
    } else if cmd == "ctx"@ || cmd == "context"@ || cmd == "contexts"@ {
        Some(View::Contexts)
    } else {
        None
    }
}

/// The command typed, trimmed and in lower case.
pub open spec fn command_word(s: App) -> Seq<char> {
    lowercase_of(trimmed(s.command@))
}

/// Asking to confirm pruning dangling images.
pub open spec fn prune_asked(old: App, new: App) -> bool {
    &&& new == (App { confirm: new.confirm, ..old })
    &&& new.confirm matches Some(Confirm { prompt: p, action: PendingAction::PruneImages }) && p@ == prune_prompt()
}

/// Asking to confirm a system prune.
pub open spec fn sysprune_asked(old: App, new: App) -> bool {
    &&& new == (App { confirm: new.confirm, ..old })
    &&& new.confirm matches Some(Confirm { prompt: p, action: PendingAction::SystemPrune }) && p@
        == sysprune_prompt()
}

/// Running the typed command: a view name switches to it, `q`/`quit`
/// quits, `prune`/`sysprune` ask to prune, `pause`/`unpause` act on the
/// selected container; anything else is reported unknown.
#[verifier::opaque]
pub open spec fn run_command_post(old: App, new: App, eff: Seq<EffectV>) -> bool {
    let cmd = command_word(old);
    match command_view(cmd) {
        Some(v) => switch_post(old, new, v, eff),
        None => if cmd == "q"@ || cmd == "quit"@ {
            new == (App { should_quit: true, ..old }) && eff.len() == 0
        } else if cmd == "prune"@ {
            prune_asked(old, new) && eff.len() == 0
        } else if cmd == "sysprune"@ {
            sysprune_asked(old, new) && eff.len() == 0
        } else if cmd == "pause"@ {
            action_post(old, new, "pause"@, eff)
        } else if cmd == "unpause"@ {
            action_post(old, new, "unpause"@, eff)
        } else if cmd.len() == 0 {
            new == old && eff.len() == 0
        } else {
            noted(old, new, "unknown command ':"@ + cmd + "'"@) && eff.len() == 0
        },
    }
}

/// A key on the command line.
#[verifier::opaque]
pub open spec fn command_key_post(old: App, new: App, key: Key, eff: Seq<EffectV>) -> bool {
    match key {
        Key::Char(c) => new == (App { command: new.command, ..old }) && new.command@ == old.command@.push(c)
            && eff.len() == 0,
        Key::Backspace => new == (App { command: new.command, ..old }) && new.command@ == pop_spec(old.command@)
            && eff.len() == 0,
        Key::Enter => {
            &&& run_command_post(old, App { commanding: old.commanding, command: old.command, ..new }, eff)
            &&& !new.commanding
            &&& new.command@.len() == 0
        },
        Key::Esc => new == (App { commanding: false, command: new.command, ..old }) && new.command@.len() == 0
            && eff.len() == 0,
        _ => new == old && eff.len() == 0,
    }
}

/// A key in the filter input.
#[verifier::opaque]
pub open spec fn filter_key_post(old: App, new: App, key: Key) -> bool {
    match key {
        Key::Char(c) => new == (App { filter: new.filter, selected: 0, voffset: 0, ..old }) && new.filter@
            == old.filter@.push(c),
        Key::Backspace => new == clamp_spec(App { filter: new.filter, ..old }) && new.filter@ == pop_spec(
            old.filter@,
        ),
        Key::Enter => new == (App { filtering: false, ..old }),
        Key::Esc => new == clamp_spec(App { filtering: false, filter: new.filter, ..old }) && new.filter@.len()
            == 0,
        _ => new == old,
    }
}

/// A key in the in-log search input.
pub open spec fn log_search_post(old: App, new: App, key: Key) -> bool {
    match key {
        Key::Char(c) => new == (App { log_filter: new.log_filter, log_scroll: 0, ..old }) && new.log_filter@
            == old.log_filter@.push(c),
        Key::Backspace => new == (App { log_filter: new.log_filter, ..old }) && new.log_filter@ == pop_spec(
            old.log_filter@,
        ),
        Key::Enter => new == (App { log_searching: false, ..old }),
        Key::Esc => new == (App { log_searching: false, log_filter: new.log_filter, ..old })
            && new.log_filter@.len() == 0,
        _ => new == old,
    }
}

/// Scrolling the logs down by `step` lines; following again at the bottom.
pub open spec fn log_down(old: App, new: App, step: usize) -> bool {
    let s = sat_sub(old.log_scroll, step);
    new == (App {
        log_scroll: s,
        log_follow: if s == 0 {
            true
        } else {
            old.log_follow
        },
        ..old
    })
}

/// A key while logs are shown (not searching).
pub open spec fn log_view_key_post(old: App, new: App, key: Key, eff: Seq<EffectV>) -> bool {
    if key == Key::Esc || key == Key::Char('q') {
        if old.log_filter@.len() > 0 {
            new == (App { log_filter: new.log_filter, ..old }) && new.log_filter@.len() == 0 && eff.len() == 0
        } else {
            new == (App { mode: Mode::Table, ..old }) && eff == seq![EffectV::StopLogs]
        }
    } else if key == Key::Char('s') {
        new == old && eff == seq![
            EffectV::SaveLogs {
                path: log_path_spec(old.log_title@),
                contents: join_spec(views_of(old.logs@), "\n"@),
            },
        ]
    } else {
        eff.len() == 0 && if key == Key::Char('/') {
            new == (App { log_searching: true, log_filter: new.log_filter, log_follow: false, ..old })
                && new.log_filter@.len() == 0
        } else if key == Key::Char('w') {
            new == (App { log_wrap: !old.log_wrap, ..old })
        } else if key == Key::Right {
            new == (App { hscroll: (old.hscroll + HSTEP) as usize, ..old })
        } else if key == Key::Left {
            new == (App { hscroll: sat_sub(old.hscroll, HSTEP), ..old })
        } else if key == Key::Char('f') {
            new == (App {
                log_follow: !old.log_follow,
                log_scroll: if !old.log_follow {
                    0
                } else {
                    old.log_scroll
                },
                ..old
            })
        } else if key == Key::Char('k') || key == Key::Up {
            new == (App { log_follow: false, log_scroll: (old.log_scroll + 1) as usize, ..old })
        } else if key == Key::Char('j') || key == Key::Down {
            log_down(old, new, 1)
        } else if key == Key::Char('u') {
            new == (App { log_follow: false, log_scroll: (old.log_scroll + half_page_spec(old)) as usize, ..old })
        } else if key == Key::PageUp {
            new == (App { log_follow: false, log_scroll: (old.log_scroll + old.page_size) as usize, ..old })
        } else if key == Key::Char('d') {
            log_down(old, new, half_page_spec(old))
        } else if key == Key::PageDown {
            log_down(old, new, old.page_size)
        } else if key == Key::Char('g') || key == Key::Home {
            new == (App { log_follow: false, log_scroll: old.logs@.len() as usize, ..old })
        } else if key == Key::Char('G') || key == Key::End {
            new == (App { log_follow: true, log_scroll: 0, ..old })
        } else {
            new == old
        }
    }
}

/// A key while logs are shown.
pub open spec fn logs_key_post(old: App, new: App, key: Key, eff: Seq<EffectV>) -> bool {
    if old.log_searching {
        log_search_post(old, new, key) && eff.len() == 0
    } else {
        log_view_key_post(old, new, key, eff)
    }
}

/// A key while live stats are shown: Esc or `q` closes them.
pub open spec fn stats_key_post(old: App, new: App, key: Key, eff: Seq<EffectV>) -> bool {
    if key == Key::Esc || key == Key::Char('q') {
        new == (App { mode: Mode::Table, ..old }) && eff == seq![EffectV::StopStats]
    } else {
        new == old && eff.len() == 0
    }
}

/// A key while inspect text is shown.
pub open spec fn inspect_key_post(old: App, new: App, key: Key) -> bool {
    if key == Key::Esc || key == Key::Char('q') {
        new == (App { mode: Mode::Table, ..old })
    } else if key == Key::Char('j') || key == Key::Down {
        new == (App { inspect_scroll: (old.inspect_scroll + 1) as usize, ..old })
    } else if key == Key::Char('k') || key == Key::Up {
        new == (App { inspect_scroll: sat_sub(old.inspect_scroll, 1), ..old })
    } else if key == Key::Right {
        new == (App { hscroll: (old.hscroll + HSTEP) as usize, ..old })
    } else if key == Key::Left {
        new == (App { hscroll: sat_sub(old.hscroll, HSTEP), ..old })
    } else if key == Key::Char('d') {
        new == (App { inspect_scroll: (old.inspect_scroll + half_page_spec(old)) as usize, ..old })
    } else if key == Key::Char('u') {
        new == (App { inspect_scroll: sat_sub(old.inspect_scroll, half_page_spec(old)), ..old })
    } else if key == Key::PageDown {
        new == (App { inspect_scroll: (old.inspect_scroll + old.page_size) as usize, ..old })
    } else if key == Key::PageUp {
        new == (App { inspect_scroll: sat_sub(old.inspect_scroll, old.page_size), ..old })
    } else if key == Key::Char('g') || key == Key::Home {
        new == (App { inspect_scroll: 0, ..old })
    } else if key == Key::Char('G') || key == Key::End {
        new == (App { inspect_scroll: sat_sub(old.inspect_lines@.len() as usize, 1), ..old })
    } else {
        new == old
    }
}

/// Taking a pending confirmation's answer: `y` runs the action, `n` or Esc
/// drops it, other keys are ignored.
#[verifier::opaque]
pub open spec fn confirm_key_post(old: App, new: App, key: Key, eff: Seq<EffectV>) -> bool {
    if key == Key::Char('y') || key == Key::Char('Y') {
        let s1 = App { confirm: None, ..old };
        match old.confirm {
            Some(c) => match c.action {
                PendingAction::Delete { view, id, label } => noted(s1, new, "removing "@ + label@ + "…"@) && eff
                    == seq![EffectV::Delete { view, id: id@, label: label@ }],
                PendingAction::Batch { verb, view, targets } => noted(
                    s1,
                    new,
                    verb@ + " 0/"@ + decimal(targets@.len()) + "…"@,
                ) && eff == seq![EffectV::Batch { verb: verb@, view, targets: target_views(targets@) }],
                PendingAction::PruneImages => noted(s1, new, "pruning dangling images…"@) && eff == seq![
                    EffectV::PruneImages,
                ],
                PendingAction::SystemPrune => noted(s1, new, "system prune -a…"@) && eff == seq![
                    EffectV::SystemPrune,
                ],
            },
            None => new == old && eff.len() == 0,
        }
    } else if key == Key::Char('n') || key == Key::Char('N') || key == Key::Esc {
        new == (App { confirm: None, ..old }) && eff.len() == 0
    } else {
        new == old && eff.len() == 0
    }
}

/// The state a tab switch starts from: inputs closed, back to the table.
pub open spec fn tab_mid(old: App, new: App) -> App {
    App {
        commanding: false,
        command: new.command,
        filtering: false,
        filter: new.filter,
        log_searching: false,
        mode: Mode::Table,
        ..old
    }
}

/// Tab (BackTab): close the inputs and any log or stats view, then switch
/// to the next (previous) tab.
#[verifier::opaque]
pub open spec fn tab_key_post(old: App, new: App, key: Key, eff: Seq<EffectV>) -> bool {
    let stops = if old.mode != Mode::Table {
        seq![EffectV::StopLogs, EffectV::StopStats]
    } else {
        Seq::<EffectV>::empty()
    };
    let v = if key == Key::Tab {
        next_tab(old)
    } else {
        prev_tab(old)
    };
    &&& new.command@.len() == 0
    &&& eff.len() >= stops.len()
    &&& eff.take(stops.len() as int) == stops
    &&& switch_post(tab_mid(old, new), new, v, eff.skip(stops.len() as int))
}

/// A key handled by the current mode.
#[verifier::opaque]
pub open spec fn mode_key_post(old: App, new: App, key: Key, eff: Seq<EffectV>) -> bool {
    match old.mode {
        Mode::Table => table_key_post(old, new, key, eff),
        Mode::Peek => eff.len() == 0 && if key == Key::Esc || key == Key::Char('q') || key == Key::Char('p')
            || key == Key::Enter {
            new == (App { mode: Mode::Table, ..old })
        } else {
            new == old
        },
        Mode::Logs => logs_key_post(old, new, key, eff),
        Mode::Inspect => inspect_key_post(old, new, key) && eff.len() == 0,
        Mode::Stats => stats_key_post(old, new, key, eff),
        Mode::Help => new == (App { mode: old.prev_mode, ..old }) && eff.len() == 0,
    }
}

/// What a key press does: Ctrl-C quits, Ctrl-R lists the table again, a
/// pending confirmation takes the answer, Tab switches tabs from anywhere,
/// the command line and the filter take keys while open, `?` opens help
/// (and any key leaves it); else the mode handles the key.
pub open spec fn key_post(old: App, new: App, key: Key, ctrl: bool, eff: Seq<EffectV>) -> bool {
    if ctrl && key == Key::Char('c') {
        new == (App { should_quit: true, ..old }) && eff == seq![EffectV::StopLogs]
    } else if ctrl && key == Key::Char('r') {
        if old.mode == Mode::Table {
            &&& new == (App { loading: true, ..old })
            &&& eff == seq![fetch_eff(old)] + if old.view == View::Volumes {
                seq![EffectV::FetchVolumeSizes]
            } else {
                Seq::<EffectV>::empty()
            }
        } else {
            new == old && eff.len() == 0
        }
    } else if old.confirm is Some {
        confirm_key_post(old, new, key, eff)
    } else if key == Key::Tab || key == Key::BackTab {
        tab_key_post(old, new, key, eff)
    } else if old.commanding {
        command_key_post(old, new, key, eff)
    } else if old.filtering {
        filter_key_post(old, new, key) && eff.len() == 0
    } else if key == Key::Char('?') && !old.log_searching && old.mode != Mode::Help {
        new == (App { prev_mode: old.mode, mode: Mode::Help, ..old }) && eff.len() == 0
    } else {
        mode_key_post(old, new, key, eff)
    }
}

impl App {
    /// Whether a press of `key` keeps the scroll positions in range.
    pub fn key_fits(&self, key: Key) -> (r: bool)
        ensures
            r == key_fits(*self, key),
    {
        let half = self.half_page();
        let right = key != Key::Right || self.hscroll <= usize::MAX - HSTEP;
        let logs = self.mode != Mode::Logs || ((key != Key::Char('k') && key != Key::Up) || self.log_scroll
            < usize::MAX) && (key != Key::Char('u') || self.log_scroll <= usize::MAX - half) && (key
            != Key::PageUp || self.log_scroll <= usize::MAX - self.page_size);
        let inspect = self.mode != Mode::Inspect || ((key != Key::Char('j') && key != Key::Down)
            || self.inspect_scroll < usize::MAX) && (key != Key::Char('d') || self.inspect_scroll
            <= usize::MAX - half) && (key != Key::PageDown || self.inspect_scroll <= usize::MAX
            - self.page_size);
        right && logs && inspect
    }

    /// Select the last shown row.
    fn go_bottom(&mut self)
        requires
            old(self).wf(),
        ensures
            final(self).wf(),
            went_bottom(*old(self), *final(self)),
    {
        let n = self.visible_indices().len();
        proof {
            lemma_visible_bounds(*self);
        }
        let last: usize = if n >= 1 {
            n - 1
        } else {
            0
        };
        self.selected = last;
        self.snap_off_header();
        self.ensure_visible();
    }

    /// A moving key in the table.
    #[verifier::spinoff_prover]
    fn nav_char(&mut self, c: char) -> (eff: Vec<Effect>)
        requires
            old(self).wf(),
            is_nav_char(c),
        ensures
            final(self).wf(),
            nav_char_post(*old(self), *final(self), c, effs(eff@)),
    {
        let none: Vec<Effect> = Vec::new();
        assert(effs(none@) =~= Seq::<EffectV>::empty());
        if c == 'q' {
            self.should_quit = true;
        } else if c == 'j' {
            self.move_sel(1);
        } else if c == 'k' {
            self.move_sel(-1);
        } else if c == 'd' {
            let h = self.half_page();
            self.move_sel(h as i64);
        } else if c == 'u' {
            let h = self.half_page();
            self.move_sel(-(h as i64));
        } else if c == 'g' {
            self.selected = 0;
            self.voffset = 0;
            self.snap_off_header();
        } else {
            self.go_bottom();
        }
        none
    }

    /// A tab or input key in the table.
    #[verifier::spinoff_prover]
    fn tab_char(&mut self, c: char) -> (eff: Vec<Effect>)
        requires
            old(self).wf(),
            is_tab_char(c),
        ensures
            final(self).wf(),
            tab_char_post(*old(self), *final(self), c, effs(eff@)),
    {
        let none: Vec<Effect> = Vec::new();
        assert(effs(none@) =~= Seq::<EffectV>::empty());
        if '1' <= c && c <= '9' {
            let tabs = self.tabs();
            let i = (c as u32 - '1' as u32) as usize;
            if i < tabs.len() {
                self.switch_view(tabs[i])
            } else {
                none
            }
        } else if c == ':' {
            self.commanding = true;
            self.command = String::new();
            none
        } else if c == '/' {
            self.filtering = true;
            self.filter = String::new();
            none
        } else if c == 'l' {
            self.next_view()
        } else {
            self.prev_view()
        }
    }

    /// An opening key in the table.
    #[verifier::spinoff_prover]
    fn open_char(&mut self, c: char) -> (eff: Vec<Effect>)
        requires
            old(self).wf(),
            is_open_char(c),
        ensures
            final(self).wf(),
            open_char_post(*old(self), *final(self), c, effs(eff@)),
    {
        let none: Vec<Effect> = Vec::new();
        assert(effs(none@) =~= Seq::<EffectV>::empty());
        if c == 'i' {
            self.start_inspect()
        } else if c == 'e' {
            if self.view == View::Containers {
                match self.selected_item() {
                    Some(it) => {
                        let id = it.id.clone();
                        self.pending_exec = Some(id);
                    },
                    None => {},
                }
            } else if self.view == View::Compose {
                self.request_edit_compose();
            } else {
                self.status = lit("e: exec (Containers) / edit (Compose)");
            }
            none
        } else if c == 't' {
            self.start_stats()
        } else if c == 'p' {
            if self.selected_item().is_some() {
                self.mode = Mode::Peek;
            }
            none
        } else {
            if self.view == View::Containers {
                match self.selected_item() {
                    Some(it) => {
                        let id = it.id.clone();
                        self.pending_attach = Some(id);
                    },
                    None => {},
                }
            }
            none
        }
    }

    /// A mark or listing key in the table.
    #[verifier::spinoff_prover]
    fn mark_char(&mut self, c: char) -> (eff: Vec<Effect>)
        requires
            old(self).wf(),
            is_mark_char(c),
        ensures
            final(self).wf(),
            mark_char_post(*old(self), *final(self), c, effs(eff@)),
    {
        let none: Vec<Effect> = Vec::new();
        assert(effs(none@) =~= Seq::<EffectV>::empty());
        if c == 'm' {
            self.toggle_mark_selected();
            none
        } else if c == 'M' {
            self.mark_all_visible();
            none
        } else if c == 'U' {
            self.unmark_all();
            none
        } else if c == 'T' {
            self.invert_visible_marks();
            none
        } else if c == 'o' {
            self.cycle_sort();
            none
        } else if c == 'O' {
            self.sort_desc = !self.sort_desc;
            none
        } else if self.view == View::Containers {
            self.show_all = !self.show_all;
            self.selected = 0;
            let f = self.refresh();
            let eff = vec![f];
            assert(effs(eff@) =~= seq![f@]);
            eff
        } else {
            self.status = lit("a: only in Containers (all/running)");
            none
        }
    }

    /// A resource action key in the table.
    #[verifier::spinoff_prover]
    fn act_char(&mut self, c: char) -> (eff: Vec<Effect>)
        requires
            old(self).wf(),
            is_act_char(c),
        ensures
            final(self).wf(),
            act_char_post(*old(self), *final(self), c, effs(eff@)),
    {
        if c == 's' {
            self.action("stop")
        } else if c == 'r' {
            self.action("restart")
        } else if c == 'S' {
            self.action("start")
        } else if c == 'x' {
            self.delete_selected();
            let none: Vec<Effect> = Vec::new();
            assert(effs(none@) =~= Seq::<EffectV>::empty());
            none
        } else if c == '+' || c == '=' {
            self.scale(1)
        } else {
            self.scale(-1)
        }
    }

    /// A character key in the table.
    fn table_char(&mut self, c: char) -> (eff: Vec<Effect>)
        requires
            old(self).wf(),
        ensures
            final(self).wf(),
            table_char_post(*old(self), *final(self), c, effs(eff@)),
    {
        if c == 'q' || c == 'j' || c == 'k' || c == 'd' || c == 'u' || c == 'g' || c == 'G' {
            self.nav_char(c)
        } else if ('1' <= c && c <= '9') || c == ':' || c == '/' || c == 'l' || c == 'h' {
            self.tab_char(c)
        } else if c == 'i' || c == 'e' || c == 't' || c == 'p' || c == 'A' {
            self.open_char(c)
        } else if c == 'm' || c == 'M' || c == 'U' || c == 'T' || c == 'o' || c == 'O' || c == 'a' {
            self.mark_char(c)
        } else if c == 's' || c == 'r' || c == 'S' || c == 'x' || c == '+' || c == '=' || c == '-' {
            self.act_char(c)
        } else {
            let none: Vec<Effect> = Vec::new();
            assert(effs(none@) =~= Seq::<EffectV>::empty());
            none
        }
    }

    /// A moving key in the table.
    #[verifier::spinoff_prover]
    fn table_move(&mut self, key: Key)
        requires
            old(self).wf(),
            key_fits(*old(self), key),
        ensures
            final(self).wf(),
            table_move_post(*old(self), *final(self), key),
    {
        match key {
            Key::Down => self.move_sel(1),
            Key::Up => self.move_sel(-1),
            Key::PageDown => {
                let p = self.page_size;
                self.move_sel(p as i64);
            },
            Key::PageUp => {
                let p = self.page_size;
                self.move_sel(-(p as i64));
            },
            Key::Home => {
                self.selected = 0;
                self.voffset = 0;
                self.snap_off_header();
            },
            Key::End => self.go_bottom(),
            Key::Right => {
                self.hscroll = self.hscroll + HSTEP;
            },
            Key::Left => {
                self.hscroll = if self.hscroll >= HSTEP {
                    self.hscroll - HSTEP
                } else {
                    0
                };
            },
            _ => {},
        }
    }

    /// Enter in the table.
    #[verifier::spinoff_prover]
    fn table_enter(&mut self) -> (eff: Vec<Effect>)
        requires
            old(self).wf(),
        ensures
            final(self).wf(),
            enter_post(*old(self), *final(self), effs(eff@)),
    {
        match self.view {
            View::Compose => self.open_compose_project(),
            View::Contexts => self.switch_context(),
            View::Stacks => self.drill_into_stack(),
            View::Services => self.drill_into_service(),
            View::Containers | View::ServiceTasks | View::StackTasks => self.start_logs(),
            _ => {
                let none: Vec<Effect> = Vec::new();
                assert(effs(none@) =~= Seq::<EffectV>::empty());
                none
            },
        }
    }

    /// Esc in the table.
    #[verifier::spinoff_prover]
    fn table_esc(&mut self) -> (eff: Vec<Effect>)
        requires
            old(self).wf(),
        ensures
            final(self).wf(),
            table_esc_post(*old(self), *final(self), effs(eff@)),
    {
        let none: Vec<Effect> = Vec::new();
        assert(effs(none@) =~= Seq::<EffectV>::empty());
        if self.view == View::ServiceTasks || self.view == View::StackTasks {
            let back = self.prev_view;
            self.switch_view(back)
        } else if self.filter.as_str().unicode_len() > 0 {
            self.filter = String::new();
            let ghost mid = *self;
            self.clamp_selection();
            proof {
                lemma_clamp_frame(mid);
            }
            none
        } else {
            none
        }
    }

    /// A key in the table.
    pub fn table_key(&mut self, key: Key) -> (eff: Vec<Effect>)
        requires
            old(self).wf(),
            key_fits(*old(self), key),
        ensures
            final(self).wf(),
            table_key_post(*old(self), *final(self), key, effs(eff@)),
    {
        match key {
            Key::Char(c) => self.table_char(c),
            Key::Enter => self.table_enter(),
            Key::Esc => self.table_esc(),
            _ => {
                self.table_move(key);
                let none: Vec<Effect> = Vec::new();
                assert(effs(none@) =~= Seq::<EffectV>::empty());
                none
            },
        }
    }

    /// Whether the command word `w` is `lit`.
    fn word_is(w: &Vec<char>, lit: &str) -> (b: bool)
        ensures
            b == (w@ == lit@),
    {
        chars_equal(w, &chars_of(lit))
    }

    /// Run the typed command.
    #[verifier::spinoff_prover]
    #[verifier::rlimit(40)]
    pub fn run_command(&mut self) -> (eff: Vec<Effect>)
        requires
            old(self).wf(),
        ensures
            final(self).wf(),
            final(self).commanding == old(self).commanding,
            final(self).command == old(self).command,
            run_command_post(*old(self), *final(self), effs(eff@)),
    {
        proof {
            reveal(run_command_post);
        }
        let trimmed_cmd = string_of(&trim_chars(&chars_of(self.command.as_str())));
        let w = lower_chars(trimmed_cmd.as_str());
        let none: Vec<Effect> = Vec::new();
        assert(effs(none@) =~= Seq::<EffectV>::empty());
        if Self::word_is(&w, "co") || Self::word_is(&w, "container") || Self::word_is(&w, "containers")
            || Self::word_is(&w, "ps") {
            self.switch_view(View::Containers)
        } else if Self::word_is(&w, "im") || Self::word_is(&w, "image") || Self::word_is(&w, "images") {
            self.switch_view(View::Images)
        } else if Self::word_is(&w, "svc") || Self::word_is(&w, "service") || Self::word_is(&w, "services") {
            self.switch_view(View::Services)
        } else if Self::word_is(&w, "no") || Self::word_is(&w, "node") || Self::word_is(&w, "nodes") {
            self.switch_view(View::Nodes)
        } else if Self::word_is(&w, "st") || Self::word_is(&w, "stack") || Self::word_is(&w, "stacks") {
            self.switch_view(View::Stacks)
        } else if Self::word_is(&w, "ctx") || Self::word_is(&w, "context") || Self::word_is(&w, "contexts") {
            self.switch_view(View::Contexts)
        } else if Self::word_is(&w, "q") || Self::word_is(&w, "quit") {
            self.should_quit = true;
            none
        } else if Self::word_is(&w, "prune") {
            self.request_prune();
            none
        } else if Self::word_is(&w, "sysprune") {
            self.request_sysprune();
            none
        } else if Self::word_is(&w, "pause") {
            self.action("pause")
        } else if Self::word_is(&w, "unpause") {
            self.action("unpause")
        } else if w.len() == 0 {
            none
        } else {
            self.status = cat3("unknown command ':", string_of(&w).as_str(), "'");
            none
        }
    }

    /// Enter on the command line: run the command and close the line.
    #[verifier::spinoff_prover]
    fn command_enter(&mut self) -> (eff: Vec<Effect>)
        requires
            old(self).wf(),
        ensures
            final(self).wf(),
            run_command_post(*old(self), App { commanding: old(self).commanding, command: old(self).command, ..*final(self) }, effs(eff@)),
            !final(self).commanding,
            final(self).command@.len() == 0,
    {
        let eff = self.run_command();
        let ghost mid = *self;
        self.commanding = false;
        self.command = String::new();
        assert(mid == (App { commanding: old(self).commanding, command: old(self).command, ..*self }));
        eff
    }

    /// A key on the command line.
    #[verifier::spinoff_prover]
    pub fn command_key(&mut self, key: Key) -> (eff: Vec<Effect>)
        requires
            old(self).wf(),
        ensures
            final(self).wf(),
            command_key_post(*old(self), *final(self), key, effs(eff@)),
    {
        proof {
            reveal(command_key_post);
        }
        let none: Vec<Effect> = Vec::new();
        assert(effs(none@) =~= Seq::<EffectV>::empty());
        match key {
            Key::Char(c) => {
                push_char(&mut self.command, c);
                none
            },
            Key::Backspace => {
                pop_char(&mut self.command);
                none
            },
            Key::Enter => self.command_enter(),
            Key::Esc => {
                self.commanding = false;
                self.command = String::new();
                none
            },
            _ => none,
        }
    }

    /// A key in the filter input.
    pub fn filter_key(&mut self, key: Key)
        requires
            old(self).wf(),
        ensures
            final(self).wf(),
            filter_key_post(*old(self), *final(self), key),
    {
        proof {
            reveal(filter_key_post);
        }
        match key {
            Key::Char(c) => {
                push_char(&mut self.filter, c);
                self.selected = 0;
                self.voffset = 0;
            },
            Key::Backspace => {
                pop_char(&mut self.filter);
                let ghost mid = *self;
                self.clamp_selection();
                proof {
                    lemma_clamp_frame(mid);
                }
            },
            Key::Enter => {
                self.filtering = false;
            },
            Key::Esc => {
                self.filtering = false;
                self.filter = String::new();
                let ghost mid = *self;
                self.clamp_selection();
                proof {
                    lemma_clamp_frame(mid);
                }
            },
            _ => {},
        }
    }

    /// A key in the in-log search input.
    fn log_search_key(&mut self, key: Key)
        ensures
            log_search_post(*old(self), *final(self), key),
    {
        match key {
            Key::Char(c) => {
                push_char(&mut self.log_filter, c);
                self.log_scroll = 0;
            },
            Key::Backspace => {
                pop_char(&mut self.log_filter);
            },
            Key::Enter => {
                self.log_searching = false;
            },
            Key::Esc => {
                self.log_searching = false;
                self.log_filter = String::new();
            },
            _ => {},
        }
    }

    /// Scroll the logs down by `step` lines.
    fn logs_down(&mut self, step: usize)
        ensures
            log_down(*old(self), *final(self), step),
    {
        self.log_scroll = if self.log_scroll >= step {
            self.log_scroll - step
        } else {
            0
        };
        if self.log_scroll == 0 {
            self.log_follow = true;
        }
    }

    /// A key while logs are shown.
    #[verifier::spinoff_prover]
    #[verifier::rlimit(40)]
    pub fn logs_key(&mut self, key: Key) -> (eff: Vec<Effect>)
        requires
            key_fits(*old(self), key),
            old(self).mode == Mode::Logs,
        ensures
            logs_key_post(*old(self), *final(self), key, effs(eff@)),
    {
        let mut eff: Vec<Effect> = Vec::new();
        assert(effs(eff@) =~= Seq::<EffectV>::empty());
        if self.log_searching {
            self.log_search_key(key);
            return eff;
        }
        if key == Key::Esc || key == Key::Char('q') {
            if self.log_filter.as_str().unicode_len() > 0 {
                self.log_filter = String::new();
            } else {
                eff.push(Effect::StopLogs);
                self.mode = Mode::Table;
                assert(effs(eff@) =~= seq![EffectV::StopLogs]);
            }
        } else if key == Key::Char('s') {
            let e = self.save_logs();
            eff.push(e);
            assert(effs(eff@) =~= seq![e@]);
        } else if key == Key::Char('/') {
            self.log_searching = true;
            self.log_filter = String::new();
            self.log_follow = false;
        } else if key == Key::Char('w') {
            self.log_wrap = !self.log_wrap;
        } else if key == Key::Right {
            self.hscroll = self.hscroll + HSTEP;
        } else if key == Key::Left {
            self.hscroll = if self.hscroll >= HSTEP {
                self.hscroll - HSTEP
            } else {
                0
            };
        } else if key == Key::Char('f') {
            self.log_follow = !self.log_follow;
            if self.log_follow {
                self.log_scroll = 0;
            }
        } else if key == Key::Char('k') || key == Key::Up {
            self.log_follow = false;
            self.log_scroll = self.log_scroll + 1;
        } else if key == Key::Char('j') || key == Key::Down {
            self.logs_down(1);
        } else if key == Key::Char('u') {
            let step = self.half_page();
            self.log_follow = false;
            self.log_scroll = self.log_scroll + step;
        } else if key == Key::PageUp {
            let step = self.page_size;
            self.log_follow = false;
            self.log_scroll = self.log_scroll + step;
        } else if key == Key::Char('d') {
            let step = self.half_page();
            self.logs_down(step);
        } else if key == Key::PageDown {
            let step = self.page_size;
            self.logs_down(step);
        } else if key == Key::Char('g') || key == Key::Home {
            self.log_follow = false;
            self.log_scroll = self.logs.len();
        } else if key == Key::Char('G') || key == Key::End {
            self.log_follow = true;
            self.log_scroll = 0;
        }
        eff
    }

    /// A key while live stats are shown.
    pub fn stats_key(&mut self, key: Key) -> (eff: Vec<Effect>)
        ensures
            stats_key_post(*old(self), *final(self), key, effs(eff@)),
    {
        let mut eff: Vec<Effect> = Vec::new();
        if key == Key::Esc || key == Key::Char('q') {
            eff.push(Effect::StopStats);
            self.mode = Mode::Table;
        }
        assert(effs(eff@) =~= if key == Key::Esc || key == Key::Char('q') {
            seq![EffectV::StopStats]
        } else {
            Seq::<EffectV>::empty()
        });
        eff
    }

    /// A key while inspect text is shown.
    #[verifier::spinoff_prover]
    pub fn inspect_key(&mut self, key: Key)
        requires
            key_fits(*old(self), key),
            old(self).mode == Mode::Inspect,
        ensures
            inspect_key_post(*old(self), *final(self), key),
    {
        if key == Key::Esc || key == Key::Char('q') {
            self.mode = Mode::Table;
        } else if key == Key::Char('j') || key == Key::Down {
            self.inspect_scroll = self.inspect_scroll + 1;
        } else if key == Key::Char('k') || key == Key::Up {
            self.inspect_scroll = if self.inspect_scroll >= 1 {
                self.inspect_scroll - 1
            } else {
                0
            };
        } else if key == Key::Right {
            self.hscroll = self.hscroll + HSTEP;
        } else if key == Key::Left {
            self.hscroll = if self.hscroll >= HSTEP {
                self.hscroll - HSTEP
            } else {
                0
            };
        } else if key == Key::Char('d') {
            let h = self.half_page();
            self.inspect_scroll = self.inspect_scroll + h;
        } else if key == Key::Char('u') {
            let h = self.half_page();
            self.inspect_scroll = if self.inspect_scroll >= h {
                self.inspect_scroll - h
            } else {
                0
            };
        } else if key == Key::PageDown {
            self.inspect_scroll = self.inspect_scroll + self.page_size;
        } else if key == Key::PageUp {
            self.inspect_scroll = if self.inspect_scroll >= self.page_size {
                self.inspect_scroll - self.page_size
            } else {
                0
            };
        } else if key == Key::Char('g') || key == Key::Home {
            self.inspect_scroll = 0;
        } else if key == Key::Char('G') || key == Key::End {
            let n = self.inspect_lines.len();
            self.inspect_scroll = if n >= 1 {
                n - 1
            } else {
                0
            };
        }
    }

    /// The answer to a pending confirmation.
    #[verifier::spinoff_prover]
    fn confirm_key(&mut self, key: Key) -> (eff: Vec<Effect>)
        requires
            old(self).wf(),
            old(self).confirm is Some,
        ensures
            final(self).wf(),
            confirm_key_post(*old(self), *final(self), key, effs(eff@)),
    {
        proof {
            reveal(confirm_key_post);
        }
        let mut eff: Vec<Effect> = Vec::new();
        assert(effs(eff@) =~= Seq::<EffectV>::empty());
        if key == Key::Char('y') || key == Key::Char('Y') {
            if let Some(c) = self.confirm.take() {
                let e = match c.action {
                    PendingAction::Delete { view, id, label } => self.run_delete(view, id, label),
                    PendingAction::Batch { verb, view, targets } => self.run_batch(verb, view, targets),
                    PendingAction::PruneImages => self.do_prune_images(),
                    PendingAction::SystemPrune => self.do_system_prune(),
                };
                eff.push(e);
                assert(effs(eff@) =~= seq![e@]);
            }
        } else if key == Key::Char('n') || key == Key::Char('N') || key == Key::Esc {
            self.confirm = None;
        }
        eff
    }

    /// Tab or BackTab.
    #[verifier::spinoff_prover]
    fn tab_key(&mut self, key: Key) -> (eff: Vec<Effect>)
        requires
            old(self).wf(),
            key == Key::Tab || key == Key::BackTab,
        ensures
            final(self).wf(),
            tab_key_post(*old(self), *final(self), key, effs(eff@)),
    {
        proof {
            reveal(tab_key_post);
        }
        self.exit_inputs();
        let mut eff: Vec<Effect> = Vec::new();
        if self.mode != Mode::Table {
            eff.push(Effect::StopLogs);
            eff.push(Effect::StopStats);
            self.mode = Mode::Table;
        }
        assert(effs(eff@) =~= if old(self).mode != Mode::Table {
            seq![EffectV::StopLogs, EffectV::StopStats]
        } else {
            Seq::<EffectV>::empty()
        });
        let ghost stops = effs(eff@);
        let ghost mid = *self;
        proof {
            lemma_tabs_same(*old(self), mid);
        }
        let mut rest = if key == Key::Tab {
            self.next_view()
        } else {
            self.prev_view()
        };
        let ghost r = effs(rest@);
        eff.append(&mut rest);
        proof {
            assert(effs(eff@) =~= stops + r);
            assert(effs(eff@).take(stops.len() as int) =~= stops);
            assert(effs(eff@).skip(stops.len() as int) =~= r);
            assert(tab_mid(*old(self), *self) == (App { filter: self.filter, ..mid }));
            lemma_tabs_same(mid, tab_mid(*old(self), *self));
            let v = if key == Key::Tab {
                next_tab(*old(self))
            } else {
                prev_tab(*old(self))
            };
            assert(switch_post(tab_mid(*old(self), *self), *self, v, r));
        }
        eff
    }

    /// A key handled by the current mode.
    #[verifier::spinoff_prover]
    fn mode_key(&mut self, key: Key) -> (eff: Vec<Effect>)
        requires
            old(self).wf(),
            key_fits(*old(self), key),
        ensures
            final(self).wf(),
            mode_key_post(*old(self), *final(self), key, effs(eff@)),
    {
        proof {
            reveal(mode_key_post);
        }
        let none: Vec<Effect> = Vec::new();
        assert(effs(none@) =~= Seq::<EffectV>::empty());
        match self.mode {
            Mode::Table => self.table_key(key),
            Mode::Peek => {
                if key == Key::Esc || key == Key::Char('q') || key == Key::Char('p') || key == Key::Enter {
                    self.mode = Mode::Table;
                }
                none
            },
            Mode::Logs => self.logs_key(key),
            Mode::Inspect => {
                self.inspect_key(key);
                none
            },
            Mode::Stats => self.stats_key(key),
            Mode::Help => {
                self.mode = self.prev_mode;
                none
            },
        }
    }

    /// Handle a key press (`ctrl`: with the Control modifier).
    #[verifier::spinoff_prover]
    pub fn handle_key(&mut self, key: Key, ctrl: bool) -> (eff: Vec<Effect>)
        requires
            old(self).wf(),
            key_fits(*old(self), key),
        ensures
            final(self).wf(),
            key_post(*old(self), *final(self), key, ctrl, effs(eff@)),
    {
        let none: Vec<Effect> = Vec::new();
        assert(effs(none@) =~= Seq::<EffectV>::empty());
        if ctrl && key == Key::Char('c') {
            self.should_quit = true;
            let eff = vec![Effect::StopLogs];
            assert(effs(eff@) =~= seq![EffectV::StopLogs]);
            return eff;
        }
        if ctrl && key == Key::Char('r') {
            let mut eff: Vec<Effect> = Vec::new();
            if self.mode == Mode::Table {
                let f = self.refresh();
                eff.push(f);
                if self.view == View::Volumes {
                    eff.push(Effect::FetchVolumeSizes);
                }
            }
            assert(effs(eff@) =~= if old(self).mode == Mode::Table {
                seq![fetch_eff(*old(self))] + if old(self).view == View::Volumes {
                    seq![EffectV::FetchVolumeSizes]
                } else {
                    Seq::<EffectV>::empty()
                }
            } else {
                Seq::<EffectV>::empty()
            });
            return eff;
        }
        if self.confirm.is_some() {
            return self.confirm_key(key);
        }
        if key == Key::Tab || key == Key::BackTab {
            return self.tab_key(key);
        }
        if self.commanding {
            return self.command_key(key);
        }
        if self.filtering {
            self.filter_key(key);
            return none;
        }
        if key == Key::Char('?') && !self.log_searching && self.mode != Mode::Help {
            self.prev_mode = self.mode;
            self.mode = Mode::Help;
            return none;
        }
        self.mode_key(key)
    }

    /// The state at start-up for context `context`: the Containers view,
    /// loading.
    pub fn new(context: String) -> (r: App)
        ensures
            r.wf(),
            r.context == context,
            !r.should_quit,
            r.swarm@.len() == 0,
            r.compose_projects == 0,
            r.view == View::Containers,
            r.items@.len() == 0,
            r.marked@ == Set::<Seq<char>>::empty(),
            r.selected == 0,
            r.loading,
            r.mode == Mode::Table,
            r.prev_mode == Mode::Table,
            r.status@ == "Loading…"@,
            r.filter@.len() == 0,
            !r.filtering,
            r.command@.len() == 0,
            !r.commanding,
            r.confirm is None,
            r.drill_service@.len() == 0,
            r.drill_stack@.len() == 0,
            r.prev_view == View::Containers,
            r.page_size == 20,
            r.voffset == 0,
            r.hscroll == 0,
            r.sort_col is None,
            !r.sort_desc,
            !r.show_all,
            r.vol_sizes@.len() == 0,
            r.logs@.len() == 0,
            r.log_title@.len() == 0,
            r.log_follow,
            r.log_scroll == 0,
            r.log_filter@.len() == 0,
            !r.log_searching,
            !r.log_wrap,
            r.inspect_lines@.len() == 0,
            r.inspect_title@.len() == 0,
            r.inspect_scroll == 0,
            r.stats_title@.len() == 0,
            r.pending_exec is None,
            r.pending_attach is None,
            r.pending_edit is None,
    {
        App {
            should_quit: false,
            context,
            swarm: String::new(),
            compose_projects: 0,
            view: View::Containers,
            items: Vec::new(),
            marked: MarkSet::new(),
            selected: 0,
            loading: true,
            mode: Mode::Table,
            prev_mode: Mode::Table,
            status: lit("Loading…"),
            filter: String::new(),
            filtering: false,
            command: String::new(),
            commanding: false,
            confirm: None,
            drill_service: String::new(),
            drill_stack: String::new(),
            prev_view: View::Containers,
            page_size: 20,
            voffset: 0,
            hscroll: 0,
            sort_col: None,
            sort_desc: false,
            show_all: false,
            vol_sizes: Vec::new(),
            logs: Vec::new(),
            log_title: String::new(),
            log_follow: true,
            log_scroll: 0,
            log_filter: String::new(),
            log_searching: false,
            log_wrap: false,
            inspect_lines: Vec::new(),
            inspect_title: String::new(),
            inspect_scroll: 0,
            stats_title: String::new(),
            pending_exec: None,
            pending_attach: None,
            pending_edit: None,
        }
    }
}


/// Answering no to a confirmation (`n`, `N` or Esc) drops it and changes
/// nothing else: no engine call, marks and rows as they were.
pub proof fn cancel_changes_nothing(old: App, new: App, key: Key, eff: Seq<EffectV>)
    requires
        old.confirm is Some,
        key == Key::Char('n') || key == Key::Char('N') || key == Key::Esc,
        key_post(old, new, key, false, eff),
    ensures
        new == (App { confirm: None, ..old }),
        eff.len() == 0,
{
    reveal(confirm_key_post);
}

/// Help is global and leads back: from any mode (no prompt or input
/// open), `?` shows help and the next key (but Tab) returns to where the
/// user was.
pub proof fn help_returns(s0: App, s1: App, s2: App, key: Key, e1: Seq<EffectV>, e2: Seq<EffectV>)
    requires
        s0.confirm is None,
        !s0.commanding,
        !s0.filtering,
        !s0.log_searching,
        s0.mode != Mode::Help,
        key_post(s0, s1, Key::Char('?'), false, e1),
        key != Key::Tab && key != Key::BackTab,
        key_post(s1, s2, key, false, e2),
    ensures
        s1.mode == Mode::Help,
        s2 == (App { prev_mode: s0.mode, ..s0 }),
        e1.len() == 0,
        e2.len() == 0,
{
    reveal(mode_key_post);
}

/// Filtering, sorting and scrolling sideways keep the marks.
pub proof fn view_keys_keep_marks(old: App, new: App, key: Key, eff: Seq<EffectV>)
    requires
        old.confirm is None,
        !old.commanding,
        key != Key::Tab && key != Key::BackTab,
        old.filtering || (old.mode == Mode::Table && (key == Key::Char('/') || key == Key::Char('o') || key
            == Key::Char('O') || key == Key::Left || key == Key::Right)),
        key_post(old, new, key, false, eff),
    ensures
        new.marked == old.marked,
{
    reveal(filter_key_post);
    reveal(mode_key_post);
    if old.filtering {
        match key {
            Key::Backspace => {
                lemma_clamp_frame(App { filter: new.filter, ..old });
            },
            Key::Esc => {
                lemma_clamp_frame(App { filtering: false, filter: new.filter, ..old });
            },
            _ => {},
        }
    }
}

/// Switching tabs with Tab or BackTab clears the marks and the rows and
/// shows the next (previous) tab.
pub proof fn tab_switch_clears_marks(old: App, new: App, key: Key, eff: Seq<EffectV>)
    requires
        old.confirm is None,
        key == Key::Tab || key == Key::BackTab,
        key_post(old, new, key, false, eff),
    ensures
        new.marked@ == Set::<Seq<char>>::empty(),
        new.items@.len() == 0,
        new.view == if key == Key::Tab {
            next_tab(old)
        } else {
            prev_tab(old)
        },
{
    reveal(tab_key_post);
}


/// An effect that removes resources or acts on several at once.
pub open spec fn destructive(e: EffectV) -> bool {
    e is Delete || e is Batch || e is PruneImages || e is SystemPrune
}

/// No effect in `eff` is destructive.
pub open spec fn harmless(eff: Seq<EffectV>) -> bool {
    forall|i: int| 0 <= i < eff.len() ==> !destructive(#[trigger] eff[i])
}

proof fn lemma_switch_harmless(old: App, new: App, v: View, eff: Seq<EffectV>)
    requires
        switch_post(old, new, v, eff),
    ensures
        harmless(eff),
{
}

proof fn lemma_action_harmless(old: App, new: App, verb: Seq<char>, eff: Seq<EffectV>)
    requires
        action_post(old, new, verb, eff),
    ensures
        harmless(eff),
{
}

proof fn lemma_table_harmless(old: App, new: App, key: Key, eff: Seq<EffectV>)
    requires
        table_key_post(old, new, key, eff),
    ensures
        harmless(eff),
{
    match key {
        Key::Char(c) => {
            if is_tab_char(c) {
                if '1' <= c && c <= '9' {
                    match digit_tab(old, c) {
                        Some(v) => lemma_switch_harmless(old, new, v, eff),
                        None => {},
                    }
                } else if c == 'l' {
                    lemma_switch_harmless(old, new, next_tab(old), eff);
                } else if c == 'h' {
                    lemma_switch_harmless(old, new, prev_tab(old), eff);
                }
            } else if is_act_char(c) && !is_nav_char(c) && !is_open_char(c) && !is_mark_char(c) {
                if c == 's' {
                    lemma_action_harmless(old, new, "stop"@, eff);
                } else if c == 'r' {
                    lemma_action_harmless(old, new, "restart"@, eff);
                } else if c == 'S' {
                    lemma_action_harmless(old, new, "start"@, eff);
                }
            }
        },
        Key::Esc => {
            if old.view == View::ServiceTasks || old.view == View::StackTasks {
                lemma_switch_harmless(old, new, old.prev_view, eff);
            }
        },
        _ => {},
    }
}

proof fn lemma_command_harmless(old: App, new: App, key: Key, eff: Seq<EffectV>)
    requires
        command_key_post(old, new, key, eff),
    ensures
        harmless(eff),
{
    reveal(command_key_post);
    reveal(run_command_post);
    if key == Key::Enter {
        let mid = App { commanding: old.commanding, command: old.command, ..new };
        let cmd = command_word(old);
        match command_view(cmd) {
            Some(v) => lemma_switch_harmless(old, mid, v, eff),
            None => {
                if cmd == "q"@ || cmd == "quit"@ || cmd == "prune"@ || cmd == "sysprune"@ {
                } else if cmd == "pause"@ {
                    lemma_action_harmless(old, mid, "pause"@, eff);
                } else if cmd == "unpause"@ {
                    lemma_action_harmless(old, mid, "unpause"@, eff);
                }
            },
        }
    }
}

/// Deleting with rows marked asks once, and its yes deletes, in one batch,
/// exactly the marked rows that are still listed; the marks and the rows
/// stay as they were until the batch reports.
pub proof fn marked_delete_runs_on_marked_rows(
    s0: App,
    s1: App,
    s2: App,
    e1: Seq<EffectV>,
    e2: Seq<EffectV>,
)
    requires
        s0.confirm is None,
        !s0.commanding,
        !s0.filtering,
        s0.mode == Mode::Table,
        noun_of(s0.view) is Some,
        s0.marked@ != Set::<Seq<char>>::empty(),
        targets_spec(s0.marked@, s0.items@).len() > 0,
        key_post(s0, s1, Key::Char('x'), false, e1),
        key_post(s1, s2, Key::Char('y'), false, e2),
    ensures
        e1.len() == 0,
        s1.confirm is Some,
        e2 == seq![EffectV::Batch { verb: "delete"@, view: s0.view, targets: targets_spec(s0.marked@, s0.items@) }],
        s2.confirm is None,
        s2.marked == s0.marked,
        s2.items == s0.items,
{
    reveal(mode_key_post);
    reveal(confirm_key_post);
}

/// Stopping, restarting or starting (`s`, `r`, `S`) with containers marked
/// asks once, and its yes runs the verb, in one batch, on exactly the
/// marked containers that are still listed; marks and rows stay.
pub proof fn marked_action_runs_on_marked_rows(
    s0: App,
    s1: App,
    s2: App,
    c: char,
    e1: Seq<EffectV>,
    e2: Seq<EffectV>,
)
    requires
        c == 's' || c == 'r' || c == 'S',
        s0.confirm is None,
        !s0.commanding,
        !s0.filtering,
        s0.mode == Mode::Table,
        s0.view == View::Containers,
        s0.marked@ != Set::<Seq<char>>::empty(),
        targets_spec(s0.marked@, s0.items@).len() > 0,
        key_post(s0, s1, Key::Char(c), false, e1),
        key_post(s1, s2, Key::Char('y'), false, e2),
    ensures
        e1.len() == 0,
        s1.confirm is Some,
        e2 == seq![
            EffectV::Batch {
                verb: if c == 's' {
                    "stop"@
                } else if c == 'r' {
                    "restart"@
                } else {
                    "start"@
                },
                view: View::Containers,
                targets: targets_spec(s0.marked@, s0.items@),
            },
        ],
        s2.confirm is None,
        s2.marked == s0.marked,
        s2.items == s0.items,
{
    reveal(mode_key_post);
    reveal(confirm_key_post);
}

/// Marking keys (`m`, `M`, `T`) mark only shown rows that are not group
/// headings: an id they add is the id of such a row.
pub proof fn marks_come_from_shown_rows(old: App, new: App, c: char, eff: Seq<EffectV>, x: Seq<char>)
    requires
        c == 'm' || c == 'M' || c == 'T',
        old.confirm is None,
        !old.commanding,
        !old.filtering,
        old.mode == Mode::Table,
        key_post(old, new, Key::Char(c), false, eff),
        new.marked@.contains(x),
        !old.marked@.contains(x),
    ensures
        exists|k: int|
            0 <= k < visible_spec(old).len() && visible_spec(old)[k] < old.items@.len()
                && !old.items@[visible_spec(old)[k] as int].header && #[trigger] old.items@[visible_spec(
                old,
            )[k] as int].id@ == x,
{
    reveal(mode_key_post);
    let vis = visible_spec(old);
    lemma_visible_bounds(old);
    if c == 'm' {
        assert(old.items@[vis[old.selected as int] as int].id@ == x);
    } else {
        lemma_ids_at_rows(old.items@, vis, x);
    }
}

/// Following the log keeps it pinned to the newest line: whatever key is
/// pressed, in any mode, following still means no scrollback.
pub proof fn follow_stays_pinned(old: App, new: App, key: Key, ctrl: bool, eff: Seq<EffectV>)
    requires
        old.log_follow ==> old.log_scroll == 0,
        key_post(old, new, key, ctrl, eff),
    ensures
        new.log_follow ==> new.log_scroll == 0,
{
    broadcast use {lemma_ensure_frame, lemma_clamp_frame};

    if ctrl && (key == Key::Char('c') || key == Key::Char('r')) {
    } else if old.confirm is Some {
        reveal(confirm_key_post);
        assert(new.log_follow ==> new.log_scroll == 0);
    } else if key == Key::Tab || key == Key::BackTab {
        reveal(tab_key_post);
        assert(new.log_follow ==> new.log_scroll == 0);
    } else if old.commanding {
        reveal(command_key_post);
        reveal(run_command_post);
        assert(new.log_follow ==> new.log_scroll == 0);
    } else if old.filtering {
        reveal(filter_key_post);
        assert(new.log_follow ==> new.log_scroll == 0);
    } else if key == Key::Char('?') && !old.log_searching && old.mode != Mode::Help {
    } else {
        reveal(mode_key_post);
        assert(new.log_follow ==> new.log_scroll == 0);
    }
}

/// In the log view, outside a search and with no prompt open, `End` or `G`
/// follows the log again from its newest line, and `k` or Up stops
/// following and scrolls one line further back.
pub proof fn log_keys_follow_and_scroll(old: App, new: App, key: Key, ctrl: bool, eff: Seq<EffectV>)
    requires
        key_post(old, new, key, ctrl, eff),
        old.mode == Mode::Logs,
        !old.log_searching,
        old.confirm is None,
        !old.commanding,
        !old.filtering,
        old.log_scroll < usize::MAX,
    ensures
        key == Key::End || key == Key::Char('G') ==> new.log_follow && new.log_scroll == 0,
        key == Key::Up || key == Key::Char('k') ==> !new.log_follow && new.log_scroll == old.log_scroll + 1,
{
    reveal(mode_key_post);
}

/// The `:` command words name views: `co`/`container`/`containers`/`ps`
/// open Containers, `im`/`image`/`images` Images, `svc`/`service`/`services`
/// Services, `no`/`node`/`nodes` Nodes, `st`/`stack`/`stacks` Stacks and
/// `ctx`/`context`/`contexts` Contexts, whatever the case and surrounding
/// white space of what was typed; the view's rows are then fetched.
pub proof fn command_words_name_views(old: App, new: App, eff: Seq<EffectV>)
    requires
        run_command_post(old, new, eff),
    ensures
        ({
            let w = lowercase_of(trimmed(old.command@));
            &&& w == "co"@ || w == "container"@ || w == "containers"@ || w == "ps"@ ==> new.view
                == View::Containers
            &&& w == "im"@ || w == "image"@ || w == "images"@ ==> new.view == View::Images
            &&& w == "svc"@ || w == "service"@ || w == "services"@ ==> new.view == View::Services
            &&& w == "no"@ || w == "node"@ || w == "nodes"@ ==> new.view == View::Nodes
            &&& w == "st"@ || w == "stack"@ || w == "stacks"@ ==> new.view == View::Stacks
            &&& w == "ctx"@ || w == "context"@ || w == "contexts"@ ==> new.view == View::Contexts
            &&& command_view(w) is Some ==> eff.len() >= 1 && eff[0] == EffectV::Fetch {
                view: new.view,
                arg: crate::app::fetch_arg_spec(new),
            }
        }),
{
    reveal(run_command_post);
    reveal_strlit("co");
    reveal_strlit("container");
    reveal_strlit("containers");
    reveal_strlit("ps");
    reveal_strlit("im");
    reveal_strlit("image");
    reveal_strlit("images");
    reveal_strlit("svc");
    reveal_strlit("service");
    reveal_strlit("services");
    reveal_strlit("no");
    reveal_strlit("node");
    reveal_strlit("nodes");
    reveal_strlit("st");
    reveal_strlit("stack");
    reveal_strlit("stacks");
    reveal_strlit("ctx");
    reveal_strlit("context");
    reveal_strlit("contexts");
    assert("co"@.len() == 2 && "co"@[0] == 'c');
    assert("container"@.len() == 9 && "container"@[0] == 'c');
    assert("containers"@.len() == 10 && "containers"@[0] == 'c');
    assert("ps"@.len() == 2 && "ps"@[0] == 'p');
    assert("im"@.len() == 2 && "im"@[0] == 'i');
    assert("image"@.len() == 5 && "image"@[0] == 'i');
    assert("images"@.len() == 6 && "images"@[0] == 'i');
    assert("svc"@.len() == 3 && "svc"@[0] == 's');
    assert("service"@.len() == 7 && "service"@[0] == 's');
    assert("services"@.len() == 8 && "services"@[0] == 's');
    assert("no"@.len() == 2 && "no"@[0] == 'n');
    assert("node"@.len() == 4 && "node"@[0] == 'n');
    assert("nodes"@.len() == 5 && "nodes"@[0] == 'n');
    assert("st"@.len() == 2 && "st"@[0] == 's');
    assert("stack"@.len() == 5 && "stack"@[0] == 's');
    assert("stacks"@.len() == 6 && "stacks"@[0] == 's');
    assert("ctx"@.len() == 3 && "ctx"@[0] == 'c');
    assert("context"@.len() == 7 && "context"@[0] == 'c');
    assert("contexts"@.len() == 8 && "contexts"@[0] == 'c');
    assert(command_view("co"@) == Some(View::Containers));
    assert(command_view("container"@) == Some(View::Containers));
    assert(command_view("containers"@) == Some(View::Containers));
    assert(command_view("ps"@) == Some(View::Containers));
    assert(command_view("im"@) == Some(View::Images));
    assert(command_view("image"@) == Some(View::Images));
    assert(command_view("images"@) == Some(View::Images));
    assert(command_view("svc"@) == Some(View::Services));
    assert(command_view("service"@) == Some(View::Services));
    assert(command_view("services"@) == Some(View::Services));
    assert(command_view("no"@) == Some(View::Nodes));
    assert(command_view("node"@) == Some(View::Nodes));
    assert(command_view("nodes"@) == Some(View::Nodes));
    assert(command_view("st"@) == Some(View::Stacks));
    assert(command_view("stack"@) == Some(View::Stacks));
    assert(command_view("stacks"@) == Some(View::Stacks));
    assert(command_view("ctx"@) == Some(View::Contexts));
    assert(command_view("context"@) == Some(View::Contexts));
    assert(command_view("contexts"@) == Some(View::Contexts));
    let w = lowercase_of(trimmed(old.command@));
    if command_view(w) is Some {
        let v = command_view(w)->0;
        assert(switch_post(old, new, v, eff));
        assert(new.view == v);
        let f = seq![EffectV::Fetch { view: v, arg: crate::app::fetch_arg_spec(new) }];
        assert(eff.len() >= 1 && eff[0] == f[0]);
    }
}

/// Safe by default: a key press makes a destructive engine call (a delete,
/// a batch over marked rows, a prune) only as the `y` answer to a pending
/// confirmation, which the press then consumes.
pub proof fn destructive_needs_confirm(old: App, new: App, key: Key, ctrl: bool, eff: Seq<EffectV>, i: int)
    requires
        key_post(old, new, key, ctrl, eff),
        0 <= i < eff.len(),
        destructive(eff[i]),
    ensures
        old.confirm is Some,
        key == Key::Char('y') || key == Key::Char('Y'),
        new.confirm is None,
{
    reveal(confirm_key_post);
    reveal(tab_key_post);
    reveal(mode_key_post);
    if ctrl && (key == Key::Char('c') || key == Key::Char('r')) {
        assert(!destructive(eff[i]));
    } else if old.confirm is Some {
    } else if key == Key::Tab || key == Key::BackTab {
        let stops = if old.mode != Mode::Table {
            seq![EffectV::StopLogs, EffectV::StopStats]
        } else {
            Seq::<EffectV>::empty()
        };
        let v = if key == Key::Tab {
            next_tab(old)
        } else {
            prev_tab(old)
        };
        let rest = eff.skip(stops.len() as int);
        lemma_switch_harmless(tab_mid(old, new), new, v, rest);
        if i < stops.len() {
            assert(eff.take(stops.len() as int)[i] == eff[i]);
        } else {
            assert(rest[i - stops.len()] == eff[i]);
        }
        assert(!destructive(eff[i]));
    } else if old.commanding {
        lemma_command_harmless(old, new, key, eff);
    } else if old.filtering {
    } else if key == Key::Char('?') && !old.log_searching && old.mode != Mode::Help {
    } else {
        match old.mode {
            Mode::Table => lemma_table_harmless(old, new, key, eff),
            _ => {},
        }
        assert(!destructive(eff[i]));
    }
}

} // verus!
