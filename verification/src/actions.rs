//! What the table's commands do to the state: drilling into services and
//! stacks, opening compose projects, switching contexts, logs, stats,
//! inspect and compose files.

use vstd::prelude::*;
use vstd::string::*;
use vstd::view::View as ViewOf;
use crate::app::{App, Mode, Effect, EffectV, effs, selected_spec, switch_post};
use crate::docker::{View, view_inspect_type};
use crate::events::{split_on, split_by, lemma_split_on_len};
use crate::text::{views_of, lemma_views_push, lit, cat, cat3, chars_of, string_of, trim_chars, trimmed};
use crate::text::{opt_view, decimal, decimal_u64, lowercase_of, lower_chars, contains_chars, has_substring};
use crate::text::join_spec;

verus! {

/// Entering task view `v` for the selected service or stack: marks, rows,
/// filter and sort reset, loading, the drill field and status naming the
/// row, and the task view listed; nothing without a selection.
pub open spec fn drill_post(old: App, new: App, v: View, eff: Seq<EffectV>) -> bool {
    match selected_spec(old) {
        Some(it) => {
            &&& new == (App {
                view: v,
                prev_view: old.view,
                marked: new.marked,
                selected: 0,
                items: new.items,
                filter: new.filter,
                filtering: false,
                sort_col: None,
                sort_desc: false,
                status: new.status,
                loading: true,
                drill_service: new.drill_service,
                drill_stack: new.drill_stack,
                ..old
            })
            &&& new.marked.wf()
            &&& new.marked@ == Set::<Seq<char>>::empty()
            &&& new.items@.len() == 0
            &&& new.filter@.len() == 0
            &&& if v == View::ServiceTasks {
                &&& new.drill_service@ == it.name@
                &&& new.drill_stack == old.drill_stack
                &&& new.status@ == "tasks of "@ + it.name@
            } else {
                &&& new.drill_stack@ == it.name@
                &&& new.drill_service == old.drill_service
                &&& new.status@ == "services of "@ + it.name@
            }
            &&& eff == seq![EffectV::Fetch { view: v, arg: it.name@ }]
        },
        None => new == old && eff.len() == 0,
    }
}

/// Opening the selected compose project: the Containers view (stopped
/// ones included) filtered by the project's name.
pub open spec fn compose_open_post(old: App, new: App, eff: Seq<EffectV>) -> bool {
    match selected_spec(old) {
        Some(it) => {
            &&& new == (App {
                view: View::Containers,
                marked: new.marked,
                selected: 0,
                items: new.items,
                sort_col: None,
                sort_desc: false,
                filtering: false,
                filter: new.filter,
                show_all: true,
                loading: true,
                status: new.status,
                ..old
            })
            &&& new.marked.wf()
            &&& new.marked@ == Set::<Seq<char>>::empty()
            &&& new.items@.len() == 0
            &&& new.filter@ == it.name@
            &&& new.status@ == "compose project: "@ + it.name@
            &&& eff == seq![EffectV::Fetch { view: View::Containers, arg: "all"@ }]
        },
        None => new == old && eff.len() == 0,
    }
}

/// After connecting to context `name`: it is current, swarm state and
/// volume sizes forgotten, the engine's meta read again and Containers
/// shown.
pub open spec fn switched_post(old: App, new: App, name: Seq<char>, eff: Seq<EffectV>) -> bool {
    let s1 = App { context: new.context, swarm: new.swarm, vol_sizes: new.vol_sizes, status: new.status, ..old };
    &&& new.context@ == name
    &&& new.swarm@.len() == 0
    &&& new.vol_sizes@.len() == 0
    &&& new.status@ == "switched to context '"@ + name + "'"@
    &&& eff.len() >= 1
    &&& eff[0] == EffectV::FetchMeta
    &&& switch_post(s1, new, View::Containers, eff.drop_first())
}

/// Views whose rows have logs.
pub open spec fn log_view(v: View) -> bool {
    v == View::Containers || v == View::Services || v == View::ServiceTasks || v == View::StackTasks
}

/// `s` with only its status changed, to `text`.
pub open spec fn noted(old: App, new: App, text: Seq<char>) -> bool {
    new == (App { status: new.status, ..old }) && new.status@ == text
}

/// Opening the logs of the selected row: an emptied log view following
/// the new stream.
pub open spec fn start_logs_post(old: App, new: App, eff: Seq<EffectV>) -> bool {
    if !log_view(old.view) {
        noted(old, new, "logs: select a container or service"@) && eff.len() == 0
    } else {
        match selected_spec(old) {
            Some(it) => {
                &&& new == (App {
                    logs: new.logs,
                    log_scroll: 0,
                    log_follow: true,
                    log_filter: new.log_filter,
                    log_searching: false,
                    hscroll: 0,
                    log_title: new.log_title,
                    mode: Mode::Logs,
                    ..old
                })
                &&& new.logs@.len() == 0
                &&& new.log_filter@.len() == 0
                &&& new.log_title@ == it.name@
                &&& eff == seq![EffectV::StartLogs { view: old.view, id: it.id@ }]
            },
            None => new == old && eff.len() == 0,
        }
    }
}

/// Opening live stats of the selected container.
pub open spec fn start_stats_post(old: App, new: App, eff: Seq<EffectV>) -> bool {
    if old.view != View::Containers {
        noted(old, new, "stats: only for containers"@) && eff.len() == 0
    } else {
        match selected_spec(old) {
            Some(it) => {
                &&& new == (App { stats_title: new.stats_title, mode: Mode::Stats, ..old })
                &&& new.stats_title@ == it.name@
                &&& eff == seq![EffectV::StartStats { id: it.id@ }]
            },
            None => new == old && eff.len() == 0,
        }
    }
}

/// The first config file recorded for the selected compose project: the
/// text before the first comma of its fourth cell, trimmed, if not empty.
pub open spec fn compose_file_spec(s: App) -> Option<Seq<char>> {
    match selected_spec(s) {
        Some(it) => if it.cells@.len() > 3 {
            let f = trimmed(split_on(it.cells@[3]@, ',')[0]);
            if f.len() > 0 {
                Some(f)
            } else {
                None
            }
        } else {
            None
        },
        None => None,
    }
}

/// The note when a compose project has no recorded file.
pub open spec fn no_compose_file() -> Seq<char> {
    "no compose file recorded for this project"@
}

/// Asking to show the selected project's compose file.
pub open spec fn view_compose_post(old: App, new: App, eff: Seq<EffectV>) -> bool {
    match compose_file_spec(old) {
        None => noted(old, new, no_compose_file()) && eff.len() == 0,
        Some(path) => new == old && eff == seq![EffectV::ReadComposeFile { path }],
    }
}

/// The placeholder shown while text loads.
pub open spec fn loading_lines() -> Seq<Seq<char>> {
    seq!["loading…"@]
}

/// Inspecting the selected row (the compose file in the Compose view).
pub open spec fn start_inspect_post(old: App, new: App, eff: Seq<EffectV>) -> bool {
    if old.view == View::Compose {
        view_compose_post(old, new, eff)
    } else {
        match view_inspect_type(old.view) {
            None => noted(old, new, "inspect: not available here"@) && eff.len() == 0,
            Some(kind) => match selected_spec(old) {
                Some(it) => {
                    &&& new == (App {
                        inspect_lines: new.inspect_lines,
                        inspect_title: new.inspect_title,
                        inspect_scroll: 0,
                        hscroll: 0,
                        mode: Mode::Inspect,
                        ..old
                    })
                    &&& views_of(new.inspect_lines@) == loading_lines()
                    &&& new.inspect_title@ == it.name@
                    &&& eff == seq![EffectV::Inspect { kind: kind@, id: it.id@ }]
                },
                None => new == old && eff.len() == 0,
            },
        }
    }
}

/// Asking to edit the selected project's compose file.
pub open spec fn edit_compose_post(old: App, new: App) -> bool {
    match compose_file_spec(old) {
        None => noted(old, new, no_compose_file()),
        Some(path) => new == (App { pending_edit: new.pending_edit, ..old }) && opt_view(new.pending_edit) == Some(
            path,
        ),
    }
}

/// Whether `c` is alphabetic or numeric, as `char::is_alphanumeric` tests
/// (Unicode `Alphabetic`, or general category Nd, Nl or No).
pub uninterp spec fn alphanumeric(c: char) -> bool;

/// Calls `char::is_alphanumeric`; its result is named `alphanumeric` (the
/// Unicode tables are not restated here).
#[verifier::external_body]
fn is_alphanumeric(c: char) -> (r: bool)
    ensures
        r == alphanumeric(c),
{
    c.is_alphanumeric()
}

/// `c` as it may stand in a file name: itself when alphanumeric, `-` or
/// `_`, else `_`.
pub open spec fn safe_char(c: char) -> char {
    if alphanumeric(c) || c == '-' || c == '_' {
        c
    } else {
        '_'
    }
}

/// The file logs titled `title` are saved to: `d9cker-<title>.log` with
/// unsafe characters replaced (`logs` for an empty title).
pub open spec fn log_path_spec(title: Seq<char>) -> Seq<char> {
    let name = title.map_values(|c: char| safe_char(c));
    "d9cker-"@ + (if name.len() == 0 {
        "logs"@
    } else {
        name
    }) + ".log"@
}

/// The file name for saving logs titled `title`.
pub fn log_path(title: &str) -> (r: String)
    ensures
        r@ == log_path_spec(title@),
{
    let cs = chars_of(title);
    let mut name: Vec<char> = Vec::new();
    let mut i: usize = 0;
    while i < cs.len()
        invariant
            i <= cs@.len(),
            cs@ == title@,
            name@ == title@.take(i as int).map_values(|c: char| safe_char(c)),
        decreases cs.len() - i,
    {
        let c = cs[i];
        let keep = is_alphanumeric(c) || c == '-' || c == '_';
        name.push(if keep {
            c
        } else {
            '_'
        });
        assert(title@.take(i + 1).map_values(|c: char| safe_char(c)) =~= title@.take(i as int).map_values(
            |c: char| safe_char(c),
        ).push(safe_char(c)));
        i += 1;
    }
    assert(title@.take(title@.len() as int) == title@);
    let mut r = lit("d9cker-");
    if name.len() == 0 {
        r.append("logs");
    } else {
        r.append(string_of(&name).as_str());
    }
    r.append(".log");
    r
}

/// `parts` joined with `sep`.
pub fn join_strings(parts: &Vec<String>, sep: &str) -> (r: String)
    ensures
        r@ == join_spec(views_of(parts@), sep@),
{
    let ghost pv = views_of(parts@);
    let mut r = String::new();
    let mut i: usize = 0;
    while i < parts.len()
        invariant
            i <= parts@.len(),
            pv == views_of(parts@),
            r@ == join_spec(pv.take(i as int), sep@),
        decreases parts.len() - i,
    {
        proof {
            assert(pv.take(i + 1).drop_last() == pv.take(i as int));
            assert(pv.take(i + 1).last() == parts@[i as int]@);
        }
        if i > 0 {
            r.append(sep);
        } else {
            assert(pv.take(1).len() == 1);
        }
        r.append(parts[i].as_str());
        i += 1;
    }
    assert(pv.take(parts@.len() as int) == pv);
    r
}

/// The log lines whose lower case contains `needle`, in order.
pub open spec fn logs_matching(logs: Seq<Seq<char>>, needle: Seq<char>) -> Seq<Seq<char>>
    decreases logs.len(),
{
    if logs.len() == 0 {
        Seq::empty()
    } else {
        let r = logs_matching(logs.drop_last(), needle);
        if has_substring(lowercase_of(logs.last()), needle) {
            r.push(logs.last())
        } else {
            r
        }
    }
}

/// The log lines shown for the in-log search `filter` (all when empty).
pub open spec fn filtered_logs_spec(logs: Seq<Seq<char>>, filter: Seq<char>) -> Seq<Seq<char>> {
    if filter.len() == 0 {
        logs
    } else {
        logs_matching(logs, lowercase_of(filter))
    }
}

/// Whether a line's lower case contains `needle` somewhere.
pub open spec fn lower_contains(needle: Seq<char>) -> spec_fn(Seq<char>) -> bool {
    |l: Seq<char>|
        exists|i: int, j: int|
            0 <= i && j == i + needle.len() && j <= lowercase_of(l).len() && #[trigger] lowercase_of(
                l,
            ).subrange(i, j) == needle
}

proof fn lemma_matching_is_filter(logs: Seq<Seq<char>>, needle: Seq<char>)
    ensures
        logs_matching(logs, needle) == logs.filter(lower_contains(needle)),
    decreases logs.len(),
{
    reveal(Seq::filter);
    if logs.len() > 0 {
        lemma_matching_is_filter(logs.drop_last(), needle);
        let x = logs.last();
        let h = lowercase_of(x);
        if has_substring(h, needle) {
            let i = choose|i: int| crate::text::occurs_at(h, needle, i);
            assert(h.subrange(i, i + needle.len()) == needle);
            assert(lower_contains(needle)(x));
        }
        if lower_contains(needle)(x) {
            let (i, j) = choose|i: int, j: int|
                0 <= i && j == i + needle.len() && j <= h.len() && #[trigger] h.subrange(i, j) == needle;
            assert(crate::text::occurs_at(h, needle, i));
        }
    }
}

/// The in-log search shows, in order, exactly the lines whose lower case
/// contains the lower-cased search text somewhere in it; with no search
/// text every line is shown.
pub proof fn log_search_keeps_lines_containing(logs: Seq<Seq<char>>, filter: Seq<char>)
    ensures
        filter.len() == 0 ==> filtered_logs_spec(logs, filter) == logs,
        filter.len() > 0 ==> filtered_logs_spec(logs, filter) == logs.filter(lower_contains(lowercase_of(filter))),
{
    lemma_matching_is_filter(logs, lowercase_of(filter));
}

impl App {
    /// Drill from the selected service into its tasks.
    pub fn drill_into_service(&mut self) -> (eff: Vec<Effect>)
        requires
            old(self).wf(),
        ensures
            final(self).wf(),
            drill_post(*old(self), *final(self), View::ServiceTasks, effs(eff@)),
    {
        let name = match self.selected_item() {
            Some(it) => it.name.clone(),
            None => {
                let none: Vec<Effect> = Vec::new();
                assert(effs(none@) =~= Seq::<EffectV>::empty());
                return none;
            },
        };
        self.status = cat("tasks of ", name.as_str());
        self.drill_service = name;
        self.prev_view = self.view;
        self.view = View::ServiceTasks;
        self.marked.clear();
        self.selected = 0;
        self.items.clear();
        self.filter = String::new();
        self.filtering = false;
        self.sort_col = None;
        self.sort_desc = false;
        let f = self.refresh();
        let eff = vec![f];
        assert(effs(eff@) =~= seq![f@]);
        eff
    }

    /// Drill from the selected stack into the services that make it up.
    pub fn drill_into_stack(&mut self) -> (eff: Vec<Effect>)
        requires
            old(self).wf(),
        ensures
            final(self).wf(),
            drill_post(*old(self), *final(self), View::StackTasks, effs(eff@)),
    {
        let name = match self.selected_item() {
            Some(it) => it.name.clone(),
            None => {
                let none: Vec<Effect> = Vec::new();
                assert(effs(none@) =~= Seq::<EffectV>::empty());
                return none;
            },
        };
        self.status = cat("services of ", name.as_str());
        self.drill_stack = name;
        self.prev_view = self.view;
        self.view = View::StackTasks;
        self.marked.clear();
        self.selected = 0;
        self.items.clear();
        self.filter = String::new();
        self.filtering = false;
        self.sort_col = None;
        self.sort_desc = false;
        let f = self.refresh();
        let eff = vec![f];
        assert(effs(eff@) =~= seq![f@]);
        eff
    }

    /// Jump from a compose project to the containers that belong to it.
    pub fn open_compose_project(&mut self) -> (eff: Vec<Effect>)
        requires
            old(self).wf(),
        ensures
            final(self).wf(),
            compose_open_post(*old(self), *final(self), effs(eff@)),
    {
        let proj = match self.selected_item() {
            Some(it) => it.name.clone(),
            None => {
                let none: Vec<Effect> = Vec::new();
                assert(effs(none@) =~= Seq::<EffectV>::empty());
                return none;
            },
        };
        self.view = View::Containers;
        self.marked.clear();
        self.selected = 0;
        self.items.clear();
        self.sort_col = None;
        self.sort_desc = false;
        self.filtering = false;
        self.status = cat("compose project: ", proj.as_str());
        self.filter = proj;
        self.show_all = true;
        let f = self.refresh();
        let eff = vec![f];
        assert(effs(eff@) =~= seq![f@]);
        eff
    }

    /// Ask to connect to the selected context.
    pub fn switch_context(&self) -> (eff: Vec<Effect>)
        ensures
            effs(eff@) == match selected_spec(*self) {
                Some(it) => seq![EffectV::SwitchContext { name: it.name@ }],
                None => Seq::<EffectV>::empty(),
            },
    {
        let mut eff: Vec<Effect> = Vec::new();
        match self.selected_item() {
            Some(it) => {
                eff.push(Effect::SwitchContext { name: it.name.clone() });
            },
            None => {},
        }
        assert(effs(eff@) =~= match selected_spec(*self) {
            Some(it) => seq![EffectV::SwitchContext { name: it.name@ }],
            None => Seq::<EffectV>::empty(),
        });
        eff
    }

    /// Connected to context `name`.
    pub fn context_switched(&mut self, name: String) -> (eff: Vec<Effect>)
        requires
            old(self).wf(),
        ensures
            final(self).wf(),
            switched_post(*old(self), *final(self), name@, effs(eff@)),
    {
        self.status = cat3("switched to context '", name.as_str(), "'");
        self.context = name;
        self.swarm = String::new();
        self.vol_sizes = Vec::new();
        let ghost s1 = *self;
        let rest = self.switch_view(View::Containers);
        let mut eff = vec![Effect::FetchMeta];
        let ghost r = effs(rest@);
        let mut rest = rest;
        eff.append(&mut rest);
        assert(effs(eff@) =~= seq![EffectV::FetchMeta] + r);
        assert(effs(eff@).drop_first() =~= r);
        eff
    }

    /// Connecting to context `name` failed with `err`.
    pub fn context_switch_failed(&mut self, name: &str, err: &str)
        ensures
            noted(*old(self), *final(self), "⚠ context '"@ + name@ + "': "@ + err@),
    {
        let mut st = cat3("⚠ context '", name, "': ");
        st.append(err);
        self.status = st;
    }

    /// Open the logs of the selected container, service or task.
    pub fn start_logs(&mut self) -> (eff: Vec<Effect>)
        ensures
            start_logs_post(*old(self), *final(self), effs(eff@)),
    {
        let mut eff: Vec<Effect> = Vec::new();
        assert(effs(eff@) =~= Seq::<EffectV>::empty());
        if !(self.view == View::Containers || self.view == View::Services || self.view == View::ServiceTasks
            || self.view == View::StackTasks) {
            self.status = lit("logs: select a container or service");
            return eff;
        }
        let (id, title) = match self.selected_item() {
            Some(it) => (it.id.clone(), it.name.clone()),
            None => return eff,
        };
        eff.push(Effect::StartLogs { view: self.view, id });
        self.logs.clear();
        self.log_scroll = 0;
        self.log_follow = true;
        self.log_filter = String::new();
        self.log_searching = false;
        self.hscroll = 0;
        self.log_title = title;
        self.mode = Mode::Logs;
        assert(effs(eff@) =~= seq![eff@[0]@]);
        eff
    }

    /// Log lines matching the in-log search.
    pub fn filtered_logs(&self) -> (r: Vec<String>)
        ensures
            views_of(r@) == filtered_logs_spec(views_of(self.logs@), self.log_filter@),
    {
        let ghost lv = views_of(self.logs@);
        let all = self.log_filter.as_str().unicode_len() == 0;
        let needle = lower_chars(self.log_filter.as_str());
        let mut r: Vec<String> = Vec::new();
        let mut i: usize = 0;
        while i < self.logs.len()
            invariant
                i <= self.logs@.len(),
                lv == views_of(self.logs@),
                all == (self.log_filter@.len() == 0),
                needle@ == lowercase_of(self.log_filter@),
                views_of(r@) == if all {
                    lv.take(i as int)
                } else {
                    logs_matching(lv.take(i as int), needle@)
                },
            decreases self.logs.len() - i,
        {
            proof {
                assert(lv.take(i + 1).drop_last() == lv.take(i as int));
                assert(lv.take(i + 1).last() == self.logs@[i as int]@);
            }
            let keep = all || contains_chars(&lower_chars(self.logs[i].as_str()), &needle);
            if keep {
                let ghost before = r@;
                r.push(self.logs[i].clone());
                proof {
                    lemma_views_push(before, r@.last());
                    assert(r@ == before.push(r@.last()));
                }
            }
            i += 1;
        }
        assert(lv.take(self.logs@.len() as int) == lv);
        r
    }

    /// Where and what to write to save the logs.
    pub fn save_logs(&self) -> (e: Effect)
        ensures
            e@ == (EffectV::SaveLogs {
                path: log_path_spec(self.log_title@),
                contents: join_spec(views_of(self.logs@), "\n"@),
            }),
    {
        Effect::SaveLogs { path: log_path(self.log_title.as_str()), contents: join_strings(&self.logs, "\n") }
    }

    /// The logs were written to `path` (or not, with the error).
    pub fn logs_saved(&mut self, path: &str, r: Result<(), String>)
        ensures
            noted(
                *old(self),
                *final(self),
                match r {
                    Ok(_) => "saved "@ + decimal(old(self).logs@.len()) + " lines -> "@ + path@,
                    Err(e) => "⚠ save: "@ + e@,
                },
            ),
    {
        match r {
            Ok(_) => {
                let n = decimal_u64(self.logs.len() as u64);
                let mut st = lit("saved ");
                st.append(string_of(&n).as_str());
                st.append(" lines -> ");
                st.append(path);
                self.status = st;
            },
            Err(e) => {
                self.status = cat("⚠ save: ", e.as_str());
            },
        }
    }

    /// Open live stats of the selected container.
    pub fn start_stats(&mut self) -> (eff: Vec<Effect>)
        ensures
            start_stats_post(*old(self), *final(self), effs(eff@)),
    {
        let mut eff: Vec<Effect> = Vec::new();
        assert(effs(eff@) =~= Seq::<EffectV>::empty());
        if self.view != View::Containers {
            self.status = lit("stats: only for containers");
            return eff;
        }
        let (id, title) = match self.selected_item() {
            Some(it) => (it.id.clone(), it.name.clone()),
            None => return eff,
        };
        eff.push(Effect::StartStats { id });
        self.stats_title = title;
        self.mode = Mode::Stats;
        assert(effs(eff@) =~= seq![eff@[0]@]);
        eff
    }

    /// First config file recorded for the selected compose project.
    pub fn selected_compose_file(&self) -> (r: Option<String>)
        ensures
            opt_view(r) == compose_file_spec(*self),
    {
        let it = match self.selected_item() {
            Some(it) => it,
            None => return None,
        };
        if it.cells.len() <= 3 {
            return None;
        }
        let parts = split_by(it.cells[3].as_str(), ',');
        proof {
            lemma_split_on_len(it.cells@[3]@, ',');
        }
        let first = trim_chars(&chars_of(parts[0].as_str()));
        if first.len() == 0 {
            None
        } else {
            Some(string_of(&first))
        }
    }

    /// Ask to show the selected project's compose file.
    pub fn view_compose_file(&mut self) -> (eff: Vec<Effect>)
        ensures
            view_compose_post(*old(self), *final(self), effs(eff@)),
    {
        let mut eff: Vec<Effect> = Vec::new();
        match self.selected_compose_file() {
            None => {
                self.status = lit("no compose file recorded for this project");
            },
            Some(path) => {
                eff.push(Effect::ReadComposeFile { path });
            },
        }
        assert(effs(eff@) =~= match compose_file_spec(*old(self)) {
            None => Seq::<EffectV>::empty(),
            Some(path) => seq![EffectV::ReadComposeFile { path }],
        });
        eff
    }

    /// The engine host was resolved and compose file `path` is being read.
    pub fn compose_read_started(&mut self, path: String)
        ensures
            *final(self) == (App {
                inspect_lines: final(self).inspect_lines,
                inspect_title: path,
                inspect_scroll: 0,
                mode: Mode::Inspect,
                ..*old(self)
            }),
            views_of(final(self).inspect_lines@) == loading_lines(),
    {
        let mut lines: Vec<String> = Vec::new();
        lines.push(lit("loading…"));
        assert(views_of(lines@) =~= loading_lines());
        self.inspect_lines = lines;
        self.inspect_title = path;
        self.inspect_scroll = 0;
        self.mode = Mode::Inspect;
    }

    /// The current context's engine host could not be resolved.
    pub fn host_unresolved(&mut self, err: &str)
        ensures
            noted(*old(self), *final(self), "⚠ "@ + err@),
    {
        self.status = cat("⚠ ", err);
    }

    /// Inspect the selected row (the compose file in the Compose view).
    pub fn start_inspect(&mut self) -> (eff: Vec<Effect>)
        ensures
            start_inspect_post(*old(self), *final(self), effs(eff@)),
    {
        if self.view == View::Compose {
            return self.view_compose_file();
        }
        let mut eff: Vec<Effect> = Vec::new();
        assert(effs(eff@) =~= Seq::<EffectV>::empty());
        let kind = match self.view.inspect_type() {
            Some(k) => k,
            None => {
                self.status = lit("inspect: not available here");
                return eff;
            },
        };
        let (title, id) = match self.selected_item() {
            Some(it) => (it.name.clone(), it.id.clone()),
            None => return eff,
        };
        let mut lines: Vec<String> = Vec::new();
        lines.push(lit("loading…"));
        assert(views_of(lines@) =~= loading_lines());
        self.inspect_lines = lines;
        self.inspect_title = title;
        self.inspect_scroll = 0;
        self.hscroll = 0;
        self.mode = Mode::Inspect;
        eff.push(Effect::Inspect { kind: lit(kind), id });
        assert(effs(eff@) =~= seq![eff@[0]@]);
        eff
    }

    /// Ask to edit the selected project's compose file (taken by the caller
    /// with `take_pending_edit`).
    pub fn request_edit_compose(&mut self)
        ensures
            edit_compose_post(*old(self), *final(self)),
    {
        match self.selected_compose_file() {
            None => {
                self.status = lit("no compose file recorded for this project");
            },
            Some(path) => {
                self.pending_edit = Some(path);
            },
        }
    }

    /// The container to open a shell in, if one was asked for.
    pub fn take_pending_exec(&mut self) -> (r: Option<String>)
        ensures
            r == old(self).pending_exec,
            *final(self) == (App { pending_exec: None, ..*old(self) }),
    {
        self.pending_exec.take()
    }

    /// The container to attach to, if one was asked for.
    pub fn take_pending_attach(&mut self) -> (r: Option<String>)
        ensures
            r == old(self).pending_attach,
            *final(self) == (App { pending_attach: None, ..*old(self) }),
    {
        self.pending_attach.take()
    }

    /// The compose file to edit, if one was asked for.
    pub fn take_pending_edit(&mut self) -> (r: Option<String>)
        ensures
            r == old(self).pending_edit,
            *final(self) == (App { pending_edit: None, ..*old(self) }),
    {
        self.pending_edit.take()
    }
}

} // verus!
