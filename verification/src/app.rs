//! Application state and input handling, as a state machine: each key press
//! or background message updates the state and yields the effects (Docker
//! calls, streams, subprocesses, files) that the caller performs and reports
//! back as messages.

use vstd::prelude::*;
use vstd::view::View as ViewOf;
use crate::docker::{View, Item, view_columns};
use crate::mark::{MarkSet, Target};
use crate::text::{lower_chars, lowercase_of, contains_chars, has_substring, views_of, lit};
use crate::mark::{toggled, flipped_by, ids_at_spec, mark_ids, invert_marks, toggle_mark, ids_at};
use crate::events::{names_unique, size_views};
use crate::size::{cell_order, cell_rank, size_spec, cell_order_antisymmetric, cell_order_transitive};

verus! {

/// Log lines kept in memory.
pub const LOG_CAP: usize = 5000;

/// Columns moved per ←/→ press.
pub const HSTEP: usize = 8;

/// Bound on row counts, positions and page sizes.
pub const ROW_LIMIT: usize = 0x7fff_ffff;

/// What the content area shows.
#[derive(Clone, Copy, Debug, PartialEq, Eq, Structural)]
pub enum Mode {
    Table,
    Peek,
    Logs,
    Inspect,
    Stats,
    Help,
}

/// A destructive action awaiting y/n confirmation.
#[derive(Debug)]
pub enum PendingAction {
    Delete { view: View, id: String, label: String },
    Batch { verb: String, view: View, targets: Vec<Target> },
    PruneImages,
    /// ≈ `docker system prune -a` (no volumes).
    SystemPrune,
}

/// A prompt and the action it confirms.
#[derive(Debug)]
pub struct Confirm {
    pub prompt: String,
    pub action: PendingAction,
}

/// Work the state machine asks its caller to do. Results come back as
/// [`Msg`]s.
#[derive(Debug)]
pub enum Effect {
    /// List `view` (`arg`: current context, drilled service or stack, or
    /// `all` for every container) and report `Data` or `Error`.
    Fetch { view: View, arg: String },
    /// Read swarm state and compose project count; report `Meta`.
    FetchMeta,
    /// Read volume sizes; report `VolumeSizes`.
    FetchVolumeSizes,
    /// Stream logs of `id` (a service when `view` is Services).
    StartLogs { view: View, id: String },
    StopLogs,
    /// Stream live stats of container `id` (showing none until the first).
    StartStats { id: String },
    StopStats,
    Inspect { kind: String, id: String },
    /// Show a compose file of the current context's engine host; report
    /// `Inspect` or `Error`, after `compose_read_started` once the host is
    /// resolved (or `host_unresolved`).
    ReadComposeFile { path: String },
    ContainerAction { verb: String, id: String, label: String },
    Delete { view: View, id: String, label: String },
    Batch { verb: String, view: View, targets: Vec<Target> },
    Scale { name: String, delta: i64 },
    PruneImages,
    SystemPrune,
    /// Write `contents` to the file `path`; report with `logs_saved`.
    SaveLogs { path: String, contents: String },
    /// Connect to context `name`; report with `context_switched`.
    SwitchContext { name: String },
}

/// An effect, with its strings as character sequences.
pub enum EffectV {
    Fetch { view: View, arg: Seq<char> },
    FetchMeta,
    FetchVolumeSizes,
    StartLogs { view: View, id: Seq<char> },
    StopLogs,
    StartStats { id: Seq<char> },
    StopStats,
    Inspect { kind: Seq<char>, id: Seq<char> },
    ReadComposeFile { path: Seq<char> },
    ContainerAction { verb: Seq<char>, id: Seq<char>, label: Seq<char> },
    Delete { view: View, id: Seq<char>, label: Seq<char> },
    Batch { verb: Seq<char>, view: View, targets: Seq<(Seq<char>, Seq<char>)> },
    Scale { name: Seq<char>, delta: i64 },
    PruneImages,
    SystemPrune,
    SaveLogs { path: Seq<char>, contents: Seq<char> },
    SwitchContext { name: Seq<char> },
}

impl ViewOf for Effect {
    type V = EffectV;

    open spec fn view(&self) -> EffectV {
        match self {
            Effect::Fetch { view, arg } => EffectV::Fetch { view: *view, arg: arg@ },
            Effect::FetchMeta => EffectV::FetchMeta,
            Effect::FetchVolumeSizes => EffectV::FetchVolumeSizes,
            Effect::StartLogs { view, id } => EffectV::StartLogs { view: *view, id: id@ },
            Effect::StopLogs => EffectV::StopLogs,
            Effect::StartStats { id } => EffectV::StartStats { id: id@ },
            Effect::StopStats => EffectV::StopStats,
            Effect::Inspect { kind, id } => EffectV::Inspect { kind: kind@, id: id@ },
            Effect::ReadComposeFile { path } => EffectV::ReadComposeFile { path: path@ },
            Effect::ContainerAction { verb, id, label } => EffectV::ContainerAction {
                verb: verb@,
                id: id@,
                label: label@,
            },
            Effect::Delete { view, id, label } => EffectV::Delete { view: *view, id: id@, label: label@ },
            Effect::Batch { verb, view, targets } => EffectV::Batch {
                verb: verb@,
                view: *view,
                targets: targets@.map_values(|t: Target| t@),
            },
            Effect::Scale { name, delta } => EffectV::Scale { name: name@, delta: *delta },
            Effect::PruneImages => EffectV::PruneImages,
            Effect::SystemPrune => EffectV::SystemPrune,
            Effect::SaveLogs { path, contents } => EffectV::SaveLogs { path: path@, contents: contents@ },
            Effect::SwitchContext { name } => EffectV::SwitchContext { name: name@ },
        }
    }
}

/// The views of a sequence of effects.
pub open spec fn effs(v: Seq<Effect>) -> Seq<EffectV> {
    v.map_values(|e: Effect| e@)
}

/// The whole UI state that input and messages act on.
#[derive(Debug)]
pub struct App {
    pub should_quit: bool,
    pub context: String,
    pub swarm: String,
    pub compose_projects: usize,
    pub view: View,
    pub items: Vec<Item>,
    pub marked: MarkSet,
    pub selected: usize,
    pub loading: bool,
    pub mode: Mode,
    pub prev_mode: Mode,
    pub status: String,
    pub filter: String,
    pub filtering: bool,
    pub command: String,
    pub commanding: bool,
    pub confirm: Option<Confirm>,
    pub drill_service: String,
    pub drill_stack: String,
    pub prev_view: View,
    /// visible content rows, refreshed each frame from the terminal size
    pub page_size: usize,
    /// index of the first visible row — keeps the selection on screen
    pub voffset: usize,
    pub hscroll: usize,
    pub sort_col: Option<usize>,
    pub sort_desc: bool,
    /// Containers view: include exited/stopped or running only.
    pub show_all: bool,
    pub vol_sizes: Vec<(String, i64)>,
    pub logs: Vec<String>,
    pub log_title: String,
    pub log_follow: bool,
    /// scrollback lines from the bottom; 0 == pinned
    pub log_scroll: usize,
    pub log_filter: String,
    pub log_searching: bool,
    pub log_wrap: bool,
    pub inspect_lines: Vec<String>,
    pub inspect_title: String,
    pub inspect_scroll: usize,
    pub stats_title: String,
    /// container to open a shell in, taken by the caller
    pub pending_exec: Option<String>,
    /// container to attach to, taken by the caller
    pub pending_attach: Option<String>,
    /// compose file of the current context to edit, taken by the caller
    pub pending_edit: Option<String>,
}

/// The cell of `it` in column `col`, empty when the row has no such cell.
pub open spec fn cell_at(it: Item, col: int) -> Seq<char> {
    if 0 <= col < it.cells@.len() {
        it.cells@[col]@
    } else {
        Seq::empty()
    }
}

/// Some cell of `it` contains `needle` once lower-cased.
pub open spec fn row_matches(it: Item, needle: Seq<char>) -> bool {
    exists|c: int| 0 <= c < it.cells@.len() && has_substring(lowercase_of(#[trigger] it.cells@[c]@), needle)
}

/// Indices of the rows that pass the filter (all rows for an empty filter),
/// in order.
pub open spec fn filtered_spec(items: Seq<Item>, filter: Seq<char>) -> Seq<usize>
    decreases items.len(),
{
    if items.len() == 0 {
        Seq::empty()
    } else {
        let rest = filtered_spec(items.drop_last(), filter);
        if filter.len() == 0 || row_matches(items.last(), lowercase_of(filter)) {
            rest.push((items.len() - 1) as usize)
        } else {
            rest
        }
    }
}

/// How row `i` orders against row `j` on column `col` (-1, 0, 1), reversed
/// when sorting descending.
pub open spec fn row_order(items: Seq<Item>, col: int, desc: bool, i: int, j: int) -> int {
    let o = cell_order(cell_at(items[i], col), cell_at(items[j], col));
    if desc {
        -o
    } else {
        o
    }
}

/// `j` is where a stable insertion puts row `x` into `r`: after every row it
/// does not order before, before the first it does.
pub open spec fn is_sort_pos(items: Seq<Item>, col: int, desc: bool, r: Seq<usize>, x: usize, j: int) -> bool {
    &&& 0 <= j <= r.len()
    &&& forall|k: int| 0 <= k < j ==> row_order(items, col, desc, x as int, #[trigger] r[k] as int) != -1
    &&& j == r.len() || row_order(items, col, desc, x as int, r[j] as int) == -1
}

/// Stable sort of row indices by column `col` (`sort_by`).
pub open spec fn sorted_rows(items: Seq<Item>, col: int, desc: bool, idx: Seq<usize>) -> Seq<usize>
    decreases idx.len(),
{
    if idx.len() == 0 {
        idx
    } else {
        let r = sorted_rows(items, col, desc, idx.drop_last());
        let j = choose|j: int| is_sort_pos(items, col, desc, r, idx.last(), j);
        r.insert(j, idx.last())
    }
}

/// The rows shown, as indices into `items`: filtered, then sorted when a
/// sort column is set.
#[verifier::opaque]
pub open spec fn visible_spec(s: App) -> Seq<usize> {
    let f = filtered_spec(s.items@, s.filter@);
    match s.sort_col {
        None => f,
        Some(c) => sorted_rows(s.items@, c as int, s.sort_desc, f),
    }
}

/// Whether some cell of `it` contains `needle` once lower-cased.
fn row_has(it: &Item, needle: &[char]) -> (b: bool)
    ensures
        b == row_matches(*it, needle@),
{
    let mut c: usize = 0;
    while c < it.cells.len()
        invariant
            c <= it.cells@.len(),
            forall|k: int| 0 <= k < c ==> !has_substring(lowercase_of(#[trigger] it.cells@[k]@), needle@),
        decreases it.cells.len() - c,
    {
        let l = lower_chars(it.cells[c].as_str());
        if contains_chars(&l, needle) {
            return true;
        }
        c += 1;
    }
    false
}

proof fn lemma_sort_pos_unique(items: Seq<Item>, col: int, desc: bool, r: Seq<usize>, x: usize, j1: int, j2: int)
    requires
        is_sort_pos(items, col, desc, r, x, j1),
        is_sort_pos(items, col, desc, r, x, j2),
    ensures
        j1 == j2,
{
    if j1 < j2 {
        assert(row_order(items, col, desc, x as int, r[j1] as int) != -1);
    } else if j2 < j1 {
        assert(row_order(items, col, desc, x as int, r[j2] as int) != -1);
    }
}

/// The cell text of row `i` in column `col` (empty when missing).
fn cell_str(items: &Vec<Item>, i: usize, col: usize) -> (r: &str)
    requires
        i < items@.len(),
    ensures
        r@ == cell_at(items@[i as int], col as int),
{
    if col < items[i].cells.len() {
        items[i].cells[col].as_str()
    } else {
        proof {
            reveal_strlit("");
        }
        ""
    }
}

proof fn lemma_filtered_bounds(items: Seq<Item>, filter: Seq<char>)
    ensures
        forall|t: int| 0 <= t < filtered_spec(items, filter).len() ==> #[trigger] filtered_spec(items, filter)[t] < items.len(),
    decreases items.len(),
{
    if items.len() > 0 {
        lemma_filtered_bounds(items.drop_last(), filter);
        let rest = filtered_spec(items.drop_last(), filter);
        let f = filtered_spec(items, filter);
        assert forall|t: int| 0 <= t < f.len() implies #[trigger] f[t] < items.len() by {
            if t < rest.len() {
                assert(f[t] == rest[t]);
            }
        }
    }
}

/// Whether row `x` orders strictly before row `y` on column `col`.
fn row_before(items: &Vec<Item>, col: usize, desc: bool, x: usize, y: usize) -> (b: bool)
    requires
        x < items@.len(),
        y < items@.len(),
    ensures
        b == (row_order(items@, col as int, desc, x as int, y as int) == -1),
{
    let cx = cell_str(items, x, col);
    let cy = cell_str(items, y, col);
    let o = cell_rank(cx, cy);
    proof {
        crate::size::cell_order_antisymmetric(cx@, cy@);
    }
    if desc {
        o == 1
    } else {
        o == -1
    }
}

/// The list argument for the current view: the context for Contexts, the
/// drilled service or stack for their task views, `all` for Containers when
/// exited containers are shown, else empty.
pub open spec fn fetch_arg_spec(s: App) -> Seq<char> {
    match s.view {
        View::Contexts => s.context@,
        View::ServiceTasks => s.drill_service@,
        View::StackTasks => s.drill_stack@,
        View::Containers => if s.show_all {
            "all"@
        } else {
            Seq::empty()
        },
        _ => Seq::empty(),
    }
}

/// Rows per half page (at least 1).
pub open spec fn half_page_spec(s: App) -> usize {
    if s.page_size / 2 >= 1 {
        s.page_size / 2
    } else {
        1
    }
}

/// `s` with its selection and scroll offset replaced.
pub open spec fn with_sel(s: App, sel: usize, off: usize) -> App {
    App { selected: sel, voffset: off, ..s }
}

/// Scroll just enough that the selected row is on screen.
#[verifier::opaque]
pub open spec fn ensure_spec(s: App) -> App {
    let h = if s.page_size >= 1 {
        s.page_size as int
    } else {
        1
    };
    if s.selected < s.voffset {
        with_sel(s, s.selected, s.selected)
    } else if s.selected >= s.voffset + h {
        with_sel(s, s.selected, (s.selected + 1 - h) as usize)
    } else {
        s
    }
}

pub(crate) broadcast proof fn lemma_ensure_frame(s: App)
    ensures
        #[trigger] ensure_spec(s) == with_sel(s, s.selected, ensure_spec(s).voffset),
{
    reveal(ensure_spec);
}

/// Clamping changes only the selection and the scroll offset.
pub(crate) broadcast proof fn lemma_clamp_frame(s: App)
    ensures
        #[trigger] clamp_spec(s) == with_sel(s, clamp_spec(s).selected, clamp_spec(s).voffset),
{
    reveal(clamp_spec);
    let n = visible_spec(s).len() as int;
    let sel = if n == 0 {
        0
    } else if s.selected as int >= n {
        n - 1
    } else {
        s.selected as int
    };
    let h = if s.page_size >= 1 {
        s.page_size as int
    } else {
        1
    };
    let max_off = if n > h {
        n - h
    } else {
        0
    };
    let off = if (s.voffset as int) < max_off {
        s.voffset as int
    } else {
        max_off
    };
    lemma_ensure_frame(snap_spec(with_sel(s, sel as usize, off as usize)));
}

/// Row `p` of the shown rows is a group header.
pub open spec fn header_at(s: App, vis: Seq<usize>, p: int) -> bool {
    s.items@[vis[p] as int].header
}

/// `p` is the first non-header shown row at or after `from`.
pub open spec fn first_row_from(s: App, vis: Seq<usize>, from: int, p: int) -> bool {
    &&& from <= p < vis.len()
    &&& !header_at(s, vis, p)
    &&& forall|q: int| from <= q < p ==> #[trigger] header_at(s, vis, q)
}

/// Some non-header shown row is at or after `from`.
pub open spec fn has_first_row(s: App, vis: Seq<usize>, from: int) -> bool {
    exists|p: int| first_row_from(s, vis, from, p)
}

/// Some non-header shown row is at or before `from`.
pub open spec fn has_last_row(s: App, vis: Seq<usize>, from: int) -> bool {
    exists|p: int| last_row_to(s, vis, from, p)
}

/// `p` is the last non-header shown row at or before `from`.
pub open spec fn last_row_to(s: App, vis: Seq<usize>, from: int, p: int) -> bool {
    &&& 0 <= p <= from
    &&& p < vis.len()
    &&& !header_at(s, vis, p)
    &&& forall|q: int| p < q <= from ==> #[trigger] header_at(s, vis, q)
}

/// Where the selection moves to get off a group header: the first
/// non-header row from the selection (clamped to the shown rows) forward,
/// else the last one before it; the selection itself when there is none.
#[verifier::opaque]
pub open spec fn snap_sel(s: App) -> usize {
    let vis = visible_spec(s);
    let n = vis.len() as int;
    if n == 0 {
        s.selected
    } else {
        let start = if (s.selected as int) < n - 1 {
            s.selected as int
        } else {
            n - 1
        };
        let before = start - 1;
        if has_first_row(s, vis, start) {
            (choose|p: int| first_row_from(s, vis, start, p)) as usize
        } else if has_last_row(s, vis, before) {
            (choose|p: int| last_row_to(s, vis, before, p)) as usize
        } else {
            s.selected
        }
    }
}

/// Move the selection off a group header.
pub open spec fn snap_spec(s: App) -> App {
    with_sel(s, snap_sel(s), s.voffset)
}

/// Clamp the selection to the shown rows and the offset to the last page,
/// then move off headers and scroll the selection into view.
#[verifier::opaque]
pub open spec fn clamp_spec(s: App) -> App {
    let n = visible_spec(s).len() as int;
    let sel = if n == 0 {
        0
    } else if s.selected as int >= n {
        n - 1
    } else {
        s.selected as int
    };
    let h = if s.page_size >= 1 {
        s.page_size as int
    } else {
        1
    };
    let max_off = if n > h {
        n - h
    } else {
        0
    };
    let off = if (s.voffset as int) < max_off {
        s.voffset as int
    } else {
        max_off
    };
    ensure_spec(snap_spec(with_sel(s, sel as usize, off as usize)))
}

/// The row the selection moves to for a move by `delta`: the target row
/// (clamped to the shown rows), stepped over group headers in the direction
/// of travel, backing off the other way at the edge; `None` when no row can
/// be selected.
#[verifier::opaque]
pub open spec fn move_target(s: App, delta: int) -> Option<usize> {
    let vis = visible_spec(s);
    let n = vis.len() as int;
    if n == 0 {
        None
    } else {
        let raw = s.selected + delta;
        let target = if raw < 0 {
            0
        } else if raw > n - 1 {
            n - 1
        } else {
            raw
        };
        if delta >= 0 {
            if has_first_row(s, vis, target) {
                Some((choose|p: int| first_row_from(s, vis, target, p)) as usize)
            } else if has_last_row(s, vis, target) {
                Some((choose|p: int| last_row_to(s, vis, target, p)) as usize)
            } else {
                None
            }
        } else {
            if has_last_row(s, vis, target) {
                Some((choose|p: int| last_row_to(s, vis, target, p)) as usize)
            } else if has_first_row(s, vis, target) {
                Some((choose|p: int| first_row_from(s, vis, target, p)) as usize)
            } else {
                None
            }
        }
    }
}

/// Move the selection by `delta` rows and scroll it into view; unchanged
/// when no row can be selected.
pub open spec fn move_spec(s: App, delta: int) -> App {
    match move_target(s, delta) {
        Some(p) => ensure_spec(with_sel(s, p, s.voffset)),
        None => s,
    }
}

/// The selected row, if the selection is on a shown row.
pub open spec fn selected_spec(s: App) -> Option<Item> {
    let vis = visible_spec(s);
    if s.selected < vis.len() {
        Some(s.items@[vis[s.selected as int] as int])
    } else {
        None
    }
}

pub(crate) proof fn lemma_first_row_unique(s: App, vis: Seq<usize>, from: int, p1: int, p2: int)
    requires
        first_row_from(s, vis, from, p1),
        first_row_from(s, vis, from, p2),
    ensures
        p1 == p2,
{
    if p1 < p2 {
        assert(header_at(s, vis, p1));
    }
    if p2 < p1 {
        assert(header_at(s, vis, p2));
    }
}

proof fn lemma_last_row_unique(s: App, vis: Seq<usize>, from: int, p1: int, p2: int)
    requires
        last_row_to(s, vis, from, p1),
        last_row_to(s, vis, from, p2),
    ensures
        p1 == p2,
{
    if p1 < p2 {
        assert(header_at(s, vis, p2));
    }
    if p2 < p1 {
        assert(header_at(s, vis, p1));
    }
}

proof fn lemma_sort_pos_exists(items: Seq<Item>, col: int, desc: bool, r: Seq<usize>, x: usize)
    ensures
        exists|j: int| is_sort_pos(items, col, desc, r, x, j),
    decreases r.len(),
{
    if r.len() == 0 {
        assert(is_sort_pos(items, col, desc, r, x, 0));
    } else {
        let p = r.drop_last();
        lemma_sort_pos_exists(items, col, desc, p, x);
        let j = choose|j: int| is_sort_pos(items, col, desc, p, x, j);
        if j < p.len() {
            assert(is_sort_pos(items, col, desc, r, x, j)) by {
                assert forall|k: int| 0 <= k < j implies row_order(items, col, desc, x as int, #[trigger] r[k] as int) != -1 by {
                    assert(r[k] == p[k]);
                }
                assert(r[j] == p[j]);
            }
        } else if row_order(items, col, desc, x as int, r[r.len() - 1] as int) == -1 {
            assert(is_sort_pos(items, col, desc, r, x, r.len() - 1)) by {
                assert forall|k: int| 0 <= k < r.len() - 1 implies row_order(items, col, desc, x as int, #[trigger] r[k] as int) != -1 by {
                    assert(r[k] == p[k]);
                }
            }
        } else {
            assert(is_sort_pos(items, col, desc, r, x, r.len() as int)) by {
                assert forall|k: int| 0 <= k < r.len() implies row_order(items, col, desc, x as int, #[trigger] r[k] as int) != -1 by {
                    if k < r.len() - 1 {
                        assert(r[k] == p[k]);
                    }
                }
            }
        }
    }
}

/// Sorting keeps the rows: same length, every element drawn from the input.
proof fn lemma_sorted_rows_elems(items: Seq<Item>, col: int, desc: bool, idx: Seq<usize>)
    ensures
        sorted_rows(items, col, desc, idx).len() == idx.len(),
        forall|t: int| 0 <= t < idx.len() ==> idx.contains(#[trigger] sorted_rows(items, col, desc, idx)[t]),
    decreases idx.len(),
{
    if idx.len() > 0 {
        let p = idx.drop_last();
        lemma_sorted_rows_elems(items, col, desc, p);
        let r = sorted_rows(items, col, desc, p);
        lemma_sort_pos_exists(items, col, desc, r, idx.last());
        let j = choose|j: int| is_sort_pos(items, col, desc, r, idx.last(), j);
        let out = r.insert(j, idx.last());
        assert forall|t: int| 0 <= t < idx.len() implies idx.contains(#[trigger] out[t]) by {
            if t < j {
                assert(out[t] == r[t]);
                assert(p.contains(r[t]));
                let w = choose|w: int| 0 <= w < p.len() && p[w] == r[t];
                assert(idx[w] == p[w]);
            } else if t == j {
                assert(idx[idx.len() - 1] == idx.last());
            } else {
                assert(out[t] == r[t - 1]);
                assert(p.contains(r[t - 1]));
                let w = choose|w: int| 0 <= w < p.len() && p[w] == r[t - 1];
                assert(idx[w] == p[w]);
            }
        }
    }
}

proof fn lemma_filtered_len(items: Seq<Item>, filter: Seq<char>)
    ensures
        filtered_spec(items, filter).len() <= items.len(),
    decreases items.len(),
{
    if items.len() > 0 {
        lemma_filtered_len(items.drop_last(), filter);
    }
}

proof fn lemma_visible_len(s: App)
    ensures
        visible_spec(s).len() <= s.items@.len(),
{
    lemma_visible_bounds(s);
}

pub(crate) proof fn lemma_visible_bounds(s: App)
    ensures
        forall|t: int| 0 <= t < visible_spec(s).len() ==> #[trigger] visible_spec(s)[t] < s.items@.len(),
        visible_spec(s).len() <= s.items@.len(),
{
    reveal(visible_spec);
    let f = filtered_spec(s.items@, s.filter@);
    lemma_filtered_bounds(s.items@, s.filter@);
    lemma_filtered_len(s.items@, s.filter@);
    match s.sort_col {
        None => {},
        Some(c) => {
            lemma_sorted_rows_elems(s.items@, c as int, s.sort_desc, f);
            let v = visible_spec(s);
            assert forall|t: int| 0 <= t < v.len() implies #[trigger] v[t] < s.items@.len() by {
                assert(f.contains(v[t]));
                let w = choose|w: int| 0 <= w < f.len() && f[w] == v[t];
            }
        },
    }
}

/// The state after switching to view `v`: marks, rows, filter, sort and
/// scroll reset, loading; the effects fetch the new view (and volume sizes
/// when entering Volumes without any).
pub open spec fn switch_post(old: App, new: App, v: View, eff: Seq<EffectV>) -> bool {
    &&& new == (App {
        view: v,
        marked: new.marked,
        selected: 0,
        items: new.items,
        filter: new.filter,
        filtering: false,
        sort_col: None,
        sort_desc: false,
        hscroll: 0,
        voffset: 0,
        loading: true,
        ..old
    })
    &&& new.marked.wf()
    &&& new.marked@ == Set::<Seq<char>>::empty()
    &&& new.items@.len() == 0
    &&& new.filter@.len() == 0
    &&& eff == seq![EffectV::Fetch { view: v, arg: fetch_arg_spec(new) }] + if v == View::Volumes
        && old.vol_sizes@.len() == 0 {
        seq![EffectV::FetchVolumeSizes]
    } else {
        Seq::empty()
    }
}

/// The view the Tab order shows, in order.
pub open spec fn tab_order() -> Seq<View> {
    seq![
        View::Containers,
        View::Compose,
        View::Services,
        View::Stacks,
        View::Nodes,
        View::Images,
        View::Volumes,
        View::Networks,
        View::Contexts,
    ]
}

/// Whether tab `v` is shown: swarm views only while the engine's swarm is
/// active or not yet known, Compose only when compose projects exist.
pub open spec fn tab_shown(s: App, v: View) -> bool {
    match v {
        View::Services | View::Nodes | View::Stacks => s.swarm@.len() == 0 || s.swarm@ == "active"@,
        View::Compose => s.compose_projects > 0,
        _ => true,
    }
}

/// Tabs shown, in tab order.
pub open spec fn tabs_spec(s: App) -> Seq<View> {
    tab_order().filter(|v: View| tab_shown(s, v))
}

/// The tabs shown depend only on the swarm state and the compose projects.
pub proof fn lemma_tabs_same(a: App, b: App)
    requires
        a.swarm@ == b.swarm@,
        a.compose_projects == b.compose_projects,
    ensures
        tabs_spec(a) == tabs_spec(b),
{
    let sa = |v: View| tab_shown(a, v);
    let sb = |v: View| tab_shown(b, v);
    assert forall|v: View| #[trigger] sa(v) == sb(v) by {}
    assert(sa =~= sb);
}

/// `i` is the first position of `v` in `s`.
pub open spec fn is_first_pos(s: Seq<View>, v: View, i: int) -> bool {
    0 <= i < s.len() && s[i] == v && forall|j: int| 0 <= j < i ==> s[j] != v
}

/// Position of `v` in `s`, if present.
pub open spec fn pos_of(s: Seq<View>, v: View) -> Option<int> {
    if s.contains(v) {
        Some(choose|i: int| is_first_pos(s, v, i))
    } else {
        None
    }
}

/// Position of the current view among the tabs; a drill-down view counts
/// as the tab it descends from; 0 when absent.
pub open spec fn tab_index_spec(s: App) -> int {
    let tabs = tabs_spec(s);
    let parent = match s.view {
        View::ServiceTasks => View::Services,
        View::StackTasks => View::Stacks,
        _ => s.view,
    };
    match pos_of(tabs, s.view) {
        Some(i) => i,
        None => if parent != s.view {
            match pos_of(tabs, parent) {
                Some(i) => i,
                None => 0,
            }
        } else {
            0
        },
    }
}

/// A view that occurs in `s` has a first position there.
proof fn lemma_first_pos(s: Seq<View>, v: View)
    requires
        s.contains(v),
    ensures
        pos_of(s, v) is Some,
        is_first_pos(s, v, pos_of(s, v)->0),
    decreases s.len(),
{
    let d = s.drop_last();
    if d.contains(v) {
        lemma_first_pos(d, v);
        let i = pos_of(d, v)->0;
        assert forall|j: int| 0 <= j < i implies s[j] != v by {
            assert(d[j] == s[j]);
        }
        assert(s[i] == d[i]);
        assert(is_first_pos(s, v, i));
    } else {
        let n = s.len() - 1;
        assert forall|j: int| 0 <= j < n implies s[j] != v by {
            assert(d[j] == s[j]);
        }
        if s[n] != v {
            let k = choose|k: int| 0 <= k < s.len() && s[k] == v;
            assert(false);
        }
        assert(is_first_pos(s, v, n));
    }
}

/// The highlighted tab is the current view's: its position among the shown
/// tabs, and for a drill-down view (a service's or a stack's tasks) the
/// position of the tab it descends from.
pub proof fn tab_index_names_current_tab(s: App)
    ensures
        0 <= tab_index_spec(s) < tabs_spec(s).len(),
        tabs_spec(s).contains(s.view) ==> tabs_spec(s)[tab_index_spec(s)] == s.view,
        s.view == View::ServiceTasks && tabs_spec(s).contains(View::Services) ==> tabs_spec(s)[tab_index_spec(s)]
            == View::Services,
        s.view == View::StackTasks && tabs_spec(s).contains(View::Stacks) ==> tabs_spec(s)[tab_index_spec(s)]
            == View::Stacks,
{
    tabs_follow_engine(s);
    let t = tabs_spec(s);
    if t.contains(s.view) {
        lemma_first_pos(t, s.view);
    }
    if t.contains(View::Services) {
        lemma_first_pos(t, View::Services);
    }
    if t.contains(View::Stacks) {
        lemma_first_pos(t, View::Stacks);
    }
}

/// Does any row group header exist.
pub open spec fn any_header(items: Seq<Item>) -> bool {
    exists|i: int| 0 <= i < items.len() && #[trigger] items[i].header
}

/// The next sort column: none → the first, then each in turn, then none.
pub open spec fn next_sort_col(c: Option<usize>, ncols: nat) -> Option<usize> {
    match c {
        None => Some(0),
        Some(k) => if k + 1 < ncols {
            Some((k + 1) as usize)
        } else {
            None
        },
    }
}

/// Leaving the text inputs: command line, filter and log search closed
/// and emptied.
pub open spec fn exit_inputs_post(old: App, new: App) -> bool {
    &&& new == (App {
        commanding: false,
        command: new.command,
        filtering: false,
        filter: new.filter,
        log_searching: false,
        ..old
    })
    &&& new.command@.len() == 0
    &&& new.filter@.len() == 0
}

/// Cycling the sort column, refused with a note when rows are grouped.
pub open spec fn cycle_sort_post(old: App, new: App) -> bool {
    if any_header(old.items@) {
        new == (App { status: new.status, ..old }) && new.status@ == "sort disabled in grouped view"@
    } else {
        new == (App { sort_col: next_sort_col(old.sort_col, view_columns(old.view).len()), ..old })
    }
}

/// Toggling the mark of the selected row and moving down (a header row or
/// no selection: nothing).
pub open spec fn toggle_post(old: App, new: App) -> bool {
    match selected_spec(old) {
        Some(it) => if !it.header {
            &&& new.marked@ == toggled(old.marked@, it.id@)
            &&& new == move_spec(App { marked: new.marked, ..old }, 1)
        } else {
            new == old
        },
        None => new == old,
    }
}

/// Marking every shown non-header row.
pub open spec fn mark_all_post(old: App, new: App) -> bool {
    &&& new == (App { marked: new.marked, ..old })
    &&& new.marked@ == old.marked@ + ids_at_spec(old.items@, visible_spec(old)).to_set()
}

/// Unmarking everything.
pub open spec fn unmark_post(old: App, new: App) -> bool {
    &&& new == (App { marked: new.marked, ..old })
    &&& new.marked@ == Set::<Seq<char>>::empty()
}

/// Flipping the mark of every shown non-header row.
pub open spec fn invert_post(old: App, new: App) -> bool {
    &&& new == (App { marked: new.marked, ..old })
    &&& new.marked@ == flipped_by(old.marked@, ids_at_spec(old.items@, visible_spec(old)))
}

impl App {
    /// Machine limits the state stays within.
    pub open spec fn wf(&self) -> bool {
        &&& self.marked.wf()
        &&& names_unique(size_views(self.vol_sizes@))
        &&& self.items@.len() <= ROW_LIMIT
        &&& self.selected <= ROW_LIMIT
        &&& self.page_size <= ROW_LIMIT
        &&& self.voffset <= ROW_LIMIT
    }

    /// Row indices currently shown (filtered, then sorted).
    pub fn visible_indices(&self) -> (r: Vec<usize>)
        ensures
            r@ == visible_spec(*self),
    {
        reveal(visible_spec);
        let needle = lower_chars(self.filter.as_str());
        let filter_empty = self.filter.as_str().unicode_len() == 0;
        let mut idx: Vec<usize> = Vec::new();
        let mut i: usize = 0;
        while i < self.items.len()
            invariant
                i <= self.items@.len(),
                needle@ == lowercase_of(self.filter@),
                filter_empty == (self.filter@.len() == 0),
                idx@ == filtered_spec(self.items@.take(i as int), self.filter@),
            decreases self.items.len() - i,
        {
            proof {
                let t = self.items@.take(i + 1);
                assert(t.drop_last() == self.items@.take(i as int));
                assert(t.last() == self.items@[i as int]);
            }
            if filter_empty || row_has(&self.items[i], &needle) {
                idx.push(i);
            }
            i += 1;
        }
        assert(self.items@.take(self.items@.len() as int) == self.items@);
        match self.sort_col {
            None => idx,
            Some(col) => {
                let ghost f = idx@;
                proof {
                    lemma_filtered_bounds(self.items@, self.filter@);
                }
                let mut out: Vec<usize> = Vec::new();
                let mut k: usize = 0;
                while k < idx.len()
                    invariant
                        k <= idx@.len(),
                        f == idx@,
                        forall|t: int| 0 <= t < f.len() ==> #[trigger] f[t] < self.items@.len(),
                        out@ == sorted_rows(self.items@, col as int, self.sort_desc, f.take(k as int)),
                        forall|t: int| 0 <= t < out@.len() ==> #[trigger] out@[t] < self.items@.len(),
                    decreases idx.len() - k,
                {
                    let x = idx[k];
                    let mut j: usize = 0;
                    while j < out.len() && !row_before(&self.items, col, self.sort_desc, x, out[j])
                        invariant
                            j <= out@.len(),
                            x < self.items@.len(),
                            forall|t: int| 0 <= t < out@.len() ==> #[trigger] out@[t] < self.items@.len(),
                            forall|t: int|
                                0 <= t < j ==> row_order(
                                    self.items@,
                                    col as int,
                                    self.sort_desc,
                                    x as int,
                                    #[trigger] out@[t] as int,
                                ) != -1,
                        decreases out.len() - j,
                    {
                        j += 1;
                    }
                    proof {
                        let t = f.take(k + 1);
                        assert(t.drop_last() == f.take(k as int));
                        assert(t.last() == x);
                        assert(is_sort_pos(self.items@, col as int, self.sort_desc, out@, x, j as int));
                        let jj = choose|jj: int|
                            is_sort_pos(self.items@, col as int, self.sort_desc, out@, x, jj);
                        lemma_sort_pos_unique(self.items@, col as int, self.sort_desc, out@, x, j as int, jj);
                    }
                    out.insert(j, x);
                    k += 1;
                }
                assert(f.take(f.len() as int) == f);
                out
            },
        }
    }

    /// The list argument for the current view.
    pub fn fetch_arg(&self) -> (r: String)
        ensures
            r@ == fetch_arg_spec(*self),
    {
        match self.view {
            View::Contexts => self.context.clone(),
            View::ServiceTasks => self.drill_service.clone(),
            View::StackTasks => self.drill_stack.clone(),
            View::Containers => if self.show_all {
                lit("all")
            } else {
                String::new()
            },
            _ => String::new(),
        }
    }

    /// Rows per half page (at least 1).
    pub fn half_page(&self) -> (r: usize)
        ensures
            r == half_page_spec(*self),
    {
        let h = self.page_size / 2;
        if h >= 1 {
            h
        } else {
            1
        }
    }

    /// Scroll the window just enough that the selected row stays visible.
    pub fn ensure_visible(&mut self)
        requires
            old(self).wf(),
        ensures
            *final(self) == ensure_spec(*old(self)),
            final(self).wf(),
    {
        reveal(ensure_spec);
        let h = if self.page_size >= 1 {
            self.page_size
        } else {
            1
        };
        if self.selected < self.voffset {
            self.voffset = self.selected;
        } else if self.selected >= self.voffset + h {
            self.voffset = self.selected + 1 - h;
        }
    }

    /// First non-header shown row at or after `from`.
    fn first_row(&self, vis: &Vec<usize>, from: usize) -> (r: Option<usize>)
        requires
            vis@ == visible_spec(*self),
        ensures
            r matches Some(p) ==> first_row_from(*self, vis@, from as int, p as int),
            r is None ==> !exists|p: int| first_row_from(*self, vis@, from as int, p),
    {
        proof {
            lemma_visible_bounds(*self);
        }
        let mut p = from;
        while p < vis.len() && self.items[vis[p]].header
            invariant
                from <= p,
                vis@ == visible_spec(*self),
                forall|t: int| 0 <= t < vis@.len() ==> #[trigger] vis@[t] < self.items@.len(),
                forall|q: int| from <= q < p ==> #[trigger] header_at(*self, vis@, q),
            decreases vis.len() - p,
        {
            p += 1;
        }
        if p < vis.len() {
            Some(p)
        } else {
            None
        }
    }

    /// Last non-header shown row at or before `from` (none when `from < 0`).
    fn last_row(&self, vis: &Vec<usize>, from: i64) -> (r: Option<usize>)
        requires
            vis@ == visible_spec(*self),
            from < vis@.len(),
            vis@.len() <= ROW_LIMIT,
        ensures
            r matches Some(p) ==> last_row_to(*self, vis@, from as int, p as int),
            r is None ==> !exists|p: int| last_row_to(*self, vis@, from as int, p),
    {
        proof {
            lemma_visible_bounds(*self);
        }
        if from < 0 {
            return None;
        }
        let mut q: usize = (from + 1) as usize;
        while q > 0 && self.items[vis[q - 1]].header
            invariant
                0 <= q <= from + 1,
                from < vis@.len(),
                vis@ == visible_spec(*self),
                forall|t: int| 0 <= t < vis@.len() ==> #[trigger] vis@[t] < self.items@.len(),
                forall|w: int| q <= w <= from ==> #[trigger] header_at(*self, vis@, w),
            decreases q,
        {
            q -= 1;
        }
        if q > 0 {
            Some(q - 1)
        } else {
            None
        }
    }

    /// Move `selected` off a group-header row (headers aren't selectable):
    /// search forward from the current row, then backward.
    #[verifier::spinoff_prover]
    #[verifier::rlimit(80)]
    pub fn snap_off_header(&mut self)
        requires
            old(self).wf(),
        ensures
            *final(self) == snap_spec(*old(self)),
            final(self).wf(),
    {
        reveal(snap_sel);
        let vis = self.visible_indices();
        proof {
            lemma_visible_bounds(*self);
        }
        let n = vis.len();
        if n == 0 {
            return;
        }
        let start = if self.selected < n - 1 {
            self.selected
        } else {
            n - 1
        };
        let ghost vs = vis@;
        match self.first_row(&vis, start) {
            Some(p) => {
                proof {
                    let q = choose|q: int| first_row_from(*self, vs, start as int, q);
                    lemma_first_row_unique(*self, vs, start as int, p as int, q);
                }
                self.selected = p;
            },
            None => {
                match self.last_row(&vis, start as i64 - 1) {
                    Some(p) => {
                        proof {
                            let before = start - 1;
                            let q = choose|q: int| last_row_to(*self, vs, before, q);
                            lemma_last_row_unique(*self, vs, before, p as int, q);
                        }
                        self.selected = p;
                    },
                    None => {},
                }
            },
        }
    }

    /// Clamp the selection to the shown rows, then move off headers and
    /// scroll it into view.
    #[verifier::spinoff_prover]
    #[verifier::rlimit(80)]
    pub fn clamp_selection(&mut self)
        requires
            old(self).wf(),
        ensures
            *final(self) == clamp_spec(*old(self)),
            final(self).wf(),
    {
        let ghost s0 = *self;
        let n = self.visible_indices().len();
        proof {
            lemma_visible_len(s0);
        }
        let sel: usize = if n == 0 {
            0
        } else if self.selected >= n {
            n - 1
        } else {
            self.selected
        };
        let h = if self.page_size >= 1 {
            self.page_size
        } else {
            1
        };
        let max_off = if n > h {
            n - h
        } else {
            0
        };
        let off = if self.voffset < max_off {
            self.voffset
        } else {
            max_off
        };
        self.selected = sel;
        self.voffset = off;
        proof {
            reveal(clamp_spec);
            assert(*self == with_sel(s0, sel, off));
        }
        self.snap_off_header();
        self.ensure_visible();
    }

    /// Move the selection by `delta` rows, stepping over group headers.
    #[verifier::spinoff_prover]
    #[verifier::rlimit(80)]
    pub fn move_sel(&mut self, delta: i64)
        requires
            old(self).wf(),
            -(ROW_LIMIT as int) <= delta <= ROW_LIMIT,
        ensures
            *final(self) == move_spec(*old(self), delta as int),
            final(self).wf(),
    {
        reveal(move_target);
        let vis = self.visible_indices();
        proof {
            lemma_visible_bounds(*self);
        }
        let n = vis.len();
        if n == 0 {
            return;
        }
        let ghost vs = vis@;
        let raw: i64 = self.selected as i64 + delta;
        let target: i64 = if raw < 0 {
            0
        } else if raw > n as i64 - 1 {
            n as i64 - 1
        } else {
            raw
        };
        let forward = if delta >= 0 {
            self.first_row(&vis, target as usize)
        } else {
            self.last_row(&vis, target)
        };
        let found = match forward {
            Some(p) => Some(p),
            None => if delta >= 0 {
                self.last_row(&vis, target)
            } else {
                self.first_row(&vis, target as usize)
            },
        };
        proof {
            if let Some(p) = forward {
                if delta >= 0 {
                    let q = choose|q: int| first_row_from(*self, vs, target as int, q);
                    lemma_first_row_unique(*self, vs, target as int, p as int, q);
                } else {
                    let q = choose|q: int| last_row_to(*self, vs, target as int, q);
                    lemma_last_row_unique(*self, vs, target as int, p as int, q);
                }
            } else if let Some(p) = found {
                if delta >= 0 {
                    let q = choose|q: int| last_row_to(*self, vs, target as int, q);
                    lemma_last_row_unique(*self, vs, target as int, p as int, q);
                } else {
                    let q = choose|q: int| first_row_from(*self, vs, target as int, q);
                    lemma_first_row_unique(*self, vs, target as int, p as int, q);
                }
            }
        }
        if let Some(p) = found {
            self.selected = p;
            self.ensure_visible();
        }
    }

    /// Mark the list as loading and ask for it.
    pub fn refresh(&mut self) -> (e: Effect)
        ensures
            *final(self) == (App { loading: true, ..*old(self) }),
            e@ == (EffectV::Fetch { view: old(self).view, arg: fetch_arg_spec(*old(self)) }),
    {
        self.loading = true;
        Effect::Fetch { view: self.view, arg: self.fetch_arg() }
    }

    /// Switch to view `v`, resetting marks, rows, filter, sort and scroll.
    pub fn switch_view(&mut self, v: View) -> (eff: Vec<Effect>)
        requires
            old(self).wf(),
        ensures
            switch_post(*old(self), *final(self), v, effs(eff@)),
            final(self).wf(),
    {
        self.view = v;
        self.marked.clear();
        self.selected = 0;
        self.items.clear();
        self.filter = String::new();
        self.filtering = false;
        self.sort_col = None;
        self.sort_desc = false;
        self.hscroll = 0;
        self.voffset = 0;
        let mut eff: Vec<Effect> = Vec::new();
        let f = self.refresh();
        eff.push(f);
        if v == View::Volumes && self.vol_sizes.len() == 0 {
            eff.push(Effect::FetchVolumeSizes);
        }
        proof {
            assert(effs(eff@) =~= seq![EffectV::Fetch { view: v, arg: fetch_arg_spec(*self) }] + if v
                == View::Volumes && old(self).vol_sizes@.len() == 0 {
                seq![EffectV::FetchVolumeSizes]
            } else {
                Seq::empty()
            });
        }
        eff
    }

    /// Tabs visible for the current context. Swarm views are shown only
    /// while the swarm is active (or not yet known); Compose only when there
    /// are compose projects.
    pub fn tabs(&self) -> (r: Vec<View>)
        ensures
            r@ == tabs_spec(*self),
            r@.len() >= 1,
            r@[0] == View::Containers,
    {
        let swarm = self.swarm.as_str().unicode_len() == 0 || self.swarm == lit("active");
        let compose = self.compose_projects > 0;
        let order = [
            View::Containers,
            View::Compose,
            View::Services,
            View::Stacks,
            View::Nodes,
            View::Images,
            View::Volumes,
            View::Networks,
            View::Contexts,
        ];
        let mut r: Vec<View> = Vec::new();
        let mut i: usize = 0;
        assert(order@ == tab_order());
        while i < 9
            invariant
                i <= 9,
                order@ == tab_order(),
                swarm == (self.swarm@.len() == 0 || self.swarm@ == "active"@),
                compose == (self.compose_projects > 0),
                r@ == tab_order().take(i as int).filter(|v: View| tab_shown(*self, v)),
                i >= 1 ==> r@.len() >= 1 && r@[0] == View::Containers,
            decreases 9 - i,
        {
            let v = order[i];
            let shown = match v {
                View::Services | View::Nodes | View::Stacks => swarm,
                View::Compose => compose,
                _ => true,
            };
            proof {
                reveal(Seq::filter);
                assert(tab_order().take(i + 1).drop_last() == tab_order().take(i as int));
                assert(shown == tab_shown(*self, v));
            }
            if shown {
                r.push(v);
            }
            i += 1;
        }
        assert(tab_order().take(9) == tab_order());
        r
    }

    /// Position of `v` in `tabs`.
    fn position_of(tabs: &Vec<View>, v: View) -> (r: Option<usize>)
        ensures
            r matches Some(i) ==> i < tabs@.len(),
            match (r, pos_of(tabs@, v)) {
                (Some(i), Some(j)) => i == j,
                (None, None) => true,
                _ => false,
            },
    {
        let mut i: usize = 0;
        while i < tabs.len()
            invariant
                i <= tabs@.len(),
                forall|j: int| 0 <= j < i ==> tabs@[j] != v,
            decreases tabs.len() - i,
        {
            if tabs[i] == v {
                proof {
                    assert(tabs@.contains(v));
                    let k = choose|k: int| is_first_pos(tabs@, v, k);
                    assert(is_first_pos(tabs@, v, i as int));
                    if k < i {
                    }
                    if k > i {
                        assert(tabs@[i as int] != v);
                    }
                }
                return Some(i);
            }
            i += 1;
        }
        None
    }

    /// Position of the current view among the tabs.
    pub fn tab_index(&self) -> (r: usize)
        ensures
            r == tab_index_spec(*self),
            r < tabs_spec(*self).len(),
    {
        let tabs = self.tabs();
        match Self::position_of(&tabs, self.view) {
            Some(i) => i,
            None => {
                let parent = match self.view {
                    View::ServiceTasks => View::Services,
                    View::StackTasks => View::Stacks,
                    _ => return 0,
                };
                match Self::position_of(&tabs, parent) {
                    Some(i) => i,
                    None => 0,
                }
            },
        }
    }

    /// Switch to the next tab (wrapping).
    pub fn next_view(&mut self) -> (eff: Vec<Effect>)
        requires
            old(self).wf(),
        ensures
            switch_post(
                *old(self),
                *final(self),
                tabs_spec(*old(self))[(tab_index_spec(*old(self)) + 1) % (tabs_spec(*old(self)).len() as int)],
                effs(eff@),
            ),
            final(self).wf(),
    {
        let tabs = self.tabs();
        let i = (self.tab_index() + 1) % tabs.len();
        self.switch_view(tabs[i])
    }

    /// Switch to the previous tab (wrapping).
    pub fn prev_view(&mut self) -> (eff: Vec<Effect>)
        requires
            old(self).wf(),
        ensures
            switch_post(
                *old(self),
                *final(self),
                tabs_spec(*old(self))[(tab_index_spec(*old(self)) + tabs_spec(*old(self)).len() - 1)
                    % (tabs_spec(*old(self)).len() as int)],
                effs(eff@),
            ),
            final(self).wf(),
    {
        let tabs = self.tabs();
        let i = (self.tab_index() + tabs.len() - 1) % tabs.len();
        self.switch_view(tabs[i])
    }

    /// Leave any text-input sub-mode (filter / command / log search).
    pub fn exit_inputs(&mut self)
        ensures
            exit_inputs_post(*old(self), *final(self)),
    {
        self.commanding = false;
        self.command = String::new();
        self.filtering = false;
        self.filter = String::new();
        self.log_searching = false;
    }

    /// Cycle the sort column; refused (with a note) in grouped views.
    pub fn cycle_sort(&mut self)
        ensures
            cycle_sort_post(*old(self), *final(self)),
    {
        let mut i: usize = 0;
        while i < self.items.len()
            invariant
                i <= self.items@.len(),
                *self == *old(self),
                forall|j: int| 0 <= j < i ==> !(#[trigger] self.items@[j]).header,
            decreases self.items.len() - i,
        {
            if self.items[i].header {
                assert(any_header(old(self).items@));
                self.status = lit("sort disabled in grouped view");
                return;
            }
            i += 1;
        }
        let ncols = self.view.columns().len();
        self.sort_col = match self.sort_col {
            None => Some(0),
            Some(c) => if ncols > 0 && c < ncols - 1 {
                Some(c + 1)
            } else {
                None
            },
        };
    }

    /// Toggle the mark on the selected row, then move down.
    pub fn toggle_mark_selected(&mut self)
        requires
            old(self).wf(),
        ensures
            final(self).wf(),
            toggle_post(*old(self), *final(self)),
    {
        let id = match self.selected_item() {
            Some(it) => if it.header {
                return;
            } else {
                it.id.clone()
            },
            None => return,
        };
        toggle_mark(&mut self.marked, id.as_str());
        let ghost mid = *self;
        self.move_sel(1);
        proof {
            match move_target(mid, 1) {
                Some(p) => lemma_ensure_frame(with_sel(mid, p, mid.voffset)),
                None => {},
            }
        }
    }

    /// Ids of the shown non-header rows.
    pub fn visible_markable_ids(&self) -> (r: Vec<String>)
        ensures
            views_of(r@) == ids_at_spec(self.items@, visible_spec(*self)),
    {
        let vis = self.visible_indices();
        ids_at(&self.items, &vis)
    }

    /// Mark every shown non-header row.
    pub fn mark_all_visible(&mut self)
        requires
            old(self).wf(),
        ensures
            final(self).wf(),
            mark_all_post(*old(self), *final(self)),
    {
        let ids = self.visible_markable_ids();
        mark_ids(&mut self.marked, ids);
    }

    /// Unmark everything.
    pub fn unmark_all(&mut self)
        requires
            old(self).wf(),
        ensures
            final(self).wf(),
            unmark_post(*old(self), *final(self)),
    {
        self.marked.clear();
    }

    /// Flip the mark on every shown non-header row.
    pub fn invert_visible_marks(&mut self)
        requires
            old(self).wf(),
        ensures
            final(self).wf(),
            invert_post(*old(self), *final(self)),
    {
        let ids = self.visible_markable_ids();
        invert_marks(&mut self.marked, ids);
    }

    /// The selected row, if the selection is on a shown row.
    pub fn selected_item(&self) -> (r: Option<&Item>)
        ensures
            match (r, selected_spec(*self)) {
                (Some(a), Some(b)) => *a == b,
                (None, None) => true,
                _ => false,
            },
    {
        let vis = self.visible_indices();
        proof {
            lemma_visible_bounds(*self);
        }
        if self.selected < vis.len() {
            Some(&self.items[vis[self.selected]])
        } else {
            None
        }
    }
}


/// Sorting only reorders the shown rows: none is dropped or repeated.
pub proof fn sort_keeps_rows(items: Seq<Item>, col: int, desc: bool, idx: Seq<usize>)
    ensures
        sorted_rows(items, col, desc, idx).to_multiset() == idx.to_multiset(),
    decreases idx.len(),
{
    broadcast use vstd::seq_lib::group_to_multiset_ensures;

    if idx.len() > 0 {
        let p = idx.drop_last();
        let x = idx.last();
        sort_keeps_rows(items, col, desc, p);
        let r = sorted_rows(items, col, desc, p);
        lemma_sort_pos_exists(items, col, desc, r, x);
        let j = choose|j: int| is_sort_pos(items, col, desc, r, x, j);
        let out = r.insert(j, x);
        assert(out.remove(j) =~= r);
        assert(out[j] == x);
        assert(out.contains(x));
        assert(idx =~= p.push(x));
        assert(out.to_multiset() =~= r.to_multiset().insert(x));
    }
}

/// Whether the cell of row `v` in column `col` reads as a size.
pub open spec fn is_size_cell(items: Seq<Item>, col: int, v: usize) -> bool {
    size_spec(cell_at(items[v as int], col)) is Some
}

/// The cells of column `col` in the rows `idx` all read as sizes, or none
/// does.
pub open spec fn column_uniform(items: Seq<Item>, col: int, idx: Seq<usize>) -> bool {
    ||| forall|v: usize| idx.contains(v) ==> #[trigger] is_size_cell(items, col, v)
    ||| forall|v: usize| idx.contains(v) ==> !#[trigger] is_size_cell(items, col, v)
}

proof fn lemma_row_order_antisymmetric(items: Seq<Item>, col: int, desc: bool, x: int, y: int)
    ensures
        row_order(items, col, desc, x, y) == -row_order(items, col, desc, y, x),
{
    cell_order_antisymmetric(cell_at(items[x], col), cell_at(items[y], col));
}

proof fn lemma_row_order_transitive(items: Seq<Item>, col: int, desc: bool, x: usize, y: usize, z: usize)
    requires
        (is_size_cell(items, col, x) && is_size_cell(items, col, y) && is_size_cell(items, col, z)) || (
        !is_size_cell(items, col, x) && !is_size_cell(items, col, y) && !is_size_cell(items, col, z)),
        row_order(items, col, desc, x as int, y as int) != 1,
        row_order(items, col, desc, y as int, z as int) != 1,
    ensures
        row_order(items, col, desc, x as int, z as int) != 1,
{
    let a = cell_at(items[x as int], col);
    let b = cell_at(items[y as int], col);
    let c = cell_at(items[z as int], col);
    cell_order_antisymmetric(a, b);
    cell_order_antisymmetric(b, c);
    cell_order_antisymmetric(a, c);
    if desc {
        cell_order_transitive(c, b, a);
    } else {
        cell_order_transitive(a, b, c);
    }
}

/// Sorting puts the rows in the column's order (reversed when descending)
/// whenever the column's cells all read as sizes or none does: no row
/// comes after a row that orders after it.
pub proof fn sort_orders_rows(items: Seq<Item>, col: int, desc: bool, idx: Seq<usize>)
    requires
        column_uniform(items, col, idx),
    ensures
        forall|i: int, j: int|
            0 <= i < j < sorted_rows(items, col, desc, idx).len() ==> row_order(
                items,
                col,
                desc,
                #[trigger] sorted_rows(items, col, desc, idx)[i] as int,
                #[trigger] sorted_rows(items, col, desc, idx)[j] as int,
            ) != 1,
    decreases idx.len(),
{
    if idx.len() > 0 {
        let p = idx.drop_last();
        let x = idx.last();
        assert forall|v: usize| p.contains(v) implies idx.contains(v) by {
            let w = choose|w: int| 0 <= w < p.len() && p[w] == v;
            assert(idx[w] == v);
        }
        assert(idx.contains(x)) by {
            assert(idx[idx.len() - 1] == x);
        }
        sort_orders_rows(items, col, desc, p);
        let r = sorted_rows(items, col, desc, p);
        lemma_sorted_rows_elems(items, col, desc, p);
        lemma_sort_pos_exists(items, col, desc, r, x);
        let j = choose|j: int| is_sort_pos(items, col, desc, r, x, j);
        let out = r.insert(j, x);
        assert(sorted_rows(items, col, desc, idx) == out);
        assert forall|a: int, b: int| 0 <= a < b < out.len() implies row_order(
            items,
            col,
            desc,
            #[trigger] out[a] as int,
            #[trigger] out[b] as int,
        ) != 1 by {
            if b < j {
                assert(out[a] == r[a] && out[b] == r[b]);
            } else if b == j {
                assert(out[a] == r[a]);
                lemma_row_order_antisymmetric(items, col, desc, x as int, r[a] as int);
            } else if a < j {
                assert(out[a] == r[a] && out[b] == r[b - 1]);
            } else if a == j {
                assert(out[b] == r[b - 1]);
                let y = r[j];
                let z = r[b - 1];
                assert(p.contains(y) && p.contains(z));
                if b - 1 == j {
                    lemma_row_order_antisymmetric(items, col, desc, y as int, y as int);
                }
                lemma_row_order_transitive(items, col, desc, x, y, z);
            } else {
                assert(out[a] == r[a - 1] && out[b] == r[b - 1]);
            }
        }
    }
}

/// With a sort column whose shown cells all read as sizes or none does, the
/// rows are shown in that column's order (reversed when descending).
pub proof fn shown_rows_in_sort_order(s: App)
    requires
        s.sort_col is Some,
        column_uniform(s.items@, s.sort_col.unwrap() as int, filtered_spec(s.items@, s.filter@)),
    ensures
        forall|i: int, j: int|
            0 <= i < j < visible_spec(s).len() ==> row_order(
                s.items@,
                s.sort_col.unwrap() as int,
                s.sort_desc,
                #[trigger] visible_spec(s)[i] as int,
                #[trigger] visible_spec(s)[j] as int,
            ) != 1,
{
    reveal(visible_spec);
    sort_orders_rows(s.items@, s.sort_col.unwrap() as int, s.sort_desc, filtered_spec(s.items@, s.filter@));
}

/// Scrolling to the selection puts the selected row on screen.
pub proof fn ensure_shows_selection(s: App)
    ensures
        ensure_spec(s).selected == s.selected,
        ensure_spec(s).voffset <= s.selected,
        s.selected < ensure_spec(s).voffset + if s.page_size >= 1 {
            s.page_size as int
        } else {
            1
        },
{
    reveal(ensure_spec);
}

/// The tabs follow the engine: the swarm tabs are hidden once the swarm is
/// known not to be active, Compose is hidden without compose projects, the
/// other tabs are always there, Containers first.
pub proof fn tabs_follow_engine(s: App)
    ensures
        tabs_spec(s).len() >= 1,
        tabs_spec(s)[0] == View::Containers,
        s.swarm@.len() > 0 && s.swarm@ != "active"@ ==> !tabs_spec(s).contains(View::Services)
            && !tabs_spec(s).contains(View::Nodes) && !tabs_spec(s).contains(View::Stacks),
        s.swarm@.len() == 0 || s.swarm@ == "active"@ ==> tabs_spec(s).contains(View::Services)
            && tabs_spec(s).contains(View::Nodes) && tabs_spec(s).contains(View::Stacks),
        s.compose_projects == 0 <==> !tabs_spec(s).contains(View::Compose),
        tabs_spec(s).contains(View::Images) && tabs_spec(s).contains(View::Volumes) && tabs_spec(s).contains(
            View::Networks,
        ) && tabs_spec(s).contains(View::Contexts),
        !tabs_spec(s).contains(View::ServiceTasks) && !tabs_spec(s).contains(View::StackTasks),
{
    broadcast use vstd::seq_lib::group_filter_ensures;

    let pred = |v: View| tab_shown(s, v);
    let t = tabs_spec(s);
    let o = tab_order();
    reveal_with_fuel(Seq::filter, 10);
    assert(o.take(1) == seq![View::Containers]);
    assert forall|v: View| #[trigger] t.contains(v) implies o.contains(v) && tab_shown(s, v) by {
        let i = choose|i: int| 0 <= i < t.len() && t[i] == v;
        o.lemma_filter_pred(pred, i);
        let k = choose|k: int| 0 <= k < o.len() && o[k] == v;
    }
    assert(o[0] == View::Containers);
    o.lemma_filter_contains(pred, 0);
    assert(t.contains(View::Containers));
    assert(o[1] == View::Compose);
    assert(o[2] == View::Services);
    assert(o[3] == View::Stacks);
    assert(o[4] == View::Nodes);
    assert(o[5] == View::Images);
    assert(o[6] == View::Volumes);
    assert(o[7] == View::Networks);
    assert(o[8] == View::Contexts);
    if tab_shown(s, View::Compose) {
        o.lemma_filter_contains(pred, 1);
    }
    if tab_shown(s, View::Services) {
        o.lemma_filter_contains(pred, 2);
        o.lemma_filter_contains(pred, 3);
        o.lemma_filter_contains(pred, 4);
    }
    o.lemma_filter_contains(pred, 5);
    o.lemma_filter_contains(pred, 6);
    o.lemma_filter_contains(pred, 7);
    o.lemma_filter_contains(pred, 8);
    if t.contains(View::ServiceTasks) {
        let k = choose|k: int| 0 <= k < o.len() && o[k] == View::ServiceTasks;
    }
    if t.contains(View::StackTasks) {
        let k = choose|k: int| 0 <= k < o.len() && o[k] == View::StackTasks;
    }
}


proof fn lemma_filtered_contains(items: Seq<Item>, filter: Seq<char>, i: usize)
    requires
        items.len() <= usize::MAX,
    ensures
        filtered_spec(items, filter).contains(i) <==> i < items.len() && (filter.len() == 0 || row_matches(
            items[i as int],
            lowercase_of(filter),
        )),
    decreases items.len(),
{
    let f = filtered_spec(items, filter);
    let cond = i < items.len() && (filter.len() == 0 || row_matches(items[i as int], lowercase_of(filter)));
    if items.len() == 0 {
        assert(!f.contains(i));
    } else {
        let p = items.drop_last();
        let n = items.len() - 1;
        lemma_filtered_contains(p, filter, i);
        lemma_filtered_bounds(p, filter);
        let rest = filtered_spec(p, filter);
        let pushed = filter.len() == 0 || row_matches(items.last(), lowercase_of(filter));
        assert(items.last() == items[n]);
        if i < n {
            assert(p[i as int] == items[i as int]);
            if f.contains(i) {
                let k = choose|k: int| 0 <= k < f.len() && f[k] == i;
                if pushed {
                    assert(f == rest.push(n as usize));
                    if k == rest.len() {
                        assert(f[k] == n);
                    } else {
                        assert(f[k] == rest[k]);
                    }
                } else {
                    assert(f == rest);
                }
                assert(rest.contains(i));
            }
            if rest.contains(i) {
                let k = choose|k: int| 0 <= k < rest.len() && rest[k] == i;
                if pushed {
                    assert(f == rest.push(n as usize));
                    assert(f[k] == rest[k]);
                } else {
                    assert(f == rest);
                }
                assert(f.contains(i));
            }
            assert(f.contains(i) == cond);
        } else if i == n {
            if rest.contains(i) {
                let k = choose|k: int| 0 <= k < rest.len() && rest[k] == i;
                assert(rest[k] < p.len());
            }
            if pushed {
                assert(f == rest.push(n as usize));
                assert(f[rest.len() as int] == i);
                assert(f.contains(i));
            } else {
                assert(f == rest);
            }
            assert(f.contains(i) == cond);
        } else {
            if f.contains(i) {
                let k = choose|k: int| 0 <= k < f.len() && f[k] == i;
                if pushed {
                    assert(f == rest.push(n as usize));
                    if k < rest.len() {
                        assert(f[k] == rest[k]);
                        assert(rest[k] < p.len());
                    } else {
                        assert(f[k] == n);
                    }
                } else {
                    assert(f == rest);
                    assert(rest[k] < p.len());
                }
            }
            assert(f.contains(i) == cond);
        }
    }
}

/// The filter shows exactly the rows with a cell that contains it,
/// ignoring case (every row for an empty filter), sorted or not.
pub proof fn filter_shows_matching_rows(s: App, i: usize)
    requires
        s.wf(),
    ensures
        visible_spec(s).contains(i) <==> i < s.items@.len() && (s.filter@.len() == 0 || row_matches(
            s.items@[i as int],
            lowercase_of(s.filter@),
        )),
{
    broadcast use vstd::seq_lib::group_to_multiset_ensures;

    reveal(visible_spec);
    let f = filtered_spec(s.items@, s.filter@);
    lemma_filtered_contains(s.items@, s.filter@, i);
    match s.sort_col {
        Some(c) => {
            sort_keeps_rows(s.items@, c as int, s.sort_desc, f);
            let v = sorted_rows(s.items@, c as int, s.sort_desc, f);
            assert(v.contains(i) <==> v.to_multiset().count(i) > 0);
            assert(f.contains(i) <==> f.to_multiset().count(i) > 0);
        },
        None => {},
    }
}

/// A move never lands on a group header: the row it picks is a shown
/// non-header row.
pub proof fn moves_skip_headers(s: App, d: int)
    requires
        s.wf(),
    ensures
        move_target(s, d) matches Some(p) ==> p < visible_spec(s).len() && !s.items@[visible_spec(
            s,
        )[p as int] as int].header,
{
    reveal(move_target);
    lemma_visible_len(s);
}

} // verus!
