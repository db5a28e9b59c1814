//! Messages from background work (lists, logs, sizes, errors, batch runs)
//! and how the state takes each of them in.

use vstd::prelude::*;
use vstd::string::*;
use vstd::view::View as ViewOf;
use crate::app::{App, Mode, ROW_LIMIT, LOG_CAP, Effect, EffectV, effs, fetch_arg_spec, visible_spec};
use crate::app::{lemma_visible_bounds, lemma_ensure_frame, lemma_clamp_frame};
use crate::app::{selected_spec, ensure_spec, snap_spec, with_sel, clamp_spec, switch_post};
use crate::app::{header_at, first_row_from, snap_sel, lemma_first_row_unique};
use crate::docker::{View, Item, row, human_size, human_size_spec};
use crate::mark::{Target, live_id, retain_existing};
use crate::text::{views_of, lemma_views_push, lit, cat, chars_of, string_of, contains_chars, has_substring};
use crate::text::{decimal, decimal_u64, cat3};

verus! {

/// Messages flowing from background work back into the state.
#[derive(Debug)]
pub enum Msg {
    /// Rows of `view`, listed with argument `arg`.
    Data { view: View, arg: String, items: Vec<Item> },
    /// Swarm state of the engine and its number of compose projects.
    Meta { swarm: String, compose: usize },
    /// A chunk of log output (one or more lines).
    LogLine(String),
    LogEnded,
    /// Disk usage of volumes by name.
    VolumeSizes(Vec<(String, i64)>),
    /// Text of an inspect or a compose file.
    Inspect(String),
    Error(String),
    Info(String),
    /// A batch run finished; `remove_marks` are the ids deleted.
    BatchDone { verb: String, summary: String, remove_marks: Vec<String> },
}

/// Hint appended to errors about the engine socket's permissions.
pub open spec fn socket_hint() -> Seq<char> {
    "  — 远程用户无 docker socket 权限,请将其加入 docker 组"@
}

/// Hint appended to errors about reaching the engine over SSH.
pub open spec fn ssh_hint() -> Seq<char> {
    "  — SSH 到该 context 失败(确认 `ssh`/`docker --context` 可用; 若 ~/.ssh/config 有 ControlMaster yes,d9cker 会自动兼容)"@
}

/// A transport error with a hint on what to do about it.
pub open spec fn humanize_spec(e: Seq<char>) -> Seq<char> {
    if has_substring(e, "permission denied"@) && has_substring(e, "docker.sock"@) {
        e + socket_hint()
    } else if has_substring(e, "raw stream connection"@) || has_substring(e, "SendRequest"@)
        || has_substring(e, "Connect"@) {
        e + ssh_hint()
    } else {
        e
    }
}

/// Turn a raw engine or transport error into an actionable one-liner.
pub fn humanize_error(e: &str) -> (r: String)
    ensures
        r@ == humanize_spec(e@),
{
    let cs = chars_of(e);
    if contains_chars(&cs, &chars_of("permission denied")) && contains_chars(
        &cs,
        &chars_of("docker.sock"),
    ) {
        cat(e, "  — 远程用户无 docker socket 权限,请将其加入 docker 组")
    } else if contains_chars(&cs, &chars_of("raw stream connection")) || contains_chars(
        &cs,
        &chars_of("SendRequest"),
    ) || contains_chars(&cs, &chars_of("Connect")) {
        cat(
            e,
            "  — SSH 到该 context 失败(确认 `ssh`/`docker --context` 可用; 若 ~/.ssh/config 有 ControlMaster yes,d9cker 会自动兼容)",
        )
    } else {
        lit(e)
    }
}

/// The pieces of `s` between occurrences of `sep`, as `str::split` yields
/// them.
pub open spec fn split_on(s: Seq<char>, sep: char) -> Seq<Seq<char>>
    decreases s.len(),
{
    if s.len() == 0 {
        seq![Seq::<char>::empty()]
    } else {
        let r = split_on(s.drop_last(), sep);
        if s.last() == sep {
            r.push(Seq::<char>::empty())
        } else {
            r.update(r.len() - 1, r.last().push(s.last()))
        }
    }
}

/// Splitting yields at least one piece.
pub proof fn lemma_split_on_len(s: Seq<char>, sep: char)
    ensures
        split_on(s, sep).len() >= 1,
    decreases s.len(),
{
    if s.len() > 0 {
        lemma_split_on_len(s.drop_last(), sep);
    }
}

/// Split `s` at every `sep`.
pub fn split_by(s: &str, sep: char) -> (out: Vec<String>)
    ensures
        views_of(out@) == split_on(s@, sep),
{
    let cs = chars_of(s);
    let mut out: Vec<String> = Vec::new();
    let mut cur: Vec<char> = Vec::new();
    let mut i: usize = 0;
    while i < cs.len()
        invariant
            i <= cs@.len(),
            cs@ == s@,
            views_of(out@).push(cur@) == split_on(cs@.take(i as int), sep),
        decreases cs.len() - i,
    {
        proof {
            let t = cs@.take(i + 1);
            assert(t.drop_last() == cs@.take(i as int));
            assert(t.last() == cs@[i as int]);
        }
        let c = cs[i];
        if c == sep {
            let ghost before = out@;
            out.push(string_of(&cur));
            cur = Vec::new();
            proof {
                lemma_views_push(before, out@.last());
                assert(out@ == before.push(out@.last()));
                assert(views_of(out@).push(cur@) =~= views_of(before).push(out@.last()@).push(
                    Seq::<char>::empty(),
                ));
            }
        } else {
            let ghost old_cur = cur@;
            cur.push(c);
            proof {
                let r = views_of(out@).push(old_cur);
                assert(views_of(out@).push(cur@) =~= r.update(r.len() - 1, r.last().push(c)));
            }
        }
        i += 1;
    }
    assert(cs@.take(cs@.len() as int) == s@);
    let ghost before = out@;
    out.push(string_of(&cur));
    proof {
        lemma_views_push(before, out@.last());
        assert(out@ == before.push(out@.last()));
    }
    out
}

/// `l` without one trailing carriage return.
pub open spec fn strip_cr(l: Seq<char>) -> Seq<char> {
    if l.len() > 0 && l.last() == '\r' {
        l.drop_last()
    } else {
        l
    }
}

/// The lines of `s` as `str::lines` yields them: split at `\n`, a `\r` that
/// ends a line before its `\n` dropped, and no empty line after a final `\n`.
pub open spec fn lines_spec(s: Seq<char>) -> Seq<Seq<char>> {
    let p = split_on(s, '\n');
    let body = p.drop_last().map_values(|l: Seq<char>| strip_cr(l));
    if p.last().len() == 0 {
        body
    } else {
        body.push(p.last())
    }
}

/// The lines of `s`.
pub fn text_lines(s: &str) -> (out: Vec<String>)
    ensures
        views_of(out@) == lines_spec(s@),
{
    let parts = split_by(s, '\n');
    proof {
        lemma_split_on_len(s@, '\n');
    }
    let ghost p = views_of(parts@);
    let n = parts.len();
    let mut out: Vec<String> = Vec::new();
    let mut k: usize = 0;
    while k + 1 < n
        invariant
            n == parts@.len(),
            n >= 1,
            k + 1 <= n,
            p == views_of(parts@),
            views_of(out@) == p.take(k as int).map_values(|l: Seq<char>| strip_cr(l)),
        decreases n - k,
    {
        let cs = chars_of(parts[k].as_str());
        let line = if cs.len() > 0 && cs[cs.len() - 1] == '\r' {
            string_of(slice_front(&cs, cs.len() - 1).as_slice())
        } else {
            string_of(&cs)
        };
        proof {
            assert(cs@ == p[k as int]);
            if cs@.len() > 0 && cs@.last() == '\r' {
                assert(cs@.take(cs@.len() - 1) == cs@.drop_last());
            }
        }
        let ghost before = out@;
        out.push(line);
        proof {
            lemma_views_push(before, out@.last());
            assert(out@ == before.push(out@.last()));
            assert(p.take(k + 1).map_values(|l: Seq<char>| strip_cr(l)) =~= p.take(k as int).map_values(
                |l: Seq<char>| strip_cr(l),
            ).push(strip_cr(p[k as int])));
        }
        k += 1;
    }
    assert(p.take(k as int) =~= p.drop_last());
    if parts[n - 1].as_str().unicode_len() > 0 {
        let ghost before = out@;
        out.push(parts[n - 1].clone());
        proof {
            lemma_views_push(before, out@.last());
            assert(out@ == before.push(out@.last()));
        }
    }
    out
}

/// The first `len` characters of `cs`.
fn slice_front(cs: &Vec<char>, len: usize) -> (out: Vec<char>)
    requires
        len <= cs@.len(),
    ensures
        out@ == cs@.take(len as int),
{
    let mut out: Vec<char> = Vec::new();
    let mut i: usize = 0;
    while i < len
        invariant
            i <= len,
            len <= cs@.len(),
            out@ == cs@.take(i as int),
        decreases len - i,
    {
        out.push(cs[i]);
        assert(cs@.take(i + 1) == cs@.take(i as int).push(cs@[i as int]));
        i += 1;
    }
    out
}

/// The views of recorded volume sizes.
pub open spec fn size_views(s: Seq<(String, i64)>) -> Seq<(Seq<char>, i64)> {
    s.map_values(|e: (String, i64)| (e.0@, e.1))
}

/// No volume name is recorded twice.
pub open spec fn names_unique(s: Seq<(Seq<char>, i64)>) -> bool {
    forall|i: int, j: int| 0 <= i < j < s.len() ==> #[trigger] s[i].0 != #[trigger] s[j].0
}

/// Where volume `n` is recorded in `s`, if it is.
pub open spec fn name_pos(s: Seq<(Seq<char>, i64)>, n: Seq<char>) -> Option<int> {
    if exists|k: int| 0 <= k < s.len() && #[trigger] s[k].0 == n {
        Some(choose|k: int| 0 <= k < s.len() && #[trigger] s[k].0 == n)
    } else {
        None
    }
}

/// Sizes taken in one after another as a map by volume name: a later size
/// of a name replaces the earlier one in its place, so each name is
/// recorded once, with the last size given for it.
pub open spec fn merged_sizes(s: Seq<(Seq<char>, i64)>) -> Seq<(Seq<char>, i64)>
    decreases s.len(),
{
    if s.len() == 0 {
        s
    } else {
        let r = merged_sizes(s.drop_last());
        let e = s.last();
        match name_pos(r, e.0) {
            Some(k) => r.update(k, e),
            None => r.push(e),
        }
    }
}

/// Merging records each name once.
pub proof fn merged_names_unique(s: Seq<(Seq<char>, i64)>)
    ensures
        names_unique(merged_sizes(s)),
    decreases s.len(),
{
    if s.len() > 0 {
        merged_names_unique(s.drop_last());
        let r = merged_sizes(s.drop_last());
        let e = s.last();
        match name_pos(r, e.0) {
            Some(k) => {
                let w = choose|k: int| 0 <= k < r.len() && #[trigger] r[k].0 == e.0;
                assert(k == w);
                let m = r.update(k, e);
                assert forall|i: int, j: int| 0 <= i < j < m.len() implies #[trigger] m[i].0 != #[trigger] m[j].0 by {
                    if i != k && j != k {
                        assert(r[i].0 != r[j].0);
                    } else if i == k {
                        assert(r[i].0 != r[j].0);
                    } else {
                        assert(r[i].0 != r[j].0);
                    }
                }
            },
            None => {
                let m = r.push(e);
                assert forall|i: int, j: int| 0 <= i < j < m.len() implies #[trigger] m[i].0 != #[trigger] m[j].0 by {
                    if j < r.len() {
                        assert(r[i].0 != r[j].0);
                    } else {
                        assert(m[j].0 == e.0);
                        if m[i].0 == e.0 {
                            assert(r[i].0 == e.0);
                        }
                    }
                }
            },
        }
    }
}

/// The sizes of `sizes` merged by name, the last size of a name winning.
fn merge_sizes(sizes: &Vec<(String, i64)>) -> (out: Vec<(String, i64)>)
    ensures
        size_views(out@) == merged_sizes(size_views(sizes@)),
{
    let ghost all = size_views(sizes@);
    let mut out: Vec<(String, i64)> = Vec::new();
    let mut i: usize = 0;
    assert(size_views(out@) =~= merged_sizes(all.take(0)));
    while i < sizes.len()
        invariant
            i <= sizes@.len(),
            all == size_views(sizes@),
            size_views(out@) == merged_sizes(all.take(i as int)),
        decreases sizes.len() - i,
    {
        let ghost r = size_views(out@);
        proof {
            assert(all.take(i + 1).drop_last() =~= all.take(i as int));
            assert(all.take(i + 1).last() == all[i as int]);
            merged_names_unique(all.take(i as int));
        }
        let name = lit(sizes[i].0.as_str());
        let v = sizes[i].1;
        let mut j: usize = 0;
        while j < out.len() && !(out[j].0 == name)
            invariant
                j <= out@.len(),
                r == size_views(out@),
                forall|q: int| 0 <= q < j ==> #[trigger] r[q].0 != name@,
            decreases out.len() - j,
        {
            j += 1;
        }
        let ghost e = (name@, v);
        if j < out.len() {
            proof {
                assert(r[j as int].0 == name@);
                assert(exists|k: int| 0 <= k < r.len() && #[trigger] r[k].0 == name@);
                let w = choose|k: int| 0 <= k < r.len() && #[trigger] r[k].0 == name@;
                if w != j {
                    if w < j {
                        assert(r[w].0 != name@);
                    } else {
                        assert(r[j as int].0 != r[w].0);
                    }
                }
                assert(name_pos(r, name@) == Some(j as int));
            }
            out.set(j, (name, v));
            assert(size_views(out@) =~= r.update(j as int, e));
        } else {
            proof {
                assert(name_pos(r, name@) is None);
            }
            out.push((name, v));
            assert(size_views(out@) =~= r.push(e));
        }
        i += 1;
    }
    assert(all.take(sizes@.len() as int) =~= all);
    out
}

/// The first size recorded for volume `name`.
pub open spec fn size_for(sizes: Seq<(String, i64)>, name: Seq<char>) -> Option<i64>
    decreases sizes.len(),
{
    if sizes.len() == 0 {
        None
    } else if sizes[0].0@ == name {
        Some(sizes[0].1)
    } else {
        size_for(sizes.drop_first(), name)
    }
}

/// The SIZE cell for a recorded size: human readable, `?` when unknown or
/// negative.
pub open spec fn size_cell(o: Option<i64>) -> Seq<char> {
    match o {
        Some(s) => if s >= 0 {
            human_size_spec(s as int)
        } else {
            "?"@
        },
        None => "?"@,
    }
}

/// A row with the size of its volume written into column 2 (rows with fewer
/// cells are left alone).
pub open spec fn sized_row(r: (Seq<char>, Seq<char>, Seq<Seq<char>>, bool), sizes: Seq<(String, i64)>) -> (
    Seq<char>,
    Seq<char>,
    Seq<Seq<char>>,
    bool,
) {
    if r.2.len() > 2 {
        (r.0, r.1, r.2.update(2, size_cell(size_for(sizes, r.1))), r.3)
    } else {
        r
    }
}

/// `after` is `before` with the recorded sizes written into each row.
pub open spec fn sized_rows(before: Seq<Item>, after: Seq<Item>, sizes: Seq<(String, i64)>) -> bool {
    &&& after.len() == before.len()
    &&& forall|i: int| 0 <= i < before.len() ==> row(#[trigger] after[i]) == sized_row(row(before[i]), sizes)
}

/// The recorded size of volume `name`.
fn lookup_size(sizes: &Vec<(String, i64)>, name: &String) -> (r: Option<i64>)
    ensures
        r == size_for(sizes@, name@),
{
    let mut i: usize = 0;
    assert(sizes@.subrange(0, sizes@.len() as int) == sizes@);
    while i < sizes.len()
        invariant
            i <= sizes@.len(),
            size_for(sizes@, name@) == size_for(sizes@.subrange(i as int, sizes@.len() as int), name@),
        decreases sizes.len() - i,
    {
        let ghost rest = sizes@.subrange(i as int, sizes@.len() as int);
        assert(rest[0] == sizes@[i as int]);
        if sizes[i].0 == *name {
            return Some(sizes[i].1);
        }
        assert(rest.drop_first() == sizes@.subrange(i + 1, sizes@.len() as int));
        i += 1;
    }
    None
}

/// A copy of `v`.
pub(crate) fn copy_strings(v: &Vec<String>) -> (out: Vec<String>)
    ensures
        views_of(out@) == views_of(v@),
{
    let mut out: Vec<String> = Vec::new();
    let mut i: usize = 0;
    while i < v.len()
        invariant
            i <= v@.len(),
            views_of(out@) == views_of(v@.take(i as int)),
        decreases v.len() - i,
    {
        let ghost before = out@;
        out.push(v[i].clone());
        proof {
            lemma_views_push(before, out@.last());
            assert(out@ == before.push(out@.last()));
            assert(v@.take(i + 1) == v@.take(i as int).push(v@[i as int]));
            lemma_views_push(v@.take(i as int), v@[i as int]);
        }
        i += 1;
    }
    assert(v@.take(v@.len() as int) == v@);
    out
}

/// `it` with the recorded size of its volume in column 2.
fn sized_item(it: &Item, sizes: &Vec<(String, i64)>) -> (out: Item)
    ensures
        row(out) == sized_row(row(*it), sizes@),
{
    let mut cells = copy_strings(&it.cells);
    if cells.len() > 2 {
        let cell = match lookup_size(sizes, &it.name) {
            Some(s) => if s >= 0 {
                human_size(s)
            } else {
                lit("?")
            },
            None => lit("?"),
        };
        let ghost before = cells@;
        cells.set(2, cell);
        proof {
            assert(views_of(cells@) =~= views_of(before).update(2, cells@[2]@));
        }
    }
    Item { id: it.id.clone(), name: it.name.clone(), cells, header: it.header }
}

impl App {
    /// Write the recorded volume sizes into the SIZE column of the rows
    /// (Volumes view only).
    pub fn apply_volume_sizes(&mut self)
        ensures
            old(self).view == View::Volumes ==> *final(self) == (App { items: final(self).items, ..*old(self) })
                && sized_rows(old(self).items@, final(self).items@, old(self).vol_sizes@),
            old(self).view != View::Volumes ==> *final(self) == *old(self),
    {
        if self.view != View::Volumes {
            return;
        }
        let mut out: Vec<Item> = Vec::new();
        let mut i: usize = 0;
        while i < self.items.len()
            invariant
                i <= self.items@.len(),
                *self == *old(self),
                out@.len() == i,
                forall|j: int| 0 <= j < i ==> row(#[trigger] out@[j]) == sized_row(row(self.items@[j]), self.vol_sizes@),
            decreases self.items.len() - i,
        {
            let it = sized_item(&self.items[i], &self.vol_sizes);
            out.push(it);
            i += 1;
        }
        self.items = out;
    }
}


/// The id on shown row `p`.
pub open spec fn id_at(s: App, vis: Seq<usize>, p: int) -> Seq<char> {
    s.items@[vis[p] as int].id@
}

/// `p` is the first shown row whose id is `id`.
pub open spec fn first_id_pos(s: App, vis: Seq<usize>, id: Seq<char>, p: int) -> bool {
    &&& 0 <= p < vis.len()
    &&& id_at(s, vis, p) == id
    &&& forall|q: int| 0 <= q < p ==> #[trigger] id_at(s, vis, q) != id
}

/// Some shown row has id `id`.
pub open spec fn has_id_pos(s: App, vis: Seq<usize>, id: Seq<char>) -> bool {
    exists|p: int| first_id_pos(s, vis, id, p)
}

/// After the rows are replaced: put the cursor back on the row with the id
/// it was on, else at the same position (clamped), off headers and on
/// screen; with no previous selection, clamp.
#[verifier::opaque]
pub open spec fn reselect_spec(s: App, sel_id: Option<Seq<char>>) -> App {
    match sel_id {
        Some(id) => {
            let vis = visible_spec(s);
            let p = if has_id_pos(s, vis, id) {
                choose|p: int| first_id_pos(s, vis, id, p)
            } else if vis.len() == 0 {
                0
            } else if (s.selected as int) < vis.len() - 1 {
                s.selected as int
            } else {
                vis.len() - 1
            };
            ensure_spec(snap_spec(with_sel(s, p as usize, s.voffset)))
        },
        None => clamp_spec(s),
    }
}

/// Id of the selected row.
pub open spec fn sel_id_spec(s: App) -> Option<Seq<char>> {
    match selected_spec(s) {
        Some(it) => Some(it.id@),
        None => None,
    }
}

/// Taking in the rows `items` of `view` listed with `arg`: ignored unless
/// they are for what is shown now; else the rows are replaced (with volume
/// sizes written in), marks of vanished rows dropped, loading over, status
/// cleared and the cursor kept on its row.
pub open spec fn data_post(old: App, new: App, view: View, arg: Seq<char>, items: Seq<Item>) -> bool {
    if view == old.view && arg == fetch_arg_spec(old) {
        &&& new.marked.wf()
        &&& new.marked@ == old.marked@.filter(|x: Seq<char>| live_id(items, x))
        &&& if view == View::Volumes {
            sized_rows(items, new.items@, old.vol_sizes@)
        } else {
            new.items@ == items
        }
        &&& new.status@.len() == 0
        &&& new == reselect_spec(
            App { items: new.items, marked: new.marked, loading: false, status: new.status, ..old },
            sel_id_spec(old),
        )
    } else {
        new == old
    }
}

/// The views that need a swarm.
pub open spec fn swarm_view(v: View) -> bool {
    v == View::Services || v == View::Nodes || v == View::ServiceTasks || v == View::Stacks
        || v == View::StackTasks
}

/// Taking in the engine's swarm state and compose project count; a view
/// that no longer applies (Compose without projects, a swarm view without
/// an active swarm) switches to Containers.
pub open spec fn meta_post(old: App, new: App, swarm: Seq<char>, compose: usize, eff: Seq<EffectV>) -> bool {
    let s1 = App { swarm: new.swarm, compose_projects: compose, ..old };
    &&& new.swarm@ == swarm
    &&& if compose == 0 && old.view == View::Compose {
        switch_post(s1, new, View::Containers, eff)
    } else if swarm != "active"@ && swarm_view(old.view) {
        switch_post(s1, new, View::Containers, eff)
    } else {
        new == s1 && eff.len() == 0
    }
}

/// After the engine's meta is taken in, the current view is one the tabs
/// offer: never Compose without compose projects, never a swarm view
/// (Services, Nodes, Stacks or their tasks) without an active swarm; the
/// view shown is a shown tab, or a task list whose parent tab is shown. A
/// view that had to be left is left for Containers, whose rows are fetched.
pub proof fn meta_keeps_view_on_tabs(old: App, new: App, swarm: Seq<char>, compose: usize, eff: Seq<EffectV>)
    requires
        meta_post(old, new, swarm, compose, eff),
    ensures
        new.swarm@ == swarm,
        new.compose_projects == compose,
        compose == 0 ==> new.view != View::Compose,
        new.view == View::Services || new.view == View::Nodes || new.view == View::Stacks || new.view
            == View::ServiceTasks || new.view == View::StackTasks ==> swarm == "active"@,
        crate::app::tabs_spec(new).contains(new.view) || (new.view == View::ServiceTasks
            && crate::app::tabs_spec(new).contains(View::Services)) || (new.view == View::StackTasks
            && crate::app::tabs_spec(new).contains(View::Stacks)),
        new.view != old.view ==> new.view == View::Containers && eff.len() >= 1 && eff[0] == (EffectV::Fetch {
            view: View::Containers,
            arg: fetch_arg_spec(new),
        }),
{
    crate::app::tabs_follow_engine(new);
    if new.view != old.view {
        let f = seq![EffectV::Fetch { view: View::Containers, arg: fetch_arg_spec(new) }];
        assert(eff[0] == f[0]);
    }
}

/// The last `n` elements of `v` (all of them when fewer).
pub open spec fn keep_last(v: Seq<Seq<char>>, n: nat) -> Seq<Seq<char>> {
    if v.len() > n {
        v.subrange(v.len() - n, v.len() as int)
    } else {
        v
    }
}

/// Taking in a chunk of log output: its lines appended, only the last
/// `LOG_CAP` kept, and pinned to the bottom when following.
pub open spec fn log_line_post(old: App, new: App, chunk: Seq<char>) -> bool {
    &&& views_of(new.logs@) == keep_last(views_of(old.logs@) + split_on(chunk, '\n'), LOG_CAP as nat)
    &&& new == (App {
        logs: new.logs,
        log_scroll: if old.log_follow {
            0
        } else {
            old.log_scroll
        },
        ..old
    })
}

/// Appends the strings of `parts` to `logs`.
fn push_all(logs: &mut Vec<String>, parts: &Vec<String>)
    ensures
        views_of(final(logs)@) == views_of(old(logs)@) + views_of(parts@),
{
    let ghost base = views_of(logs@);
    let mut k: usize = 0;
    while k < parts.len()
        invariant
            k <= parts@.len(),
            views_of(logs@) == base + views_of(parts@).take(k as int),
        decreases parts.len() - k,
    {
        let ghost before = logs@;
        logs.push(parts[k].clone());
        proof {
            lemma_views_push(before, logs@.last());
            assert(logs@ == before.push(logs@.last()));
            assert(views_of(parts@).take(k + 1) =~= views_of(parts@).take(k as int).push(
                views_of(parts@)[k as int],
            ));
            assert(views_of(logs@) =~= base + views_of(parts@).take(k + 1));
        }
        k += 1;
    }
    assert(views_of(parts@).take(parts@.len() as int) == views_of(parts@));
}

/// Keeps the last `LOG_CAP` lines of `logs`.
fn keep_last_lines(logs: &mut Vec<String>)
    ensures
        views_of(final(logs)@) == keep_last(views_of(old(logs)@), LOG_CAP as nat),
{
    if logs.len() > LOG_CAP {
        let drop = logs.len() - LOG_CAP;
        let ghost all = logs@;
        let tail = logs.split_off(drop);
        *logs = tail;
        assert(views_of(logs@) =~= views_of(all).subrange(
            views_of(all).len() - LOG_CAP,
            views_of(all).len() as int,
        ));
    }
}

/// The note shown when a log stream ends.
pub open spec fn log_end_note() -> Seq<char> {
    "— log stream ended —"@
}

/// Taking in the end of a log stream: noted while logs are shown.
pub open spec fn log_ended_post(old: App, new: App) -> bool {
    if old.mode == Mode::Logs {
        new == (App { status: new.status, ..old }) && new.status@ == log_end_note()
    } else {
        new == old
    }
}

/// Taking in volume sizes: recorded by name (the last size given for a
/// name winning), written into the rows, and the names counted in the
/// status.
pub open spec fn sizes_post(old: App, new: App, sizes: Seq<(String, i64)>) -> bool {
    &&& size_views(new.vol_sizes@) == merged_sizes(size_views(sizes))
    &&& new.status@ == "volume sizes updated ("@ + decimal(new.vol_sizes@.len()) + ")"@
    &&& if old.view == View::Volumes {
        sized_rows(old.items@, new.items@, new.vol_sizes@)
    } else {
        new.items == old.items
    }
    &&& new == (App { vol_sizes: new.vol_sizes, items: new.items, status: new.status, ..old })
}

/// Taking in inspect text: its lines shown.
pub open spec fn inspect_post(old: App, new: App, text: Seq<char>) -> bool {
    &&& views_of(new.inspect_lines@) == lines_spec(text)
    &&& new == (App { inspect_lines: new.inspect_lines, ..old })
}

/// Taking in an error: loading over, the error (with its hint) in the
/// status.
pub open spec fn error_post(old: App, new: App, e: Seq<char>) -> bool {
    &&& new == (App { loading: false, status: new.status, ..old })
    &&& new.status@ == "⚠ "@ + humanize_spec(e)
}

/// The effect that lists the current view again.
pub open spec fn fetch_eff(s: App) -> EffectV {
    EffectV::Fetch { view: s.view, arg: fetch_arg_spec(s) }
}

/// Taking in a notice: shown, and the table listed again when shown.
pub open spec fn info_post(old: App, new: App, m: String, eff: Seq<EffectV>) -> bool {
    &&& new == (App { status: m, loading: old.loading || old.mode == Mode::Table, ..old })
    &&& eff == if old.mode == Mode::Table {
        seq![fetch_eff(old)]
    } else {
        Seq::<EffectV>::empty()
    }
}

/// Taking in the end of a batch run: a delete unmarks the ids it removed
/// (other verbs keep the marks), the summary is shown and the view listed
/// again.
pub open spec fn batch_done_post(
    old: App,
    new: App,
    verb: Seq<char>,
    summary: String,
    removed: Seq<Seq<char>>,
    eff: Seq<EffectV>,
) -> bool {
    &&& new.marked.wf()
    &&& new.marked@ == if verb == "delete"@ {
        old.marked@.difference(removed.to_set())
    } else {
        old.marked@
    }
    &&& new == (App { marked: new.marked, status: summary, loading: true, ..old })
    &&& eff == seq![fetch_eff(old)]
}

/// What taking in `msg` does.
pub open spec fn msg_post(old: App, new: App, msg: Msg, eff: Seq<EffectV>) -> bool {
    match msg {
        Msg::Data { view, arg, items } => data_post(old, new, view, arg@, items@) && eff.len() == 0,
        Msg::Meta { swarm, compose } => meta_post(old, new, swarm@, compose, eff),
        Msg::LogLine(chunk) => log_line_post(old, new, chunk@) && eff.len() == 0,
        Msg::LogEnded => log_ended_post(old, new) && eff.len() == 0,
        Msg::VolumeSizes(sizes) => sizes_post(old, new, sizes@) && eff.len() == 0,
        Msg::Inspect(text) => inspect_post(old, new, text@) && eff.len() == 0,
        Msg::Error(e) => error_post(old, new, e@) && eff.len() == 0,
        Msg::Info(m) => info_post(old, new, m, eff),
        Msg::BatchDone { verb, summary, remove_marks } => batch_done_post(
            old,
            new,
            verb@,
            summary,
            views_of(remove_marks@),
            eff,
        ),
    }
}

/// Whether `msg` fits the state's row bound.
pub open spec fn msg_fits(msg: Msg) -> bool {
    match msg {
        Msg::Data { items, .. } => items@.len() <= ROW_LIMIT,
        _ => true,
    }
}

impl App {
    /// First shown row whose id is `id`.
    fn find_id(&self, vis: &Vec<usize>, id: &String) -> (r: Option<usize>)
        requires
            vis@ == visible_spec(*self),
        ensures
            r matches Some(p) ==> first_id_pos(*self, vis@, id@, p as int),
            r is None ==> !has_id_pos(*self, vis@, id@),
    {
        proof {
            lemma_visible_bounds(*self);
        }
        let mut k: usize = 0;
        while k < vis.len()
            invariant
                k <= vis@.len(),
                vis@ == visible_spec(*self),
                forall|t: int| 0 <= t < vis@.len() ==> #[trigger] vis@[t] < self.items@.len(),
                forall|q: int| 0 <= q < k ==> #[trigger] id_at(*self, vis@, q) != id@,
            decreases vis.len() - k,
        {
            if self.items[vis[k]].id == *id {
                return Some(k);
            }
            k += 1;
        }
        proof {
            assert forall|p: int| !first_id_pos(*self, vis@, id@, p) by {
                if 0 <= p < vis@.len() {
                    assert(id_at(*self, vis@, p) != id@);
                }
            }
        }
        None
    }

    /// Take in freshly listed rows.
    #[verifier::spinoff_prover]
    #[verifier::rlimit(60)]
    pub fn on_data(&mut self, view: View, arg: String, items: Vec<Item>)
        requires
            old(self).wf(),
            items@.len() <= ROW_LIMIT,
        ensures
            final(self).wf(),
            data_post(*old(self), *final(self), view, arg@, items@),
    {
        let cur = self.fetch_arg();
        if !(view == self.view && arg == cur) {
            return;
        }
        let sel_id: Option<String> = match self.selected_item() {
            Some(it) => Some(it.id.clone()),
            None => None,
        };
        self.items = items;
        retain_existing(&mut self.marked, &self.items);
        self.loading = false;
        self.apply_volume_sizes();
        self.status = String::new();
        let ghost mid = *self;
        proof {
            reveal(reselect_spec);
        }
        match sel_id {
            Some(id) => {
                let vis = self.visible_indices();
                let p: usize = match self.find_id(&vis, &id) {
                    Some(p) => {
                        proof {
                            let q = choose|q: int| first_id_pos(mid, vis@, id@, q);
                            if q < p {
                                assert(id_at(mid, vis@, q) != id@);
                            }
                            if p < q {
                                assert(id_at(mid, vis@, p as int) != id@);
                            }
                        }
                        p
                    },
                    None => if vis.len() == 0 {
                        0
                    } else if self.selected < vis.len() - 1 {
                        self.selected
                    } else {
                        vis.len() - 1
                    },
                };
                proof {
                    lemma_visible_bounds(mid);
                }
                self.selected = p;
                assert(*self == with_sel(mid, p, mid.voffset));
                self.snap_off_header();
                self.ensure_visible();
                proof {
                    lemma_ensure_frame(snap_spec(with_sel(mid, p, mid.voffset)));
                }
            },
            None => {
                self.clamp_selection();
                proof {
                    lemma_clamp_frame(mid);
                }
            },
        }
    }

    /// Take in the engine's swarm state and compose project count.
    pub fn on_meta(&mut self, swarm: String, compose: usize) -> (eff: Vec<Effect>)
        requires
            old(self).wf(),
        ensures
            final(self).wf(),
            meta_post(*old(self), *final(self), swarm@, compose, effs(eff@)),
    {
        self.swarm = swarm;
        self.compose_projects = compose;
        if self.compose_projects == 0 && self.view == View::Compose {
            return self.switch_view(View::Containers);
        }
        let active = self.swarm == lit("active");
        if !active && (self.view == View::Services || self.view == View::Nodes || self.view
            == View::ServiceTasks || self.view == View::Stacks || self.view == View::StackTasks) {
            return self.switch_view(View::Containers);
        }
        let none: Vec<Effect> = Vec::new();
        assert(effs(none@) =~= Seq::<EffectV>::empty());
        none
    }

    /// Take in a chunk of log output.
    pub fn on_log_line(&mut self, chunk: String)
        ensures
            log_line_post(*old(self), *final(self), chunk@),
    {
        let parts = split_by(chunk.as_str(), '\n');
        let mut logs = Vec::new();
        std::mem::swap(&mut logs, &mut self.logs);
        push_all(&mut logs, &parts);
        keep_last_lines(&mut logs);
        self.logs = logs;
        if self.log_follow {
            self.log_scroll = 0;
        }
    }

    /// Take in the end of the log stream.
    pub fn on_log_ended(&mut self)
        ensures
            log_ended_post(*old(self), *final(self)),
    {
        if self.mode == Mode::Logs {
            self.status = lit("— log stream ended —");
        }
    }

    /// Take in volume sizes.
    pub fn on_volume_sizes(&mut self, sizes: Vec<(String, i64)>)
        ensures
            sizes_post(*old(self), *final(self), sizes@),
            names_unique(size_views(final(self).vol_sizes@)),
    {
        self.vol_sizes = merge_sizes(&sizes);
        proof {
            merged_names_unique(size_views(sizes@));
        }
        self.apply_volume_sizes();
        let n = decimal_u64(self.vol_sizes.len() as u64);
        let mut st = lit("volume sizes updated (");
        st.append(string_of(&n).as_str());
        st.append(")");
        self.status = st;
    }

    /// Take in inspect text.
    pub fn on_inspect(&mut self, text: String)
        ensures
            inspect_post(*old(self), *final(self), text@),
    {
        self.inspect_lines = text_lines(text.as_str());
    }

    /// Take in an error.
    pub fn on_error(&mut self, e: String)
        ensures
            error_post(*old(self), *final(self), e@),
    {
        self.loading = false;
        let h = humanize_error(e.as_str());
        let status = cat("⚠ ", h.as_str());
        if status != self.status {
            self.status = status;
        }
    }

    /// Take in a notice.
    pub fn on_info(&mut self, m: String) -> (eff: Vec<Effect>)
        ensures
            info_post(*old(self), *final(self), m, effs(eff@)),
    {
        self.status = m;
        let mut eff: Vec<Effect> = Vec::new();
        if self.mode == Mode::Table {
            let f = self.refresh();
            eff.push(f);
        }
        assert(effs(eff@) =~= if old(self).mode == Mode::Table {
            seq![fetch_eff(*old(self))]
        } else {
            Seq::<EffectV>::empty()
        });
        eff
    }

    /// Take in the end of a batch run.
    pub fn on_batch_done(&mut self, verb: String, summary: String, remove_marks: Vec<String>) -> (eff: Vec<
        Effect,
    >)
        requires
            old(self).wf(),
        ensures
            batch_done_post(*old(self), *final(self), verb@, summary, views_of(remove_marks@), effs(eff@)),
    {
        if verb == lit("delete") {
            let mut k: usize = 0;
            while k < remove_marks.len()
                invariant
                    k <= remove_marks@.len(),
                    self.marked.wf(),
                    self.marked@ == old(self).marked@.difference(views_of(remove_marks@.take(k as int)).to_set()),
                    *self == (App { marked: self.marked, ..*old(self) }),
                decreases remove_marks.len() - k,
            {
                let ghost before = self.marked@;
                self.marked.remove(remove_marks[k].as_str());
                proof {
                    assert(remove_marks@.take(k + 1) == remove_marks@.take(k as int).push(
                        remove_marks@[k as int],
                    ));
                    lemma_views_push(remove_marks@.take(k as int), remove_marks@[k as int]);
                    assert(self.marked@ =~= old(self).marked@.difference(
                        views_of(remove_marks@.take(k + 1)).to_set(),
                    ));
                }
                k += 1;
            }
            assert(remove_marks@.take(remove_marks@.len() as int) == remove_marks@);
        }
        self.status = summary;
        let f = self.refresh();
        let eff = vec![f];
        assert(effs(eff@) =~= seq![fetch_eff(*old(self))]);
        eff
    }

    /// The periodic refresh: the table is listed again while it is shown
    /// and no confirmation is pending.
    pub fn on_tick(&mut self) -> (eff: Vec<Effect>)
        ensures
            old(self).mode == Mode::Table && old(self).confirm is None ==> *final(self) == (App {
                loading: true,
                ..*old(self)
            }) && effs(eff@) == seq![fetch_eff(*old(self))],
            !(old(self).mode == Mode::Table && old(self).confirm is None) ==> *final(self) == *old(self)
                && eff@.len() == 0,
    {
        let mut eff: Vec<Effect> = Vec::new();
        if self.mode == Mode::Table && self.confirm.is_none() {
            let f = self.refresh();
            eff.push(f);
            assert(effs(eff@) =~= seq![f@]);
        }
        eff
    }

    /// Take in a message from background work.
    pub fn on_msg(&mut self, msg: Msg) -> (eff: Vec<Effect>)
        requires
            old(self).wf(),
            msg_fits(msg),
        ensures
            final(self).wf(),
            msg_post(*old(self), *final(self), msg, effs(eff@)),
    {
        let none: Vec<Effect> = Vec::new();
        assert(effs(none@) =~= Seq::<EffectV>::empty());
        match msg {
            Msg::Data { view, arg, items } => {
                self.on_data(view, arg, items);
                none
            },
            Msg::Meta { swarm, compose } => self.on_meta(swarm, compose),
            Msg::LogLine(chunk) => {
                self.on_log_line(chunk);
                none
            },
            Msg::LogEnded => {
                self.on_log_ended();
                none
            },
            Msg::VolumeSizes(sizes) => {
                self.on_volume_sizes(sizes);
                none
            },
            Msg::Inspect(text) => {
                self.on_inspect(text);
                none
            },
            Msg::Error(e) => {
                self.on_error(e);
                none
            },
            Msg::Info(m) => self.on_info(m),
            Msg::BatchDone { verb, summary, remove_marks } => self.on_batch_done(verb, summary, remove_marks),
        }
    }
}


/// Number of successes in `results`.
pub open spec fn ok_count(results: Seq<Result<(), String>>) -> nat
    decreases results.len(),
{
    if results.len() == 0 {
        0
    } else {
        ok_count(results.drop_last()) + if results.last() is Ok {
            1nat
        } else {
            0nat
        }
    }
}

/// The first failure, as the target's label and the error.
pub open spec fn first_failure(targets: Seq<(Seq<char>, Seq<char>)>, results: Seq<Result<(), String>>) -> Option<
    Seq<char>,
>
    decreases results.len(),
{
    if results.len() == 0 {
        None
    } else {
        match first_failure(targets.drop_last(), results.drop_last()) {
            Some(f) => Some(f),
            None => match results.last() {
                Err(e) => Some(targets[results.len() - 1].1 + ": "@ + e@),
                Ok(_) => None,
            },
        }
    }
}

/// Ids of the targets that succeeded, in order.
pub open spec fn succeeded_ids(targets: Seq<(Seq<char>, Seq<char>)>, results: Seq<Result<(), String>>) -> Seq<
    Seq<char>,
>
    decreases results.len(),
{
    if results.len() == 0 {
        Seq::empty()
    } else {
        let rest = succeeded_ids(targets.drop_last(), results.drop_last());
        if results.last() is Ok {
            rest.push(targets[results.len() - 1].0)
        } else {
            rest
        }
    }
}

/// The summary of a batch run: `ok` of `n` done, and when some failed, how
/// many and the first failure.
pub open spec fn batch_summary_spec(verb: Seq<char>, ok: nat, n: nat, first: Option<Seq<char>>) -> Seq<char> {
    let head = verb + " "@ + decimal(ok) + "/"@ + decimal(n) + " ✓"@;
    if n <= ok {
        head
    } else {
        head + " ("@ + decimal((n - ok) as nat) + " failed"@ + match first {
            Some(e) => ": "@ + e,
            None => Seq::<char>::empty(),
        } + ")"@
    }
}

/// The views of batch targets.
pub open spec fn target_views(t: Seq<Target>) -> Seq<(Seq<char>, Seq<char>)> {
    t.map_values(|x: Target| x@)
}

/// The report of a batch run, once every target was tried in order and
/// `results[k]` is the outcome for `targets[k]`: a summary, and for a
/// delete the ids that were removed.
pub fn batch_done(verb: String, targets: &Vec<Target>, results: &Vec<Result<(), String>>) -> (m: Msg)
    requires
        targets@.len() == results@.len(),
    ensures
        m matches Msg::BatchDone { verb: v, summary, remove_marks } && v@ == verb@ && summary@
            == batch_summary_spec(
            verb@,
            ok_count(results@),
            results@.len(),
            first_failure(target_views(targets@), results@),
        ) && views_of(remove_marks@) == if verb@ == "delete"@ {
            succeeded_ids(target_views(targets@), results@)
        } else {
            Seq::<Seq<char>>::empty()
        },
{
    let n = results.len();
    let mut ok: usize = 0;
    let mut first_err: Option<String> = None;
    let mut succeeded: Vec<String> = Vec::new();
    let ghost tv = target_views(targets@);
    let mut k: usize = 0;
    while k < n
        invariant
            n == results@.len(),
            n == targets@.len(),
            tv == target_views(targets@),
            k <= n,
            ok == ok_count(results@.take(k as int)),
            ok <= k,
            match first_err {
                Some(e) => first_failure(tv.take(k as int), results@.take(k as int)) == Some(e@),
                None => first_failure(tv.take(k as int), results@.take(k as int)) is None,
            },
            views_of(succeeded@) == succeeded_ids(tv.take(k as int), results@.take(k as int)),
        decreases n - k,
    {
        proof {
            assert(results@.take(k + 1).drop_last() == results@.take(k as int));
            assert(tv.take(k + 1).drop_last() == tv.take(k as int));
            assert(results@.take(k + 1).last() == results@[k as int]);
            assert(tv.take(k + 1)[k as int] == tv[k as int]);
        }
        match &results[k] {
            Ok(_) => {
                ok += 1;
                let ghost before = succeeded@;
                succeeded.push(targets[k].id.clone());
                proof {
                    lemma_views_push(before, succeeded@.last());
                    assert(succeeded@ == before.push(succeeded@.last()));
                }
            },
            Err(e) => {
                if first_err.is_none() {
                    first_err = Some(cat3(targets[k].label.as_str(), ": ", e.as_str()));
                }
            },
        }
        k += 1;
    }
    proof {
        assert(results@.take(n as int) == results@);
        assert(tv.take(n as int) == tv);
    }
    let fail = n - ok;
    let mut summary = verb.clone();
    summary.append(" ");
    summary.append(string_of(&decimal_u64(ok as u64)).as_str());
    summary.append("/");
    summary.append(string_of(&decimal_u64(n as u64)).as_str());
    summary.append(" ✓");
    if fail > 0 {
        summary.append(" (");
        summary.append(string_of(&decimal_u64(fail as u64)).as_str());
        summary.append(" failed");
        match &first_err {
            Some(e) => {
                summary.append(": ");
                summary.append(e.as_str());
            },
            None => {},
        }
        summary.append(")");
    }
    let remove_marks = if verb == lit("delete") {
        succeeded
    } else {
        Vec::new()
    };
    Msg::BatchDone { verb, summary, remove_marks }
}


/// The log keeps at most `LOG_CAP` lines, and the newest: after a chunk
/// arrives the last line kept is the chunk's last line, and nothing is
/// dropped while there is room.
pub proof fn log_is_capped(old: App, new: App, chunk: Seq<char>)
    requires
        log_line_post(old, new, chunk),
    ensures
        new.logs@.len() <= LOG_CAP,
        new.logs@.len() > 0,
        views_of(new.logs@).last() == split_on(chunk, '\n').last(),
        old.logs@.len() + split_on(chunk, '\n').len() <= LOG_CAP ==> views_of(new.logs@) == views_of(old.logs@)
            + split_on(chunk, '\n'),
{
    lemma_split_on_len(chunk, '\n');
    let all = views_of(old.logs@) + split_on(chunk, '\n');
    assert(views_of(new.logs@).len() == new.logs@.len());
    assert(all.last() == split_on(chunk, '\n').last());
}

/// Whether `x` is the id of a target that succeeded.
proof fn lemma_succeeded_ids(targets: Seq<(Seq<char>, Seq<char>)>, results: Seq<Result<(), String>>, k: int)
    requires
        targets.len() == results.len(),
        targets.map_values(|t: (Seq<char>, Seq<char>)| t.0).no_duplicates(),
        0 <= k < targets.len(),
    ensures
        succeeded_ids(targets, results).contains(targets[k].0) <==> results[k] is Ok,
    decreases targets.len(),
{
    let ids = targets.map_values(|t: (Seq<char>, Seq<char>)| t.0);
    let n = targets.len();
    let tp = targets.drop_last();
    let rp = results.drop_last();
    let sp = succeeded_ids(tp, rp);
    assert(forall|i: int| 0 <= i < n ==> ids[i] == #[trigger] targets[i].0);
    assert(tp.map_values(|t: (Seq<char>, Seq<char>)| t.0) =~= ids.drop_last());
    let s = succeeded_ids(targets, results);
    if results.last() is Ok {
        assert(s == sp.push(targets[n - 1].0));
    } else {
        assert(s == sp);
    }
    if k < n - 1 {
        lemma_succeeded_ids(tp, rp, k);
        assert(tp[k] == targets[k]);
        assert(rp[k] == results[k]);
        assert(targets[k].0 != targets[n - 1].0) by {
            assert(ids[k] != ids[n - 1]);
        }
        if s.contains(targets[k].0) {
            let j = choose|j: int| 0 <= j < s.len() && s[j] == targets[k].0;
            if j < sp.len() {
                assert(s[j] == sp[j]);
            }
        }
        if sp.contains(targets[k].0) {
            let j = choose|j: int| 0 <= j < sp.len() && sp[j] == targets[k].0;
            assert(s[j] == sp[j]);
        }
    } else {
        if sp.contains(targets[k].0) {
            lemma_succeeded_in(tp, rp, targets[k].0);
            let i = choose|i: int| 0 <= i < tp.len() && tp[i].0 == targets[k].0;
            assert(ids[i] == ids[k]);
        }
        if results.last() is Ok {
            assert(s[sp.len() as int] == targets[k].0);
        }
    }
}

/// Every id in `succeeded_ids` is the id of some target.
proof fn lemma_succeeded_in(targets: Seq<(Seq<char>, Seq<char>)>, results: Seq<Result<(), String>>, x: Seq<char>)
    requires
        targets.len() == results.len(),
        succeeded_ids(targets, results).contains(x),
    ensures
        exists|i: int| 0 <= i < targets.len() && targets[i].0 == x,
    decreases targets.len(),
{
    let tp = targets.drop_last();
    let rp = results.drop_last();
    let sp = succeeded_ids(tp, rp);
    if sp.contains(x) {
        lemma_succeeded_in(tp, rp, x);
        let i = choose|i: int| 0 <= i < tp.len() && tp[i].0 == x;
        assert(targets[i] == tp[i]);
    } else {
        let s = succeeded_ids(targets, results);
        let j = choose|j: int| 0 <= j < s.len() && s[j] == x;
        if results.last() is Ok {
            assert(s == sp.push(targets[targets.len() - 1].0));
            if j < sp.len() {
                assert(s[j] == sp[j]);
            }
        }
        assert(targets[targets.len() - 1].0 == x);
    }
}

/// After a batch delete exactly the rows that were deleted are unmarked:
/// a target that failed stays marked for another try. Other batch verbs
/// keep every mark.
pub proof fn batch_unmarks_deleted_only(
    old: App,
    new: App,
    verb: Seq<char>,
    summary: String,
    targets: Seq<(Seq<char>, Seq<char>)>,
    results: Seq<Result<(), String>>,
    eff: Seq<EffectV>,
    k: int,
)
    requires
        targets.len() == results.len(),
        targets.map_values(|t: (Seq<char>, Seq<char>)| t.0).no_duplicates(),
        0 <= k < targets.len(),
        batch_done_post(
            old,
            new,
            verb,
            summary,
            if verb == "delete"@ {
                succeeded_ids(targets, results)
            } else {
                Seq::<Seq<char>>::empty()
            },
            eff,
        ),
    ensures
        verb == "delete"@ && results[k] is Err ==> (new.marked@.contains(targets[k].0) <==> old.marked@.contains(
            targets[k].0,
        )),
        verb == "delete"@ && results[k] is Ok ==> !new.marked@.contains(targets[k].0),
        verb != "delete"@ ==> new.marked@ == old.marked@,
{
    lemma_succeeded_ids(targets, results, k);
}

/// A refresh keeps the marks of rows still listed and drops the others.
pub proof fn refresh_keeps_live_marks(old: App, new: App, view: View, arg: Seq<char>, items: Seq<Item>, x: Seq<char>)
    requires
        data_post(old, new, view, arg, items),
        view == old.view,
        arg == fetch_arg_spec(old),
    ensures
        new.marked@.contains(x) <==> old.marked@.contains(x) && live_id(items, x),
{
}

/// A refresh keeps the cursor on its row: when the row that was selected
/// is still shown, and the first shown row with its id is not a group
/// heading, the selection is on that row afterwards.
pub proof fn refresh_keeps_selection(
    old: App,
    new: App,
    view: View,
    arg: Seq<char>,
    items: Seq<Item>,
    id: Seq<char>,
    p: int,
)
    requires
        new.wf(),
        data_post(old, new, view, arg, items),
        view == old.view,
        arg == fetch_arg_spec(old),
        sel_id_spec(old) == Some(id),
        first_id_pos(new, visible_spec(new), id, p),
        !header_at(new, visible_spec(new), p),
    ensures
        sel_id_spec(new) == Some(id),
        new.selected == p,
{
    reveal(reselect_spec);
    let mid = App { items: new.items, marked: new.marked, loading: false, status: new.status, ..old };
    let vis = visible_spec(mid);
    let q: int = if has_id_pos(mid, vis, id) {
        choose|q: int| first_id_pos(mid, vis, id, q)
    } else if vis.len() == 0 {
        0
    } else if (mid.selected as int) < vis.len() - 1 {
        mid.selected as int
    } else {
        vis.len() - 1
    };
    let t = snap_spec(with_sel(mid, q as usize, mid.voffset));
    assert(new == ensure_spec(t));
    lemma_ensure_frame(t);
    reveal(visible_spec);
    assert(visible_spec(new) == vis);
    lemma_visible_bounds(new);
    assert forall|k: int| 0 <= k < vis.len() implies id_at(mid, vis, k) == id_at(new, vis, k) by {}
    assert(first_id_pos(mid, vis, id, p));
    if q < p {
        assert(id_at(new, vis, q) != id);
    }
    if p < q {
        assert(id_at(mid, vis, p) != id);
    }
    assert(q == p);
    let s2 = with_sel(mid, p as usize, mid.voffset);
    assert(visible_spec(s2) == vis);
    assert(first_row_from(s2, vis, p, p));
    reveal(snap_sel);
    let f = choose|f: int| first_row_from(s2, vis, p, f);
    lemma_first_row_unique(s2, vis, p, f, p);
    assert(snap_sel(s2) == p);
}

/// Following the log keeps it pinned to the newest line: whatever message
/// comes in, following still means no scrollback.
pub proof fn follow_stays_pinned_on_messages(old: App, new: App, msg: Msg, eff: Seq<EffectV>)
    requires
        old.log_follow ==> old.log_scroll == 0,
        msg_post(old, new, msg, eff),
    ensures
        new.log_follow ==> new.log_scroll == 0,
{
    broadcast use {lemma_ensure_frame, lemma_clamp_frame};

    reveal(reselect_spec);
}

} // verus!
