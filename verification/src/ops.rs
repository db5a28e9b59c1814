//! Operations on resources that change the engine: container lifecycle,
//! deletes (one row or the marked rows, after confirmation), scaling and
//! pruning, and the messages their results are reported with.

use vstd::prelude::*;
use vstd::string::*;
use vstd::view::View as ViewOf;
use crate::app::{App, Effect, EffectV, effs, selected_spec, Confirm, PendingAction};
use crate::actions::noted;
use crate::docker::{View, Item, view_title};
use crate::events::{Msg, target_views};
use crate::mark::{Target, live_id, retain_existing, resolve_targets, targets_spec};
use crate::text::{lit, cat, cat3, string_of, decimal, decimal_u64};

verus! {

/// `c` asks to confirm a batch of `verb` over `targets` in `view`, with
/// prompt `prompt`.
pub open spec fn confirm_batch(
    c: Option<Confirm>,
    prompt: Seq<char>,
    verb: Seq<char>,
    view: View,
    targets: Seq<(Seq<char>, Seq<char>)>,
) -> bool {
    match c {
        Some(Confirm { prompt: p, action: PendingAction::Batch { verb: v, view: w, targets: t } }) => {
            &&& p@ == prompt
            &&& v@ == verb
            &&& w == view
            &&& target_views(t@) == targets
        },
        _ => false,
    }
}

/// `c` asks to confirm deleting `id` (shown as `label`) in `view`.
pub open spec fn confirm_delete(c: Option<Confirm>, prompt: Seq<char>, view: View, id: Seq<char>, label: Seq<char>) -> bool {
    match c {
        Some(Confirm { prompt: p, action: PendingAction::Delete { view: w, id: i, label: l } }) => {
            &&& p@ == prompt
            &&& w == view
            &&& i@ == id
            &&& l@ == label
        },
        _ => false,
    }
}

/// The verbs that apply to all marked containers at once.
pub open spec fn batch_verb(verb: Seq<char>) -> bool {
    verb == "stop"@ || verb == "start"@ || verb == "restart"@
}

/// The marked rows are all gone: the marks are dropped, with a note.
pub open spec fn marks_gone(old: App, new: App, note: Seq<char>) -> bool {
    &&& new == (App { marked: new.marked, status: new.status, ..old })
    &&& new.marked.wf()
    &&& new.marked@ == old.marked@.filter(|x: Seq<char>| live_id(old.items@, x))
    &&& new.status@ == note
}

/// Running `verb` on container `id` (shown as `label`).
pub open spec fn run_action_post(
    old: App,
    new: App,
    verb: Seq<char>,
    id: Seq<char>,
    label: Seq<char>,
    eff: Seq<EffectV>,
) -> bool {
    &&& noted(old, new, verb + " "@ + label + "…"@)
    &&& eff == seq![EffectV::ContainerAction { verb, id, label }]
}

/// A lifecycle verb (stop, start, restart, pause, unpause): on the marked
/// containers after confirmation when some are marked (stop, start and
/// restart), else at once on the selected one; only in the Containers view.
pub open spec fn action_post(old: App, new: App, verb: Seq<char>, eff: Seq<EffectV>) -> bool {
    if old.view != View::Containers {
        noted(old, new, verb + ": only in Containers view"@) && eff.len() == 0
    } else if old.marked@ != Set::<Seq<char>>::empty() && batch_verb(verb) {
        let targets = targets_spec(old.marked@, old.items@);
        &&& eff.len() == 0
        &&& if targets.len() == 0 {
            marks_gone(old, new, verb + ": marked rows gone — marks cleared"@)
        } else {
            &&& new == (App { confirm: new.confirm, ..old })
            &&& confirm_batch(
                new.confirm,
                verb + " "@ + decimal(targets.len()) + " containers?"@,
                verb,
                View::Containers,
                targets,
            )
        }
    } else {
        match selected_spec(old) {
            Some(it) => run_action_post(old, new, verb, it.id@, it.name@, eff),
            None => new == old && eff.len() == 0,
        }
    }
}

/// What a row of `v` is called in a delete prompt, where deleting applies.
pub open spec fn noun_of(v: View) -> Option<Seq<char>> {
    match v {
        View::Containers => Some("container"@),
        View::Images => Some("image"@),
        View::Volumes => Some("volume"@),
        View::Networks => Some("network"@),
        _ => None,
    }
}

/// Asking to delete: the marked rows when some are marked, else the
/// selected one, each after confirmation.
pub open spec fn delete_post(old: App, new: App) -> bool {
    match noun_of(old.view) {
        None => noted(old, new, "delete: not available here"@),
        Some(noun) => if old.marked@ != Set::<Seq<char>>::empty() {
            let targets = targets_spec(old.marked@, old.items@);
            let n = targets.len();
            if n == 0 {
                marks_gone(old, new, "delete: marked rows gone — marks cleared"@)
            } else {
                &&& new == (App { confirm: new.confirm, ..old })
                &&& confirm_batch(
                    new.confirm,
                    "remove "@ + decimal(n) + " "@ + (if n == 1 {
                        noun
                    } else {
                        noun + "s"@
                    }) + "?"@,
                    "delete"@,
                    old.view,
                    targets,
                )
            }
        } else {
            match selected_spec(old) {
                Some(it) => {
                    &&& new == (App { confirm: new.confirm, ..old })
                    &&& confirm_delete(
                        new.confirm,
                        "remove "@ + noun + " '"@ + it.name@ + "'"@,
                        old.view,
                        it.id@,
                        it.name@,
                    )
                },
                None => new == old,
            }
        },
    }
}

/// The confirmation asked before pruning dangling images.
pub open spec fn prune_prompt() -> Seq<char> {
    "prune all dangling images"@
}

/// The confirmation asked before a system prune.
pub open spec fn sysprune_prompt() -> Seq<char> {
    "SYSTEM prune -a: unused containers/networks/images + build cache (NOT volumes)"@
}

/// `m` is a notice with text `t`.
pub open spec fn is_info(m: Msg, t: Seq<char>) -> bool {
    m matches Msg::Info(x) && x@ == t
}

/// `m` is an error with text `t`.
pub open spec fn is_error(m: Msg, t: Seq<char>) -> bool {
    m matches Msg::Error(x) && x@ == t
}

/// The report of a lifecycle verb on one container.
pub fn action_report(verb: &str, label: &str, r: Result<(), String>) -> (m: Msg)
    ensures
        match r {
            Ok(_) => is_info(m, verb@ + " "@ + label@ + " ✓"@),
            Err(e) => is_error(m, verb@ + " "@ + label@ + ": "@ + e@),
        },
{
    match r {
        Ok(_) => {
            let mut t = cat3(verb, " ", label);
            t.append(" ✓");
            Msg::Info(t)
        },
        Err(e) => {
            let mut t = cat3(verb, " ", label);
            t.append(": ");
            t.append(e.as_str());
            Msg::Error(t)
        },
    }
}

/// The report of deleting one resource.
pub fn delete_report(label: &str, r: Result<(), String>) -> (m: Msg)
    ensures
        match r {
            Ok(_) => is_info(m, "removed "@ + label@ + " ✓"@),
            Err(e) => is_error(m, "remove "@ + label@ + ": "@ + e@),
        },
{
    match r {
        Ok(_) => Msg::Info(cat3("removed ", label, " ✓")),
        Err(e) => {
            let mut t = cat3("remove ", label, ": ");
            t.append(e.as_str());
            Msg::Error(t)
        },
    }
}

/// The report of an operation that answers with a notice (scale, prune,
/// system prune); failures are prefixed with `what`.
pub fn outcome_report(what: &str, r: Result<String, String>) -> (m: Msg)
    ensures
        match r {
            Ok(t) => is_info(m, t@),
            Err(e) => is_error(m, what@ + ": "@ + e@),
        },
{
    match r {
        Ok(t) => Msg::Info(t),
        Err(e) => Msg::Error(cat3(what, ": ", e.as_str())),
    }
}

/// The report of listing `view` with `arg`.
pub fn list_report(view: View, arg: String, r: Result<Vec<Item>, String>) -> (m: Msg)
    ensures
        match r {
            Ok(items) => m matches Msg::Data { view: v, arg: a, items: i } && v == view && a == arg && i == items,
            Err(e) => is_error(m, view_title(view)@ + ": "@ + e@),
        },
{
    match r {
        Ok(items) => Msg::Data { view, arg, items },
        Err(e) => Msg::Error(cat3(view.title(), ": ", e.as_str())),
    }
}

/// The report of an inspect.
pub fn inspect_report(r: Result<String, String>) -> (m: Msg)
    ensures
        match r {
            Ok(t) => m matches Msg::Inspect(x) && x == t,
            Err(e) => is_error(m, "inspect: "@ + e@),
        },
{
    match r {
        Ok(t) => Msg::Inspect(t),
        Err(e) => Msg::Error(cat("inspect: ", e.as_str())),
    }
}

/// The report of reading compose file `path`.
pub fn read_report(path: &str, r: Result<String, String>) -> (m: Msg)
    ensures
        match r {
            Ok(t) => m matches Msg::Inspect(x) && x == t,
            Err(e) => is_error(m, "read "@ + path@ + ": "@ + e@),
        },
{
    match r {
        Ok(t) => Msg::Inspect(t),
        Err(e) => Msg::Error(cat3("read ", path, ": ").concat(e.as_str())),
    }
}

/// What a row of `v` is called in a delete prompt.
fn noun(v: View) -> (r: Option<&'static str>)
    ensures
        match r {
            Some(t) => noun_of(v) == Some(t@),
            None => noun_of(v) is None,
        },
{
    match v {
        View::Containers => Some("container"),
        View::Images => Some("image"),
        View::Volumes => Some("volume"),
        View::Networks => Some("network"),
        _ => None,
    }
}

/// The prompt before deleting `n` marked rows called `noun`.
fn batch_delete_prompt(noun: &str, n: usize) -> (r: String)
    ensures
        r@ == "remove "@ + decimal(n as nat) + " "@ + (if n == 1 {
            noun@
        } else {
            noun@ + "s"@
        }) + "?"@,
{
    let digits = decimal_u64(n as u64);
    let mut prompt = cat3("remove ", string_of(&digits).as_str(), " ");
    prompt.append(noun);
    if n != 1 {
        prompt.append("s");
    }
    prompt.append("?");
    prompt
}

impl App {
    /// Run `verb` on container `id` (shown as `label`).
    pub fn run_action(&mut self, verb: String, id: String, label: String) -> (e: Effect)
        ensures
            run_action_post(*old(self), *final(self), verb@, id@, label@, seq![e@]),
    {
        let mut st = cat3(verb.as_str(), " ", label.as_str());
        st.append("…");
        self.status = st;
        Effect::ContainerAction { verb, id, label }
    }

    /// Apply a lifecycle verb to the marked containers or the selected one.
    pub fn action(&mut self, verb: &str) -> (eff: Vec<Effect>)
        requires
            old(self).wf(),
        ensures
            final(self).wf(),
            action_post(*old(self), *final(self), verb@, effs(eff@)),
    {
        let mut eff: Vec<Effect> = Vec::new();
        assert(effs(eff@) =~= Seq::<EffectV>::empty());
        if self.view != View::Containers {
            self.status = cat(verb, ": only in Containers view");
            return eff;
        }
        let v = lit(verb);
        let batch = v == lit("stop") || v == lit("start") || v == lit("restart");
        if !self.marked.is_empty() && batch {
            let targets = resolve_targets(&self.marked, &self.items);
            if targets.len() == 0 {
                retain_existing(&mut self.marked, &self.items);
                self.status = cat(verb, ": marked rows gone — marks cleared");
                return eff;
            }
            let n = decimal_u64(targets.len() as u64);
            let mut prompt = cat3(verb, " ", string_of(&n).as_str());
            prompt.append(" containers?");
            self.confirm = Some(
                Confirm { prompt, action: PendingAction::Batch { verb: v, view: self.view, targets } },
            );
            return eff;
        }
        let (id, label) = match self.selected_item() {
            Some(it) => (it.id.clone(), it.name.clone()),
            None => return eff,
        };
        let e = self.run_action(v, id, label);
        eff.push(e);
        assert(effs(eff@) =~= seq![e@]);
        eff
    }

    /// Ask to delete the marked rows, or else the selected one.
    #[verifier::spinoff_prover]
    #[verifier::rlimit(40)]
    pub fn delete_selected(&mut self)
        requires
            old(self).wf(),
        ensures
            final(self).wf(),
            delete_post(*old(self), *final(self)),
    {
        let noun = match noun(self.view) {
            Some(t) => t,
            None => {
                self.status = lit("delete: not available here");
                return;
            },
        };
        if !self.marked.is_empty() {
            let targets = resolve_targets(&self.marked, &self.items);
            if targets.len() == 0 {
                retain_existing(&mut self.marked, &self.items);
                self.status = lit("delete: marked rows gone — marks cleared");
                return;
            }
            let prompt = batch_delete_prompt(noun, targets.len());
            assert(target_views(targets@).len() == targets@.len());
            self.confirm = Some(
                Confirm {
                    prompt,
                    action: PendingAction::Batch { verb: lit("delete"), view: self.view, targets },
                },
            );
            return;
        }
        let (id, label) = match self.selected_item() {
            Some(it) => (it.id.clone(), it.name.clone()),
            None => return,
        };
        let mut prompt = cat3("remove ", noun, " '");
        prompt.append(label.as_str());
        prompt.append("'");
        self.confirm = Some(Confirm { prompt, action: PendingAction::Delete { view: self.view, id, label } });
    }

    /// Delete `id` (shown as `label`) from `view`.
    pub fn run_delete(&mut self, view: View, id: String, label: String) -> (e: Effect)
        ensures
            noted(*old(self), *final(self), "removing "@ + label@ + "…"@),
            e@ == (EffectV::Delete { view, id: id@, label: label@ }),
    {
        self.status = cat3("removing ", label.as_str(), "…");
        Effect::Delete { view, id, label }
    }

    /// Run `verb` over `targets`, one at a time, reporting with
    /// `batch_done`.
    pub fn run_batch(&mut self, verb: String, view: View, targets: Vec<Target>) -> (e: Effect)
        ensures
            noted(*old(self), *final(self), verb@ + " 0/"@ + decimal(targets@.len()) + "…"@),
            e@ == (EffectV::Batch { verb: verb@, view, targets: target_views(targets@) }),
    {
        let n = decimal_u64(targets.len() as u64);
        let mut st = cat(verb.as_str(), " 0/");
        st.append(string_of(&n).as_str());
        st.append("…");
        self.status = st;
        Effect::Batch { verb, view, targets }
    }

    /// Scale the selected service by `delta` replicas.
    pub fn scale(&mut self, delta: i64) -> (eff: Vec<Effect>)
        ensures
            if old(self).view != View::Services {
                noted(*old(self), *final(self), "scale: only for services"@) && effs(eff@).len() == 0
            } else {
                match selected_spec(*old(self)) {
                    Some(it) => noted(*old(self), *final(self), "scaling "@ + it.name@ + "…"@) && effs(eff@)
                        == seq![EffectV::Scale { name: it.name@, delta }],
                    None => *final(self) == *old(self) && effs(eff@).len() == 0,
                }
            },
    {
        let mut eff: Vec<Effect> = Vec::new();
        if self.view != View::Services {
            self.status = lit("scale: only for services");
            return eff;
        }
        let name = match self.selected_item() {
            Some(it) => it.name.clone(),
            None => return eff,
        };
        self.status = cat3("scaling ", name.as_str(), "…");
        eff.push(Effect::Scale { name, delta });
        assert(effs(eff@) =~= seq![eff@[0]@]);
        eff
    }

    /// Ask to confirm pruning dangling images.
    pub fn request_prune(&mut self)
        ensures
            *final(self) == (App { confirm: final(self).confirm, ..*old(self) }),
            final(self).confirm matches Some(Confirm { prompt: p, action: PendingAction::PruneImages }) && p@
                == prune_prompt(),
    {
        self.confirm = Some(Confirm { prompt: lit("prune all dangling images"), action: PendingAction::PruneImages });
    }

    /// Ask to confirm a system prune (`docker system prune -a`, volumes
    /// kept).
    pub fn request_sysprune(&mut self)
        ensures
            *final(self) == (App { confirm: final(self).confirm, ..*old(self) }),
            final(self).confirm matches Some(Confirm { prompt: p, action: PendingAction::SystemPrune }) && p@
                == sysprune_prompt(),
    {
        self.confirm = Some(
            Confirm {
                prompt: lit("SYSTEM prune -a: unused containers/networks/images + build cache (NOT volumes)"),
                action: PendingAction::SystemPrune,
            },
        );
    }

    /// Prune dangling images.
    pub fn do_prune_images(&mut self) -> (e: Effect)
        ensures
            noted(*old(self), *final(self), "pruning dangling images…"@),
            e@ == EffectV::PruneImages,
    {
        self.status = lit("pruning dangling images…");
        Effect::PruneImages
    }

    /// Prune unused containers, networks, images and build cache.
    pub fn do_system_prune(&mut self) -> (e: Effect)
        ensures
            noted(*old(self), *final(self), "system prune -a…"@),
            e@ == EffectV::SystemPrune,
    {
        self.status = lit("system prune -a…");
        Effect::SystemPrune
    }
}

} // verus!
