//! Rows that gather resources by a label, as the CLI's `compose ls`,
//! `stack ls` and `stack ps` do client side: compose projects from their
//! containers, stacks from their services, and a stack's tasks grouped under
//! their service.

use vstd::prelude::*;
use vstd::string::*;
use vstd::view::View as ViewOf;
use crate::docker::{Item, row};
use crate::events::copy_strings;
use crate::text::{views_of, lit, chars_of, string_of, chars_equal, dedup_spec, dedup_chars};
use crate::text::{decimal, decimal_u64, push_str};

verus! {

/// What the compose labels of a container say: its project, service and
/// config files; and the container's state.
#[derive(Debug)]
pub struct ComposeMember {
    pub project: String,
    pub service: String,
    pub config_files: String,
    pub state: String,
}

/// The compose projects, in the order their first container comes.
pub open spec fn projects_of(ms: Seq<ComposeMember>) -> Seq<Seq<char>> {
    dedup_spec(ms.map_values(|m: ComposeMember| m.project@))
}

/// Number of containers of project `p` (only the running ones when
/// `running_only`).
pub open spec fn count_in(ms: Seq<ComposeMember>, p: Seq<char>, running_only: bool) -> nat
    decreases ms.len(),
{
    if ms.len() == 0 {
        0
    } else {
        count_in(ms.drop_last(), p, running_only) + if ms.last().project@ == p && (!running_only
            || ms.last().state@ == "running"@) {
            1nat
        } else {
            0nat
        }
    }
}

/// The services of the containers of project `p`, in order, with repeats.
pub open spec fn services_in(ms: Seq<ComposeMember>, p: Seq<char>) -> Seq<Seq<char>>
    decreases ms.len(),
{
    if ms.len() == 0 {
        Seq::empty()
    } else {
        let r = services_in(ms.drop_last(), p);
        if ms.last().project@ == p {
            r.push(ms.last().service@)
        } else {
            r
        }
    }
}

/// The config files recorded on the first container of project `p`.
pub open spec fn first_config(ms: Seq<ComposeMember>, p: Seq<char>) -> Option<Seq<char>>
    decreases ms.len(),
{
    if ms.len() == 0 {
        None
    } else {
        match first_config(ms.drop_last(), p) {
            Some(c) => Some(c),
            None => if ms.last().project@ == p {
                Some(ms.last().config_files@)
            } else {
                None
            },
        }
    }
}

/// A project's status: how many of its `t` containers run (`r`) and how
/// many exited.
pub open spec fn status_text(r: nat, t: nat) -> Seq<char> {
    if r > 0 && t > r {
        "running("@ + decimal(r) + "), exited("@ + decimal((t - r) as nat) + ")"@
    } else if r > 0 {
        "running("@ + decimal(r) + ")"@
    } else {
        "exited("@ + decimal(t) + ")"@
    }
}

/// The row of compose project `p`: name, status, number of services and
/// config files.
pub open spec fn compose_row(ms: Seq<ComposeMember>, p: Seq<char>) -> (Seq<char>, Seq<char>, Seq<Seq<char>>, bool) {
    (
        p,
        p,
        seq![
            p,
            status_text(count_in(ms, p, true), count_in(ms, p, false)),
            decimal(dedup_spec(services_in(ms, p)).len()),
            match first_config(ms, p) {
                Some(c) => c,
                None => Seq::<char>::empty(),
            },
        ],
        false,
    )
}

/// The status text of a project.
fn status_string(r: usize, t: usize) -> (s: String)
    ensures
        s@ == status_text(r as nat, t as nat),
{
    if r > 0 && t > r {
        let mut s = lit("running(");
        s.append(string_of(&decimal_u64(r as u64)).as_str());
        s.append("), exited(");
        s.append(string_of(&decimal_u64((t - r) as u64)).as_str());
        s.append(")");
        s
    } else if r > 0 {
        let mut s = lit("running(");
        s.append(string_of(&decimal_u64(r as u64)).as_str());
        s.append(")");
        s
    } else {
        let mut s = lit("exited(");
        s.append(string_of(&decimal_u64(t as u64)).as_str());
        s.append(")");
        s
    }
}

/// The row of compose project `p` among the containers `ms`.
fn compose_item(ms: &Vec<ComposeMember>, p: &Vec<char>) -> (it: Item)
    ensures
        row(it) == compose_row(ms@, p@),
{
    let mut running: usize = 0;
    let mut total: usize = 0;
    let mut svcs: Vec<Vec<char>> = Vec::new();
    let mut config: Option<Vec<char>> = None;
    let mut i: usize = 0;
    while i < ms.len()
        invariant
            i <= ms@.len(),
            total <= i,
            running <= total,
            running == count_in(ms@.take(i as int), p@, true),
            total == count_in(ms@.take(i as int), p@, false),
            svcs@.map_values(|v: Vec<char>| v@) == services_in(ms@.take(i as int), p@),
            match config {
                Some(c) => first_config(ms@.take(i as int), p@) == Some(c@),
                None => first_config(ms@.take(i as int), p@) is None,
            },
        decreases ms.len() - i,
    {
        proof {
            assert(ms@.take(i + 1).drop_last() == ms@.take(i as int));
            assert(ms@.take(i + 1).last() == ms@[i as int]);
        }
        let pm = chars_of(ms[i].project.as_str());
        if chars_equal(&pm, p) {
            total += 1;
            if ms[i].state == lit("running") {
                running += 1;
            }
            let ghost before = svcs@;
            svcs.push(chars_of(ms[i].service.as_str()));
            assert(svcs@.map_values(|v: Vec<char>| v@) =~= before.map_values(|v: Vec<char>| v@).push(
                ms@[i as int].service@,
            ));
            if config.is_none() {
                config = Some(chars_of(ms[i].config_files.as_str()));
            }
        }
        i += 1;
    }
    assert(ms@.take(ms@.len() as int) == ms@);
    let n_svc = dedup_chars(svcs).len();
    let name = string_of(p);
    let mut cells: Vec<String> = Vec::new();
    assert(views_of(cells@) =~= Seq::<Seq<char>>::empty());
    push_str(&mut cells, string_of(p));
    push_str(&mut cells, status_string(running, total));
    push_str(&mut cells, string_of(&decimal_u64(n_svc as u64)));
    let files = match config {
        Some(c) => string_of(&c),
        None => String::new(),
    };
    push_str(&mut cells, files);
    Item { id: string_of(p), name, cells, header: false }
}

/// One row per compose project (in the order its first container comes):
/// name, status (`running(N)`, `exited(N)` or both), number of services and
/// the config files of its first container.
pub fn compose_rows(ms: &Vec<ComposeMember>) -> (rows: Vec<Item>)
    ensures
        rows@.len() == projects_of(ms@).len(),
        forall|k: int| 0 <= k < rows@.len() ==> row(#[trigger] rows@[k]) == compose_row(ms@, projects_of(ms@)[k]),
{
    let mut names: Vec<Vec<char>> = Vec::new();
    let mut i: usize = 0;
    while i < ms.len()
        invariant
            i <= ms@.len(),
            names@.map_values(|v: Vec<char>| v@) == ms@.take(i as int).map_values(|m: ComposeMember| m.project@),
        decreases ms.len() - i,
    {
        let ghost before = names@;
        names.push(chars_of(ms[i].project.as_str()));
        proof {
            assert(names@ == before.push(names@.last()));
            assert(ms@.take(i + 1) == ms@.take(i as int).push(ms@[i as int]));
            assert(names@.map_values(|v: Vec<char>| v@) =~= before.map_values(|v: Vec<char>| v@).push(
                ms@[i as int].project@,
            ));
            assert(ms@.take(i + 1).map_values(|m: ComposeMember| m.project@) =~= ms@.take(i as int).map_values(
                |m: ComposeMember| m.project@,
            ).push(ms@[i as int].project@));
        }
        i += 1;
    }
    assert(ms@.take(ms@.len() as int) == ms@);
    let projects = dedup_chars(names);
    let ghost pv = projects@.map_values(|v: Vec<char>| v@);
    let mut rows: Vec<Item> = Vec::new();
    let mut k: usize = 0;
    while k < projects.len()
        invariant
            k <= projects@.len(),
            pv == projects@.map_values(|v: Vec<char>| v@),
            pv == projects_of(ms@),
            rows@.len() == k,
            forall|j: int| 0 <= j < k ==> row(#[trigger] rows@[j]) == compose_row(ms@, pv[j]),
        decreases projects.len() - k,
    {
        let it = compose_item(ms, &projects[k]);
        rows.push(it);
        k += 1;
    }
    rows
}

/// The stacks, in the order their first service comes.
pub open spec fn stacks_of(stacks: Seq<Seq<char>>) -> Seq<Seq<char>> {
    dedup_spec(stacks)
}

/// Number of services whose stack is `s`.
pub open spec fn services_of_stack(stacks: Seq<Seq<char>>, s: Seq<char>) -> nat
    decreases stacks.len(),
{
    if stacks.len() == 0 {
        0
    } else {
        services_of_stack(stacks.drop_last(), s) + if stacks.last() == s {
            1nat
        } else {
            0nat
        }
    }
}

/// The row of stack `s`: name, number of services, orchestrator.
pub open spec fn stack_row(stacks: Seq<Seq<char>>, s: Seq<char>) -> (Seq<char>, Seq<char>, Seq<Seq<char>>, bool) {
    (s, s, seq![s, decimal(services_of_stack(stacks, s)), "Swarm"@], false)
}

/// One row per stack, given the stack of each stack service in order:
/// name, number of services and orchestrator.
pub fn stack_rows(stacks: &Vec<String>) -> (rows: Vec<Item>)
    ensures
        rows@.len() == stacks_of(views_of(stacks@)).len(),
        forall|k: int|
            0 <= k < rows@.len() ==> row(#[trigger] rows@[k]) == stack_row(views_of(stacks@), stacks_of(views_of(stacks@))[k]),
{
    let ghost sv = views_of(stacks@);
    let mut names: Vec<Vec<char>> = Vec::new();
    let mut i: usize = 0;
    while i < stacks.len()
        invariant
            i <= stacks@.len(),
            sv == views_of(stacks@),
            names@.map_values(|v: Vec<char>| v@) == sv.take(i as int),
        decreases stacks.len() - i,
    {
        let ghost before = names@;
        names.push(chars_of(stacks[i].as_str()));
        proof {
            assert(names@ == before.push(names@.last()));
            assert(names@.map_values(|v: Vec<char>| v@) =~= before.map_values(|v: Vec<char>| v@).push(
                stacks@[i as int]@,
            ));
            assert(sv.take(i + 1) =~= sv.take(i as int).push(sv[i as int]));
        }
        i += 1;
    }
    assert(sv.take(sv.len() as int) == sv);
    let uniq = dedup_chars(names);
    let ghost uv = uniq@.map_values(|v: Vec<char>| v@);
    let mut rows: Vec<Item> = Vec::new();
    let mut k: usize = 0;
    while k < uniq.len()
        invariant
            k <= uniq@.len(),
            sv == views_of(stacks@),
            uv == uniq@.map_values(|v: Vec<char>| v@),
            uv == stacks_of(sv),
            rows@.len() == k,
            forall|j: int| 0 <= j < k ==> row(#[trigger] rows@[j]) == stack_row(sv, uv[j]),
        decreases uniq.len() - k,
    {
        let s = &uniq[k];
        let mut n: usize = 0;
        let mut i: usize = 0;
        while i < stacks.len()
            invariant
                i <= stacks@.len(),
                n <= i,
                sv == views_of(stacks@),
                n == services_of_stack(sv.take(i as int), s@),
            decreases stacks.len() - i,
        {
            proof {
                assert(sv.take(i + 1).drop_last() == sv.take(i as int));
                assert(sv.take(i + 1).last() == stacks@[i as int]@);
            }
            if chars_equal(&chars_of(stacks[i].as_str()), s) {
                n += 1;
            }
            i += 1;
        }
        assert(sv.take(sv.len() as int) == sv);
        let mut cells: Vec<String> = Vec::new();
        assert(views_of(cells@) =~= Seq::<Seq<char>>::empty());
        push_str(&mut cells, string_of(s));
        push_str(&mut cells, string_of(&decimal_u64(n as u64)));
        push_str(&mut cells, lit("Swarm"));
        rows.push(Item { id: string_of(s), name: string_of(s), cells, header: false });
        k += 1;
    }
    rows
}

/// A task row of a stack: the task's row with its service as the second
/// cell.
pub fn with_service(it: Item, service: &str) -> (out: Item)
    requires
        it.cells@.len() >= 1,
    ensures
        row(out) == (it.id@, it.name@, views_of(it.cells@).insert(1, service@), it.header),
{
    let mut cells = it.cells;
    let ghost before = cells@;
    cells.insert(1, lit(service));
    assert(views_of(cells@) =~= views_of(before).insert(1, service@));
    Item { id: it.id, name: it.name, cells, header: it.header }
}

/// The group heading of service `s`.
pub open spec fn heading(s: Seq<char>) -> (Seq<char>, Seq<char>, Seq<Seq<char>>, bool) {
    (s, s, seq![s], true)
}

/// The rows of the tasks of service `s`, in order.
pub open spec fn tasks_of(tasks: Seq<(String, Item)>, s: Seq<char>) -> Seq<(Seq<char>, Seq<char>, Seq<Seq<char>>, bool)>
    decreases tasks.len(),
{
    if tasks.len() == 0 {
        Seq::empty()
    } else {
        let r = tasks_of(tasks.drop_last(), s);
        if tasks.last().0@ == s {
            r.push(row(tasks.last().1))
        } else {
            r
        }
    }
}

/// Each service's heading followed by its tasks, services in order.
pub open spec fn grouped_rows(services: Seq<Seq<char>>, tasks: Seq<(String, Item)>) -> Seq<
    (Seq<char>, Seq<char>, Seq<Seq<char>>, bool),
>
    decreases services.len(),
{
    if services.len() == 0 {
        Seq::empty()
    } else {
        grouped_rows(services.drop_last(), tasks) + seq![heading(services.last())] + tasks_of(
            tasks,
            services.last(),
        )
    }
}

/// A copy of `it`.
fn copy_item(it: &Item) -> (out: Item)
    ensures
        row(out) == row(*it),
{
    Item { id: it.id.clone(), name: it.name.clone(), cells: copy_strings(&it.cells), header: it.header }
}

/// The rows of a stack's tasks grouped by service: a heading per service
/// (in the order given), then the tasks of that service (`(service, row)`
/// pairs, in the order given).
pub fn stack_task_rows(services: &Vec<String>, tasks: &Vec<(String, Item)>) -> (rows: Vec<Item>)
    ensures
        rows@.map_values(|it: Item| row(it)) == grouped_rows(views_of(services@), tasks@),
{
    let ghost sv = views_of(services@);
    let mut rows: Vec<Item> = Vec::new();
    let mut k: usize = 0;
    while k < services.len()
        invariant
            k <= services@.len(),
            sv == views_of(services@),
            rows@.map_values(|it: Item| row(it)) == grouped_rows(sv.take(k as int), tasks@),
        decreases services.len() - k,
    {
        proof {
            assert(sv.take(k + 1).drop_last() == sv.take(k as int));
            assert(sv.take(k + 1).last() == services@[k as int]@);
        }
        let s = &services[k];
        let ghost base = rows@.map_values(|it: Item| row(it));
        let mut cells: Vec<String> = Vec::new();
        assert(views_of(cells@) =~= Seq::<Seq<char>>::empty());
        push_str(&mut cells, s.clone());
        rows.push(Item { id: s.clone(), name: s.clone(), cells, header: true });
        assert(rows@.map_values(|it: Item| row(it)) =~= base + seq![heading(s@)]);
        let mut i: usize = 0;
        while i < tasks.len()
            invariant
                i <= tasks@.len(),
                rows@.map_values(|it: Item| row(it)) == base + seq![heading(s@)] + tasks_of(
                    tasks@.take(i as int),
                    s@,
                ),
            decreases tasks.len() - i,
        {
            proof {
                assert(tasks@.take(i + 1).drop_last() == tasks@.take(i as int));
                assert(tasks@.take(i + 1).last() == tasks@[i as int]);
            }
            if tasks[i].0 == *s {
                let ghost before = rows@.map_values(|it: Item| row(it));
                let c = copy_item(&tasks[i].1);
                rows.push(c);
                assert(rows@.map_values(|it: Item| row(it)) =~= before.push(row(tasks@[i as int].1)));
            }
            i += 1;
        }
        assert(tasks@.take(tasks@.len() as int) == tasks@);
        k += 1;
    }
    assert(sv.take(sv.len() as int) == sv);
    rows
}

} // verus!
