use d9cker::app::{App, Confirm, Effect, Mode, PendingAction};
use d9cker::docker::{volume_item, Item, View};
use d9cker::events::{batch_done, humanize_error, text_lines, split_by, Msg};
use d9cker::keys::Key;
use d9cker::mark::{MarkSet, Target};

fn row(id: &str, name: &str, state: &str) -> Item {
    Item {
        id: id.into(),
        name: name.into(),
        cells: vec![id.into(), name.into(), "img".into(), state.into(), "Up".into(), "".into()],
        header: false,
    }
}

fn header(id: &str, text: &str) -> Item {
    Item { id: id.into(), name: text.into(), cells: vec![text.into()], header: true }
}

fn loaded(items: Vec<Item>) -> App {
    let mut app = App::new("default".into());
    let arg = app.fetch_arg();
    app.on_data(View::Containers, arg, items);
    app
}

fn press(app: &mut App, k: Key) -> Vec<Effect> {
    assert!(app.key_fits(k));
    app.handle_key(k, false)
}

fn type_text(app: &mut App, s: &str) {
    for c in s.chars() {
        press(app, Key::Char(c));
    }
}

fn names(app: &App) -> Vec<String> {
    app.visible_indices().iter().map(|&i| app.items[i].name.clone()).collect()
}

#[test]
fn start_up_state() {
    let app = App::new("prod".into());
    assert_eq!(app.context, "prod");
    assert_eq!(app.view, View::Containers);
    assert_eq!(app.status, "Loading…");
    assert!(app.loading);
    assert_eq!(app.page_size, 20);
    assert!(app.marked.is_empty());
}

#[test]
fn data_for_another_view_is_ignored() {
    let mut app = App::new("default".into());
    app.on_data(View::Images, "".into(), vec![row("a", "a", "running")]);
    assert!(app.items.is_empty());
    assert!(app.loading);
    app.on_data(View::Containers, "all".into(), vec![row("a", "a", "running")]);
    assert!(app.items.is_empty());
    app.on_data(View::Containers, "".into(), vec![row("a", "a", "running")]);
    assert_eq!(app.items.len(), 1);
    assert!(!app.loading);
    assert_eq!(app.status, "");
}

#[test]
fn filter_is_case_insensitive_over_cells() {
    let mut app = loaded(vec![row("1", "Web", "running"), row("2", "db", "exited"), row("3", "cache", "running")]);
    press(&mut app, Key::Char('/'));
    assert!(app.filtering);
    type_text(&mut app, "WE");
    assert_eq!(names(&app), vec!["Web"]);
    press(&mut app, Key::Backspace);
    press(&mut app, Key::Backspace);
    type_text(&mut app, "run");
    assert_eq!(names(&app), vec!["Web", "cache"]);
    press(&mut app, Key::Enter);
    assert!(!app.filtering);
    assert_eq!(app.filter, "run");
    press(&mut app, Key::Esc);
    assert_eq!(app.filter, "");
    assert_eq!(names(&app).len(), 3);
}

#[test]
fn sort_cycles_columns_and_reverses() {
    let mut app = loaded(vec![row("1", "b", "running"), row("2", "C", "exited"), row("3", "a", "running")]);
    press(&mut app, Key::Char('o'));
    assert_eq!(app.sort_col, Some(0));
    press(&mut app, Key::Char('o'));
    assert_eq!(app.sort_col, Some(1));
    assert_eq!(names(&app), vec!["a", "b", "C"]);
    press(&mut app, Key::Char('O'));
    assert_eq!(names(&app), vec!["C", "b", "a"]);
    for _ in 0..5 {
        press(&mut app, Key::Char('o'));
    }
    assert_eq!(app.sort_col, None);
    assert_eq!(names(&app), vec!["b", "C", "a"]);
}

#[test]
fn sort_is_refused_in_grouped_views() {
    let mut app = loaded(vec![header("h", "group"), row("1", "b", "running")]);
    press(&mut app, Key::Char('o'));
    assert_eq!(app.sort_col, None);
    assert_eq!(app.status, "sort disabled in grouped view");
}

#[test]
fn selection_skips_headers() {
    let mut app = loaded(vec![header("h1", "one"), row("1", "a", "running"), header("h2", "two"), row("2", "b", "running")]);
    assert_eq!(app.selected, 1);
    press(&mut app, Key::Char('j'));
    assert_eq!(app.selected, 3);
    press(&mut app, Key::Char('j'));
    assert_eq!(app.selected, 3);
    press(&mut app, Key::Char('k'));
    assert_eq!(app.selected, 1);
    press(&mut app, Key::Char('g'));
    assert_eq!(app.selected, 1);
    press(&mut app, Key::Char('G'));
    assert_eq!(app.selected, 3);
}

#[test]
fn selection_follows_its_row_across_refresh() {
    let mut app = loaded(vec![row("1", "a", "running"), row("2", "b", "running"), row("3", "c", "running")]);
    press(&mut app, Key::Char('j'));
    press(&mut app, Key::Char('j'));
    assert_eq!(app.selected_item().unwrap().id, "3");
    app.on_data(View::Containers, "".into(), vec![row("3", "c", "running"), row("1", "a", "running")]);
    assert_eq!(app.selected, 0);
    assert_eq!(app.selected_item().unwrap().id, "3");
    app.on_data(View::Containers, "".into(), vec![row("9", "z", "running")]);
    assert_eq!(app.selected, 0);
}

#[test]
fn scrolling_keeps_the_selection_on_screen() {
    let items: Vec<Item> = (0..50).map(|i| row(&i.to_string(), &format!("r{i}"), "running")).collect();
    let mut app = loaded(items);
    app.page_size = 10;
    press(&mut app, Key::PageDown);
    assert_eq!(app.selected, 10);
    assert_eq!(app.voffset, 1);
    press(&mut app, Key::Char('d'));
    assert_eq!(app.selected, 15);
    assert_eq!(app.voffset, 6);
    press(&mut app, Key::End);
    assert_eq!(app.selected, 49);
    assert_eq!(app.voffset, 40);
    press(&mut app, Key::Home);
    assert_eq!(app.selected, 0);
    assert_eq!(app.voffset, 0);
}

#[test]
fn mark_keys() {
    let mut app = loaded(vec![row("1", "a", "running"), row("2", "b", "running"), row("3", "c", "exited")]);
    press(&mut app, Key::Char('m'));
    assert!(app.marked.contains("1"));
    assert_eq!(app.selected, 1);
    press(&mut app, Key::Char('M'));
    assert_eq!(app.marked.len(), 3);
    press(&mut app, Key::Char('U'));
    assert!(app.marked.is_empty());
    press(&mut app, Key::Char('m'));
    // invert only the visible rows
    press(&mut app, Key::Char('/'));
    type_text(&mut app, "running");
    press(&mut app, Key::Enter);
    press(&mut app, Key::Char('T'));
    assert_eq!(app.marked, MarkSet::from_ids(vec!["1".into()]));
}

#[test]
fn switching_tabs_clears_marks_but_filtering_keeps_them() {
    let mut app = loaded(vec![row("1", "a", "running"), row("2", "b", "running")]);
    press(&mut app, Key::Char('M'));
    press(&mut app, Key::Char('/'));
    type_text(&mut app, "zz");
    press(&mut app, Key::Esc);
    press(&mut app, Key::Char('o'));
    press(&mut app, Key::Right);
    assert_eq!(app.marked.len(), 2);
    let eff = press(&mut app, Key::Tab);
    assert!(app.marked.is_empty());
    assert!(app.items.is_empty());
    assert_ne!(app.view, View::Containers);
    assert!(matches!(eff[0], Effect::Fetch { .. }));
}

#[test]
fn refresh_keeps_marks_of_rows_still_listed() {
    let mut app = loaded(vec![row("1", "a", "running"), row("2", "b", "running")]);
    press(&mut app, Key::Char('M'));
    app.on_data(View::Containers, "".into(), vec![row("2", "b", "running"), header("1", "a")]);
    assert_eq!(app.marked, MarkSet::from_ids(vec!["2".into()]));
}

#[test]
fn batch_delete_asks_then_unmarks_what_was_deleted() {
    let mut app = loaded(vec![row("1", "a", "running"), row("2", "b", "running"), row("3", "c", "running")]);
    press(&mut app, Key::Char('m'));
    press(&mut app, Key::Char('m'));
    let eff = press(&mut app, Key::Char('x'));
    assert!(eff.is_empty());
    match &app.confirm {
        Some(Confirm { prompt, action: PendingAction::Batch { verb, view, targets } }) => {
            assert_eq!(prompt, "remove 2 containers?");
            assert_eq!(verb, "delete");
            assert_eq!(*view, View::Containers);
            assert_eq!(targets.len(), 2);
        }
        other => panic!("unexpected {other:?}"),
    }
    let eff = press(&mut app, Key::Char('y'));
    assert!(app.confirm.is_none());
    assert_eq!(app.status, "delete 0/2…");
    let targets = match &eff[0] {
        Effect::Batch { verb, view, targets } => {
            assert_eq!(verb, "delete");
            assert_eq!(*view, View::Containers);
            targets.clone()
        }
        other => panic!("unexpected {other:?}"),
    };
    let msg = batch_done("delete".into(), &targets, &vec![Ok(()), Err("in use".into())]);
    let eff = app.on_msg(msg);
    assert_eq!(app.status, "delete 1/2 ✓ (1 failed: b: in use)");
    assert_eq!(app.marked, MarkSet::from_ids(vec!["2".into()]));
    assert!(matches!(eff[0], Effect::Fetch { .. }));
}

#[test]
fn batch_lifecycle_keeps_marks() {
    let mut app = loaded(vec![row("1", "a", "running"), row("2", "b", "running")]);
    press(&mut app, Key::Char('M'));
    press(&mut app, Key::Char('s'));
    assert_eq!(app.confirm.as_ref().unwrap().prompt, "stop 2 containers?");
    let eff = press(&mut app, Key::Char('y'));
    let targets = match &eff[0] {
        Effect::Batch { targets, .. } => targets.clone(),
        other => panic!("unexpected {other:?}"),
    };
    let msg = batch_done("stop".into(), &targets, &vec![Ok(()), Ok(())]);
    app.on_msg(msg);
    assert_eq!(app.status, "stop 2/2 ✓");
    assert_eq!(app.marked.len(), 2);
}

#[test]
fn cancelling_a_confirmation_changes_nothing_else() {
    let mut app = loaded(vec![row("1", "a", "running")]);
    press(&mut app, Key::Char('m'));
    press(&mut app, Key::Char('x'));
    assert!(app.confirm.is_some());
    let eff = press(&mut app, Key::Char('n'));
    assert!(eff.is_empty());
    assert!(app.confirm.is_none());
    assert!(app.marked.contains("1"));
    // other keys are swallowed while a confirmation is pending
    press(&mut app, Key::Char('x'));
    let eff = press(&mut app, Key::Char('q'));
    assert!(eff.is_empty());
    assert!(!app.should_quit);
    press(&mut app, Key::Esc);
    assert!(app.confirm.is_none());
}

#[test]
fn single_delete_and_marks_gone() {
    let mut app = loaded(vec![row("1", "a", "running")]);
    press(&mut app, Key::Char('x'));
    match &app.confirm {
        Some(Confirm { prompt, action: PendingAction::Delete { id, label, .. } }) => {
            assert_eq!(prompt, "remove container 'a'");
            assert_eq!(id, "1");
            assert_eq!(label, "a");
        }
        other => panic!("unexpected {other:?}"),
    }
    let eff = press(&mut app, Key::Char('Y'));
    assert_eq!(app.status, "removing a…");
    assert!(matches!(&eff[0], Effect::Delete { id, .. } if id == "1"));

    let mut app = loaded(vec![row("1", "a", "running")]);
    app.marked.insert("gone".into());
    press(&mut app, Key::Char('x'));
    assert!(app.confirm.is_none());
    assert_eq!(app.status, "delete: marked rows gone — marks cleared");
    assert!(app.marked.is_empty());
    press(&mut app, Key::Char('M'));
    app.marked.insert("gone".into());
    press(&mut app, Key::Char('U'));
    app.marked.insert("gone".into());
    press(&mut app, Key::Char('r'));
    assert_eq!(app.status, "restart: marked rows gone — marks cleared");
}

#[test]
fn lifecycle_keys_act_on_the_selected_container() {
    let mut app = loaded(vec![row("c1", "web", "running")]);
    let eff = press(&mut app, Key::Char('s'));
    assert_eq!(app.status, "stop web…");
    assert!(matches!(&eff[0], Effect::ContainerAction { verb, id, label } if verb == "stop" && id == "c1" && label == "web"));
    press(&mut app, Key::Char(':'));
    type_text(&mut app, " PAUSE ");
    let eff = press(&mut app, Key::Enter);
    assert!(!app.commanding);
    assert_eq!(app.command, "");
    assert!(matches!(&eff[0], Effect::ContainerAction { verb, .. } if verb == "pause"));
}

#[test]
fn commands_switch_views_and_report_unknown_ones() {
    let mut app = loaded(vec![]);
    press(&mut app, Key::Char(':'));
    type_text(&mut app, "imx");
    press(&mut app, Key::Backspace);
    press(&mut app, Key::Enter);
    assert_eq!(app.view, View::Images);
    press(&mut app, Key::Char(':'));
    type_text(&mut app, "frob");
    press(&mut app, Key::Enter);
    assert_eq!(app.status, "unknown command ':frob'");
    press(&mut app, Key::Char(':'));
    type_text(&mut app, "prune");
    press(&mut app, Key::Enter);
    assert_eq!(app.confirm.as_ref().unwrap().prompt, "prune all dangling images");
    let eff = press(&mut app, Key::Char('y'));
    assert!(matches!(eff[0], Effect::PruneImages));
    assert_eq!(app.status, "pruning dangling images…");
    press(&mut app, Key::Char(':'));
    type_text(&mut app, "q");
    press(&mut app, Key::Enter);
    assert!(app.should_quit);
}

#[test]
fn only_a_yes_runs_destructive_effects() {
    let mut app = loaded(vec![row("1", "a", "running"), row("2", "b", "running")]);
    let keys = [
        Key::Char('x'), Key::Char('m'), Key::Char('s'), Key::Char('x'), Key::Char('n'),
        Key::Char('j'), Key::Char('k'), Key::Esc, Key::Char(':'), Key::Char('p'),
        Key::Char('r'), Key::Char('u'), Key::Char('n'), Key::Char('e'), Key::Enter,
    ];
    for k in keys {
        let pending = app.confirm.is_some();
        let eff = press(&mut app, k);
        for e in &eff {
            let destructive = matches!(
                e,
                Effect::Delete { .. } | Effect::Batch { .. } | Effect::PruneImages | Effect::SystemPrune
            );
            assert!(!destructive || (pending && k == Key::Char('y')));
        }
    }
}

#[test]
fn help_returns_to_the_previous_mode() {
    let mut app = loaded(vec![row("1", "a", "running")]);
    press(&mut app, Key::Enter);
    assert_eq!(app.mode, Mode::Logs);
    press(&mut app, Key::Char('?'));
    assert_eq!(app.mode, Mode::Help);
    press(&mut app, Key::Char('x'));
    assert_eq!(app.mode, Mode::Logs);
}

#[test]
fn tab_from_logs_stops_streams() {
    let mut app = loaded(vec![row("1", "a", "running")]);
    let eff = press(&mut app, Key::Enter);
    assert!(matches!(&eff[0], Effect::StartLogs { view: View::Containers, id } if id == "1"));
    assert_eq!(app.log_title, "a");
    let eff = press(&mut app, Key::Tab);
    assert!(matches!(eff[0], Effect::StopLogs));
    assert!(matches!(eff[1], Effect::StopStats));
    assert!(matches!(eff[2], Effect::Fetch { .. }));
    assert_eq!(app.mode, Mode::Table);
}

#[test]
fn log_lines_are_split_capped_and_searchable() {
    let mut app = loaded(vec![row("1", "a", "running")]);
    press(&mut app, Key::Enter);
    app.on_msg(Msg::LogLine("one\nTwo".into()));
    app.on_msg(Msg::LogLine("three".into()));
    assert_eq!(app.logs, vec!["one", "Two", "three"]);
    press(&mut app, Key::Char('/'));
    type_text(&mut app, "TW");
    assert_eq!(app.filtered_logs(), vec!["Two".to_string()]);
    press(&mut app, Key::Esc);
    assert_eq!(app.log_filter, "");
    let big: String = (0..6000).map(|i| format!("l{i}")).collect::<Vec<_>>().join("\n");
    app.on_msg(Msg::LogLine(big));
    assert_eq!(app.logs.len(), 5000);
    assert_eq!(app.logs.last().unwrap(), "l5999");
    assert_eq!(app.logs[0], "l1000");
    app.on_msg(Msg::LogEnded);
    assert_eq!(app.status, "— log stream ended —");
}

#[test]
fn log_scrolling_and_follow() {
    let mut app = loaded(vec![row("1", "a", "running")]);
    press(&mut app, Key::Enter);
    app.page_size = 10;
    press(&mut app, Key::Char('k'));
    assert!(!app.log_follow);
    assert_eq!(app.log_scroll, 1);
    press(&mut app, Key::Char('u'));
    assert_eq!(app.log_scroll, 6);
    press(&mut app, Key::PageDown);
    assert_eq!(app.log_scroll, 0);
    assert!(app.log_follow);
    press(&mut app, Key::Char('f'));
    assert!(!app.log_follow);
    press(&mut app, Key::Char('w'));
    assert!(app.log_wrap);
    let eff = press(&mut app, Key::Char('q'));
    assert!(matches!(eff[0], Effect::StopLogs));
    assert_eq!(app.mode, Mode::Table);
}

#[test]
fn saving_logs() {
    let mut app = loaded(vec![row("1", "web/1 x", "running")]);
    press(&mut app, Key::Enter);
    app.on_msg(Msg::LogLine("a\nb".into()));
    let eff = press(&mut app, Key::Char('s'));
    match &eff[0] {
        Effect::SaveLogs { path, contents } => {
            assert_eq!(path, "d9cker-web_1_x.log");
            assert_eq!(contents, "a\nb");
        }
        other => panic!("unexpected {other:?}"),
    }
    app.logs_saved("d9cker-web_1_x.log", Ok(()));
    assert_eq!(app.status, "saved 2 lines -> d9cker-web_1_x.log");
    app.logs_saved("x", Err("disk full".into()));
    assert_eq!(app.status, "⚠ save: disk full");
    app.log_title = "".into();
    assert!(matches!(app.save_logs(), Effect::SaveLogs { path, .. } if path == "d9cker-logs.log"));
    app.log_title = "ünï-ok_1".into();
    assert!(matches!(app.save_logs(), Effect::SaveLogs { path, .. } if path == "d9cker-ünï-ok_1.log"));
}

#[test]
fn meta_switches_away_from_views_that_no_longer_apply() {
    let mut app = loaded(vec![]);
    app.on_msg(Msg::Meta { swarm: "active".into(), compose: 2 });
    let tabs = app.tabs();
    assert_eq!(tabs.len(), 9);
    press(&mut app, Key::Char('3'));
    assert_eq!(app.view, View::Services);
    let eff = app.on_msg(Msg::Meta { swarm: "inactive".into(), compose: 2 });
    assert_eq!(app.view, View::Containers);
    assert!(matches!(eff[0], Effect::Fetch { view: View::Containers, .. }));
    let tabs = app.tabs();
    assert!(!tabs.contains(&View::Services));
    assert!(!tabs.contains(&View::Nodes));
    assert!(!tabs.contains(&View::Stacks));
    assert!(tabs.contains(&View::Compose));
    app.on_msg(Msg::Meta { swarm: "inactive".into(), compose: 0 });
    assert_eq!(app.tabs(), vec![View::Containers, View::Images, View::Volumes, View::Networks, View::Contexts]);
}

#[test]
fn tabs_wrap_around() {
    let mut app = loaded(vec![]);
    app.on_msg(Msg::Meta { swarm: "inactive".into(), compose: 0 });
    press(&mut app, Key::BackTab);
    assert_eq!(app.view, View::Contexts);
    press(&mut app, Key::Char('l'));
    assert_eq!(app.view, View::Containers);
    press(&mut app, Key::Char('h'));
    assert_eq!(app.view, View::Contexts);
    let eff = press(&mut app, Key::Char('4'));
    assert_eq!(app.view, View::Networks);
    assert_eq!(eff.len(), 1);
    press(&mut app, Key::Char('9'));
    assert_eq!(app.view, View::Networks);
}

#[test]
fn drill_into_a_service_and_back() {
    let mut app = loaded(vec![]);
    app.on_msg(Msg::Meta { swarm: "active".into(), compose: 0 });
    press(&mut app, Key::Char('l'));
    assert_eq!(app.view, View::Services);
    let arg = app.fetch_arg();
    app.on_data(View::Services, arg, vec![row("s1", "web", "")]);
    let eff = press(&mut app, Key::Enter);
    assert_eq!(app.view, View::ServiceTasks);
    assert_eq!(app.status, "tasks of web");
    assert!(matches!(&eff[0], Effect::Fetch { view: View::ServiceTasks, arg } if arg == "web"));
    assert_eq!(app.tab_index(), 1);
    press(&mut app, Key::Esc);
    assert_eq!(app.view, View::Services);
}

#[test]
fn errors_and_notices() {
    let mut app = loaded(vec![]);
    app.on_msg(Msg::Error("connect: permission denied on /var/run/docker.sock".into()));
    assert_eq!(
        app.status,
        "⚠ connect: permission denied on /var/run/docker.sock  — 远程用户无 docker socket 权限,请将其加入 docker 组"
    );
    assert!(!app.loading);
    let eff = app.on_msg(Msg::Info("done".into()));
    assert_eq!(app.status, "done");
    assert!(matches!(eff[0], Effect::Fetch { .. }));
    assert_eq!(humanize_error("boom"), "boom");
    assert!(humanize_error("error in SendRequest").ends_with("会自动兼容)"));
    assert_eq!(
        humanize_error("permission denied"),
        "permission denied"
    );
}

#[test]
fn volume_sizes_fill_the_third_column() {
    let mut app = loaded(vec![]);
    let eff = app.switch_view(View::Volumes);
    assert!(matches!(eff[1], Effect::FetchVolumeSizes));
    let vol = |n: &str| Item {
        id: n.into(),
        name: n.into(),
        cells: vec![n.into(), "local".into(), "local".into(), "/x".into()],
        header: false,
    };
    app.on_data(View::Volumes, "".into(), vec![vol("a"), vol("b"), vol("c")]);
    app.on_msg(Msg::VolumeSizes(vec![("a".into(), 1536), ("b".into(), -1)]));
    assert_eq!(app.status, "volume sizes updated (2)");
    assert_eq!(app.items[0].cells[2], "1.5KB");
    assert_eq!(app.items[1].cells[2], "?");
    assert_eq!(app.items[2].cells[2], "?");
    app.on_data(View::Volumes, "".into(), vec![vol("a")]);
    assert_eq!(app.items[0].cells[2], "1.5KB");
    let eff = press(&mut app, Key::Char('1'));
    assert_eq!(eff.len(), 1);
}

#[test]
fn volume_sizes_keep_one_size_per_name() {
    let mut app = loaded(vec![]);
    app.switch_view(View::Volumes);
    app.on_data(View::Volumes, "".into(), vec![volume_item("a".into(), "local".into(), "/a".into())]);
    assert_eq!(app.items[0].cells[2], "?");
    app.on_msg(Msg::VolumeSizes(vec![("a".into(), 1), ("b".into(), 2), ("a".into(), 2048)]));
    assert_eq!(app.vol_sizes, vec![("a".to_string(), 2048), ("b".to_string(), 2)]);
    assert_eq!(app.status, "volume sizes updated (2)");
    assert_eq!(app.items[0].cells[2], "2.0KB");
}

#[test]
fn inspect_and_compose_files() {
    let mut app = loaded(vec![row("c1", "web", "running")]);
    let eff = press(&mut app, Key::Char('i'));
    assert!(matches!(&eff[0], Effect::Inspect { kind, id } if kind == "container" && id == "c1"));
    assert_eq!(app.inspect_lines, vec!["loading…"]);
    app.on_msg(Msg::Inspect("{\r\n  \"a\": 1\r\n}\n".into()));
    assert_eq!(app.inspect_lines, vec!["{", "  \"a\": 1", "}"]);
    press(&mut app, Key::Char('G'));
    assert_eq!(app.inspect_scroll, 2);
    press(&mut app, Key::Char('q'));
    assert_eq!(app.mode, Mode::Table);

    let mut app = App::new("default".into());
    app.on_msg(Msg::Meta { swarm: "".into(), compose: 1 });
    press(&mut app, Key::Char('2'));
    assert_eq!(app.view, View::Compose);
    let proj = |files: &str| Item {
        id: "shop".into(),
        name: "shop".into(),
        cells: vec!["shop".into(), "running(2)".into(), "2".into(), files.into()],
        header: false,
    };
    app.on_data(View::Compose, "".into(), vec![proj("  /srv/a.yml , /srv/b.yml")]);
    assert_eq!(app.selected_compose_file(), Some("/srv/a.yml".to_string()));
    let eff = press(&mut app, Key::Char('i'));
    assert!(matches!(&eff[0], Effect::ReadComposeFile { path } if path == "/srv/a.yml"));
    app.compose_read_started("/srv/a.yml".into());
    assert_eq!(app.mode, Mode::Inspect);
    assert_eq!(app.inspect_title, "/srv/a.yml");
    press(&mut app, Key::Esc);
    press(&mut app, Key::Char('e'));
    assert_eq!(app.take_pending_edit(), Some("/srv/a.yml".to_string()));
    assert_eq!(app.take_pending_edit(), None);
    app.on_data(View::Compose, "".into(), vec![proj(" , /srv/b.yml")]);
    press(&mut app, Key::Char('e'));
    assert_eq!(app.status, "no compose file recorded for this project");
    let eff = press(&mut app, Key::Enter);
    assert_eq!(app.view, View::Containers);
    assert_eq!(app.filter, "shop");
    assert!(app.show_all);
    assert!(matches!(&eff[0], Effect::Fetch { arg, .. } if arg == "all"));
}

#[test]
fn exec_attach_and_stats() {
    let mut app = loaded(vec![row("c1", "web", "running")]);
    press(&mut app, Key::Char('e'));
    assert_eq!(app.take_pending_exec(), Some("c1".to_string()));
    press(&mut app, Key::Char('A'));
    assert_eq!(app.take_pending_attach(), Some("c1".to_string()));
    let eff = press(&mut app, Key::Char('t'));
    assert!(matches!(&eff[0], Effect::StartStats { id } if id == "c1"));
    assert_eq!(app.mode, Mode::Stats);
    assert_eq!(app.stats_title, "web");
    let eff = press(&mut app, Key::Esc);
    assert!(matches!(eff[0], Effect::StopStats));
    assert_eq!(app.mode, Mode::Table);
    press(&mut app, Key::Char('p'));
    assert_eq!(app.mode, Mode::Peek);
    press(&mut app, Key::Enter);
    assert_eq!(app.mode, Mode::Table);
}

#[test]
fn contexts_switch_through_the_caller() {
    let mut app = loaded(vec![]);
    let ctx = |n: &str| Item { id: n.into(), name: n.into(), cells: vec![" ".into(), n.into(), "".into(), "".into()], header: false };
    app.switch_view(View::Contexts);
    app.on_data(View::Contexts, "default".into(), vec![ctx("default"), ctx("prod")]);
    press(&mut app, Key::Char('j'));
    let eff = press(&mut app, Key::Enter);
    assert!(matches!(&eff[0], Effect::SwitchContext { name } if name == "prod"));
    let eff = app.context_switched("prod".into());
    assert_eq!(app.context, "prod");
    assert_eq!(app.status, "switched to context 'prod'");
    assert_eq!(app.view, View::Containers);
    assert!(matches!(eff[0], Effect::FetchMeta));
    assert!(matches!(eff[1], Effect::Fetch { view: View::Containers, .. }));
    app.context_switch_failed("x", "refused");
    assert_eq!(app.status, "⚠ context 'x': refused");
}

#[test]
fn ctrl_keys() {
    let mut app = loaded(vec![]);
    app.switch_view(View::Volumes);
    let eff = app.handle_key(Key::Char('r'), true);
    assert_eq!(eff.len(), 2);
    assert!(matches!(eff[1], Effect::FetchVolumeSizes));
    let eff = app.handle_key(Key::Char('c'), true);
    assert!(matches!(eff[0], Effect::StopLogs));
    assert!(app.should_quit);
}

#[test]
fn periodic_refresh_only_on_the_table() {
    let mut app = loaded(vec![row("1", "a", "running")]);
    assert_eq!(app.on_tick().len(), 1);
    press(&mut app, Key::Char('x'));
    assert!(app.on_tick().is_empty());
    press(&mut app, Key::Char('n'));
    press(&mut app, Key::Enter);
    assert!(app.on_tick().is_empty());
}

#[test]
fn scale_keys() {
    let mut app = loaded(vec![]);
    app.on_msg(Msg::Meta { swarm: "active".into(), compose: 0 });
    press(&mut app, Key::Char('+'));
    assert_eq!(app.status, "scale: only for services");
    app.switch_view(View::Services);
    let arg = app.fetch_arg();
    app.on_data(View::Services, arg, vec![row("s1", "web", "")]);
    let eff = press(&mut app, Key::Char('-'));
    assert!(matches!(&eff[0], Effect::Scale { name, delta: -1 } if name == "web"));
    assert_eq!(app.status, "scaling web…");
}

#[test]
fn scroll_room_is_checked() {
    let mut app = loaded(vec![]);
    app.hscroll = usize::MAX - 3;
    assert!(!app.key_fits(Key::Right));
    assert!(app.key_fits(Key::Left));
}

#[test]
fn text_helpers() {
    assert_eq!(split_by("a,,b", ','), vec!["a", "", "b"]);
    assert_eq!(split_by("", '\n'), vec![""]);
    assert_eq!(text_lines("a\r\nb\n\nc\r"), vec!["a", "b", "", "c\r"]);
    assert!(text_lines("").is_empty());
    assert_eq!(text_lines("x\n"), vec!["x"]);
}

#[test]
fn batch_reports() {
    let t = vec![
        Target { id: "1".into(), label: "a".into() },
        Target { id: "2".into(), label: "b".into() },
        Target { id: "3".into(), label: "c".into() },
    ];
    match batch_done("delete".into(), &t, &vec![Err("x".into()), Ok(()), Err("y".into())]) {
        Msg::BatchDone { verb, summary, remove_marks } => {
            assert_eq!(verb, "delete");
            assert_eq!(summary, "delete 1/3 ✓ (2 failed: a: x)");
            assert_eq!(remove_marks, vec!["2"]);
        }
        other => panic!("unexpected {other:?}"),
    }
    match batch_done("restart".into(), &t, &vec![Ok(()), Ok(()), Ok(())]) {
        Msg::BatchDone { summary, remove_marks, .. } => {
            assert_eq!(summary, "restart 3/3 ✓");
            assert!(remove_marks.is_empty());
        }
        other => panic!("unexpected {other:?}"),
    }
}

#[test]
fn sorting_a_size_column_orders_by_size() {
    let sized = |id: &str, size: &str| Item {
        id: id.into(),
        name: id.into(),
        cells: vec![id.into(), id.into(), "img".into(), "running".into(), "Up".into(), size.into()],
        header: false,
    };
    let mut app = loaded(vec![
        sized("a", "1.5GB"),
        sized("b", "900MB"),
        sized("c", "12.4MB"),
        sized("d", "119.3MB"),
    ]);
    for _ in 0..6 {
        press(&mut app, Key::Char('o'));
    }
    assert_eq!(app.sort_col, Some(5));
    assert_eq!(names(&app), vec!["c", "d", "b", "a"]);
    press(&mut app, Key::Char('O'));
    assert_eq!(names(&app), vec!["a", "b", "d", "c"]);
}

#[test]
fn sort_keeps_index_order_of_sizes_equal_as_doubles() {
    let mut app = loaded(vec![
        row("9007199254740993", "x", "running"),
        row("9007199254740992", "y", "running"),
        row("1", "z", "running"),
    ]);
    press(&mut app, Key::Char('o'));
    assert_eq!(app.sort_col, Some(0));
    assert_eq!(names(&app), vec!["z", "x", "y"]);
    press(&mut app, Key::Char('O'));
    assert_eq!(names(&app), vec!["x", "y", "z"]);
}

#[test]
fn end_follows_again_and_up_scrolls_back() {
    let mut app = loaded(vec![row("1", "a", "running")]);
    press(&mut app, Key::Enter);
    assert_eq!(app.mode, Mode::Logs);
    press(&mut app, Key::Up);
    press(&mut app, Key::Char('k'));
    assert!(!app.log_follow);
    assert_eq!(app.log_scroll, 2);
    press(&mut app, Key::End);
    assert!(app.log_follow);
    assert_eq!(app.log_scroll, 0);
    press(&mut app, Key::Up);
    assert_eq!(app.log_scroll, 1);
    press(&mut app, Key::Char('G'));
    assert!(app.log_follow);
    assert_eq!(app.log_scroll, 0);
}
