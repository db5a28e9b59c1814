use d9cker::app::App;
use d9cker::docker::{Item, View};
use d9cker::keys::Key;
use d9cker::screen::{Hue, Ink, Piece, RowLook};

fn row(id: &str, name: &str, state: &str) -> Item {
    Item {
        id: id.into(),
        name: name.into(),
        cells: vec![id.into(), name.into(), "img".into(), state.into(), "Up".into(), "".into()],
        header: false,
    }
}

fn loaded(items: Vec<Item>) -> App {
    let mut app = App::new("default".into());
    let arg = app.fetch_arg();
    app.on_data(View::Containers, arg, items);
    app
}

fn press(app: &mut App, k: Key) {
    assert!(app.key_fits(k));
    app.handle_key(k, false);
}

fn texts(ps: &[Piece]) -> Vec<String> {
    ps.iter().map(|p| p.text.clone()).collect()
}

fn joined(ps: &[Piece]) -> String {
    ps.iter().map(|p| p.text.as_str()).collect()
}

#[test]
fn footer_shows_hint_status_or_prompt() {
    let mut app = loaded(vec![row("1", "a", "running")]);
    let f = app.footer();
    assert_eq!(f.len(), 1);
    assert!(f[0].text.starts_with("Enter logs"));
    assert_eq!(f[0].ink, Ink { hue: Hue::Dim, bold: false });

    app.status = "⚠ engine gone".into();
    assert_eq!(app.footer()[0].ink.hue, Hue::Bad);
    app.status = "saved".into();
    assert_eq!(app.footer()[0].ink.hue, Hue::Gray);

    press(&mut app, Key::Char('/'));
    press(&mut app, Key::Char('x'));
    assert_eq!(texts(&app.footer()), vec!["/", "x", "▏"]);
    press(&mut app, Key::Enter);
    assert_eq!(texts(&app.footer()), vec!["/", "x", ""]);

    press(&mut app, Key::Esc);
    press(&mut app, Key::Char(':'));
    press(&mut app, Key::Char('c'));
    let f = app.footer();
    assert_eq!(texts(&f), vec![":", "c", "▏"]);
    assert_eq!(f[0].ink, Ink { hue: Hue::Accent, bold: true });
}

#[test]
fn status_line_reports_context_swarm_and_notes() {
    let mut app = loaded(vec![row("1", "a", "running"), row("2", "b", "running")]);
    let s = app.status_line();
    assert_eq!(
        texts(&s),
        vec![" d9cker ", "  ", "default", "  ", "●", " swarm …", "  running only"]
    );
    assert_eq!(s[4].ink, Ink { hue: Hue::Bad, bold: true });

    app.swarm = "active".into();
    app.hscroll = 16;
    press(&mut app, Key::Char('o'));
    press(&mut app, Key::Char('O'));
    press(&mut app, Key::Char('m'));
    let s = app.status_line();
    assert_eq!(s[4].ink, Ink { hue: Hue::Good, bold: true });
    assert_eq!(
        texts(&s)[5..],
        [" swarm active", "  running only", "   →16", "   sort ID ▼", "  ✳ 1 marked"]
    );

    app.swarm = "inactive".into();
    assert_eq!(app.status_line()[4].ink.hue, Hue::Warn);
}

#[test]
fn tab_bar_lays_out_the_tabs_that_fit() {
    let mut app = loaded(vec![row("1", "a", "running"), row("2", "b", "running")]);
    app.swarm = "inactive".into();
    let (top, bot) = app.tab_bar(40);
    assert_eq!(
        texts(&top),
        vec![" ", "  ", "╭──────────────╮", "  ", "        ", "  ", "         "]
    );
    assert_eq!(
        texts(&bot),
        vec!["╭", "──", "╯", " Containers 2 ", "╰", "──", " Images ", "──", "────────", "╮"]
    );
    assert_eq!(joined(&top).chars().count(), 40);
    assert_eq!(joined(&bot).chars().count(), 40);
    assert_eq!(bot[3].ink, Ink { hue: Hue::Accent, bold: true });
    assert_eq!(bot[6].ink, Ink { hue: Hue::Gray, bold: false });

    let (top, bot) = app.tab_bar(2);
    assert_eq!(texts(&top), vec![" ", "  "]);
    assert_eq!(texts(&bot), vec!["╭", "──"]);
}

#[test]
fn header_marks_the_sort_column() {
    let mut app = loaded(vec![row("1", "a", "running")]);
    assert_eq!(texts(&app.header_cells()), vec!["ID", "NAME", "IMAGE", "STATE", "STATUS", "PORTS"]);
    press(&mut app, Key::Char('o'));
    press(&mut app, Key::Char('o'));
    let h = app.header_cells();
    assert_eq!(texts(&h), vec!["ID", "NAME ▲", "IMAGE", "STATE", "STATUS", "PORTS"]);
    assert_eq!(h[1].ink, Ink { hue: Hue::Warn, bold: true });
    assert_eq!(h[0].ink, Ink { hue: Hue::Accent, bold: true });
    press(&mut app, Key::Char('O'));
    assert_eq!(app.header_cells()[1].text, "NAME ▼");
}

#[test]
fn row_looks_and_gutter() {
    let mut app = loaded(vec![row("1", "a", "running"), row("2", "b", "running"), row("3", "c", "exited")]);
    press(&mut app, Key::Char('j'));
    press(&mut app, Key::Char('m'));
    let items = app.items.clone();
    assert_eq!(app.row_look(0, &items[0]), RowLook::Plain);
    assert_eq!(app.row_look(1, &items[1]), RowLook::Marked);
    assert_eq!(app.row_look(2, &items[2]), RowLook::Selected);
    app.selected = 0;
    assert_eq!(app.row_look(2, &items[2]), RowLook::Dimmed);
    assert_eq!(app.gutter(&items[1]), "*");
    assert_eq!(app.gutter(&items[0]), " ");
    let heading = Item { id: "2".into(), name: "g".into(), cells: vec!["g".into()], header: true };
    assert_eq!(app.row_look(1, &heading), RowLook::Heading);
    assert_eq!(app.gutter(&heading), " ");
}

#[test]
fn log_frame_title_shows_follow_wrap_range_and_search() {
    let mut app = App::new("default".into());
    app.log_title = "web".into();
    app.log_follow = true;
    app.log_wrap = false;
    app.log_filter = String::new();
    assert_eq!(app.log_frame_title(2, 12, 40), " logs: web  [FOLLOW]  2-12/40 ");
    app.log_follow = false;
    app.log_wrap = true;
    app.log_filter = "err".into();
    assert_eq!(app.log_frame_title(0, 0, 0), " logs: web  [PAUSED wrap]  0-0/0  /err ");
}

#[test]
fn peek_lists_every_column_in_full() {
    let app = loaded(vec![row("1", "a", "running")]);
    let lines = app.peek_lines().unwrap();
    assert_eq!(
        texts(&lines),
        vec![
            "ID", "1", "", "NAME", "a", "", "IMAGE", "img", "", "STATE", "running", "", "STATUS", "Up", "", "PORTS",
            "—", "",
        ]
    );
    assert_eq!(lines[0].ink, Ink { hue: Hue::Accent, bold: true });
    assert_eq!(lines[1].ink, Ink { hue: Hue::Plain, bold: false });

    let mut ctx = App::new("default".into());
    press(&mut ctx, Key::Char(':'));
    for c in "ctx".chars() {
        press(&mut ctx, Key::Char(c));
    }
    press(&mut ctx, Key::Enter);
    assert_eq!(ctx.view, View::Contexts);
    let item = Item {
        id: "prod".into(),
        name: "prod".into(),
        cells: vec![" ".into(), "prod".into(), "".into(), "ssh://h".into()],
        header: false,
    };
    let arg = ctx.fetch_arg();
    ctx.on_data(View::Contexts, arg, vec![item]);
    assert_eq!(
        texts(&ctx.peek_lines().unwrap()),
        vec!["NAME", "prod", "", "DESCRIPTION", "—", "", "ENDPOINT", "ssh://h", ""]
    );

    let empty = App::new("default".into());
    assert!(empty.peek_lines().is_none());
}
