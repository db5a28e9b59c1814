use d9cker::display::{
    canvas_width, centered, fit, inspect_window, log_window, natural_widths, scroll_x, state_tone, view_hint, Tone,
};
use d9cker::docker::{Item, View};
use d9cker::engine::{
    batch_deletes, container_verb, delete_check, inspect_kind, lists_all, log_text, starts_with, swarm_text, transport_of,
    ContainerVerb, Transport,
};
use d9cker::ops::{action_report, delete_report, inspect_report, list_report, outcome_report, read_report};
use d9cker::events::Msg;
use d9cker::ssh_wrap::{resolve_real_ssh, wrap_dir};

#[test]
fn transports() {
    assert_eq!(transport_of("ssh://me@box"), Transport::Ssh);
    assert_eq!(transport_of("unix:///var/run/docker.sock"), Transport::Socket);
    assert_eq!(transport_of("npipe:////./pipe/docker_engine"), Transport::Socket);
    assert_eq!(transport_of(""), Transport::Defaults);
    assert_eq!(transport_of("tcp://1.2.3.4:2375"), Transport::Http);
    assert!(starts_with("abc", "ab"));
    assert!(!starts_with("a", "ab"));
}

#[test]
fn swarm_and_log_texts() {
    assert_eq!(swarm_text(Ok(Some("active".into()))), "active");
    assert_eq!(swarm_text(Ok(Some("".into()))), "inactive");
    assert_eq!(swarm_text(Ok(None)), "inactive");
    assert_eq!(swarm_text(Err("no route".into())), "unreachable");
    assert_eq!(log_text(Ok("hello\r\n\n".into())), "hello");
    assert_eq!(log_text(Ok("\n".into())), "");
    assert_eq!(log_text(Ok("a\nb".into())), "a\nb");
    assert_eq!(log_text(Err("eof".into())), "⚠ eof");
}

#[test]
fn verbs_kinds_and_deletable_views() {
    assert_eq!(container_verb("restart"), Ok(ContainerVerb::Restart));
    assert_eq!(container_verb("rm"), Ok(ContainerVerb::Remove));
    assert_eq!(container_verb("kill"), Err("unknown action 'kill'".to_string()));
    assert_eq!(inspect_kind("node"), Ok(View::Nodes));
    assert_eq!(inspect_kind("task"), Err("cannot inspect 'task'".to_string()));
    assert_eq!(delete_check(View::Images), Ok(()));
    assert_eq!(delete_check(View::Services), Err("cannot delete from this view".to_string()));
}

#[test]
fn reports() {
    assert!(matches!(action_report("stop", "web", Ok(())), Msg::Info(t) if t == "stop web ✓"));
    assert!(matches!(action_report("stop", "web", Err("gone".into())), Msg::Error(t) if t == "stop web: gone"));
    assert!(matches!(delete_report("web", Ok(())), Msg::Info(t) if t == "removed web ✓"));
    assert!(matches!(delete_report("web", Err("busy".into())), Msg::Error(t) if t == "remove web: busy"));
    assert!(matches!(outcome_report("scale", Ok("scaled web: 1 -> 2".into())), Msg::Info(t) if t == "scaled web: 1 -> 2"));
    assert!(matches!(outcome_report("sysprune", Err("x".into())), Msg::Error(t) if t == "sysprune: x"));
    assert!(matches!(list_report(View::Images, "".into(), Err("down".into())), Msg::Error(t) if t == "Images: down"));
    assert!(matches!(list_report(View::Images, "a".into(), Ok(vec![])), Msg::Data { view: View::Images, arg, items } if arg == "a" && items.is_empty()));
    assert!(matches!(inspect_report(Err("404".into())), Msg::Error(t) if t == "inspect: 404"));
    assert!(matches!(read_report("/x.yml", Err("denied".into())), Msg::Error(t) if t == "read /x.yml: denied"));
    assert!(matches!(read_report("/x.yml", Ok("k: v".into())), Msg::Inspect(t) if t == "k: v"));
}

#[test]
fn fitting_and_tones() {
    assert_eq!(fit("abcdef", 4), "abc…");
    assert_eq!(fit("abc", 3), "abc");
    assert_eq!(fit("abc", 0), "…");
    assert_eq!(fit("ünïcödé", 5), "ünïc…");
    assert_eq!(state_tone(View::Containers, 3, "Running"), Some(Tone::Good));
    assert_eq!(state_tone(View::Containers, 3, "exited (1)"), Some(Tone::Bad));
    assert_eq!(state_tone(View::Nodes, 2, "PAUSED"), Some(Tone::Warn));
    assert_eq!(state_tone(View::Containers, 2, "running"), None);
    assert_eq!(state_tone(View::StackTasks, 4, "new"), None);
    assert!(view_hint(View::Contexts).starts_with("Enter switch context"));
}

#[test]
fn widths_and_windows() {
    let it = |cells: Vec<&str>, header: bool| Item {
        id: "i".into(),
        name: "n".into(),
        cells: cells.into_iter().map(String::from).collect(),
        header,
    };
    let items = vec![
        it(vec!["a-very-long-name-that-is-longer-than-thirty-chars", "x", "", "ok"], false),
        it(vec!["a header text that is long but ignored"], true),
        it(vec!["", "lo", "driver-name"], false),
    ];
    assert_eq!(natural_widths(View::Volumes, &items, &vec![0, 1, 2]), vec![1, 30, 6, 11, 10]);
    assert_eq!(natural_widths(View::Volumes, &items, &vec![]), vec![1, 4, 6, 4, 10]);
    assert_eq!(log_window(100, 10, 0), (90, 100));
    assert_eq!(log_window(100, 10, 5), (85, 95));
    assert_eq!(log_window(100, 10, 500), (0, 10));
    assert_eq!(log_window(3, 10, 2), (0, 3));
    assert_eq!(inspect_window(100, 10, 5), (5, 15));
    assert_eq!(inspect_window(100, 10, 500), (90, 100));
    assert_eq!(inspect_window(3, 10, 1), (0, 3));
    assert_eq!(centered(0, 0, 100, 40, 56, 5), (22, 17, 56, 5));
    assert_eq!(centered(10, 2, 20, 4, 56, 5), (10, 2, 20, 4));
}

#[test]
fn ssh_wrapper_paths() {
    assert_eq!(resolve_real_ssh(true, true), "/usr/bin/ssh");
    assert_eq!(resolve_real_ssh(false, true), "/bin/ssh");
    assert_eq!(resolve_real_ssh(false, false), "ssh");
    assert_eq!(wrap_dir(Some("/c".into()), Some("/h".into()), false, "/tmp"), "/c/d9cker/bin");
    assert_eq!(wrap_dir(Some("/c/".into()), None, false, "/tmp"), "/c/d9cker/bin");
    assert_eq!(wrap_dir(None, Some("/home/u".into()), false, "/tmp"), "/home/u/.cache/d9cker/bin");
    assert_eq!(wrap_dir(None, Some("/Users/u".into()), true, "/tmp"), "/Users/u/Library/Caches/d9cker/bin");
    assert_eq!(wrap_dir(None, None, false, "/tmp"), "/tmp/d9cker-ssh-wrap");
    assert_eq!(wrap_dir(Some("".into()), None, false, "/tmp"), "d9cker/bin");
}

#[test]
fn containers_list_running_only_unless_all() {
    assert!(lists_all("all"));
    assert!(!lists_all(""));
    assert!(!lists_all("All"));
    assert!(!lists_all("all "));
}

#[test]
fn only_the_delete_batch_deletes() {
    assert!(batch_deletes("delete"));
    assert!(!batch_deletes("stop"));
    assert!(!batch_deletes("restart"));
    assert!(!batch_deletes("Delete"));
}

#[test]
fn table_canvas_and_sideways_scroll() {
    assert_eq!(canvas_width(&vec![1, 10, 20], 50), 50);
    assert_eq!(canvas_width(&vec![1, 30, 30, 30], 40), 97);
    assert_eq!(canvas_width(&vec![], 10), 10);
    assert_eq!(canvas_width(&vec![7], 3), 7);
    assert_eq!(scroll_x(8, 97, 40), 8);
    assert_eq!(scroll_x(100, 97, 40), 57);
    assert_eq!(scroll_x(65_536 + 3, 97, 40), 3);
    assert_eq!(scroll_x(5, 30, 40), 0);
}
