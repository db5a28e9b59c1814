use d9cker::docker::Item;
use d9cker::mark::{
    ids_at, invert_marks, mark_ids, resolve_targets, retain_existing, toggle_mark, MarkSet, Target,
};

fn item(id: &str, name: &str, header: bool) -> Item {
    Item {
        id: id.into(),
        name: name.into(),
        cells: vec![name.into()],
        header,
    }
}

#[test]
fn toggle_inserts_then_removes() {
    let mut m = MarkSet::new();
    toggle_mark(&mut m, "a");
    assert!(m.contains("a"));
    toggle_mark(&mut m, "a");
    assert!(!m.contains("a"));
}

#[test]
fn mark_ids_inserts_all() {
    let mut m = MarkSet::new();
    mark_ids(&mut m, vec!["a".into(), "b".into()]);
    assert_eq!(m.len(), 2);
}

#[test]
fn invert_flips_membership() {
    let mut m = MarkSet::from_ids(vec!["a".into()]);
    invert_marks(&mut m, vec!["a".into(), "b".into()]);
    assert!(!m.contains("a"));
    assert!(m.contains("b"));
}

#[test]
fn retain_drops_missing_and_skips_headers() {
    let mut m = MarkSet::from_ids(vec!["gone".into(), "keep".into(), "hdr".into()]);
    let items = vec![item("hdr", "Images", true), item("keep", "nginx", false)];
    retain_existing(&mut m, &items);
    assert_eq!(m, MarkSet::from_ids(vec!["keep".into()]));
}

#[test]
fn ids_at_skips_headers() {
    let items = vec![item("h", "H", true), item("a", "A", false)];
    assert_eq!(ids_at(&items, &[0, 1]), vec!["a".to_string()]);
}

#[test]
fn resolve_targets_intersection_in_item_order() {
    let marked = MarkSet::from_ids(vec!["b".into(), "a".into(), "missing".into()]);
    let items = vec![item("a", "A", false), item("b", "B", false)];
    let t = resolve_targets(&marked, &items);
    assert_eq!(
        t,
        vec![
            Target {
                id: "a".into(),
                label: "A".into()
            },
            Target {
                id: "b".into(),
                label: "B".into()
            },
        ]
    );
}

#[test]
fn toggle_twice_gives_back_the_marks() {
    let mut m = MarkSet::from_ids(vec!["x".into(), "y".into()]);
    let before = MarkSet::from_ids(vec!["y".into(), "x".into()]);
    toggle_mark(&mut m, "z");
    toggle_mark(&mut m, "z");
    assert_eq!(m, before);
    toggle_mark(&mut m, "x");
    assert!(!m.contains("x"));
    toggle_mark(&mut m, "x");
    assert_eq!(m, before);
}

#[test]
fn invert_twice_gives_back_the_marks() {
    let mut m = MarkSet::from_ids(vec!["a".into(), "c".into()]);
    let ids = vec!["a".to_string(), "b".to_string()];
    invert_marks(&mut m, ids.clone());
    assert_eq!(m, MarkSet::from_ids(vec!["b".into(), "c".into()]));
    invert_marks(&mut m, ids);
    assert_eq!(m, MarkSet::from_ids(vec!["a".into(), "c".into()]));
}

#[test]
fn invert_with_a_repeated_id_toggles_it_twice() {
    let mut m = MarkSet::new();
    invert_marks(&mut m, vec!["a".into(), "a".into(), "b".into()]);
    assert!(!m.contains("a"));
    assert!(m.contains("b"));
}

#[test]
fn mark_set_equality_ignores_order_and_repeats() {
    assert_eq!(
        MarkSet::from_ids(vec!["a".into(), "b".into(), "a".into()]),
        MarkSet::from_ids(vec!["b".into(), "a".into()])
    );
    assert_ne!(
        MarkSet::from_ids(vec!["a".into()]),
        MarkSet::from_ids(vec!["a".into(), "b".into()])
    );
    assert_eq!(MarkSet::from_ids(vec!["a".into(), "a".into()]).len(), 1);
}

#[test]
fn marks_insert_remove_clear() {
    let mut m = MarkSet::new();
    assert!(m.is_empty());
    assert!(m.insert("a".into()));
    assert!(!m.insert("a".into()));
    assert!(m.remove("a"));
    assert!(!m.remove("a"));
    m.insert("b".into());
    m.clear();
    assert!(m.is_empty());
    assert!(m.to_vec().is_empty());
}

#[test]
fn targets_skip_headers_even_when_marked() {
    let marked = MarkSet::from_ids(vec!["h".into(), "a".into()]);
    let items = vec![item("h", "H", true), item("a", "A", false)];
    let t = resolve_targets(&marked, &items);
    assert_eq!(t.len(), 1);
    assert_eq!(t[0].id, "a");
    assert_eq!(t[0].label, "A");
}

#[test]
fn ids_at_ignores_out_of_range_indices() {
    let items = vec![item("a", "A", false), item("b", "B", false)];
    assert_eq!(
        ids_at(&items, &[1, 7, 0]),
        vec!["b".to_string(), "a".to_string()]
    );
}
