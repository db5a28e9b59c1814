use d9cker::docker::{sysprune_message, task_item, Item};
use d9cker::groups::{compose_rows, stack_rows, stack_task_rows, with_service, ComposeMember};

fn member(project: &str, service: &str, files: &str, running: bool) -> ComposeMember {
    ComposeMember {
        project: project.into(),
        service: service.into(),
        config_files: files.into(),
        state: if running { "running" } else { "exited" }.into(),
    }
}

#[test]
fn compose_projects_aggregate_their_containers() {
    let ms = vec![
        member("shop", "web", "/srv/shop/compose.yml", true),
        member("api", "app", "/srv/api.yml", false),
        member("shop", "db", "/other.yml", true),
        member("shop", "web", "", false),
    ];
    let rows = compose_rows(&ms);
    assert_eq!(rows.len(), 2);
    assert_eq!(rows[0].name, "shop");
    assert_eq!(
        rows[0].cells,
        vec!["shop", "running(2), exited(1)", "2", "/srv/shop/compose.yml"]
    );
    assert_eq!(rows[1].cells, vec!["api", "exited(1)", "1", "/srv/api.yml"]);
    assert!(compose_rows(&vec![]).is_empty());
    let all_up = compose_rows(&vec![member("x", "a", "f", true)]);
    assert_eq!(all_up[0].cells[1], "running(1)");
}

#[test]
fn stacks_count_their_services() {
    let rows = stack_rows(&vec!["shop".into(), "mon".into(), "shop".into()]);
    assert_eq!(rows.len(), 2);
    assert_eq!(rows[0].cells, vec!["shop", "2", "Swarm"]);
    assert_eq!(rows[1].cells, vec!["mon", "1", "Swarm"]);
}

#[test]
fn stack_tasks_are_grouped_under_their_service() {
    let t = |svc: &str, id: &str| {
        let base = task_item(svc, id.into(), None, Some(1), "".into(), &[], "running".into(), "running".into(), "".into(), None);
        (svc.to_string(), with_service(base, svc))
    };
    let tasks = vec![t("shop_web", "t1"), t("shop_db", "t2"), t("shop_web", "t3")];
    let rows = stack_task_rows(&vec!["shop_db".into(), "shop_web".into()], &tasks);
    let shape: Vec<(bool, String)> = rows.iter().map(|r: &Item| (r.header, r.cells[0].clone())).collect();
    assert_eq!(
        shape,
        vec![
            (true, "shop_db".to_string()),
            (false, "shop_db.1".to_string()),
            (true, "shop_web".to_string()),
            (false, "shop_web.1".to_string()),
            (false, "shop_web.1".to_string()),
        ]
    );
    assert_eq!(rows[1].cells.len(), 7);
    assert_eq!(rows[1].cells[1], "shop_db");
    assert_eq!(rows[3].id, "t1");
    assert_eq!(rows[4].id, "t3");
}

#[test]
fn system_prune_report() {
    assert_eq!(
        sysprune_message(3, 1, 2, 1_610_612_736),
        "system prune: removed 3 container(s), 1 network(s), 2 image(s); reclaimed 1.5GB"
    );
}
