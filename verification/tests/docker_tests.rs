use d9cker::contexts::DockerContext;
use d9cker::docker::{
    clean_image, container_item, context_item, fmt_age, fmt_ports, human_size, image_item,
    network_item, node_item, plan_scale, prune_message, scale_message, service_item, short,
    task_item, volume_item, PortSpec, ScalePlan, ServiceMode, View,
};

/// The display rule for byte counts, computed with floating point.
fn reference_size(bytes: i64) -> String {
    const U: [&str; 5] = ["B", "KB", "MB", "GB", "TB"];
    let mut v = bytes as f64;
    let mut i = 0;
    while v >= 1024.0 && i < U.len() - 1 {
        v /= 1024.0;
        i += 1;
    }
    if i == 0 {
        format!("{bytes}B")
    } else {
        format!("{v:.1}{}", U[i])
    }
}

#[test]
fn human_size_examples() {
    assert_eq!(human_size(0), "0B");
    assert_eq!(human_size(900), "900B");
    assert_eq!(human_size(1023), "1023B");
    assert_eq!(human_size(1024), "1.0KB");
    assert_eq!(human_size(1536), "1.5KB");
    assert_eq!(human_size(1_610_612_736), "1.5GB");
    assert_eq!(human_size(1_048_575), "1024.0KB");
    assert_eq!(human_size(-5), "-5B");
    assert_eq!(human_size(1 << 50), "1024.0TB");
}

#[test]
fn human_size_matches_float_formatting() {
    let mut vals: Vec<i64> = vec![i64::MAX, i64::MIN, -1, 1, 1023, 1024, 1025];
    for k in 1..63 {
        let p: i64 = 1 << k;
        for d in [-3i64, -1, 0, 1, 3] {
            vals.push(p.saturating_add(d));
            vals.push((p / 2 * 3).saturating_add(d));
        }
    }
    for base in [1024i64, 1 << 20, 1 << 30, 1 << 40] {
        for tenth in 0..40 {
            // values near the x.x5 rounding boundaries
            let v = base / 20 * (2 * tenth + 1);
            vals.push(v);
            vals.push(v - 1);
            vals.push(v + 1);
        }
    }
    let mut x: u64 = 0x9e37_79b9_7f4a_7c15;
    for _ in 0..2000 {
        x ^= x << 13;
        x ^= x >> 7;
        x ^= x << 17;
        vals.push((x >> (x % 60)) as i64);
    }
    for v in vals {
        assert_eq!(human_size(v), reference_size(v), "{v}");
    }
}

#[test]
fn short_and_clean_image() {
    assert_eq!(short("sha256:0123456789abcdef0123"), "0123456789ab");
    assert_eq!(short("abc"), "abc");
    assert_eq!(short("sha256:"), "");
    assert_eq!(
        clean_image("nginx:1.25@sha256:deadbeef"),
        "nginx:1.25"
    );
    assert_eq!(clean_image("redis"), "redis");
}

#[test]
fn fmt_age_buckets() {
    let now = 1_000_000;
    assert_eq!(fmt_age(now, now), "0s");
    assert_eq!(fmt_age(now - 59, now), "59s");
    assert_eq!(fmt_age(now - 60, now), "1m");
    assert_eq!(fmt_age(now - 3599, now), "59m");
    assert_eq!(fmt_age(now - 3600, now), "1h");
    assert_eq!(fmt_age(now - 86399, now), "23h");
    assert_eq!(fmt_age(now - 86400 * 3, now), "3d");
    assert_eq!(fmt_age(now + 500, now), "0s");
}

#[test]
fn ports_are_deduplicated_in_order() {
    let ports = vec![
        PortSpec { private_port: 80, public_port: Some(8080), proto: "tcp".into() },
        PortSpec { private_port: 443, public_port: None, proto: "tcp".into() },
        PortSpec { private_port: 80, public_port: Some(8080), proto: "tcp".into() },
        PortSpec { private_port: 53, public_port: None, proto: "udp".into() },
    ];
    assert_eq!(fmt_ports(&ports), "8080->80/tcp, 443/tcp, 53/udp");
    assert_eq!(fmt_ports(&[]), "");
}

#[test]
fn container_row() {
    let ports = vec![PortSpec { private_port: 6379, public_port: None, proto: "tcp".into() }];
    let it = container_item(
        "sha256:aaaabbbbccccdddd".into(),
        "/cache".into(),
        "redis:7@sha256:ff".into(),
        "running".into(),
        "Up 2 hours".into(),
        &ports,
    );
    assert_eq!(it.id, "sha256:aaaabbbbccccdddd");
    assert_eq!(it.name, "cache");
    assert_eq!(it.cells, vec!["aaaabbbbcccc", "cache", "redis:7", "running", "Up 2 hours", "6379/tcp"]);
    assert!(!it.header);
}

#[test]
fn image_rows() {
    let it = image_item("sha256:0123456789abcdef".into(), Some("localhost:5000/app:v2".into()), 1536, 100, 160);
    assert_eq!(it.name, "localhost:5000/app:v2");
    assert_eq!(it.cells, vec!["localhost:5000/app", "v2", "0123456789ab", "1.5KB", "1m"]);
    let none = image_item("id1".into(), None, 10, 0, 0);
    assert_eq!(none.name, "<none>:<none>");
    assert_eq!(none.cells[0], "<none>");
    assert_eq!(none.cells[1], "<none>");
    let notag = image_item("id2".into(), Some("plain".into()), 10, 0, 0);
    assert_eq!(notag.cells[0], "<none>");
}

#[test]
fn service_rows() {
    let it = service_item(
        "s1".into(),
        "web".into(),
        ServiceMode::Replicated(Some(3)),
        Some("nginx@sha256:1".into()),
        &[(Some(8080), Some(80)), (None, Some(9)), (Some(53), None)],
    );
    assert_eq!(it.cells, vec!["web", "replicated", "3", "nginx", "8080:80, 53:0"]);
    let g = service_item("s2".into(), "agent".into(), ServiceMode::Global, None, &[]);
    assert_eq!(g.cells, vec!["agent", "global", "-", "", ""]);
    let u = service_item("s3".into(), "x".into(), ServiceMode::Unknown, None, &[]);
    assert_eq!(u.cells[1], "");
    assert_eq!(u.cells[2], "");
}

#[test]
fn node_and_task_rows() {
    let n = node_item("n1".into(), "box1".into(), "ready".into(), "active".into(), Some(true), "27.0".into());
    assert_eq!(n.name, "box1");
    assert_eq!(n.cells, vec!["box1", "ready", "active", "Leader", "27.0"]);
    let w = node_item("n2".into(), "box2".into(), "down".into(), "pause".into(), None, "".into());
    assert_eq!(w.cells[3], "");
    let r = node_item("n3".into(), "box3".into(), "ready".into(), "active".into(), Some(false), "".into());
    assert_eq!(r.cells[3], "Reachable");

    let nodes = vec![("n1".to_string(), "box1".to_string())];
    let t = task_item(
        "web",
        "t0123456789abcdef".into(),
        None,
        Some(2),
        "n1".into(),
        &nodes,
        "running".into(),
        "running".into(),
        "".into(),
        Some("nginx@sha256:9".into()),
    );
    assert_eq!(t.name, "web.2");
    assert_eq!(t.cells, vec!["web.2", "box1", "running", "running", "nginx", ""]);
    let t2 = task_item(
        "web",
        "t0123456789abcdef".into(),
        Some("".into()),
        None,
        "nzzzzzzzzzzzzzzzz".into(),
        &nodes,
        "shutdown".into(),
        "failed".into(),
        "oops".into(),
        None,
    );
    assert_eq!(t2.name, "t0123456789a");
    assert_eq!(t2.cells[1], "nzzzzzzzzzzz");
    let t3 = task_item("web", "x".into(), Some("named".into()), Some(1), "".into(), &nodes, "".into(), "".into(), "".into(), None);
    assert_eq!(t3.name, "named");
}

#[test]
fn volume_network_context_rows() {
    let v = volume_item("data".into(), "local".into(), "/var/lib/x".into());
    assert_eq!(v.id, "data");
    assert_eq!(v.cells, vec!["data", "local", "?", "/var/lib/x"]);
    let n = network_item("0123456789abcdefff".into(), "bridge".into(), "bridge".into(), "local".into());
    assert_eq!(n.cells, vec!["bridge", "bridge", "local", "0123456789ab"]);
    let c = DockerContext { name: "prod".into(), description: "P".into(), host: "ssh://p".into() };
    let cur = context_item(c.clone(), "prod");
    assert_eq!(cur.cells, vec!["●", "prod", "P", "ssh://p"]);
    let other = context_item(c, "dev");
    assert_eq!(other.cells[0], " ");
}

#[test]
fn scale_planning() {
    assert_eq!(plan_scale(None, true, Some(Some(1)), 1), Err("service has no version".to_string()));
    assert_eq!(plan_scale(Some(4), false, Some(Some(1)), 1), Err("service has no spec".to_string()));
    assert_eq!(plan_scale(Some(4), true, None, 1), Err("not a replicated service".to_string()));
    assert_eq!(
        plan_scale(Some(4), true, Some(Some(2)), 1),
        Ok(ScalePlan { version: 4, current: 2, next: 3 })
    );
    assert_eq!(
        plan_scale(Some(4), true, Some(None), -1),
        Ok(ScalePlan { version: 4, current: 0, next: 0 })
    );
    assert_eq!(scale_message("web", 2, 3), "scaled web: 2 -> 3");
    assert_eq!(prune_message(2, 1536), "pruned 2 image(s), reclaimed 1.5KB");
}

#[test]
fn view_tables() {
    assert_eq!(View::Containers.title(), "Containers");
    assert_eq!(View::ServiceTasks.title(), "Service Tasks");
    assert_eq!(View::Volumes.columns(), &["NAME", "DRIVER", "SIZE", "MOUNTPOINT"]);
    assert_eq!(View::Containers.columns().len(), 6);
    assert_eq!(View::Images.inspect_type(), Some("image"));
    assert_eq!(View::Contexts.inspect_type(), None);
}

#[test]
fn plan_scale_reports_missing_parts_before_counting() {
    assert_eq!(
        plan_scale(None, true, Some(Some(i64::MAX)), 1),
        Err("service has no version".to_string())
    );
    assert_eq!(
        plan_scale(Some(1), false, Some(Some(i64::MIN)), -1),
        Err("service has no spec".to_string())
    );
}
