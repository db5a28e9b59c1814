use d9cker::stats::{blk_totals, cpu_share, mem_used, net_totals, CpuReading, CpuShare};

fn reading(total: Option<u64>, system: Option<u64>, online: Option<u32>, per_cpu: Option<u32>) -> CpuReading {
    CpuReading { total, system, online, per_cpu }
}

#[test]
fn cpu_share_between_two_readings() {
    let cur = reading(Some(3_000), Some(20_000), Some(4), Some(8));
    let pre = reading(Some(1_000), Some(10_000), None, None);
    assert_eq!(cpu_share(Some(cur), Some(pre)), Some(CpuShare { used: 2_000, system: 10_000, cpus: 4 }));
    let listed = reading(Some(3_000), Some(20_000), None, Some(8));
    assert_eq!(cpu_share(Some(listed), Some(pre)).unwrap().cpus, 8);
    let neither = reading(Some(3_000), Some(20_000), Some(0), None);
    assert_eq!(cpu_share(Some(neither), Some(pre)).unwrap().cpus, 1);
}

#[test]
fn cpu_share_needs_both_readings_and_progress() {
    let cur = reading(Some(3_000), Some(20_000), Some(2), None);
    let pre = reading(Some(1_000), Some(10_000), None, None);
    assert_eq!(cpu_share(None, Some(pre)), None);
    assert_eq!(cpu_share(Some(cur), None), None);
    let idle = reading(Some(0), Some(10_000), None, None);
    assert_eq!(cpu_share(Some(cur), Some(idle)), None);
    let same = reading(Some(1_000), Some(20_000), None, None);
    assert_eq!(cpu_share(Some(cur), Some(same)), None);
    let behind = reading(Some(5_000), Some(10_000), None, None);
    assert_eq!(cpu_share(Some(cur), Some(behind)), Some(CpuShare { used: 0, system: 10_000, cpus: 2 }));
}

#[test]
fn memory_in_use_leaves_out_the_cache() {
    assert_eq!(mem_used(Some(1_000), Some(300), Some(500)), 700);
    assert_eq!(mem_used(Some(1_000), None, Some(500)), 500);
    assert_eq!(mem_used(Some(1_000), None, None), 1_000);
    assert_eq!(mem_used(Some(100), Some(300), None), 0);
    assert_eq!(mem_used(None, None, None), 0);
}

#[test]
fn network_totals_add_up_the_interfaces() {
    assert_eq!(net_totals(&vec![(Some(10), Some(1)), (None, Some(2)), (Some(5), None)]), Some((15, 3)));
    assert_eq!(net_totals(&vec![]), Some((0, 0)));
    assert_eq!(net_totals(&vec![(Some(u64::MAX), Some(0)), (Some(1), Some(0))]), None);
}

#[test]
fn block_totals_by_operation_ignoring_case() {
    let entries = vec![
        ("Read".to_string(), Some(100)),
        ("write".to_string(), Some(40)),
        ("READ".to_string(), Some(1)),
        ("sync".to_string(), Some(7)),
        (String::new(), Some(9)),
        ("Write".to_string(), None),
    ];
    assert_eq!(blk_totals(&entries), Some((101, 40)));
    assert_eq!(blk_totals(&vec![("write".into(), Some(u64::MAX)), ("write".into(), Some(1))]), None);
}
