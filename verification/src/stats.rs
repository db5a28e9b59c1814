//! The integer side of a live stats sample: CPU time deltas, memory in
//! use, and network and block I/O totals. The percentages drawn from them
//! are left to the caller.

use vstd::prelude::*;
use crate::text::{lowercase_of, lower_chars, chars_of, chars_equal};

verus! {

/// CPU counters of one reading: total CPU time used, system CPU time, and
/// the number of CPUs online or listed per CPU.
#[derive(Clone, Copy, Debug)]
pub struct CpuReading {
    pub total: Option<u64>,
    pub system: Option<u64>,
    pub online: Option<u32>,
    pub per_cpu: Option<u32>,
}

/// CPU time the container used and the system passed between two readings,
/// and the CPUs they spread over: the share is `used / system * cpus`.
#[derive(Clone, Copy, Debug, PartialEq, Eq, Structural)]
pub struct CpuShare {
    pub used: u64,
    pub system: u64,
    pub cpus: u32,
}

/// `o`, or 0 when absent.
pub open spec fn or_zero(o: Option<u64>) -> nat {
    match o {
        Some(v) => v as nat,
        None => 0,
    }
}

/// `a - b`, or 0 when `b` is larger.
pub open spec fn minus(a: nat, b: nat) -> nat {
    if a >= b {
        (a - b) as nat
    } else {
        0
    }
}

/// CPUs of a reading: those online, else those listed, else one; at least
/// one.
pub open spec fn cpus_of(c: CpuReading) -> u32 {
    let n = match c.online {
        Some(n) => n,
        None => match c.per_cpu {
            Some(n) => n,
            None => 1,
        },
    };
    if n >= 1 {
        n
    } else {
        1
    }
}

/// The share between reading `pre` and reading `cur`: none without both,
/// or when no system time passed or the earlier reading used none.
pub open spec fn cpu_share_spec(cur: Option<CpuReading>, pre: Option<CpuReading>) -> Option<CpuShare> {
    match (cur, pre) {
        (Some(c), Some(p)) => {
            let used = minus(or_zero(c.total), or_zero(p.total));
            let system = minus(or_zero(c.system), or_zero(p.system));
            if system > 0 && or_zero(p.total) > 0 {
                Some(CpuShare { used: used as u64, system: system as u64, cpus: cpus_of(c) })
            } else {
                None
            }
        },
        _ => None,
    }
}

fn unwrap_zero(o: Option<u64>) -> (r: u64)
    ensures
        r == or_zero(o),
{
    match o {
        Some(v) => v,
        None => 0,
    }
}

/// The CPU share between two readings.
pub fn cpu_share(cur: Option<CpuReading>, pre: Option<CpuReading>) -> (r: Option<CpuShare>)
    ensures
        r == cpu_share_spec(cur, pre),
{
    match (cur, pre) {
        (Some(c), Some(p)) => {
            let prev = unwrap_zero(p.total);
            let used = unwrap_zero(c.total).saturating_sub(prev);
            let system = unwrap_zero(c.system).saturating_sub(unwrap_zero(p.system));
            let n = match c.online {
                Some(n) => n,
                None => match c.per_cpu {
                    Some(n) => n,
                    None => 1,
                },
            };
            let cpus = if n >= 1 {
                n
            } else {
                1
            };
            if system > 0 && prev > 0 {
                Some(CpuShare { used, system, cpus })
            } else {
                None
            }
        },
        _ => None,
    }
}

/// Memory in use: the usage less the inactive file cache (or, when that is
/// not reported, the page cache), not below zero.
pub fn mem_used(usage: Option<u64>, inactive_file: Option<u64>, cache: Option<u64>) -> (r: u64)
    ensures
        r == minus(
            or_zero(usage),
            match inactive_file {
                Some(v) => v as nat,
                None => or_zero(cache),
            },
        ),
{
    let c = match inactive_file {
        Some(v) => v,
        None => unwrap_zero(cache),
    };
    unwrap_zero(usage).saturating_sub(c)
}

/// Sum of the received (first) or sent (second) byte counts.
pub open spec fn net_sum(nets: Seq<(Option<u64>, Option<u64>)>, sent: bool) -> nat
    decreases nets.len(),
{
    if nets.len() == 0 {
        0
    } else {
        net_sum(nets.drop_last(), sent) + or_zero(if sent {
            nets.last().1
        } else {
            nets.last().0
        })
    }
}

/// Network totals, received and sent, over the interfaces' byte counts;
/// `None` when a total does not fit in 64 bits.
pub fn net_totals(nets: &Vec<(Option<u64>, Option<u64>)>) -> (r: Option<(u64, u64)>)
    ensures
        r is Some <==> net_sum(nets@, false) <= u64::MAX && net_sum(nets@, true) <= u64::MAX,
        r matches Some(t) ==> t.0 == net_sum(nets@, false) && t.1 == net_sum(nets@, true),
{
    let mut rx: u64 = 0;
    let mut tx: u64 = 0;
    let mut i: usize = 0;
    while i < nets.len()
        invariant
            i <= nets@.len(),
            rx == net_sum(nets@.take(i as int), false),
            tx == net_sum(nets@.take(i as int), true),
        decreases nets.len() - i,
    {
        proof {
            assert(nets@.take(i + 1).drop_last() == nets@.take(i as int));
            lemma_net_sum_prefix(nets@, (i + 1) as int, false);
            lemma_net_sum_prefix(nets@, (i + 1) as int, true);
        }
        match (rx.checked_add(unwrap_zero(nets[i].0)), tx.checked_add(unwrap_zero(nets[i].1))) {
            (Some(a), Some(b)) => {
                rx = a;
                tx = b;
            },
            _ => return None,
        }
        i += 1;
    }
    assert(nets@.take(nets@.len() as int) == nets@);
    Some((rx, tx))
}

proof fn lemma_net_sum_prefix(nets: Seq<(Option<u64>, Option<u64>)>, k: int, sent: bool)
    requires
        0 <= k <= nets.len(),
    ensures
        net_sum(nets.take(k), sent) <= net_sum(nets, sent),
    decreases nets.len(),
{
    if k < nets.len() {
        assert(nets.drop_last().take(k) == nets.take(k));
        lemma_net_sum_prefix(nets.drop_last(), k, sent);
    } else {
        assert(nets.take(k) == nets);
    }
}

/// Sum of the block I/O byte counts whose operation, lower-cased, is `op`.
pub open spec fn blk_sum(entries: Seq<(Seq<char>, Option<u64>)>, op: Seq<char>) -> nat
    decreases entries.len(),
{
    if entries.len() == 0 {
        0
    } else {
        blk_sum(entries.drop_last(), op) + if lowercase_of(entries.last().0) == op {
            or_zero(entries.last().1)
        } else {
            0
        }
    }
}

proof fn lemma_blk_sum_prefix(entries: Seq<(Seq<char>, Option<u64>)>, k: int, op: Seq<char>)
    requires
        0 <= k <= entries.len(),
    ensures
        blk_sum(entries.take(k), op) <= blk_sum(entries, op),
    decreases entries.len(),
{
    if k < entries.len() {
        assert(entries.drop_last().take(k) == entries.take(k));
        lemma_blk_sum_prefix(entries.drop_last(), k, op);
    } else {
        assert(entries.take(k) == entries);
    }
}

/// The views of block I/O entries.
pub open spec fn blk_views(entries: Seq<(String, Option<u64>)>) -> Seq<(Seq<char>, Option<u64>)> {
    entries.map_values(|e: (String, Option<u64>)| (e.0@, e.1))
}

/// Block I/O totals, read and written, over entries of operation name
/// (empty when unnamed) and byte count; `None` when a total does not fit
/// in 64 bits.
pub fn blk_totals(entries: &Vec<(String, Option<u64>)>) -> (r: Option<(u64, u64)>)
    ensures
        r is Some <==> blk_sum(blk_views(entries@), "read"@) <= u64::MAX && blk_sum(
            blk_views(entries@),
            "write"@,
        ) <= u64::MAX,
        r matches Some(t) ==> t.0 == blk_sum(blk_views(entries@), "read"@) && t.1 == blk_sum(
            blk_views(entries@),
            "write"@,
        ),
{
    let ghost es = blk_views(entries@);
    proof {
        reveal_strlit("read");
        reveal_strlit("write");
        assert("read"@.len() != "write"@.len());
    }
    let read = chars_of("read");
    let write = chars_of("write");
    let mut r: u64 = 0;
    let mut w: u64 = 0;
    let mut i: usize = 0;
    while i < entries.len()
        invariant
            i <= entries@.len(),
            es == blk_views(entries@),
            read@ == "read"@,
            write@ == "write"@,
            "read"@ != "write"@,
            r == blk_sum(es.take(i as int), "read"@),
            w == blk_sum(es.take(i as int), "write"@),
        decreases entries.len() - i,
    {
        proof {
            assert(es.take(i + 1).drop_last() == es.take(i as int));
            assert(es.take(i + 1).last() == (entries@[i as int].0@, entries@[i as int].1));
            lemma_blk_sum_prefix(es, (i + 1) as int, "read"@);
            lemma_blk_sum_prefix(es, (i + 1) as int, "write"@);
        }
        let op = lower_chars(entries[i].0.as_str());
        let v = unwrap_zero(entries[i].1);
        if chars_equal(&op, &read) {
            match r.checked_add(v) {
                Some(a) => r = a,
                None => return None,
            }
        } else if chars_equal(&op, &write) {
            match w.checked_add(v) {
                Some(a) => w = a,
                None => return None,
            }
        }
        i += 1;
    }
    assert(es.take(es.len() as int) == es);
    Some((r, w))
}

} // verus!
