use cpu_monitor::process::{
    account_processes, page_size_bytes, parse_pid_stat, rank_order, rank_processes, ProcessEntry,
    ProcessSample,
};
use cpu_monitor::sampler::CpuState;
use cpu_monitor::proc_stat::CpuTimes;
use std::collections::HashMap;

fn stat_line(pid: u32, comm: &str, utime: u64, stime: u64, rss: u64) -> String {
    let mut fields = vec!["S".to_string()];
    for i in 1..30u64 {
        fields.push(i.to_string());
    }
    fields[11] = utime.to_string();
    fields[12] = stime.to_string();
    fields[21] = rss.to_string();
    format!("{pid} ({comm}) {}", fields.join(" "))
}

#[test]
fn pid_stat_with_spaces_and_parens_in_name() {
    let line = stat_line(42, "my (odd) proc", 7, 3, 11);
    let s = parse_pid_stat(&line).unwrap();
    assert_eq!(s.comm, "my (odd) proc");
    assert_eq!((s.utime, s.stime, s.rss_pages), (7, 3, 11));
}

#[test]
fn pid_stat_rejects_short_or_broken_lines() {
    assert!(parse_pid_stat("1 (a) S 1 2 3").is_none());
    assert!(parse_pid_stat("1 a) S").is_none());
    assert!(parse_pid_stat("1 () S 1 2 3 4 5 6 7 8 9 10 11 12 13 14 15 16 17 18 19 20 21 22").is_none());
    let bad = stat_line(1, "x", 0, 0, 0).replace(" 0 0 ", " 0 zz ");
    let s = parse_pid_stat(&bad).unwrap();
    assert_eq!(s.stime, 0);
}

#[test]
fn page_is_4096_bytes() {
    assert_eq!(page_size_bytes(), 4096);
}

fn sample(pid: u32, comm: &str, utime: u64, stime: u64, rss: u64) -> ProcessSample {
    ProcessSample { pid, stat: parse_pid_stat(&stat_line(pid, comm, utime, stime, rss)).unwrap() }
}

#[test]
fn first_sample_gives_no_share() {
    let prev: HashMap<u32, u64> = HashMap::new();
    let (next, entries) = account_processes(&prev, false, 100, &vec![sample(1, "a", 5, 5, 2)]);
    assert_eq!(next.get(&1), Some(&10));
    assert_eq!(entries[0].tick_delta, None);
    assert_eq!(entries[0].memory_bytes, 2 * 4096);
}

#[test]
fn share_is_against_previous_ticks() {
    let mut prev: HashMap<u32, u64> = HashMap::new();
    prev.insert(1, 4);
    prev.insert(2, 50);
    let samples = vec![sample(1, "a", 5, 5, 0), sample(2, "b", 1, 1, 0), sample(3, "c", 9, 9, 0)];
    let (next, entries) = account_processes(&prev, true, 100, &samples);
    assert_eq!(entries[0].tick_delta, Some(6));
    assert_eq!(entries[1].tick_delta, Some(0));
    assert_eq!(entries[2].tick_delta, None);
    assert_eq!(next.len(), 3);
    let (_, none) = account_processes(&prev, true, 0, &samples);
    assert_eq!(none[0].tick_delta, None);
}

fn entry(pid: u32, d: Option<u64>, mem: u64) -> ProcessEntry {
    ProcessEntry { pid, name: format!("p{pid}"), tick_delta: d, memory_bytes: mem }
}

#[test]
fn ranking_is_stable_and_descending() {
    let keys = vec![(1, 5), (3, 0), (1, 9), (1, 5), (0, 100)];
    assert_eq!(rank_order(&keys), vec![1, 2, 0, 3, 4]);
    let entries = vec![entry(1, None, 10), entry(2, Some(4), 1), entry(3, Some(0), 20), entry(4, Some(4), 1)];
    let top = rank_processes(&entries, 3);
    let pids: Vec<u32> = top.iter().map(|e| e.pid).collect();
    assert_eq!(pids, vec![2, 4, 3]);
    assert!(rank_processes(&entries, 0).is_empty());
    assert_eq!(rank_processes(&entries, 10).len(), 4);
}

#[test]
fn sampler_compares_with_previous_readings() {
    let mut st = CpuState::new();
    st.seed(CpuTimes { user: 10, idle: 10, ..Default::default() }, vec![CpuTimes::default()]);
    let s1 = st.sample(
        CpuTimes { user: 20, idle: 30, ..Default::default() },
        vec![CpuTimes { user: 4, idle: 4, ..Default::default() }, CpuTimes { idle: 2, ..Default::default() }],
        Some(&vec![sample(7, "x", 1, 1, 1)]),
        5,
    );
    assert_eq!((s1.usage.busy, s1.usage.total), (10, 30));
    assert_eq!((s1.per_core[0].busy, s1.per_core[0].total), (4, 8));
    assert_eq!((s1.per_core[1].busy, s1.per_core[1].total), (0, 2));
    assert_eq!(s1.logical_cores, 2);
    assert_eq!(s1.processes.len(), 1);
    assert_eq!(s1.processes[0].tick_delta, None);
    let s2 = st.sample(
        CpuTimes { user: 25, idle: 35, ..Default::default() },
        vec![],
        Some(&vec![sample(7, "x", 4, 1, 1)]),
        5,
    );
    assert_eq!((s2.usage.busy, s2.usage.total), (5, 10));
    assert_eq!(s2.processes[0].tick_delta, Some(3));
    let s3 = st.sample(CpuTimes { user: 25, idle: 35, ..Default::default() }, vec![], None, 5);
    assert_eq!(s3.usage.total, 0);
    assert!(s3.processes.is_empty());
}
