use cpu_monitor::cpuinfo::{cpu_mhz_texts, parse_cpu_identity, parse_cpuinfo_field};
use cpu_monitor::proc_stat::{parse_proc_stat, CpuTimes, UsageDelta};
use cpu_monitor::sensors::{pick_primary_sensor, sensor_display_name, SensorName};

fn percent(d: UsageDelta) -> f32 {
    if d.total == 0 {
        return 0.0;
    }
    (d.busy as f32 / d.total as f32) * 100.0
}

#[test]
fn cpu_times_delta_zero_when_unchanged() {
    let t = CpuTimes {
        user: 100,
        system: 50,
        idle: 200,
        ..Default::default()
    };
    assert_eq!(percent(CpuTimes::delta(&t, &t)), 0.0);
}

#[test]
fn cpu_times_delta_full_busy() {
    let prev = CpuTimes::default();
    let now = CpuTimes {
        user: 100,
        system: 0,
        idle: 0,
        ..Default::default()
    };
    assert!((percent(CpuTimes::delta(&prev, &now)) - 100.0).abs() < f32::EPSILON);
}

#[test]
fn cpu_times_delta_half_busy() {
    let prev = CpuTimes::default();
    let now = CpuTimes {
        user: 50,
        idle: 50,
        ..Default::default()
    };
    let pct = percent(CpuTimes::delta(&prev, &now));
    assert!((pct - 50.0).abs() < 0.001);
}

fn sensor(chip: &str, label: &str) -> SensorName {
    SensorName { chip: chip.into(), label: label.into() }
}

#[test]
fn primary_picks_tctl_first() {
    let temps = vec![(sensor("k10temp", "Tccd1"), 50.0f32), (sensor("k10temp", "Tctl"), 55.0)];
    let names: Vec<SensorName> = temps.iter().map(|(s, _)| sensor(&s.chip, &s.label)).collect();
    let picked = pick_primary_sensor(&names, Some("k10temp"));
    let val = picked.map(|i| temps[i].1);
    let name = picked.map(|i| sensor_display_name(&names[i]));
    assert_eq!(val, Some(55.0));
    assert_eq!(name.as_deref(), Some("k10temp/Tctl"));
}

#[test]
fn primary_falls_back_to_chip_first_sensor() {
    let temps = vec![(sensor("coretemp", "Core 0"), 42.0f32)];
    let names: Vec<SensorName> = temps.iter().map(|(s, _)| sensor(&s.chip, &s.label)).collect();
    let picked = pick_primary_sensor(&names, Some("coretemp"));
    let val = picked.map(|i| temps[i].1);
    let name = picked.map(|i| sensor_display_name(&names[i]));
    assert_eq!(val, Some(42.0));
    assert_eq!(name.as_deref(), Some("coretemp/Core 0"));
}

#[test]
fn parse_cpuinfo_grabs_field() {
    let sample = "processor\t: 0\nvendor_id\t: AuthenticAMD\nmodel name\t: AMD Ryzen 9\n";
    assert_eq!(
        parse_cpuinfo_field(sample, "vendor_id").as_deref(),
        Some("AuthenticAMD")
    );
    assert_eq!(
        parse_cpuinfo_field(sample, "model name").as_deref(),
        Some("AMD Ryzen 9")
    );
}

#[test]
fn cpuinfo_field_needs_a_colon_and_takes_the_first_line() {
    let sample = "model\t: x\nmodel name foo\nmodel name\t:  A  \r\nmodel name : B\n";
    assert_eq!(parse_cpuinfo_field(sample, "model name").as_deref(), Some("A"));
    assert_eq!(parse_cpuinfo_field(sample, "vendor_id"), None);
    assert_eq!(parse_cpuinfo_field("", "model"), None);
    assert_eq!(parse_cpuinfo_field("model:", "model").as_deref(), Some(""));
}

#[test]
fn cpu_identity_from_cpuinfo() {
    let sample = "vendor_id\t: GenuineIntel\nmodel name\t: Intel(R) Core(TM)\ncpu cores\t: 8\n";
    let id = parse_cpu_identity(sample);
    assert_eq!(id.model.as_deref(), Some("Intel(R) Core(TM)"));
    assert_eq!(id.vendor.as_deref(), Some("GenuineIntel"));
    assert_eq!(id.physical_cores, Some(8));
    let odd = parse_cpu_identity("cpu cores\t: eight\n");
    assert_eq!(odd.physical_cores, None);
    assert_eq!(odd.model, None);
}

#[test]
fn cpu_mhz_lines() {
    let sample = "cpu MHz\t\t: 3400.000\nprocessor\t: 1\ncpu MHz: 2200.5 \ncpu MHzx 1\n";
    assert_eq!(cpu_mhz_texts(sample), vec!["3400.000", "2200.5", "x 1"]);
}

#[test]
fn proc_stat_aggregate_and_cores() {
    let content = "cpu  10 20 30 40 50 60 70 80 90\ncpu0 1 2 3 4\ncpu1 5 6 7\ncpu2 1 x 2 3 4 5\nintr 1 2 3\ncpu3 9 9 9 9\n";
    let (agg, cores) = parse_proc_stat(content);
    assert_eq!(agg.user, 10);
    assert_eq!(agg.steal, 80);
    assert_eq!(agg.total(), 360);
    assert_eq!(agg.busy(), 270);
    assert_eq!(cores.len(), 2);
    assert_eq!((cores[0].user, cores[0].idle, cores[0].iowait), (1, 4, 0));
    assert_eq!((cores[1].user, cores[1].nice, cores[1].system, cores[1].idle, cores[1].iowait), (1, 2, 3, 4, 5));
}

#[test]
fn proc_stat_without_aggregate() {
    let (agg, cores) = parse_proc_stat("intr 1\ncpu 1 2 3 4\n");
    assert_eq!(agg.total(), 0);
    assert!(cores.is_empty());
}

#[test]
fn delta_saturates_when_counters_go_back() {
    let prev = CpuTimes { user: 100, idle: 100, ..Default::default() };
    let now = CpuTimes { user: 50, idle: 200, ..Default::default() };
    let d = CpuTimes::delta(&prev, &now);
    assert_eq!(d, UsageDelta { busy: 0, total: 50 });
}
