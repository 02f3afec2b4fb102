use cpu_monitor::menu::{
    menu_entries, tooltip_description, CpuFacts, MenuEntry, ProcessLine, SensorLine, TrayView,
};
use cpu_monitor::tray::{format_bytes, icon_file_name, is_tray_icon_file, short_time, IconFiles};

#[test]
fn bytes_in_each_unit() {
    assert_eq!(format_bytes(0), "0 B");
    assert_eq!(format_bytes(1023 * 1024), "1047552 B");
    assert_eq!(format_bytes(1_048_576), "1 MiB");
    assert_eq!(format_bytes(800_000_000), "763 MiB");
    assert_eq!(format_bytes(1_500_000_000), "1.40 GiB");
    assert_eq!(format_bytes(1_073_741_824), "1.00 GiB");
}

#[test]
fn bytes_round_as_float_formatting_does() {
    let samples: Vec<u64> = vec![
        1_048_576 + 524_288,
        3 * 1_048_576 + 524_288,
        1_207_959_552,
        1_216_348_160,
        1_073_741_824 * 3 + 5_368_709,
        u64::MAX,
        (1u64 << 60) + 12345,
        9_007_199_254_740_993,
        1_073_741_823,
        1_048_575,
    ];
    for b in samples {
        let expected = if b >= 1024 * 1024 * 1024 {
            format!("{:.2} GiB", b as f64 / (1024.0 * 1024.0 * 1024.0))
        } else if b >= 1024 * 1024 {
            format!("{:.0} MiB", b as f64 / (1024.0 * 1024.0))
        } else {
            format!("{} B", b)
        };
        assert_eq!(format_bytes(b), expected, "bytes {b}");
    }
}

#[test]
fn short_time_of_timestamps() {
    assert_eq!(short_time("2026-05-01T18:00:00Z"), "18:00:00Z");
    assert_eq!(short_time("2026-05-01T18:00:00.123+00:00"), "18:00:00");
    assert_eq!(short_time("no-time-here"), "no-time-here");
    assert_eq!(short_time("aTbTc"), "b");
}

#[test]
fn icon_files_cycle() {
    let mut f = IconFiles::new();
    let n1 = f.next_name();
    assert_eq!(n1, "cpu-monitor-tray-1");
    assert_eq!(f.commit(n1), None);
    let n2 = f.next_name();
    assert_eq!(n2, "cpu-monitor-tray-2");
    assert_eq!(f.commit(n2).as_deref(), Some("cpu-monitor-tray-1"));
    assert_eq!(f.current_name(), "cpu-monitor-tray-2");
    assert_eq!(icon_file_name("cpu-monitor-tray-2"), "cpu-monitor-tray-2.png");
    assert!(is_tray_icon_file("cpu-monitor-tray-7.png"));
    assert!(!is_tray_icon_file("other.png"));
}

fn labels(entries: &[MenuEntry]) -> Vec<String> {
    entries
        .iter()
        .map(|e| match e {
            MenuEntry::Label(s) => s.clone(),
            MenuEntry::Separator => "---".to_string(),
            MenuEntry::Repository => "[repo]".to_string(),
            MenuEntry::Coffee => "[coffee]".to_string(),
            MenuEntry::Quit => "[quit]".to_string(),
        })
        .collect()
}

#[test]
fn menu_while_connecting_and_offline() {
    let m = menu_entries(&TrayView::Connecting, "http://h:1");
    assert_eq!(
        labels(&m),
        vec!["Connecting to http://h:1\u{2026}", "---", "[repo]", "[coffee]", "---", "[quit]"]
    );
    let m = menu_entries(&TrayView::Disconnected("refused".into()), "http://h:1");
    assert_eq!(
        labels(&m),
        vec!["Backend offline: refused", "Backend: http://h:1", "---", "[repo]", "[coffee]", "---", "[quit]"]
    );
}

fn facts() -> CpuFacts {
    CpuFacts {
        temperature: Some("48.0".into()),
        usage: "25.0".into(),
        frequency: Some("3400".into()),
        load: Some(("0.40".into(), "0.50".into(), "0.60".into())),
        logical_cores: 8,
        physical_cores: Some(4),
        model: Some("Mock CPU".into()),
        kernel: Some("6.5.0".into()),
        sensors: vec![SensorLine { chip: "k10temp".into(), label: "Tctl".into(), temp: "48.0".into() }],
        processes: vec![ProcessLine {
            pid: 1234,
            cpu: " 12.0".into(),
            name: "firefox".into(),
            memory_bytes: 1_500_000_000,
        }],
        timestamp: "2026-05-01T18:00:00Z".into(),
    }
}

#[test]
fn menu_of_a_snapshot() {
    let m = menu_entries(&TrayView::Connected(facts()), "http://h:1");
    assert_eq!(
        labels(&m),
        vec![
            "CPU Temp: 48.0\u{b0}C",
            "CPU Usage: 25.0%",
            "Frequency: 3400 MHz",
            "Load avg: 0.40 / 0.50 / 0.60",
            "Cores: 8 logical / 4 physical",
            "Mock CPU",
            "---",
            "Sensors:",
            "  k10temp/Tctl: 48.0\u{b0}C",
            "---",
            "Top processes (1):",
            "    1234  12.0%  firefox (1.40 GiB)",
            "---",
            "Backend: http://h:1",
            "Updated: 18:00:00Z",
            "---",
            "[repo]",
            "[coffee]",
            "---",
            "[quit]",
        ]
    );
    let mut bare = facts();
    bare.temperature = None;
    bare.frequency = None;
    bare.load = None;
    bare.physical_cores = None;
    bare.model = None;
    bare.sensors.clear();
    bare.processes.clear();
    let m = menu_entries(&TrayView::Connected(bare), "u");
    assert_eq!(
        labels(&m),
        vec![
            "CPU Temp: N/A", "CPU Usage: 25.0%", "Cores: 8", "---", "Backend: u",
            "Updated: 18:00:00Z", "---", "[repo]", "[coffee]", "---", "[quit]"
        ]
    );
}

#[test]
fn tooltip_texts() {
    assert_eq!(tooltip_description(&TrayView::Connecting, "u"), "Connecting to u");
    assert_eq!(tooltip_description(&TrayView::Disconnected("e".into()), "u"), "Backend offline: e");
    assert_eq!(
        tooltip_description(&TrayView::Connected(facts()), "u"),
        "Mock CPU\nTemp: 48.0\u{b0}C\nUsage: 25.0%\nLoad: 0.40 / 0.50 / 0.60\nKernel: 6.5.0"
    );
}
