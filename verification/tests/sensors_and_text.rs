use cpu_monitor::sensors::{
    chip_name, select_hwmon, sensor_label, sort_numbers, temp_input_index, pick_primary_sensor,
    SensorName,
};
use cpu_monitor::text::{
    chars_of, decimal_string, next_line, parse_u32_range, parse_u64_range, split_words, string_of,
    trim_str,
};

#[test]
fn hwmon_chips_and_primary() {
    let names = vec![
        Some("nvme\n".to_string()),
        Some("coretemp\n".to_string()),
        None,
        Some(" k10temp ".to_string()),
        Some("k10temp".to_string()),
    ];
    let c = select_hwmon(&names);
    assert_eq!(c.chips, vec![1, 3, 4]);
    assert_eq!(c.primary.as_deref(), Some("k10temp"));
    let none = select_hwmon(&vec![Some("acpitz".to_string())]);
    assert!(none.chips.is_empty());
    assert_eq!(none.primary, None);
}

#[test]
fn temp_input_file_names() {
    assert_eq!(temp_input_index("temp1_input"), Some(1));
    assert_eq!(temp_input_index("temp12_input"), Some(12));
    assert_eq!(temp_input_index("temp1_label"), None);
    assert_eq!(temp_input_index("temp_input"), None);
    assert_eq!(temp_input_index("in0_input"), None);
    assert_eq!(temp_input_index("temp+3_input"), Some(3));
    assert_eq!(temp_input_index("temp99999999999_input"), None);
}

#[test]
fn numbers_sorted() {
    assert_eq!(sort_numbers(&vec![3, 1, 2, 1]), vec![1, 1, 2, 3]);
    assert_eq!(sort_numbers(&vec![]), Vec::<u32>::new());
}

#[test]
fn chip_and_sensor_labels() {
    assert_eq!(chip_name(Some("k10temp\n")), "k10temp");
    assert_eq!(chip_name(None), "unknown");
    assert_eq!(sensor_label(Some("Tctl\n"), 1), "Tctl");
    assert_eq!(sensor_label(None, 3), "temp3");
}

#[test]
fn primary_prefers_package_then_chip_then_first() {
    let s = |c: &str, l: &str| SensorName { chip: c.into(), label: l.into() };
    let v = vec![s("a", "x"), s("coretemp", "Core 0"), s("coretemp", "Package id 0")];
    assert_eq!(pick_primary_sensor(&v, None), Some(2));
    let w = vec![s("a", "x"), s("b", "y")];
    assert_eq!(pick_primary_sensor(&w, Some("b")), Some(1));
    assert_eq!(pick_primary_sensor(&w, Some("c")), Some(0));
    assert_eq!(pick_primary_sensor(&vec![], Some("c")), None);
}

#[test]
fn trimming_and_numbers() {
    assert_eq!(trim_str("\t a b \u{3000}\n"), "a b");
    assert_eq!(trim_str("   "), "");
    assert_eq!(decimal_string(0), "0");
    assert_eq!(decimal_string(18446744073709551615), "18446744073709551615");
}

#[test]
fn decimal_reads_back_as_number() {
    for n in [0u64, 7, 10, 99, 12345, u64::MAX] {
        let s = decimal_string(n);
        let v = chars_of(&s);
        assert_eq!(parse_u64_range(&v, 0, v.len()), Some(n));
    }
}

#[test]
fn numbers_parse_as_from_str_does() {
    let p = |s: &str| {
        let v = chars_of(s);
        parse_u64_range(&v, 0, v.len())
    };
    assert_eq!(p("+5"), Some(5));
    assert_eq!(p("-5"), None);
    assert_eq!(p("+"), None);
    assert_eq!(p(""), None);
    assert_eq!(p("12a"), None);
    assert_eq!(p("18446744073709551615"), Some(u64::MAX));
    assert_eq!(p("18446744073709551616"), None);
    assert_eq!(p("007"), Some(7));
    for s in ["+5", "-5", "", "4294967295", "4294967296", " 1"] {
        let v = chars_of(s);
        assert_eq!(parse_u32_range(&v, 0, v.len()), s.parse::<u32>().ok(), "{s:?}");
    }
}

#[test]
fn words_and_lines() {
    let v = chars_of(" cpu0\t1  2\u{a0}3 \n");
    let ws: Vec<String> = split_words(&v, 0, v.len()).iter().map(|&(a, b)| string_of(&v, a, b)).collect();
    assert_eq!(ws, vec!["cpu0", "1", "2", "3"]);
    let t = chars_of("a\r\nb\rc\n\nd");
    let mut lines = Vec::new();
    let mut pos = 0;
    while pos < t.len() {
        let (end, next) = next_line(&t, pos);
        lines.push(string_of(&t, pos, end));
        pos = next;
    }
    let expected: Vec<&str> = "a\r\nb\rc\n\nd".lines().collect();
    assert_eq!(lines, expected);
}
