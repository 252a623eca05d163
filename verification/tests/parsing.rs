use statusbar::cpu::{cpu_utilization_checked, first_line, parse_cpu_fields, sum_fields_checked,
    tokenize};
use statusbar::hwmon::{is_coretemp_name, pick_temp_input};
use statusbar::num::{parse_trimmed_u64, parse_u64};
use statusbar::text::{str_contains, str_eq, str_lex_le, trim_str};

#[test]
fn trim_removes_surrounding_whitespace() {
    assert_eq!(trim_str("  up\n"), "up");
    assert_eq!(trim_str("\t45678 \r\n"), "45678");
    assert_eq!(trim_str("down"), "down");
    assert_eq!(trim_str("   \n"), "");
    assert_eq!(trim_str(""), "");
    assert_eq!(trim_str("a b"), "a b");
}

#[test]
fn string_equality_and_order() {
    assert!(str_eq("up", "up"));
    assert!(!str_eq("up", "down"));
    assert!(str_lex_le("temp1_input", "temp2_input"));
    assert!(!str_lex_le("temp2_input", "temp1_input"));
    assert!(str_lex_le("temp", "temp1_input"));
    assert!(str_lex_le("same", "same"));
}

#[test]
fn substring_search() {
    assert!(str_contains("temp1_input", "_input"));
    assert!(!str_contains("temp1_label", "_input"));
    assert!(!str_contains("_inp", "_input"));
    assert!(str_contains("anything", ""));
}

#[test]
fn parse_u64_accepts_digit_strings_only() {
    assert_eq!(parse_u64("45678"), Some(45678));
    assert_eq!(parse_u64("0"), Some(0));
    assert_eq!(parse_u64(""), None);
    assert_eq!(parse_u64("12a"), None);
    assert_eq!(parse_u64("-5"), None);
    assert_eq!(parse_u64("18446744073709551615"), Some(u64::MAX));
    assert_eq!(parse_u64("18446744073709551616"), None);
}

#[test]
fn parse_trimmed_u64_trims_first() {
    assert_eq!(parse_trimmed_u64("45678\n"), Some(45678));
    assert_eq!(parse_trimmed_u64(" 2500 \n"), Some(2500));
    assert_eq!(parse_trimmed_u64("\n"), None);
    assert_eq!(parse_trimmed_u64("4 5\n"), None);
}

#[test]
fn first_line_and_tokens() {
    assert_eq!(first_line("cpu 1 2\ncpu0 3 4\n"), "cpu 1 2");
    assert_eq!(first_line("no newline"), "no newline");
    assert_eq!(first_line(""), "");
    assert_eq!(tokenize("cpu  10 20\t30"), vec!["cpu", "10", "20", "30"]);
    assert_eq!(tokenize("   "), Vec::<String>::new());
}

#[test]
fn cpu_fields_of_a_stats_text() {
    let content = "cpu  10 20 30 40 50 0 0 0\ncpu0 1 2 3 4 5 0 0 0\n";
    assert_eq!(
        parse_cpu_fields(content),
        Some(vec![10, 20, 30, 40, 50, 0, 0, 0])
    );
    assert_eq!(parse_cpu_fields("cpu 12 abc 3\n"), None);
    assert_eq!(parse_cpu_fields(""), None);
    assert_eq!(parse_cpu_fields("\ncpu 1 2 3 4\n"), None);
    assert_eq!(parse_cpu_fields("cpu\n"), Some(vec![]));
}

#[test]
fn utilization_is_a_percentage() {
    // 150 counter ticks elapsed, 50 of them idle: 100 * 100 / 150 rounds to 67.
    let prev = vec![0u64, 0, 0, 0];
    let cur = vec![100u64, 0, 0, 50];
    assert_eq!(cpu_utilization_checked(&prev, &cur), Some(67));
    // Fully idle interval: 0%.
    let cur_idle = vec![0u64, 0, 0, 100];
    assert_eq!(cpu_utilization_checked(&prev, &cur_idle), Some(0));
    // Fully busy interval: 100%.
    let cur_busy = vec![100u64, 0, 0, 0];
    assert_eq!(cpu_utilization_checked(&prev, &cur_busy), Some(100));
}

#[test]
fn utilization_with_no_elapsed_ticks_is_zero() {
    // A single-sample run: previous and current are the same reading, so no
    // counter ticks elapsed, and the division must not be attempted.
    let sample = vec![7u64, 8, 9, 10, 11];
    assert_eq!(cpu_utilization_checked(&sample, &sample), Some(0));
}

#[test]
fn utilization_needs_four_fields_and_fitting_sums() {
    let short = vec![1u64, 2, 3];
    let ok = vec![1u64, 2, 3, 4];
    assert_eq!(cpu_utilization_checked(&short, &ok), None);
    assert_eq!(cpu_utilization_checked(&ok, &short), None);
    let huge = vec![u64::MAX, 1, 0, 0];
    assert_eq!(cpu_utilization_checked(&ok, &huge), None);
}

#[test]
fn summing_fields_detects_overflow() {
    assert_eq!(sum_fields_checked(&vec![1u64, 2, 3]), Some(6));
    assert_eq!(sum_fields_checked(&vec![u64::MAX, 1]), None);
    assert_eq!(sum_fields_checked(&vec![]), Some(0));
}

#[test]
fn coretemp_name_is_matched_trimmed() {
    assert!(is_coretemp_name("coretemp\n"));
    assert!(is_coretemp_name("  coretemp  "));
    assert!(!is_coretemp_name("acpitz\n"));
    assert!(!is_coretemp_name(""));
    assert!(!is_coretemp_name("coretemp extra"));
}

#[test]
fn temp_input_selection_takes_first_input_path() {
    let paths = vec![
        String::from("/sys/class/hwmon/hwmon1/temp2_input"),
        String::from("/sys/class/hwmon/hwmon1/temp1_input"),
        String::from("/sys/class/hwmon/hwmon1/name"),
        String::from("/sys/class/hwmon/hwmon1/temp1_label"),
    ];
    assert_eq!(
        pick_temp_input(&paths),
        Some(String::from("/sys/class/hwmon/hwmon1/temp1_input"))
    );
    let none = vec![String::from("name"), String::from("uevent")];
    assert_eq!(pick_temp_input(&none), None);
    assert_eq!(pick_temp_input(&vec![]), None);
}
