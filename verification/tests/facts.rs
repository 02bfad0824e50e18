use justfetch::info::{format_uptime, parse_minf_key, parse_osr_key, parse_uptime_seconds};
use justfetch::utils::{is_arg_present, Utils};

#[test]
fn osr_key_is_read_and_unquoted() {
    let osr = "NAME=\"Arch Linux\"\nID=arch\nBUILD_ID=rolling\n";
    assert_eq!(parse_osr_key(osr, "NAME"), Some("Arch Linux".to_string()));
    assert_eq!(parse_osr_key(osr, "BUILD_ID"), Some("rolling".to_string()));
}

#[test]
fn osr_value_stops_at_the_first_line_end() {
    let osr = "ID=arch\nNAME=Arch\n";
    assert_eq!(parse_osr_key(osr, "ID"), Some("arch".to_string()));
}

#[test]
fn osr_missing_key_gives_nothing() {
    assert_eq!(parse_osr_key("NAME=Arch\n", "VERSION_ID"), None);
}

#[test]
fn osr_takes_the_text_between_two_occurrences() {
    // The segment runs from after the first `ID=` to the next one.
    let osr = "ID=archID=again\n";
    assert_eq!(parse_osr_key(osr, "ID"), Some("arch".to_string()));
}

#[test]
fn minf_key_gives_the_second_token() {
    let minf = "MemTotal:       16384256 kB\nMemFree:  12345 kB\n";
    assert_eq!(parse_minf_key(minf, "MemTotal"), Some("16384256".to_string()));
    assert_eq!(parse_minf_key(minf, "MemFree"), Some("12345".to_string()));
}

#[test]
fn minf_missing_key_gives_nothing() {
    assert_eq!(parse_minf_key("MemTotal: 1 kB\n", "Cached"), None);
}

#[test]
fn minf_line_without_a_second_token_gives_nothing() {
    assert_eq!(parse_minf_key("MemTotal:\nCached: 5 kB\n", "MemTotal"), None);
}

#[test]
fn minf_first_matching_line_wins() {
    let minf = "Cached: 1 kB\nCached: 2 kB\n";
    assert_eq!(parse_minf_key(minf, "Cached"), Some("1".to_string()));
}

#[test]
fn uptime_reads_the_whole_seconds_field() {
    assert_eq!(parse_uptime_seconds("12345.67 8910.45\n"), 12345);
    assert_eq!(parse_uptime_seconds("42"), 42);
    assert_eq!(parse_uptime_seconds("+7.0"), 7);
}

#[test]
fn uptime_that_does_not_parse_reads_as_zero() {
    assert_eq!(parse_uptime_seconds(""), 0);
    assert_eq!(parse_uptime_seconds("abc.def"), 0);
    assert_eq!(parse_uptime_seconds("99999999999999.2"), 0);
    assert_eq!(parse_uptime_seconds("-3.0"), 0);
}

#[test]
fn uptime_formatting_writes_each_positive_part() {
    assert_eq!(format_uptime(0), "");
    assert_eq!(format_uptime(60), "1 minute");
    assert_eq!(format_uptime(120), "2 minutes");
    assert_eq!(format_uptime(3600), "1 hour,");
    assert_eq!(format_uptime(3660), "1 hour, 1 minute");
    assert_eq!(format_uptime(7320), "2 hours, 2 minutes");
}

#[test]
fn uptime_formatting_counts_hours_from_the_start() {
    // Hours are the whole quotient of the counter, not the rest of a day.
    assert_eq!(format_uptime(90060), "1 day 25 hours, 1 minute");
    assert_eq!(format_uptime(86400), "1 day 24 hours,");
    assert_eq!(format_uptime(172800), "2 days 48 hours,");
}

#[test]
fn replace_if_found_rewrites_every_occurrence() {
    let mut s = "a[x]b[x]c".to_string();
    Utils::replace_if_found("[x]", "1", &mut s);
    assert_eq!(s, "a1b1c");
}

#[test]
fn replace_if_found_leaves_absent_text_alone() {
    let mut s = "abc".to_string();
    Utils::replace_if_found("[x]", "1", &mut s);
    assert_eq!(s, "abc");
}

#[test]
fn arg_presence_is_exact_match() {
    let args = vec!["justfetch".to_string(), "--elapsed".to_string()];
    assert!(is_arg_present(&args, "--elapsed"));
    assert!(!is_arg_present(&args, "--help"));
    assert!(!is_arg_present(&args, "--elapse"));
}
