use whytop::ps::{entry_for, parse_line, parse_macos_process_metrics};

#[test]
fn parses_mac_process_metrics_with_padded_columns() {
    let metrics = parse_macos_process_metrics(
        "    1     0   0.0  28416 /sbin/launchd\n  512     1   0.4  69440 /usr/libexec/logd",
    );
    assert_eq!(entry_for(&metrics, 1).and_then(|m| m.parent_pid), None);
    assert_eq!(entry_for(&metrics, 512).and_then(|m| m.parent_pid), Some(1));
    assert_eq!(entry_for(&metrics, 512).map(|m| m.memory_bytes), Some(69440 * 1024));
}

#[test]
fn names_keep_their_spaces_and_bad_lines_are_skipped() {
    let out = "  7  1  2.5  10 /Applications/Code Helper.app/x  y\nbad line\n 8 x 1.0 5 name\n 9 1 1.0 5\n+10 +2 0.1 +3 n\n";
    let m = parse_macos_process_metrics(out);
    assert_eq!(m.len(), 3);
    assert_eq!(m[0].name, "/Applications/Code Helper.app/x y");
    assert_eq!(m[0].cpu_field, "2.5");
    assert_eq!(m[1].pid, 8);
    assert_eq!(m[1].parent_pid, None);
    assert_eq!(m[2].pid, 10);
    assert_eq!(m[2].parent_pid, Some(2));
    assert_eq!(m[2].memory_bytes, 3 * 1024);
}

#[test]
fn numbers_follow_the_standard_parse() {
    assert!(parse_line("4294967296 1 0.0 1 n").is_none());
    assert!(parse_line("-1 1 0.0 1 n").is_none());
    assert!(parse_line("+ 1 0.0 1 n").is_none());
    assert_eq!(parse_line("4294967295 1 0.0 18446744073709551615 n").map(|e| e.memory_bytes), Some(u64::MAX));
    assert_eq!(parse_line("5 1 0.0 1").map(|e| e.pid), None);
}

#[test]
fn the_last_entry_of_a_pid_counts() {
    let m = parse_macos_process_metrics("3 1 0.0 1 first\n3 2 0.0 1 second\n");
    assert_eq!(entry_for(&m, 3).map(|e| e.name.clone()), Some("second".to_string()));
    assert!(entry_for(&m, 4).is_none());
}
