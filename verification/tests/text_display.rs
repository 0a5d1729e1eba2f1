use whytop::display::{format_bytes, wrapped_line_count};
use whytop::prompt::build;

fn reference_bytes(n: u64) -> String {
    if n >= 1024 * 1024 * 1024 {
        format!("{:.1}G", n as f64 / 1024f64.powi(3))
    } else if n >= 1024 * 1024 {
        format!("{:.1}M", n as f64 / 1024f64.powi(2))
    } else if n >= 1024 {
        format!("{:.0}K", n as f64 / 1024f64)
    } else {
        format!("{}B", n)
    }
}

fn reference_wrap(text: &str, width: usize) -> usize {
    let width = width.max(1);
    text.lines().map(|line| line.chars().count().max(1).div_ceil(width)).sum()
}

#[test]
fn bytes_are_written_like_the_float_formatting() {
    let mut samples: Vec<u64> = vec![
        0, 1, 1023, 1024, 1535, 1536, 1537, 2560, 3584, 1024 * 1024 - 1, 1024 * 1024,
        1024 * 1024 + 52428, 1024 * 1024 + 52429, 5 * (1 << 28), 3 * (1 << 28), 1 << 30,
        (1 << 30) - 1, 182 * 1024 * 1024, 96 * 1024 * 1024, 22 * 1024 * 1024,
        u64::MAX, u64::MAX - 1, 1 << 53, (1 << 53) + 1, (1 << 60) + 12345, 987_654_321_012,
    ];
    let mut x: u64 = 0x9e37_79b9_7f4a_7c15;
    for _ in 0..2000 {
        x ^= x << 13;
        x ^= x >> 7;
        x ^= x << 17;
        samples.push(x >> (x % 64));
    }
    for n in samples {
        assert_eq!(format_bytes(n), reference_bytes(n), "{n}");
    }
}

#[test]
fn byte_examples() {
    assert_eq!(format_bytes(512), "512B");
    assert_eq!(format_bytes(2048), "2K");
    assert_eq!(format_bytes(1536), "2K");
    assert_eq!(format_bytes(2560), "2K");
    assert_eq!(format_bytes(182 * 1024 * 1024), "182.0M");
    assert_eq!(format_bytes(5 * (1 << 28)), "1.2G");
}

#[test]
fn wrapped_lines_count_like_the_terminal() {
    let texts = [
        "", "a", "\n", "\n\n", "abc\ndefgh\r\nij\r", "line one\n\nline three\n", "é\u{2028}x\ny",
        "\r\n", "trailing\r", "1234567890123",
    ];
    for t in texts {
        for w in [0, 1, 2, 3, 5, 80] {
            assert_eq!(wrapped_line_count(t, w), reference_wrap(t, w), "{t:?} {w}");
        }
    }
    assert_eq!(wrapped_line_count("", 10), 0);
    assert_eq!(wrapped_line_count("\n", 10), 1);
    assert_eq!(wrapped_line_count("abcdefghij", 4), 3);
    assert_eq!(wrapped_line_count("ab\r\ncd", 1), 4);
}

#[test]
fn prompt_mentions_observed_evidence() {
    let evidence = "{\n  \"pid\": 1\n}";
    let p = build(Some(evidence), "why?");
    assert!(p.contains("OBSERVED EVIDENCE"));
    assert!(p.contains(evidence));
    assert!(p.ends_with("USER QUESTION:\nwhy?"));
}

#[test]
fn prompt_cuts_the_question_and_falls_back_to_an_empty_object() {
    let q = "ü".repeat(600);
    let p = build(None, &q);
    assert!(p.contains("OBSERVED EVIDENCE:\n{}\n\nUSER QUESTION:\n"));
    let tail = p.split("USER QUESTION:\n").nth(1).unwrap();
    assert_eq!(tail.chars().count(), 500);
    assert!(p.starts_with("You are a cautious local process analyst."));
}
