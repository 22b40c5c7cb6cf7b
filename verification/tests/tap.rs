use backend_rove::clock::{elapsed_ms, gap_between, now_ms, wire_ms};
use backend_rove::tap::{
    age_str, format_tap_line, stamp_ms, tail_count, tail_page, TapBuffer, TapLine, TAP_LINES,
};

#[test]
fn stamps_are_times_of_day() {
    assert_eq!(stamp_ms(0), "00:00:00.000");
    assert_eq!(stamp_ms(86_399_999), "23:59:59.999");
    assert_eq!(stamp_ms(86_400_000), "00:00:00.000");
    assert_eq!(stamp_ms(1_700_000_000_123), "22:13:20.123");
}

#[test]
fn ages_have_a_unit() {
    assert_eq!(age_str(0), "0ms");
    assert_eq!(age_str(999), "999ms");
    assert_eq!(age_str(1000), "1.0s");
    assert_eq!(age_str(59_999), "60.0s");
    assert_eq!(age_str(60_000), "1m");
    assert_eq!(age_str(3_599_999), "59m");
    assert_eq!(age_str(3_600_000), "1h");
    assert_eq!(age_str(u64::MAX), format!("{}h", u64::MAX / 3_600_000));
}

#[test]
fn seconds_are_rounded_as_floats_are() {
    for ms in 1000u64..60_000 {
        assert_eq!(age_str(ms), format!("{:.1}s", ms as f64 / 1000.0));
    }
}

#[test]
fn lines_show_stamp_gap_and_age() {
    let line = TapLine::at("> hi", 1500, 3_600_000);
    assert_eq!(
        format_tap_line(&line, 3_600_007),
        "[01:00:00.000 (+1.5s mono) → +7ms] > hi"
    );
    // A clock that went back shows no age.
    assert_eq!(
        format_tap_line(&line, 0),
        "[01:00:00.000 (+1.5s mono) → +0ms] > hi"
    );
}

#[test]
fn long_lines_are_cut_by_characters() {
    let line = TapLine::at(&"é".repeat(301), 0, 0);
    assert_eq!(line.text, "é".repeat(300));
    let whole = TapLine::at(&"é".repeat(300), 0, 0);
    assert_eq!(whole.text, "é".repeat(300));
    let stamped = TapLine::now("x".repeat(400), 5);
    assert_eq!(stamped.text.len(), 300);
    assert_eq!(stamped.gap_ms, 5);
}

#[test]
fn the_newest_lines_stay() {
    let mut tap = TapBuffer::new();
    assert!(tap.snapshot().is_empty());
    for i in 0..TAP_LINES + 3 {
        tap.record(&TapLine::at(&i.to_string(), 0, i as u64));
    }
    let lines = tap.snapshot();
    assert_eq!(lines.len(), TAP_LINES);
    assert_eq!(lines[0].text, "3");
    assert_eq!(lines[TAP_LINES - 1].text, (TAP_LINES + 2).to_string());
}

#[test]
fn pushed_lines_are_stamped_and_kept() {
    let mut tap = TapBuffer::new();
    let before = now_ms();
    let line = tap.push("> hello".to_string());
    let after = now_ms();
    assert_eq!(line.text, "> hello");
    assert!(before <= line.srv_ms && line.srv_ms <= after);
    let lines = tap.snapshot();
    assert_eq!(lines.len(), 1);
    assert_eq!(lines[0].text, "> hello");
    assert_eq!(lines[0].srv_ms, line.srv_ms);
    assert_eq!(lines[0].gap_ms, line.gap_ms);
}

#[test]
fn lines_keep_the_times_they_are_given() {
    let mut tap = TapBuffer::new();
    let line = tap.stamped("a", 7, 11, std::time::Instant::now());
    assert_eq!((line.gap_ms, line.srv_ms, line.text.as_str()), (7, 11, "a"));
    let long = tap.stamped(&"x".repeat(301), 0, 0, std::time::Instant::now());
    assert_eq!(long.text.len(), 300);
    assert_eq!(tap.snapshot().len(), 2);
}

#[test]
fn gaps_count_from_the_line_before() {
    let start = std::time::Instant::now();
    let mut tap = TapBuffer::new();
    let later = start + std::time::Duration::from_secs(3600);
    tap.stamped("a", 0, 0, later);
    // The line before seems to lie ahead, so no time has passed since.
    assert_eq!(tap.push("b".to_string()).gap_ms, 0);
    assert_eq!(gap_between(start, &later), 3_600_000);
    assert_eq!(gap_between(later, &start), 0);
    let pushed = std::time::Instant::now();
    while elapsed_ms(&pushed) < 30 {}
    let gap = tap.push("c".to_string()).gap_ms;
    assert!(gap >= 30 && gap < 15_000);
}

#[test]
fn a_tail_is_the_last_lines() {
    let lines: Vec<TapLine> = (0..4).map(|i| TapLine::at(&i.to_string(), 0, 0)).collect();
    assert_eq!(
        tail_page(&lines, 2, 0),
        "[00:00:00.000 (+0ms mono) → +0ms] 2\n[00:00:00.000 (+0ms mono) → +0ms] 3\n"
    );
    assert_eq!(tail_page(&lines, 0, 0), "");
    assert_eq!(tail_page(&lines, 9, 0).lines().count(), 4);
    let many: Vec<TapLine> = (0..600).map(|i| TapLine::at(&i.to_string(), 0, 0)).collect();
    assert_eq!(tail_page(&many, usize::MAX, 0).lines().count(), 500);
}

#[test]
fn tail_counts_are_parsed_as_std_parses() {
    for text in [
        "0", "50", "+7", "007", "", "+", "-1", " 5", "5 ", "1_000", "٣", "18446744073709551615",
        "18446744073709551616", "99999999999999999999999", "+-5", "++5", "5.0",
    ] {
        assert_eq!(tail_count(text), text.parse::<usize>().ok());
    }
}

#[test]
fn milliseconds_keep_their_low_bits() {
    assert_eq!(wire_ms(None), 0);
    assert_eq!(wire_ms(Some(1234)), 1234);
    assert_eq!(wire_ms(Some(u64::MAX as u128 + 6)), 5);
    // Some time after the year 2020, and not yet 2300.
    assert!(now_ms() > 1_577_836_800_000);
    assert!(now_ms() < 10_413_792_000_000);
    let start = std::time::Instant::now();
    let first = elapsed_ms(&start);
    assert!(first <= elapsed_ms(&start));
}

#[test]
fn elapsed_time_counts_from_its_start() {
    let start = std::time::Instant::now();
    while start.elapsed().as_millis() < 25 {}
    let later = std::time::Instant::now();
    let since_later = elapsed_ms(&later);
    let since_start = elapsed_ms(&start);
    assert!(since_start >= 25);
    assert!(since_start >= since_later + 25);
    // A start that lies ahead has not passed yet.
    assert_eq!(elapsed_ms(&(later + std::time::Duration::from_secs(3600))), 0);
}
