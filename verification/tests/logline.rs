use lowresourcecapture::logline::{log_line, thread_hex};
use lowresourcecapture::stats::tooltip_text;

#[test]
fn a_log_line_stamps_time_thread_and_level() {
    assert_eq!(
        log_line(3725, 7, "1a2b", "INFO", "engine started"),
        "[01:02:05.007] (1a2b) INFO   engine started"
    );
    assert_eq!(log_line(0, 0, "0", "ERROR", ""), "[00:00:00.000] (0) ERROR  ");
    // Hours are not capped at two digits, and a long level is not cut.
    assert_eq!(log_line(360_000 + 59, 999, "t", "WARNING", "x"), "[100:00:59.999] (t) WARNING x");
}

#[test]
fn the_line_matches_the_standard_formatting() {
    for &(secs, ms) in &[(0u64, 0u32), (59, 1), (3599, 10), (86_399, 999), (u64::MAX, 5)] {
        let expected = format!(
            "[{:02}:{:02}:{:02}.{:03}] ({}) {:<6} {}",
            secs / 3600,
            (secs % 3600) / 60,
            secs % 60,
            ms,
            "ab",
            "WARN",
            "m"
        );
        assert_eq!(log_line(secs, ms, "ab", "WARN", "m"), expected);
    }
}

#[test]
fn thread_ids_are_lowercase_hex() {
    assert_eq!(thread_hex(0), "0");
    assert_eq!(thread_hex(255), "ff");
    assert_eq!(thread_hex(0x1A2B), "1a2b");
    assert_eq!(thread_hex(u32::MAX), format!("{:x}", u32::MAX));
}

#[test]
fn the_tooltip_says_starting_until_a_second_is_buffered() {
    assert_eq!(tooltip_text(5 * 1048576, 999), "LowResourceCapture — starting…");
    assert_eq!(
        tooltip_text(5 * 1048576, 42_500),
        "LowResourceCapture — recording · last 42s buffered · 5 MB"
    );
}

#[test]
fn tooltip_megabytes_round_as_the_standard_formatting_does() {
    let mib = 1048576u64;
    for bytes in [0, 1, mib / 2, mib / 2 + 1, mib + mib / 2, 2 * mib + mib / 2, 3 * mib - 1, 1023 * mib + 7] {
        let expected = format!(
            "LowResourceCapture — recording · last 1s buffered · {:.0} MB",
            bytes as f64 / (1024.0 * 1024.0)
        );
        assert_eq!(tooltip_text(bytes, 1000), expected, "{bytes} bytes");
    }
}
