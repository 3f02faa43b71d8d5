use swarmdeck::metrics::{cpu_ticks_from, lines, mem_used_kb_from, next_backoff_secs, nth_field, parse_kb, parse_u64, Probe};

#[test]
fn kb_lines() {
    assert_eq!(parse_kb("MemTotal:       16318256 kB"), 16318256);
    assert_eq!(parse_kb("MemTotal:"), 0);
    assert_eq!(parse_kb("MemTotal: lots kB"), 0);
    assert_eq!(parse_kb("  x\t+42 y"), 42);
}

#[test]
fn numbers_parse_like_std() {
    assert_eq!(parse_u64("0"), Some(0));
    assert_eq!(parse_u64("+7"), Some(7));
    assert_eq!(parse_u64("18446744073709551615"), Some(u64::MAX));
    assert_eq!(parse_u64("18446744073709551616"), None);
    assert_eq!(parse_u64(""), None);
    assert_eq!(parse_u64("+"), None);
    assert_eq!(parse_u64("-1"), None);
    assert_eq!(parse_u64("1a"), None);
    for s in ["0", "+7", "99", "", "+", "-1", "1a", "007"] {
        assert_eq!(parse_u64(s), s.parse::<u64>().ok(), "{s}");
    }
}

#[test]
fn fields_split_on_whitespace() {
    let s = "  cpu  1 2\t3 ";
    let expected: Vec<&str> = s.split_whitespace().collect();
    for (i, f) in expected.iter().enumerate() {
        assert_eq!(nth_field(s, i), Some(*f));
    }
    assert_eq!(nth_field(s, expected.len()), None);
    assert_eq!(nth_field("", 0), None);
}

#[test]
fn lines_split_like_std() {
    for s in ["", "a", "a\n", "a\r\nb", "a\n\nb\n", "\n", "x\r"] {
        let expected: Vec<&str> = s.lines().collect();
        assert_eq!(lines(s), expected, "{s:?}");
    }
}

#[test]
fn cpu_ticks_from_proc_stat() {
    let stat = "cpu  10 20 30 400 50 6 7 0 0 0\ncpu0 1 2 3 4\n";
    assert_eq!(cpu_ticks_from(stat), (450, 523));
    assert_eq!(cpu_ticks_from("cpu 1 2 3\n"), (0, 0));
    assert_eq!(cpu_ticks_from("cpu 1 2 x 3 4\n"), (4, 10));
    assert_eq!(cpu_ticks_from(""), (0, 0));
    assert_eq!(cpu_ticks_from("cpu 1 2 3 4"), (4, 10));
}

#[test]
fn memory_in_use() {
    let info = "MemTotal:        1000 kB\nMemFree:          100 kB\nMemAvailable:      300 kB\n";
    assert_eq!(mem_used_kb_from(info), 700);
    assert_eq!(mem_used_kb_from("MemAvailable: 5 kB\n"), 0);
    assert_eq!(mem_used_kb_from(""), 0);
}

#[test]
fn cpu_deltas_between_samples() {
    let mut p = Probe::default();
    assert_eq!(p.advance(100, 1000), None);
    assert_eq!(p.advance(150, 1100), Some((50, 100)));
    assert_eq!(p.advance(140, 1100), None);
    assert_eq!(p.advance(130, 1200), Some((0, 100)));
}

#[test]
fn backoff_doubles_up_to_thirty() {
    assert_eq!(next_backoff_secs(1), 2);
    assert_eq!(next_backoff_secs(8), 16);
    assert_eq!(next_backoff_secs(16), 30);
    assert_eq!(next_backoff_secs(30), 30);
    let mut b = 1;
    let mut seen = vec![b];
    for _ in 0..6 {
        b = next_backoff_secs(b);
        seen.push(b);
    }
    assert_eq!(seen, vec![1, 2, 4, 8, 16, 30, 30]);
}
