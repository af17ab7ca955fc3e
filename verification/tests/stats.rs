use socatui::stats::{parse_line, Counters, Parsed};

#[test]
fn parses_stats_lines() {
    let l = "2026/09/23 16:41:03 socat[75527] I STATISTICS: left to right: 1 packets(s), 5000 byte(s)";
    match parse_line(l) {
        Parsed::Stats {
            pid,
            ltr,
            packets,
            bytes,
        } => {
            assert_eq!(pid, 75527);
            assert!(ltr);
            assert_eq!(packets, 1);
            assert_eq!(bytes, 5000);
        }
        _ => panic!("expected stats"),
    }
    let r = "2026/09/23 16:41:03 socat[7] I STATISTICS: right to left: 12 packets(s), 34 byte(s)";
    assert!(matches!(
        parse_line(r),
        Parsed::Stats {
            ltr: false,
            packets: 12,
            bytes: 34,
            ..
        }
    ));
}

#[test]
fn filters_noise() {
    assert!(matches!(
        parse_line("2026/09/23 16:41:03 socat[1] W statistics are experimental"),
        Parsed::Noise
    ));
    assert!(matches!(
        parse_line("2026/09/23 16:41:03 socat[1] W transfer engine not yet started, statistics not available"),
        Parsed::Noise
    ));
    assert!(matches!(
        parse_line("2026/09/23 16:41:03 socat[1] E bind(5, ...): Address already in use"),
        Parsed::Other
    ));
}

#[test]
fn odd_lines_are_other() {
    let others = [
        "",
        "STATISTICS: left to right: 1 packets(s), 2 byte(s)",
        "socat[x] I STATISTICS: left to right: 1 packets(s), 2 byte(s)",
        "socat[4294967296] I STATISTICS: left to right: 1 packets(s), 2 byte(s)",
        "socat[1 I STATISTICS: left to right: 1 packets(s), 2 byte(s)",
        "socat[1] I STATISTICS: up and down: 1 packets(s), 2 byte(s)",
        "socat[1] I STATISTICS: left to right: 1 packets(s)",
        "socat[1] I STATISTICS: left to right: none",
        "socat[1] I STATISTICS left to right: 1 packets(s), 2 byte(s)",
    ];
    for line in others {
        assert!(matches!(parse_line(line), Parsed::Other), "{line}");
    }
}

#[test]
fn numbers_that_do_not_fit_are_passed_over() {
    let line = "socat[1] I STATISTICS: left to right: 99999999999999999999 7 packets, 8 bytes";
    assert!(matches!(
        parse_line(line),
        Parsed::Stats { pid: 1, ltr: true, packets: 7, bytes: 8 }
    ));
    let line = "socat[4294967295] I STATISTICS: right to left: 18446744073709551615 p, 0 b";
    assert!(matches!(
        parse_line(line),
        Parsed::Stats { pid: 4294967295, ltr: false, packets: u64::MAX, bytes: 0 }
    ));
}

#[test]
fn every_report_is_read() {
    for pid in [0u32, 1, 75527, u32::MAX] {
        for ltr in [true, false] {
            for (packets, bytes) in [(0u64, 0u64), (1, 5000), (u64::MAX, 10)] {
                let way = if ltr { "left to right" } else { "right to left" };
                let line = format!(
                    "2026/09/23 16:41:03 socat[{pid}] I STATISTICS: {way}: {packets} packets(s), {bytes} byte(s)"
                );
                match parse_line(&line) {
                    Parsed::Stats { pid: a, ltr: b, packets: c, bytes: d } => {
                        assert_eq!((a, b, c, d), (pid, ltr, packets, bytes));
                    }
                    _ => panic!("expected stats"),
                }
            }
        }
    }
}

#[test]
fn counters_add_up() {
    let mut c = Counters { ltr_packets: 1, ltr_bytes: 2, rtl_packets: 3, rtl_bytes: 4 };
    c.add(&Counters { ltr_packets: 10, ltr_bytes: 20, rtl_packets: 30, rtl_bytes: 40 });
    let want = Counters { ltr_packets: 11, ltr_bytes: 22, rtl_packets: 33, rtl_bytes: 44 };
    assert_eq!(c, want);
    let full = Counters { ltr_packets: 0, ltr_bytes: 0, rtl_packets: 0, rtl_bytes: u64::MAX };
    assert_eq!(c.checked_sum(&full), None);
    assert_eq!(Counters::default().checked_sum(&full), Some(full));
}
