use socatui::units::{human_bytes, human_duration, human_rate};

fn by_floats(b: u64) -> String {
    let units = ["B", "KiB", "MiB", "GiB", "TiB", "PiB"];
    if b < 1024 {
        return format!("{b} B");
    }
    let mut v = b as f64;
    let mut i = 0;
    while v >= 1024.0 && i < units.len() - 1 {
        v /= 1024.0;
        i += 1;
    }
    if v >= 100.0 {
        format!("{v:.0} {}", units[i])
    } else {
        format!("{v:.1} {}", units[i])
    }
}

#[test]
fn amounts_of_bytes() {
    assert_eq!(human_bytes(0), "0 B");
    assert_eq!(human_bytes(1023), "1023 B");
    assert_eq!(human_bytes(1024), "1.0 KiB");
    assert_eq!(human_bytes(1536), "1.5 KiB");
    assert_eq!(human_bytes(830 * 1024), "830 KiB");
    assert_eq!(human_bytes(1 << 20), "1.0 MiB");
    assert_eq!(human_bytes(3 << 30), "3.0 GiB");
    assert_eq!(human_bytes(5 << 40), "5.0 TiB");
    assert_eq!(human_bytes(7 << 50), "7.0 PiB");
    assert_eq!(human_bytes(u64::MAX), "16384 PiB");
}

#[test]
fn amounts_agree_with_floating_point() {
    let mut cases: Vec<u64> = Vec::new();
    for shift in 10..64 {
        let b = 1u64 << shift;
        for d in 0..6 {
            cases.push(b - d);
            cases.push(b + d);
        }
        // ties between two tenths, and between two whole units
        cases.push(b + b / 4);
        cases.push(b + b / 20);
        cases.push((b + b / 4 + b / 40).wrapping_add(1));
    }
    for unit in [1u64 << 10, 1 << 20, 1 << 30, 1 << 40, 1 << 50] {
        for n in 0..1100u64 {
            cases.push(n.saturating_mul(unit).saturating_add(unit / 2));
            cases.push(n.saturating_mul(unit).saturating_add(unit / 4));
            cases.push(n.saturating_mul(unit).saturating_add(unit / 20));
        }
        for n in 1000..1024u64 {
            cases.push(unit * (n / 10) + unit / 4 * 3);
        }
    }
    let mut x: u64 = 88172645463325252;
    for _ in 0..20000 {
        x ^= x << 13;
        x ^= x >> 7;
        x ^= x << 17;
        cases.push(x);
        cases.push(x >> (x % 54));
    }
    for b in cases {
        assert_eq!(human_bytes(b), by_floats(b), "{b}");
    }
}

#[test]
fn rates() {
    assert_eq!(human_rate(0), "0 B/s");
    assert_eq!(human_rate(1), "1 B/s");
    assert_eq!(human_rate(418 * 1024), "418 KiB/s");
}

#[test]
fn durations() {
    assert_eq!(human_duration(0), "0s");
    assert_eq!(human_duration(59), "59s");
    assert_eq!(human_duration(60), "1m00s");
    assert_eq!(human_duration(61), "1m01s");
    assert_eq!(human_duration(3599), "59m59s");
    assert_eq!(human_duration(3600), "1h00m00s");
    assert_eq!(human_duration(3661), "1h01m01s");
    assert_eq!(human_duration(360000 + 59), "100h00m59s");
}
