use socatui::procs::{has_finite_tree, is_socat, snapshot, socat_tree};

fn table(rows: &[(u32, u32, &str)]) -> String {
    rows.iter().map(|(p, q, c)| format!("{p:>6} {q:>6} {c}\n")).collect()
}

#[test]
fn snapshots_are_read() {
    let procs = snapshot("    1     0 /sbin/init splash\n 77\t1  socat\n\nbad 1 x\n8\n9 10\n+11 12 a  b\n");
    let got: Vec<(u32, u32, &str)> =
        procs.iter().map(|p| (p.pid, p.ppid, p.comm.as_str())).collect();
    assert_eq!(
        got,
        [(1, 0, "/sbin/init splash"), (77, 1, "socat"), (9, 10, ""), (11, 12, "a b")]
    );
    assert!(snapshot("").is_empty());
    assert!(snapshot("4294967296 1 x").is_empty());
}

#[test]
fn socat_commands() {
    for comm in ["socat", "/usr/bin/socat", "socat1", "/a/socat-1.8"] {
        assert!(is_socat(comm), "{comm}");
    }
    for comm in ["", "cat", "/usr/socat/cat", "xsocat", "soca", "socat/"] {
        assert!(!is_socat(comm), "{comm}");
    }
}

#[test]
fn trees_are_breadth_first() {
    let procs = snapshot(&table(&[
        (4, 2, "socat"),
        (2, 1, "socat"),
        (3, 1, "socat"),
        (5, 3, "sh"),
        (6, 5, "socat"),
        (7, 9, "socat"),
    ]));
    assert_eq!(socat_tree(&procs, 1), [1, 2, 3, 4, 6]);
    assert_eq!(socat_tree(&procs, 5), [5, 6]);
    assert_eq!(socat_tree(&procs, 8), [8]);
    assert_eq!(socat_tree(&[], 8), [8]);
}

#[test]
fn only_socat_processes_are_in_a_tree() {
    let procs = snapshot(&table(&[(2, 1, "bash"), (3, 2, "sleep"), (4, 3, "socat")]));
    assert_eq!(socat_tree(&procs, 1), [1, 4]);
}

#[test]
fn cycles_are_found() {
    let procs = snapshot(&table(&[(2, 1, "a"), (3, 2, "b"), (2, 3, "c"), (9, 8, "d")]));
    assert!(!has_finite_tree(&procs, 1));
    assert!(!has_finite_tree(&procs, 2));
    assert!(has_finite_tree(&procs, 8));
    assert!(has_finite_tree(&procs, 9));
    let own = snapshot(&table(&[(5, 5, "a")]));
    assert!(!has_finite_tree(&own, 5));
    assert!(has_finite_tree(&own, 1));
    assert!(has_finite_tree(&[], 1));
}
