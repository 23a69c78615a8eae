use rushsocket::util::{count_prefixed_lines, cpu_ms, kb_to_bytes, proc_field_value, stat_cpu_ticks, status_value};

#[test]
fn proc_fields() {
    let status = "Name:\tcat\nVmPeak:\t  10 kB\nVmRSS:\t    5120 kB\n";
    assert_eq!(proc_field_value(status, "VmRSS:"), Some(5120));
    assert_eq!(proc_field_value(status, "VmPeak:"), Some(10));
    assert_eq!(proc_field_value(status, "VmSwap:"), None);
    assert_eq!(proc_field_value("MemTotal: 16000000 kB\r\n", "MemTotal:"), Some(16000000));
    // a matching line without a value is passed over
    assert_eq!(proc_field_value("X:\nX: 7\n", "X:"), Some(7));
    // the first line with a value decides, even when it does not parse
    assert_eq!(proc_field_value("X: abc\nX: 7\n", "X:"), None);
    assert_eq!(proc_field_value("X: +42", "X:"), Some(42));
    assert_eq!(proc_field_value("X: -1", "X:"), None);
    assert_eq!(proc_field_value("X: 18446744073709551615", "X:"), Some(u64::MAX));
    assert_eq!(proc_field_value("X: 18446744073709551616", "X:"), None);
    assert_eq!(proc_field_value("", "X:"), None);
    assert_eq!(proc_field_value("  X: 1", "X:"), None);
    // the field is a prefix of the line, not its first word
    assert_eq!(proc_field_value("X:Y 3", "X:"), Some(3));
}

#[test]
fn status_values() {
    let status = "Threads:\t4\nVmRSS: 100 kB\nVmRSS: bad kB\nvoluntary_ctxt_switches:\t12\n";
    assert_eq!(status_value(status, "Threads:"), Some(4));
    // the last line with a number wins; lines whose value does not parse are passed over
    assert_eq!(status_value(status, "VmRSS:"), Some(100));
    assert_eq!(status_value("A: 1\nA: 2\n", "A:"), Some(2));
    // the key is the whole first word
    assert_eq!(status_value("A:B 1\n", "A:"), None);
    assert_eq!(status_value("  A:   9", "A:"), Some(9));
    assert_eq!(status_value("A:\n", "A:"), None);
}

#[test]
fn cpu_counts() {
    let cpuinfo = "processor\t: 0\nmodel name\t: x\n\nprocessor\t: 1\nflags: processor\n";
    assert_eq!(count_prefixed_lines(cpuinfo, "processor"), 2);
    assert_eq!(count_prefixed_lines("", "processor"), 0);
}

#[test]
fn stat_ticks() {
    let stat = "42 (my (odd) name) S 1 42 42 0 -1 4194560 100 0 0 0 250 75 0 0 20 0 4 0 1000";
    assert_eq!(stat_cpu_ticks(stat), Some(Some((250, 75))));
    assert_eq!(stat_cpu_ticks("no parens here"), None);
    assert_eq!(stat_cpu_ticks("1 (x) S 1 2"), Some(None));
    assert_eq!(cpu_ms(250, 75), (2500, 750, 3250));
}

#[test]
fn kibibytes_in_bytes() {
    assert_eq!(kb_to_bytes(5120), 5_242_880);
    assert_eq!(kb_to_bytes(0), 0);
}
