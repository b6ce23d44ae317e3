use sysfetch::meminfo::{fast_parse_meminfo, memory_from_sysinfo};
use sysfetch::scan::{matches_at, parse_number_after, scan_fields};

fn meminfo_patterns() -> Vec<Vec<u8>> {
    vec![
        b"MemTotal:".to_vec(),
        b"MemFree:".to_vec(),
        b"Buffers:".to_vec(),
        b"Cached:".to_vec(),
        b"SReclaimable:".to_vec(),
        b"Shmem:".to_vec(),
    ]
}

fn meminfo_line_start() -> Vec<bool> {
    vec![false, false, false, true, false, false]
}

#[test]
fn matches_at_prefix() {
    assert!(matches_at(b"MemTotal: 5", b"MemTotal:"));
    assert!(!matches_at(b"MemTotal: 5", b"MemFree:"));
    assert!(!matches_at(b"Mem", b"MemTotal:"));
    assert!(matches_at(b"anything", b""));
}

#[test]
fn parse_number_basic() {
    assert_eq!(parse_number_after(b"Label: \t 123 kB", 6), Some((123, 12)));
    assert_eq!(parse_number_after(b"Label: abc", 6), None);
    assert_eq!(parse_number_after(b"", 0), None);
    assert_eq!(parse_number_after(b"7", 0), Some((7, 1)));
    assert_eq!(parse_number_after(b"12", 5), None);
}

#[test]
fn parse_number_wraps_like_the_accumulator() {
    // twenty nines exceed a u64; the accumulation wraps modulo 2^64
    let r = parse_number_after(b"99999999999999999999", 0);
    assert_eq!(r, Some((7766279631452241919, 20)));
}

#[test]
fn memory_formula_values() {
    let buf = b"MemTotal:       16000000 kB\nMemFree:        8000000 kB\nBuffers:         200000 kB\nCached:         1000000 kB\nSwapCached:           0 kB\nSReclaimable:    300000 kB\nShmem:           500000 kB\n";
    let (used, total) = fast_parse_meminfo(buf);
    assert_eq!(
        used,
        (16000000u64 - 8000000 - 200000 - 1000000 - 300000 + 500000) * 1024
    );
    assert_eq!(used, 7168000000);
    assert_eq!(total, 16000000 * 1024);
}

#[test]
fn scanner_is_stateless() {
    let buf = b"MemTotal: 100 kB\nMemFree: 40 kB\nBuffers: 5 kB\nCached: 10 kB\nSReclaimable: 3 kB\nShmem: 2 kB\n";
    let first = fast_parse_meminfo(buf);
    let second = fast_parse_meminfo(buf);
    assert_eq!(first, second);
    let f1 = scan_fields(buf, &meminfo_patterns(), &meminfo_line_start());
    let f2 = scan_fields(buf, &meminfo_patterns(), &meminfo_line_start());
    assert_eq!(f1, f2);
    assert_eq!(f1, vec![100, 40, 5, 10, 3, 2]);
}

#[test]
fn cached_must_start_a_line() {
    // After the first parsed number the scanner stands mid-line right at
    // a "Cached:" label; that occurrence must be skipped.
    let buf = b"MemTotal: 3Cached: 9\nCached: 5\n";
    let fields = scan_fields(buf, &meminfo_patterns(), &meminfo_line_start());
    assert_eq!(fields, vec![3, 0, 0, 5, 0, 0]);
    let (used, total) = fast_parse_meminfo(buf);
    assert_eq!(total, 3 * 1024);
    // free + buffers + cached exceeds the total, so used clamps to zero
    assert_eq!(used, 0);
}

#[test]
fn swap_cached_does_not_feed_cached() {
    let buf =
        b"MemTotal: 50 kB\nSwapCached: 77 kB\nCached: 5 kB\nMemFree: 1 kB\nBuffers: 1 kB\nSReclaimable: 1 kB\nShmem: 1 kB\n";
    let fields = scan_fields(buf, &meminfo_patterns(), &meminfo_line_start());
    assert_eq!(fields, vec![50, 1, 1, 5, 1, 1]);
}

#[test]
fn missing_fields_stay_zero() {
    let (used, total) = fast_parse_meminfo(b"nothing to see here\n");
    assert_eq!((used, total), (0, 0));
    let (used2, total2) = fast_parse_meminfo(b"MemFree: 10 kB\n");
    // without MemTotal the parse reads as failed: total stays zero
    assert_eq!(total2, 0);
    assert_eq!(used2, 0);
}

#[test]
fn sysinfo_fallback_memory() {
    let (used, total) = memory_from_sysinfo(1000, 400, 4096);
    assert_eq!(total, 4096000);
    assert_eq!(used, (1000 - 400) * 4096);
}
