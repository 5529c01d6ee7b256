use run_info::error::SampleError;
use run_info::meminfo::MemInfo;

const MEM_TEXT: &str = "MemTotal:       16384000 kB\n\
MemFree:         4096000 kB\n\
MemAvailable:    8192000 kB\n\
Cached:          2048000 kB\n\
SwapCached:            0 kB\n\
SwapTotal:       1024000 kB\n\
SwapFree:         768000 kB\n\
HugePages_Total:       0\n";

#[test]
fn new_record_is_all_zero() {
    let mem = MemInfo::new();
    assert_eq!(mem.total, 0);
    assert_eq!(mem.used, 0);
    assert_eq!(mem.swap_used, 0);
}

#[test]
fn update_parses_and_derives_the_amounts() {
    let mut mem = MemInfo::new();
    mem.update(MEM_TEXT.as_bytes()).unwrap();
    // Values with a unit field are kibibytes, scaled to bytes.
    assert_eq!(mem.total, 16384000 * 1024);
    assert_eq!(mem.free, 4096000 * 1024);
    assert_eq!(mem.cached, 2048000 * 1024);
    assert_eq!(mem.used, (16384000 - 4096000 - 2048000) * 1024);
    assert_eq!(mem.swap_total, 1024000 * 1024);
    assert_eq!(mem.swap_free, 768000 * 1024);
    assert_eq!(mem.swap_used, (1024000 - 768000) * 1024);
}

#[test]
fn missing_counter_is_malformed() {
    let text = "MemTotal: 100 kB\nMemFree: 10 kB\nSwapTotal: 50 kB\nSwapFree: 20 kB\n";
    let mut mem = MemInfo::new();
    let r = mem.update(text.as_bytes());
    assert_eq!(r, Err(SampleError::MalformedSource));
}

#[test]
fn non_numeric_value_is_malformed() {
    let text = "MemTotal: lots kB\nMemFree: 10 kB\nCached: 5 kB\nSwapTotal: 50 kB\nSwapFree: 20 kB\n";
    let mut mem = MemInfo::new();
    let r = mem.update(text.as_bytes());
    assert_eq!(r, Err(SampleError::MalformedSource));
}

#[test]
fn failed_update_leaves_the_record_unchanged() {
    let mut mem = MemInfo::new();
    mem.update(MEM_TEXT.as_bytes()).unwrap();
    let r = mem.update(b"MemTotal: broken kB\n");
    assert!(r.is_err());
    assert_eq!(mem.total, 16384000 * 1024);
    assert_eq!(mem.swap_used, 256000 * 1024);
}

#[test]
fn more_used_than_present_is_malformed() {
    let text = "MemTotal: 100 kB\nMemFree: 80 kB\nCached: 30 kB\nSwapTotal: 50 kB\nSwapFree: 20 kB\n";
    let mut mem = MemInfo::new();
    let r = mem.update(text.as_bytes());
    assert_eq!(r, Err(SampleError::MalformedSource));
}

#[test]
fn value_without_unit_field_is_taken_as_bytes() {
    let text = "MemTotal: 1000\nMemFree: 100\nCached: 50\nSwapTotal: 0\nSwapFree: 0\n";
    let mut mem = MemInfo::new();
    mem.update(text.as_bytes()).unwrap();
    assert_eq!(mem.total, 1000);
    assert_eq!(mem.used, 850);
    assert_eq!(mem.swap_used, 0);
}

#[test]
fn last_duplicate_key_wins() {
    let text = "MemTotal: 500\nMemTotal: 1000\nMemFree: 100\nCached: 50\nSwapTotal: 0\nSwapFree: 0\n";
    let mut mem = MemInfo::new();
    mem.update(text.as_bytes()).unwrap();
    assert_eq!(mem.total, 1000);
}

#[test]
fn read_mem_lists_every_line() {
    let entries = MemInfo::read_mem(b"MemTotal: 2 kB\nEmptyKey:\n").unwrap();
    assert_eq!(entries.len(), 2);
    assert_eq!(entries[0].name, b"MemTotal:".to_vec());
    assert_eq!(entries[0].value, 2048);
    assert_eq!(entries[1].name, b"EmptyKey:".to_vec());
    assert_eq!(entries[1].value, 0);
}
