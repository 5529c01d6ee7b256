use run_info::cpuinfo::{CPUInfo, CPULoad};
use run_info::error::SampleError;

const STAT_TEXT: &str = "cpu  863 217 550 16041 113 0 23 0 0 0\n\
cpu0 431 105 280 8020 60 0 11 0 0 0\n\
cpu1 432 112 270 8021 53 0 12 0 0 0\n\
intr 1462898 33 0 0\n\
ctxt 3087928\n\
btime 1473317900\n\
processes 5981\n\
procs_running 3\n\
procs_blocked 0\n";

#[test]
fn new_snapshot_is_empty() {
    let info = CPUInfo::new();
    assert_eq!(info.cores, 0);
    assert!(info.cores_load.is_empty());
    assert_eq!(info.total_load, CPULoad { busy: 0, idle: 0 });
    assert_eq!(info.processes, 0);
}

#[test]
fn update_parses_cores_totals_and_processes() {
    let mut info = CPUInfo::new();
    let r = info.update(STAT_TEXT.as_bytes());
    assert!(r.is_ok());
    // The aggregate "cpu " row is excluded; two per-core rows remain.
    assert_eq!(info.cores, 2);
    assert_eq!(info.cores_load.len(), 2);
    // busy is user + nice + system, idle is the fourth counter.
    assert_eq!(info.cores_load[0], CPULoad { busy: 431 + 105 + 280, idle: 8020 });
    assert_eq!(info.cores_load[1], CPULoad { busy: 432 + 112 + 270, idle: 8021 });
    // The aggregate is recomputed as the sum of the per-core loads.
    assert_eq!(info.total_load, CPULoad { busy: 1630, idle: 16041 });
    assert_eq!(info.processes, 3);
}

#[test]
fn update_replaces_the_previous_contents() {
    let mut info = CPUInfo::new();
    info.update(STAT_TEXT.as_bytes()).unwrap();
    info.update(STAT_TEXT.as_bytes()).unwrap();
    assert_eq!(info.cores, 2);
    assert_eq!(info.cores_load.len(), 2);
}

#[test]
fn core_line_with_three_fields_is_malformed() {
    let text = "cpu0 431 105\nprocs_running 3\n";
    let mut info = CPUInfo::new();
    let r = info.update(text.as_bytes());
    assert_eq!(r, Err(SampleError::MalformedSource));
}

#[test]
fn non_numeric_core_counter_is_malformed() {
    let text = "cpu0 431 x05 280 8020 60\nprocs_running 3\n";
    let mut info = CPUInfo::new();
    let r = info.update(text.as_bytes());
    assert_eq!(r, Err(SampleError::MalformedSource));
}

#[test]
fn missing_process_count_is_malformed() {
    let text = "cpu  863 217 550 16041\ncpu0 431 105 280 8020 60\n";
    let mut info = CPUInfo::new();
    let r = info.update(text.as_bytes());
    assert_eq!(r, Err(SampleError::MalformedSource));
}

#[test]
fn non_numeric_process_count_is_malformed() {
    let text = "cpu0 431 105 280 8020 60\nprocs_running three\n";
    let mut info = CPUInfo::new();
    let r = info.update(text.as_bytes());
    assert_eq!(r, Err(SampleError::MalformedSource));
}

#[test]
fn oversized_counter_is_malformed() {
    let text = "cpu0 99999999999999999999 105 280 8020 60\nprocs_running 3\n";
    let mut info = CPUInfo::new();
    let r = info.update(text.as_bytes());
    assert_eq!(r, Err(SampleError::MalformedSource));
}

#[test]
fn failed_update_leaves_the_snapshot_unchanged() {
    let mut info = CPUInfo::new();
    info.update(STAT_TEXT.as_bytes()).unwrap();
    let r = info.update(b"cpu0 1 2\nprocs_running 3\n");
    assert!(r.is_err());
    assert_eq!(info.cores, 2);
    assert_eq!(info.total_load, CPULoad { busy: 1630, idle: 16041 });
    assert_eq!(info.processes, 3);
}

#[test]
fn last_process_count_line_wins() {
    let text = "cpu0 1 2 3 4 5\nprocs_running 3\nprocs_running 7\n";
    let mut info = CPUInfo::new();
    info.update(text.as_bytes()).unwrap();
    assert_eq!(info.processes, 7);
}

#[test]
fn error_kinds_are_distinguishable() {
    // The caller decides differently for an unreadable source and for a
    // readable one of unexpected shape, so the two kinds must not collapse.
    assert_ne!(SampleError::SourceUnavailable, SampleError::MalformedSource);
    let kind = SampleError::SourceUnavailable;
    assert!(matches!(kind, SampleError::SourceUnavailable));
}

#[test]
fn extra_fields_and_blank_lines_are_tolerated() {
    let text = "\ncpu0   9   1   0   5   0 0 0 extra\n\nprocs_running 1 trailing\n";
    let mut info = CPUInfo::new();
    info.update(text.as_bytes()).unwrap();
    assert_eq!(info.cores, 1);
    assert_eq!(info.cores_load[0], CPULoad { busy: 10, idle: 5 });
    assert_eq!(info.processes, 1);
}
