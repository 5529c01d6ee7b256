use run_info::cpuinfo::{CPUInfo, CPULoad};

fn snapshot(per_core: Vec<(u64, u64)>, processes: usize) -> CPUInfo {
    let cores_load: Vec<CPULoad> = per_core
        .iter()
        .map(|&(busy, idle)| CPULoad { busy, idle })
        .collect();
    let total_load = CPULoad {
        busy: cores_load.iter().map(|c| c.busy).sum(),
        idle: cores_load.iter().map(|c| c.idle).sum(),
    };
    CPUInfo {
        cores: cores_load.len(),
        cores_load,
        total_load,
        processes,
    }
}

#[test]
fn aggregate_delta_is_sum_of_core_deltas() {
    let old = snapshot(vec![(100, 200), (50, 70)], 4);
    let new = snapshot(vec![(160, 230), (90, 100)], 6);
    let mut delta = CPUInfo::new();
    let degraded = CPUInfo::calculate_delta(&mut delta, &old, &new);
    assert!(!degraded);
    let core_busy_sum: u64 = delta.cores_load.iter().map(|c| c.busy).sum();
    let core_idle_sum: u64 = delta.cores_load.iter().map(|c| c.idle).sum();
    assert_eq!(delta.total_load.busy, core_busy_sum);
    assert_eq!(delta.total_load.idle, core_idle_sum);
    assert_eq!(delta.total_load.busy, 100);
    assert_eq!(delta.total_load.idle, 60);
}

#[test]
fn delta_copies_core_count_and_processes_from_new() {
    let old = snapshot(vec![(10, 10)], 17);
    let new = snapshot(vec![(20, 20)], 23);
    let mut delta = CPUInfo::new();
    CPUInfo::calculate_delta(&mut delta, &old, &new);
    assert_eq!(delta.cores, 1);
    assert_eq!(delta.processes, 23);
}

#[test]
fn hot_plugged_core_is_taken_as_fresh_baseline() {
    let old = snapshot(vec![(100, 200), (50, 70)], 4);
    let new = snapshot(vec![(150, 260), (80, 90), (33, 44)], 4);
    let mut delta = CPUInfo::new();
    let degraded = CPUInfo::calculate_delta(&mut delta, &old, &new);
    assert!(!degraded);
    assert_eq!(delta.cores, 3);
    assert_eq!(delta.cores_load.len(), 3);
    assert_eq!(delta.cores_load[0], CPULoad { busy: 50, idle: 60 });
    assert_eq!(delta.cores_load[1], CPULoad { busy: 30, idle: 20 });
    assert_eq!(delta.cores_load[2], CPULoad { busy: 33, idle: 44 });
}

#[test]
fn removed_cores_are_dropped_from_the_delta() {
    let old = snapshot(vec![(10, 10), (20, 20), (30, 30), (40, 40)], 4);
    let new = snapshot(vec![(15, 12), (25, 22)], 4);
    let mut delta = CPUInfo::new();
    CPUInfo::calculate_delta(&mut delta, &old, &new);
    assert_eq!(delta.cores, 2);
    assert_eq!(delta.cores_load.len(), 2);
    assert_eq!(delta.cores_load[0], CPULoad { busy: 5, idle: 2 });
    assert_eq!(delta.cores_load[1], CPULoad { busy: 5, idle: 2 });
}

#[test]
fn counter_regression_clamps_to_zero_and_marks_degraded() {
    let old = snapshot(vec![(100, 50)], 2);
    let new = snapshot(vec![(90, 60)], 2);
    assert_eq!(old.total_load.busy, 100);
    assert_eq!(new.total_load.busy, 90);
    let mut delta = CPUInfo::new();
    let degraded = CPUInfo::calculate_delta(&mut delta, &old, &new);
    assert!(degraded);
    assert_eq!(delta.total_load.busy, 0);
    assert_eq!(delta.total_load.idle, 10);
    assert_eq!(delta.cores_load[0], CPULoad { busy: 0, idle: 10 });
}

#[test]
fn per_core_regression_alone_marks_degraded() {
    // The aggregates grow, but one core's idle counter runs backwards.
    let old = snapshot(vec![(10, 30), (10, 10)], 1);
    let new = snapshot(vec![(30, 25), (15, 40)], 1);
    let mut delta = CPUInfo::new();
    let degraded = CPUInfo::calculate_delta(&mut delta, &old, &new);
    assert!(degraded);
    assert_eq!(delta.cores_load[0], CPULoad { busy: 20, idle: 0 });
    assert_eq!(delta.cores_load[1], CPULoad { busy: 5, idle: 30 });
}
