use run_info::cpuinfo::{CPUInfo, CPULoad};
use run_info::ratio::{calc_cpu_load_percentage, Ratio};

#[test]
fn idle_load_has_ratio_zero() {
    // busy = idle = 0 must give exactly zero, not a division error.
    let r = calc_cpu_load_percentage(&CPULoad { busy: 0, idle: 0 });
    assert_eq!(r, Ratio { num: 0, den: 1 });
    assert_eq!(r.scaled(10), 0);
    assert_eq!(r.scaled(usize::MAX), 0);
    let r = calc_cpu_load_percentage(&CPULoad { busy: 0, idle: 12345 });
    assert_eq!(r.scaled(1000), 0);
}

#[test]
fn ratio_never_leaves_the_unit_interval() {
    let samples = [
        (0, 0),
        (1, 0),
        (0, 1),
        (7, 3),
        (u64::MAX, u64::MAX),
        (u64::MAX, 0),
        (1, u64::MAX),
    ];
    for &(busy, idle) in samples.iter() {
        let r = calc_cpu_load_percentage(&CPULoad { busy, idle });
        // Scaling by any maximum stays within it, so the ratio is in [0, 1].
        assert!(r.scaled(1) <= 1);
        assert!(r.scaled(1000) <= 1000);
    }
}

#[test]
fn fully_busy_load_has_ratio_one() {
    let r = calc_cpu_load_percentage(&CPULoad { busy: 42, idle: 0 });
    assert_eq!(r, Ratio { num: 42, den: 42 });
    assert_eq!(r.scaled(10), 10);
}

#[test]
fn end_to_end_delta_yields_ratio_two_fifths() {
    let old = CPUInfo {
        cores: 0,
        cores_load: Vec::new(),
        total_load: CPULoad { busy: 1000, idle: 9000 },
        processes: 0,
    };
    let new = CPUInfo {
        cores: 0,
        cores_load: Vec::new(),
        total_load: CPULoad { busy: 1200, idle: 9300 },
        processes: 0,
    };
    let mut delta = CPUInfo::new();
    let degraded = CPUInfo::calculate_delta(&mut delta, &old, &new);
    assert!(!degraded);
    assert_eq!(delta.total_load, CPULoad { busy: 200, idle: 300 });
    let r = calc_cpu_load_percentage(&delta.total_load);
    assert_eq!(r, Ratio { num: 200, den: 500 });
    // 200 / 500 == 0.4 exactly.
    assert_eq!(r.scaled(1000), 400);
    assert_eq!(r.scaled(10), 4);
}

#[test]
fn scaling_truncates_downward() {
    let r = calc_cpu_load_percentage(&CPULoad { busy: 1, idle: 2 });
    // 1/3 of 10 is 3.33..., floored to 3.
    assert_eq!(r.scaled(10), 3);
    assert_eq!(r.scaled(3), 1);
    assert_eq!(r.scaled(0), 0);
}
