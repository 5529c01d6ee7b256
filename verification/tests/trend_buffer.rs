use run_info::cpuinfo::CPULoad;
use run_info::graph::{Graph, GRAPH_SIZE};
use run_info::ratio::calc_cpu_load_percentage;

#[test]
fn new_window_is_full_of_zeros() {
    let g = Graph::new();
    let heights = g.height_values(10);
    assert_eq!(heights.len(), GRAPH_SIZE);
    assert!(heights.iter().all(|&h| h == 0));
}

#[test]
fn window_keeps_the_last_capacity_pushes_in_order() {
    let mut g = Graph::new();
    // Push GRAPH_SIZE + 9 distinct ratios i/100; the heights against a
    // maximum of 100 recover i exactly.
    let extra = 9;
    for i in 1..=(GRAPH_SIZE + extra) {
        let load = CPULoad { busy: i as u64, idle: 100 - i as u64 };
        g.push(calc_cpu_load_percentage(&load));
    }
    let heights = g.height_values(100);
    assert_eq!(heights.len(), GRAPH_SIZE);
    for j in 0..GRAPH_SIZE {
        assert_eq!(heights[j], extra + 1 + j);
    }
}

#[test]
fn each_push_evicts_the_oldest_value() {
    let mut g = Graph::new();
    g.push(calc_cpu_load_percentage(&CPULoad { busy: 1, idle: 1 }));
    let heights = g.height_values(10);
    // Fifty zero slots remain, the newest slot shows 1/2 scaled to 5.
    assert!(heights[..GRAPH_SIZE - 1].iter().all(|&h| h == 0));
    assert_eq!(heights[GRAPH_SIZE - 1], 5);
}

#[test]
fn height_values_is_idempotent_and_bounded() {
    let mut g = Graph::new();
    g.push(calc_cpu_load_percentage(&CPULoad { busy: 3, idle: 1 }));
    g.push(calc_cpu_load_percentage(&CPULoad { busy: 5, idle: 0 }));
    let first = g.height_values(8);
    let second = g.height_values(8);
    assert_eq!(first, second);
    assert!(first.iter().all(|&h| h <= 8));
    // A fully busy interval reaches the maximum height exactly.
    assert_eq!(first[GRAPH_SIZE - 1], 8);
    // 3/4 of the maximum, floored.
    assert_eq!(first[GRAPH_SIZE - 2], 6);
}
