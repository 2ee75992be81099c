use ange_synthesizer::firing::tabulated_phases;
use ange_synthesizer::telemetry::{SharedEngineState, MAX_CYLINDERS};

#[test]
fn shared_state_starts_with_the_words_of_its_numbers() {
    let state = SharedEngineState::new();
    assert_eq!(state.throttle, 0f64.to_bits());
    assert_eq!(state.rpm, 0f64.to_bits());
    assert_eq!(state.cylinders, 8);
    assert_eq!(state.displacement, 1.0f64.to_bits());
    for i in 0..MAX_CYLINDERS {
        assert_eq!(state.pressures[i], 101325.0f64.to_bits());
        assert_eq!(state.exhaust_flows[i], 0f64.to_bits());
        assert_eq!(state.intake_flows[i], 0f64.to_bits());
    }
}

#[test]
fn firing_tables_hold_the_known_orders() {
    assert_eq!(tabulated_phases(4), vec![0, 3000, 1000, 2000]);
    assert_eq!(tabulated_phases(6), vec![0, 3333, 1333, 2666, 666, 2000]);
    assert_eq!(tabulated_phases(8), vec![0, 3500, 1500, 1000, 2500, 2000, 3000, 500]);
    assert_eq!(
        tabulated_phases(10),
        vec![0, 3600, 1600, 1200, 2800, 2000, 3200, 2400, 800, 400]
    );
    assert_eq!(
        tabulated_phases(12),
        vec![0, 3666, 1333, 2333, 666, 3000, 1666, 2666, 333, 2000, 1000, 3333]
    );
}

#[test]
fn other_counts_have_no_table() {
    for n in [0usize, 1, 2, 3, 5, 7, 9, 11, 13, 14, 15, 16, 17, 100] {
        assert!(tabulated_phases(n).is_empty());
    }
}

#[test]
fn firing_tables_visit_every_even_point_once() {
    for n in [4u64, 6, 8, 10, 12] {
        let mut table = tabulated_phases(n as usize);
        table.sort();
        let points: Vec<u64> = (0..n).map(|k| 4000 * k / n).collect();
        assert_eq!(table, points);
    }
}
