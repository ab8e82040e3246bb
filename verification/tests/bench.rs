use trust_eval::bench::{record_cycle, sample_total_ns};

#[test]
fn measured_cycles_are_recorded() {
    let mut samples = vec![5u64];
    assert_eq!(record_cycle(&mut samples, true, 0, true, 7), Ok(()));
    assert_eq!(samples, vec![5, 7]);
    // warm-up cycles are not recorded
    assert_eq!(record_cycle(&mut samples, false, 1, true, 9), Ok(()));
    assert_eq!(samples, vec![5, 7]);
}

#[test]
fn a_cycle_with_errors_stops_the_run() {
    let mut samples = vec![5u64];
    assert_eq!(record_cycle(&mut samples, true, 3, false, 7), Err(3));
    assert_eq!(samples, vec![5]);
}

#[test]
fn sample_totals_do_not_overflow() {
    assert_eq!(sample_total_ns(&vec![]), 0);
    assert_eq!(sample_total_ns(&vec![1, 2, 3]), 6);
    assert_eq!(
        sample_total_ns(&vec![u64::MAX, u64::MAX]),
        2 * (u64::MAX as u128)
    );
}
