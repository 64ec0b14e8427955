use localsearch::{AcceptanceCounter, AcceptanceRatio};

#[test]
fn empty_counter_has_no_samples() {
    let counter = AcceptanceCounter::new(5);
    assert_eq!(counter.acceptance_ratio(), AcceptanceRatio { accepted: 0, samples: 0 });
}

#[test]
fn counter_counts_while_filling() {
    let mut counter = AcceptanceCounter::new(4);
    counter.enqueue(true);
    counter.enqueue(false);
    counter.enqueue(true);
    assert_eq!(counter.acceptance_ratio(), AcceptanceRatio { accepted: 2, samples: 3 });
}

#[test]
fn counter_evicts_the_oldest_outcome() {
    let mut counter = AcceptanceCounter::new(3);
    for accepted in [true, true, false, false] {
        counter.enqueue(accepted);
    }
    // the window holds the last three outcomes: true, false, false
    assert_eq!(counter.acceptance_ratio(), AcceptanceRatio { accepted: 1, samples: 3 });
    counter.enqueue(false);
    assert_eq!(counter.acceptance_ratio(), AcceptanceRatio { accepted: 0, samples: 3 });
    counter.enqueue(true);
    assert_eq!(counter.acceptance_ratio(), AcceptanceRatio { accepted: 1, samples: 3 });
}

#[test]
fn counter_ratio_is_fraction_of_last_min_n_w() {
    let history = [true, false, true, true, false, true, false, false, true, true, true];
    for window in 0usize..=12 {
        let mut counter = AcceptanceCounter::new(window);
        for (n, accepted) in history.iter().enumerate() {
            counter.enqueue(*accepted);
            let kept = (n + 1).min(window);
            let expected = history[n + 1 - kept..=n].iter().filter(|a| **a).count();
            assert_eq!(
                counter.acceptance_ratio(),
                AcceptanceRatio { accepted: expected, samples: kept }
            );
        }
    }
}

#[test]
fn counter_of_window_zero_stays_empty() {
    let mut counter = AcceptanceCounter::new(0);
    counter.enqueue(true);
    counter.enqueue(true);
    assert_eq!(counter.acceptance_ratio(), AcceptanceRatio { accepted: 0, samples: 0 });
}

#[test]
fn default_counter_has_window_of_one_hundred() {
    let mut counter = AcceptanceCounter::default();
    for _ in 0..150 {
        counter.enqueue(true);
    }
    assert_eq!(counter.acceptance_ratio(), AcceptanceRatio { accepted: 100, samples: 100 });
}
