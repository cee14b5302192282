use transfer_scan::locator::{locate, Locator, LocatorStep};

/// The first block whose time is `target` or later, or the last block.
fn first_at_or_after(times: &[i64], target: i64) -> u64 {
    for (number, time) in times.iter().enumerate() {
        if *time >= target {
            return number as u64;
        }
    }
    (times.len() - 1) as u64
}

/// Drives a `Locator` by hand, as a caller that fetches block times would.
fn drive(times: &[i64], target: i64) -> (u64, usize) {
    let mut locator = Locator::new((times.len() - 1) as u64, target);
    let mut probes = 0;
    loop {
        let number = locator.probe();
        probes += 1;
        match locator.observe(times[number as usize]) {
            LocatorStep::Located(found) => return (found, probes),
            LocatorStep::Probe(next) => locator = next,
        }
    }
}

#[test]
fn empty_chain_has_no_block() {
    assert_eq!(locate(&Vec::new(), 5), None);
}

#[test]
fn locates_the_first_block_at_or_after() {
    let times = vec![100, 200, 300, 400, 500];
    assert_eq!(locate(&times, 450), Some(4));
    assert_eq!(locate(&times, 150), Some(1));
    assert_eq!(locate(&times, 250), Some(2));
    assert_eq!(locate(&times, 350), Some(3));
    assert_eq!(locate(&times, 101), Some(1));
    assert_eq!(locate(&times, 499), Some(4));
}

#[test]
fn locates_an_exact_time() {
    let times = vec![100, 200, 300, 400, 500];
    assert_eq!(locate(&times, 100), Some(0));
    assert_eq!(locate(&times, 200), Some(1));
    assert_eq!(locate(&times, 300), Some(2));
    assert_eq!(locate(&times, 400), Some(3));
    assert_eq!(locate(&times, 500), Some(4));
}

#[test]
fn future_time_is_clamped_to_the_head() {
    let times = vec![100, 200, 300, 400, 500];
    assert_eq!(locate(&times, 501), Some(4));
    assert_eq!(locate(&times, i64::MAX), Some(4));
}

#[test]
fn time_before_the_chain_gives_block_zero() {
    let times = vec![100, 200, 300, 400, 500];
    assert_eq!(locate(&times, 99), Some(0));
    assert_eq!(locate(&times, i64::MIN), Some(0));
}

#[test]
fn single_block_chain() {
    assert_eq!(locate(&vec![100], 50), Some(0));
    assert_eq!(locate(&vec![100], 100), Some(0));
    assert_eq!(locate(&vec![100], 150), Some(0));
}

#[test]
fn two_block_chain() {
    let times = vec![100, 200];
    assert_eq!(locate(&times, 50), Some(0));
    assert_eq!(locate(&times, 100), Some(0));
    assert_eq!(locate(&times, 150), Some(1));
    assert_eq!(locate(&times, 200), Some(1));
    assert_eq!(locate(&times, 250), Some(1));
}

#[test]
fn ties_give_some_block_of_the_run() {
    let times = vec![100, 200, 200, 200, 200, 200, 300];
    let found = locate(&times, 200).unwrap();
    assert_eq!(times[found as usize], 200);
    assert_eq!(found, 3);
    let all_same = vec![7, 7, 7, 7];
    assert_eq!(locate(&all_same, 7), Some(1));
    assert_eq!(locate(&vec![5, 5], 5), Some(0));
}

#[test]
fn ties_around_the_target_do_not_matter() {
    let times = vec![100, 100, 100, 300, 300, 300];
    assert_eq!(locate(&times, 200), Some(3));
    assert_eq!(locate(&times, 301), Some(5));
    assert_eq!(locate(&times, 99), Some(0));
}

#[test]
fn agrees_with_a_linear_search_without_ties() {
    for len in 1..40usize {
        let times: Vec<i64> = (0..len).map(|n| 10 + 7 * n as i64 + (n as i64 % 3)).collect();
        for target in 0..(20 + 8 * len as i64) {
            assert_eq!(
                locate(&times, target),
                Some(first_at_or_after(&times, target)),
                "len {} target {}",
                len,
                target
            );
        }
    }
}

#[test]
fn with_ties_never_lands_on_an_earlier_block() {
    for len in 1..30usize {
        let times: Vec<i64> = (0..len).map(|n| 10 * (n as i64 / 3)).collect();
        for target in -5..(10 * len as i64 / 3 + 5) {
            let found = locate(&times, target).unwrap() as usize;
            let first = first_at_or_after(&times, target) as usize;
            assert!(found >= first);
            if times.iter().any(|t| *t == target) {
                assert_eq!(times[found], target);
            } else {
                assert_eq!(found, first);
            }
            if found > 0 && times[found - 1] != target {
                assert_eq!(found, first);
            }
        }
    }
}

#[test]
fn locator_steps_follow_the_halves() {
    let locator = Locator::new(4, 450);
    assert_eq!(locator.probe(), 2);
    let next = match locator.observe(300) {
        LocatorStep::Probe(next) => next,
        LocatorStep::Located(_) => unreachable!(),
    };
    assert_eq!(next.probe(), 3);
    let last = match next.observe(400) {
        LocatorStep::Probe(last) => last,
        LocatorStep::Located(_) => unreachable!(),
    };
    assert_eq!(last.probe(), 4);
    assert_eq!(last.observe(500), LocatorStep::Located(4));
    assert_eq!(last.observe(450), LocatorStep::Located(4));
    assert_eq!(last.observe(449), LocatorStep::Located(4));
}

#[test]
fn locator_stops_at_once_on_an_exact_time() {
    let locator = Locator::new(100, 450);
    assert_eq!(locator.probe(), 50);
    assert_eq!(locator.observe(450), LocatorStep::Located(50));
}

#[test]
fn locator_handles_the_largest_chain() {
    let locator = Locator::new(u64::MAX, 10);
    assert_eq!(locator.probe(), u64::MAX / 2);
    let mut current = locator;
    let mut probes = 1;
    let found = loop {
        match current.observe(5) {
            LocatorStep::Located(found) => break found,
            LocatorStep::Probe(next) => {
                current = next;
                probes += 1;
            }
        }
    };
    assert_eq!(found, u64::MAX);
    assert!(probes <= 65);
}

#[test]
fn locator_going_down_ends_on_block_zero() {
    let mut current = Locator::new(1000, 10);
    let found = loop {
        match current.observe(20) {
            LocatorStep::Located(found) => break found,
            LocatorStep::Probe(next) => current = next,
        }
    };
    assert_eq!(found, 0);
}

#[test]
fn driving_by_hand_agrees_with_locate() {
    let times: Vec<i64> = (0..1000).map(|n| 3 * n as i64).collect();
    for target in [-1, 0, 1, 2, 3, 1500, 1501, 2996, 2997, 2998, 5000] {
        let (found, probes) = drive(&times, target);
        assert_eq!(Some(found), locate(&times, target));
        assert!(probes <= 10);
    }
}
