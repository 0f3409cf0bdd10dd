use vaultify::retry::{Retry, Verdict};

#[test]
fn a_success_is_accepted_and_costs_nothing() {
    let mut retry = Retry::new(2);
    assert_eq!(retry.record(true), Verdict::Accept);
    assert_eq!(retry.left, 2);
}

#[test]
fn failures_end_after_one_more_attempt_than_retries() {
    for retries in [0usize, 1, 2, 9] {
        let mut retry = Retry::new(retries);
        let mut attempts = 0;
        let mut waits = 0;
        loop {
            attempts += 1;
            match retry.record(false) {
                Verdict::Again => waits += 1,
                Verdict::GiveUp => break,
                Verdict::Accept => unreachable!(),
            }
        }
        assert_eq!(attempts, retries + 1);
        assert_eq!(waits, retries);
        assert_eq!(retry.record(false), Verdict::GiveUp);
    }
}

#[test]
fn the_largest_count_of_retries_does_not_overflow() {
    let mut retry = Retry::new(usize::MAX);
    assert_eq!(retry.record(false), Verdict::Again);
    assert_eq!(retry.left, usize::MAX - 1);
}
