use std::time::Duration;

use gc2607_isp::recovery::{action, Action, Attempts, MAX_ATTEMPTS, MAX_BACKOFF};

#[test]
fn first_attempt_is_immediate() {
    assert_eq!(action(1), Action::Retry(Duration::ZERO.as_secs()));
    // A caller that mislabels the first loss as attempt 0 still retries.
    assert_eq!(action(0), Action::Retry(Duration::ZERO.as_secs()));
}

#[test]
fn backoff_doubles_and_is_capped() {
    assert_eq!(action(2), Action::Retry(Duration::from_secs(1).as_secs()));
    assert_eq!(action(3), Action::Retry(Duration::from_secs(2).as_secs()));
    assert_eq!(action(4), Action::Retry(Duration::from_secs(4).as_secs()));
    assert_eq!(action(5), Action::Retry(Duration::from_secs(8).as_secs()));
    for attempt in 1..=MAX_ATTEMPTS {
        match action(attempt) {
            Action::Retry(d) => assert!(d <= MAX_BACKOFF, "attempt {attempt}: {d:?}"),
            Action::GiveUp => panic!("attempt {attempt} within the bound must retry"),
        }
    }
}

#[test]
fn gives_up_past_the_bound() {
    assert_eq!(action(MAX_ATTEMPTS + 1), Action::GiveUp);
    assert_eq!(action(u32::MAX), Action::GiveUp);
}

#[test]
fn frames_restore_the_budget() {
    let mut a = Attempts::new();
    assert_eq!(a.lost(0), Action::Retry(0));
    assert_eq!(a.lost(0), Action::Retry(1));
    assert_eq!(a.lost(0), Action::Retry(2));
    // A session that delivered frames starts the count over.
    assert_eq!(a.lost(500), Action::Retry(0));
    for want in [1, 2, 4, 8] {
        assert_eq!(a.lost(0), Action::Retry(want));
    }
    assert_eq!(a.lost(0), Action::GiveUp);
    assert_eq!(a.count, MAX_ATTEMPTS + 1);
}

#[test]
fn delays_never_shrink() {
    let mut last = 0;
    for attempt in 0..=MAX_ATTEMPTS {
        match action(attempt) {
            Action::Retry(d) => {
                assert!(d >= last);
                last = d;
            }
            Action::GiveUp => panic!("attempt {attempt} must retry"),
        }
    }
    assert_eq!(last, MAX_BACKOFF);
}
