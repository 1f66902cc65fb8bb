use ubgp::fsm::{after_failed_connect, calculate_retry_delay, RetryStep};

#[test]
fn test_calculate_retry_delay_fixed() {
    let delay1 = calculate_retry_delay(10, 0, false);
    let delay2 = calculate_retry_delay(10, 3, false);
    assert!((10..=11).contains(&delay1));
    assert!((10..=11).contains(&delay2));
}

#[test]
fn test_calculate_retry_delay_exponential() {
    let delay1 = calculate_retry_delay(5, 0, true);
    let delay2 = calculate_retry_delay(5, 1, true);
    let delay3 = calculate_retry_delay(5, 2, true);
    assert!(delay1 == 5);
    assert!((10..=11).contains(&delay2));
    assert!((20..=22).contains(&delay3));
}

#[test]
fn test_exponential_backoff_caps_at_max() {
    let delay = calculate_retry_delay(60, 20, true);
    assert!(delay <= 3600);
}

#[test]
fn retry_delay_exact_values() {
    assert_eq!(calculate_retry_delay(60, 20, true), 3600);
    assert_eq!(calculate_retry_delay(60, 5, true), 1920);
    assert_eq!(calculate_retry_delay(60, 6, true), 3600);
    assert_eq!(calculate_retry_delay(5000, 0, true), 3600);
    assert_eq!(calculate_retry_delay(5000, 7, false), 5000);
}

#[test]
fn failed_connect_gives_up_once_the_retry_count_is_spent() {
    assert_eq!(after_failed_connect(10, 3, Some(3), false), RetryStep::GiveUp);
    assert_eq!(after_failed_connect(10, 7, Some(3), true), RetryStep::GiveUp);
    assert_eq!(
        after_failed_connect(10, 2, Some(3), false),
        RetryStep::Wait { delay: 10, next_attempt: 3 }
    );
}

#[test]
fn failed_connect_without_limit_backs_off() {
    assert_eq!(
        after_failed_connect(10, 2, None, true),
        RetryStep::Wait { delay: 40, next_attempt: 3 }
    );
    assert_eq!(
        after_failed_connect(10, u32::MAX, None, false),
        RetryStep::Wait { delay: 10, next_attempt: u32::MAX }
    );
    assert_eq!(
        after_failed_connect(100, 20, None, true),
        RetryStep::Wait { delay: 3600, next_attempt: 21 }
    );
}
