use promptbox::requests::retry_delay;

#[test]
fn retry_only_rate_limits() {
    assert_eq!(retry_delay(500, 0, 0), None);
    assert_eq!(retry_delay(404, 1, 10), None);
}

#[test]
fn retry_backs_off_exponentially() {
    assert_eq!(retry_delay(429, 0, 0), Some(1000));
    assert_eq!(retry_delay(429, 1, 5), Some(2005));
    assert_eq!(retry_delay(429, 3, -100), Some(7900));
    assert_eq!(retry_delay(429, 4, 99), Some(16099));
    assert_eq!(retry_delay(429, 5, 0), None);
}
