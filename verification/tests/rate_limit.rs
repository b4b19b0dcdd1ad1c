use stellar_fee_tracker::middleware::rate_limit::{
    client_address, decide, forwarded_first_hop, RateLimitPolicy, TokenBucket, NANOS_PER_SECOND,
};

#[test]
fn first_n_requests_within_limit_succeed() {
    let policy = RateLimitPolicy::new(3);
    let mut bucket = policy.new_bucket(0);
    for expected_remaining in [2u32, 1, 0] {
        let d = decide(&mut bucket, 0);
        assert!(d.allowed);
        assert_eq!(d.remaining, expected_remaining);
    }
}

#[test]
fn n_plus_one_request_is_refused_with_retry_after() {
    let policy = RateLimitPolicy::new(2);
    let mut bucket = policy.new_bucket(0);
    assert!(decide(&mut bucket, 0).allowed);
    assert!(decide(&mut bucket, 0).allowed);
    let d = decide(&mut bucket, 0);
    assert!(!d.allowed);
    assert_eq!(d.remaining, 0);
    // two tokens a minute: the next one comes in 30 s
    assert_eq!(d.retry_after, Some(30));
    assert_eq!(d.reset_secs, 30);
}

#[test]
fn bucket_refills_and_later_request_succeeds() {
    // one token, fifty tokens a second
    let mut bucket = TokenBucket::new(1, 50, NANOS_PER_SECOND, 0);
    assert!(bucket.try_consume(0).is_ok());
    assert_eq!(bucket.try_consume(0), Err(1));
    assert_eq!(bucket.try_consume(25_000_000), Ok(0));
}

#[test]
fn zero_rate_limit_still_allows_one_request_a_minute() {
    let policy = RateLimitPolicy::new(0);
    assert_eq!(policy.capacity, 1);
    let mut bucket = policy.new_bucket(5);
    assert!(decide(&mut bucket, 5).allowed);
    assert!(!decide(&mut bucket, 5).allowed);
    assert!(decide(&mut bucket, 5 + 60 * NANOS_PER_SECOND).allowed);
}

#[test]
fn refill_never_exceeds_capacity_and_ignores_backwards_time() {
    let mut bucket = TokenBucket::new(2, 2, 60 * NANOS_PER_SECOND, 1_000);
    assert_eq!(bucket.try_consume(1_000), Ok(1));
    // an hour later the bucket is full again, not overfull
    assert_eq!(bucket.try_consume(3_600 * NANOS_PER_SECOND), Ok(1));
    assert_eq!(bucket.try_consume(3_600 * NANOS_PER_SECOND), Ok(0));
    assert!(bucket.try_consume(10).is_err());
    assert_eq!(bucket.seconds_until_next_token(), 30);
    assert!(!bucket.is_stale(3_600 * NANOS_PER_SECOND));
    assert!(bucket.is_stale(3_600 * NANOS_PER_SECOND + 1));
}

#[test]
fn forwarded_for_first_hop_is_trimmed() {
    assert_eq!(forwarded_first_hop(" 203.0.113.99 , 10.0.0.1"), "203.0.113.99");
    assert_eq!(forwarded_first_hop("198.51.100.7"), "198.51.100.7");
    assert_eq!(forwarded_first_hop(""), "");
    assert_eq!(forwarded_first_hop("[::1]:80,x"), "[::1]:80");
}

#[test]
fn forwarded_address_is_honoured_only_from_loopback() {
    assert_eq!(client_address(Some("127.0.0.1"), true, Some("203.0.113.7"), "0.0.0.0"), "203.0.113.7");
    assert_eq!(client_address(Some("127.0.0.1"), true, None, "0.0.0.0"), "127.0.0.1");
    assert_eq!(client_address(Some("198.51.100.2"), false, Some("203.0.113.7"), "0.0.0.0"), "198.51.100.2");
    assert_eq!(client_address(None, false, Some("203.0.113.7"), "0.0.0.0"), "0.0.0.0");
}
