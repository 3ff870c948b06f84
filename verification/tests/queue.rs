use hc_helper::airtable::queue::{
    backoff_seconds, date_delay_seconds, judge, retry_delay_seconds, QueueError, RateLimiter,
    Verdict,
};
use hc_helper::expiry::SECOND;

const MILLI: u64 = 1_000_000;

fn base(name: &str) -> String {
    name.to_string()
}

/// Serves one request that arrives at `now`, and tells when it went out.
fn serve(limiter: &mut RateLimiter, base_id: &str, now: u64) -> u64 {
    let wait = limiter
        .next_delay(&base(base_id), now, now)
        .unwrap_or_default();
    assert!(limiter.let_out(base(base_id), 0, now + wait));
    now + wait
}

#[test]
fn four_requests_go_out_at_once() {
    let mut limiter = RateLimiter::new();
    for _ in 0..4 {
        assert_eq!(limiter.next_delay(&base("a"), 5, 5), None);
        assert!(limiter.let_out(base("a"), 0, 5));
    }
    assert_eq!(limiter.next_delay(&base("a"), 5, 5), Some(SECOND));
    assert_eq!(
        limiter.next_delay(&base("a"), 5, 300 * MILLI + 5),
        Some(700 * MILLI)
    );
}

#[test]
fn bases_do_not_wait_for_each_other() {
    let mut limiter = RateLimiter::new();
    for _ in 0..4 {
        assert!(limiter.let_out(base("a"), 0, 0));
    }
    assert_eq!(limiter.next_delay(&base("b"), 1, 1), None);
    assert!(limiter.next_delay(&base("a"), 1, 1).is_some());
}

#[test]
fn what_is_a_second_old_is_forgotten() {
    let mut limiter = RateLimiter::new();
    for i in 0..4 {
        assert!(limiter.let_out(base("a"), 0, i * 100 * MILLI));
    }
    assert_eq!(
        limiter.next_delay(&base("a"), SECOND - 1, SECOND - 1),
        Some(1)
    );
    assert_eq!(limiter.next_delay(&base("a"), SECOND, SECOND), None);
    assert_eq!(limiter.request_instances.len(), 3);
}

#[test]
fn wait_is_a_second_where_the_clock_went_on() {
    let mut limiter = RateLimiter::new();
    for _ in 0..4 {
        assert!(limiter.let_out(base("a"), 0, 0));
    }
    assert_eq!(
        limiter.next_delay(&base("a"), SECOND - 1, SECOND + 5),
        Some(SECOND)
    );
}

#[test]
fn at_most_four_go_out_in_any_second() {
    let mut limiter = RateLimiter::new();
    let mut clock = 0;
    let mut sent = Vec::new();
    for i in 0..100u64 {
        clock = serve(&mut limiter, "a", clock + (i * 37 % 11) * 17 * MILLI);
        sent.push(clock);
    }
    for i in 4..sent.len() {
        assert!(sent[i] - sent[i - 4] >= SECOND);
    }
    assert!(sent.windows(5).any(|w| w[4] - w[0] == SECOND));
}

#[test]
fn request_rests_after_ten_retries() {
    let mut limiter = RateLimiter::new();
    assert!(limiter.let_out(base("a"), 10, 1));
    assert!(!limiter.let_out(base("a"), 11, 2));
    assert_eq!(limiter.request_instances.len(), 1);
    assert_eq!(limiter.request_instances[0].airtable_base_id, "a");
    assert_eq!(limiter.request_instances[0].instant, 1);
}

#[test]
fn request_goes_out_eleven_times() {
    let mut limiter = RateLimiter::new();
    let mut count = 0;
    let mut sent = 0;
    while limiter.let_out(base("a"), count, sent) {
        sent += 1;
        match judge(429, None, true, count, 0) {
            Verdict::Retry {
                rate_limited_count, ..
            } => count = rate_limited_count,
            _ => panic!("not repeated"),
        }
    }
    assert_eq!(sent, 11);
}

#[test]
fn backoff_doubles_up_to_five_minutes() {
    let waits: Vec<u64> = (0..12).map(backoff_seconds).collect();
    assert_eq!(
        waits,
        vec![1, 2, 4, 8, 16, 32, 64, 128, 256, 300, 300, 300]
    );
    assert_eq!(backoff_seconds(63), 300);
}

fn delay(header: &[u8], unix_seconds: u64) -> u64 {
    retry_delay_seconds(
        Some(&header.to_vec()),
        7,
        unix_seconds as u128 * SECOND as u128,
    )
}

#[test]
fn airtable_may_name_the_wait() {
    assert_eq!(delay(b"30", 0), 30);
    assert_eq!(delay(b"0", 0), 0);
    assert_eq!(delay(b"+12", 0), 12);
    assert_eq!(delay(b"18446744073709551615", 0), u64::MAX);
}

#[test]
fn airtable_may_name_a_date() {
    let date = b"Sun, 06 Nov 1994 08:49:37 GMT";
    assert_eq!(delay(date, 784_111_777 - 90), 90);
    assert_eq!(delay(date, 784_111_777 - 1), 1);
    assert_eq!(delay(date, 784_111_777), 7);
    assert_eq!(delay(date, 784_111_777 + 5), 7);
    assert_eq!(delay(b"Sunday, 06-Nov-94 08:49:37 GMT", 784_111_700), 77);
    assert_eq!(delay(b"Sun Nov  6 08:49:37 1994", 784_111_700), 77);
    assert_eq!(
        retry_delay_seconds(
            Some(&date.to_vec()),
            7,
            784_111_770 * SECOND as u128 + 500_000_000
        ),
        6
    );
}

#[test]
fn unreadable_waits_are_left_to_the_backoff() {
    assert_eq!(retry_delay_seconds(None, 7, 0), 7);
    assert_eq!(delay(b"", 0), 7);
    assert_eq!(delay(b"soon", 0), 7);
    assert_eq!(delay(b"-1", 0), 7);
    assert_eq!(delay(b"18446744073709551616", 0), 7);
    assert_eq!(delay(b"30\xff", 0), 7);
    assert_eq!(delay("３０".as_bytes(), 0), 7);
    assert_eq!(delay(b"3\n0", 0), 7);
    assert_eq!(delay(b"Mon, 06 Nov 1994 08:49:37 GMT", 0), 7);
}

#[test]
fn dates_are_waited_for_in_whole_seconds() {
    assert_eq!(date_delay_seconds(None, 7, 0), 7);
    assert_eq!(date_delay_seconds(Some(10), 7, 4_500_000_000), 5);
    assert_eq!(date_delay_seconds(Some(10), 7, 9_000_000_001), 7);
    assert_eq!(date_delay_seconds(Some(10), 7, 9_000_000_000), 1);
    assert_eq!(date_delay_seconds(Some(u64::MAX), 7, 0), u64::MAX);
    assert_eq!(date_delay_seconds(Some(0), 7, u128::MAX), 7);
}

#[test]
fn responses_are_judged() {
    assert!(matches!(judge(200, None, true, 0, 0), Verdict::Deliver));
    assert!(matches!(judge(304, None, false, 64, 0), Verdict::Deliver));
    assert!(matches!(judge(399, None, true, 0, 0), Verdict::Deliver));
    assert!(matches!(judge(400, None, true, 0, 0), Verdict::Refused));
    assert!(matches!(judge(422, None, false, 0, 0), Verdict::Refused));
    assert!(matches!(judge(599, None, true, 0, 0), Verdict::Refused));
    assert!(matches!(judge(600, None, true, 0, 0), Verdict::Deliver));
    assert!(matches!(
        judge(429, None, false, 0, 0),
        Verdict::NotRepeatable
    ));
    assert!(matches!(
        judge(429, None, true, 3, 0),
        Verdict::Retry {
            seconds: 8,
            rate_limited_count: 4
        }
    ));
    assert!(matches!(
        judge(429, Some(&b"30".to_vec()), true, 0, 0),
        Verdict::Retry {
            seconds: 30,
            rate_limited_count: 1
        }
    ));
}

#[test]
fn queue_errors_have_messages() {
    assert_eq!(QueueError::AlreadyRunning.message(), "error setting tx");
    assert_eq!(
        QueueError::NotRunning.message(),
        "Queue handler uninitialized"
    );
    assert_eq!(
        QueueError::RetriesExceeded.message(),
        "Rate limit retries exceeded"
    );
    assert_eq!(
        QueueError::NotRepeatable.message(),
        "Failed to clone request after Airtable returned a 429"
    );
    assert_eq!(
        QueueError::Refused("no".to_string()).message(),
        "Airtable responded: no"
    );
}
