use aruaru_search::limit::{client_key, Limiter, MAX_CLIENTS};

#[test]
fn per_minute_and_per_day_limits_apply_per_client() {
    let mut l = Limiter::new(3, 5, true);
    let t = 1_790_000_000;
    for _ in 0..3 {
        assert!(l.check(Some("1.2.3.4"), t).is_ok());
    }
    let wait = l.check(Some("1.2.3.4"), t).unwrap_err();
    assert!((1..=60).contains(&wait));
    // Another client is not affected.
    assert!(l.check(Some("5.6.7.8"), t).is_ok());
    // In the next minute there are searches left, up to the limit of the day.
    assert!(l.check(Some("1.2.3.4"), t + 60).is_ok());
    assert!(l.check(Some("1.2.3.4"), t + 60).is_ok());
    assert!(l.check(Some("1.2.3.4"), t + 120).is_err(), "1日の上限");
    // On the next day in Japan there are again.
    assert!(l.check(Some("1.2.3.4"), t + 86_400).is_ok());
}

#[test]
fn internal_calls_are_unlimited_unless_configured() {
    let mut free = Limiter::new(1, 1, true);
    for _ in 0..50 {
        assert!(free.check(None, 100).is_ok());
    }
    let mut strict = Limiter::new(1, 1, false);
    assert!(strict.check(None, 100).is_ok());
    assert!(strict.check(None, 100).is_err());
}

#[test]
fn client_keys_come_from_proxy_headers_and_are_validated() {
    assert_eq!(client_key(None, None), None);
    assert_eq!(
        client_key(Some("203.0.113.9, 10.0.0.1"), None).as_deref(),
        Some("203.0.113.9")
    );
    assert_eq!(
        client_key(None, Some("2001:DB8::1")).as_deref(),
        Some("2001:db8::1")
    );
    assert_eq!(
        client_key(Some("<script>"), None).as_deref(),
        Some("invalid")
    );
    assert_eq!(client_key(Some("  "), None), None);
}

#[test]
fn memory_is_bounded() {
    let mut l = Limiter::new(1, 1, true);
    for i in 0..(MAX_CLIENTS + 10) {
        let _ = l.check(Some(&format!("c{i}")), 100);
    }
    assert!(l.clients() <= MAX_CLIENTS);
}

#[test]
fn the_wait_ends_with_the_minute_or_the_day() {
    let mut l = Limiter::new(1, 2, true);
    // Ten seconds before a full minute, an hour before midnight in Japan.
    let t = 14 * 3600 - 10;
    assert_eq!(l.check(Some("a"), t), Ok(()));
    assert_eq!(l.check(Some("a"), t), Err(10));
    assert_eq!(l.check(Some("a"), t + 10), Ok(()));
    assert_eq!(l.check(Some("a"), t + 70), Err(3600 - 60));
    assert_eq!(l.check(Some("a"), t + 10 + 3600), Ok(()));
}

#[test]
fn where_both_limits_are_used_up_the_wait_ends_with_the_day() {
    let mut l = Limiter::new(1, 1, false);
    assert_eq!(l.check(None, 100), Ok(()));
    assert_eq!(l.check(None, 100), Err(53_900));
    assert_eq!(l.check(None, 100 + 20), Err(53_880));
    assert_eq!(l.check(None, 100 + 53_899), Err(1));
    assert_eq!(l.check(None, 100 + 53_900), Ok(()));
    let mut l = Limiter::new(0, 0, true);
    assert_eq!(l.check(Some("a"), 59), Err(86_400 - 9 * 3600 - 59));
    assert_eq!(l.check(Some("a"), 0), Err(86_400 - 9 * 3600));
}

#[test]
fn refused_calls_do_not_count() {
    let mut l = Limiter::new(1, 2, true);
    assert_eq!(l.check(Some("a"), 0), Ok(()));
    for t in 1..60 {
        assert_eq!(l.check(Some("a"), t), Err(60 - t));
    }
    assert_eq!(l.check(Some("a"), 60), Ok(()));
    assert_eq!(l.check(Some("b"), 60), Ok(()));
}

#[test]
fn settings_make_a_limiter() {
    let mut l = Limiter::from_settings(Some("2"), None, Some("0"));
    assert_eq!(l.check(None, 0), Ok(()));
    assert_eq!(l.check(None, 0), Ok(()));
    assert_eq!(l.check(None, 0), Err(60));
    let mut l = Limiter::from_settings(Some("x"), Some("-1"), Some("1"));
    for _ in 0..20 {
        assert_eq!(l.check(Some("a"), 0), Ok(()));
    }
    assert_eq!(l.check(Some("a"), 0), Err(60));
    assert_eq!(l.check(None, 0), Ok(()));
    let mut l = Limiter::from_settings(Some("4294967296"), Some("+1"), None);
    assert_eq!(l.check(Some("a"), 0), Ok(()));
    assert_eq!(l.check(Some("a"), 0), Err(86_400 - 9 * 3600));
}

#[test]
fn keys_of_clients_are_short_and_plain() {
    assert_eq!(client_key(Some(" AB:cd , x"), Some("1.1.1.1")).as_deref(), Some("ab:cd"));
    assert_eq!(client_key(Some(""), Some("1.1.1.1")), None);
    assert_eq!(client_key(None, Some(" 1.1.1.1 ")).as_deref(), Some("1.1.1.1"));
    assert_eq!(client_key(None, Some(&"1".repeat(45))).as_deref(), Some("1".repeat(45).as_str()));
    assert_eq!(client_key(None, Some(&"1".repeat(46))).as_deref(), Some("invalid"));
    assert_eq!(client_key(None, Some("é")).as_deref(), Some("invalid"));
}

#[test]
fn a_full_memory_forgets_all_clients() {
    let mut l = Limiter::new(1, 1, true);
    for i in 0..MAX_CLIENTS {
        assert_eq!(l.check(Some(&format!("c{i}")), 100), Ok(()));
    }
    assert_eq!(l.clients(), MAX_CLIENTS);
    assert!(l.check(Some("c0"), 100).is_err());
    assert_eq!(l.clients(), MAX_CLIENTS);
    assert_eq!(l.check(Some("new"), 100), Ok(()));
    assert_eq!(l.clients(), 1);
    assert_eq!(l.check(Some("c0"), 100), Ok(()));
}
