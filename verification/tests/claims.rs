use session_auth::claims::{Claims, DEFAULT_LIFETIME};
use session_auth::clock::unix_now;

#[test]
fn claims_are_issued_for_the_lifetime() {
    let c = Claims::issued_at(42, "alice@example.com".to_string(), "Alice".to_string(), true, 1000, 900);
    assert_eq!(c.sub, "42");
    assert_eq!(c.email, "alice@example.com");
    assert_eq!(c.name, "Alice");
    assert!(c.is_admin);
    assert_eq!(c.iat, 1000);
    assert_eq!(c.exp, 1900);
    let d = Claims::issued_at(-3, String::new(), String::new(), false, usize::MAX - 1, 1);
    assert_eq!(d.sub, "-3");
    assert_eq!(d.exp, usize::MAX);
    assert!(!d.is_admin);
}

#[test]
fn the_default_lifetime_is_a_day() {
    assert_eq!(DEFAULT_LIFETIME, 86400);
    assert_eq!(DEFAULT_LIFETIME, 24 * 60 * 60);
}

#[test]
fn new_claims_last_a_day_from_now() {
    let before = unix_now().unwrap();
    let c = Claims::new(7, "bob@example.com".to_string(), "Bob".to_string(), false).unwrap();
    let after = unix_now().unwrap();
    assert!(before <= c.iat as u64 && c.iat as u64 <= after);
    assert_eq!(c.exp, c.iat + 86400);
    assert!(c.exp > c.iat);
    assert_eq!(c.sub, "7");
    assert_eq!(c.email, "bob@example.com");
    assert_eq!(c.name, "Bob");
    assert!(!c.is_admin);
}

#[test]
fn claims_with_a_lifetime_last_that_long() {
    let c = Claims::with_expiration(7, "bob@example.com".to_string(), "Bob".to_string(), true, 900).unwrap();
    assert_eq!(c.exp, c.iat + 900);
    assert!(c.is_admin);
    let d = Claims::with_expiration(7, "bob@example.com".to_string(), "Bob".to_string(), true, 604800).unwrap();
    assert_eq!(d.exp - d.iat, 604800);
    assert!(Claims::with_expiration(7, String::new(), String::new(), true, usize::MAX).is_none());
}

#[test]
fn no_claims_are_issued_without_a_clock_or_past_the_last_second() {
    assert!(Claims::issued_by_clock(1, String::new(), String::new(), false, None, 1).is_none());
    assert!(Claims::issued_by_clock(1, String::new(), String::new(), false, Some(u64::MAX), 1).is_none());
    assert!(Claims::issued_by_clock(1, String::new(), String::new(), false, Some(5), usize::MAX - 4).is_none());
    let c = Claims::issued_by_clock(1, "e".to_string(), "n".to_string(), true, Some(5), usize::MAX - 5).unwrap();
    assert_eq!(c.iat, 5);
    assert_eq!(c.exp, usize::MAX);
    assert_eq!(c.email, "e");
    assert_eq!(c.name, "n");
}

#[test]
fn a_copy_holds_the_same_claims() {
    let c = Claims::issued_at(42, "alice@example.com".to_string(), "Alice".to_string(), true, 1000, 900);
    let d = c.duplicate();
    assert_eq!(d.sub, c.sub);
    assert_eq!(d.email, c.email);
    assert_eq!(d.name, c.name);
    assert_eq!(d.is_admin, c.is_admin);
    assert_eq!(d.iat, c.iat);
    assert_eq!(d.exp, c.exp);
}

#[test]
fn the_clock_reads_a_time_of_this_century() {
    let now = unix_now().unwrap();
    assert!(now > 1_600_000_000);
    assert!(now < 4_102_444_800);
}
