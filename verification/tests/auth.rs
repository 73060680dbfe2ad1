use iridium_proxy::auth::{authorize, issue_session, login, AuthDb};
use rand::{RngCore, SeedableRng};

fn expected_id(now: u64) -> u64 {
    rand::rngs::StdRng::seed_from_u64(now).next_u64()
}

#[test]
fn login_with_the_password_issues_a_session() {
    let mut db = AuthDb::new(32);
    let cookie = login(b"edwgiz", 5, &mut db).unwrap();
    let id = expected_id(5);
    assert_ne!(id, 5);
    assert_eq!(cookie, format!("session_id={:X}; Path=/; Max-Age=2147483647", id));
    assert!(authorize(Some(format!("{:X}", id)), &mut db));
    assert!(authorize(Some(format!("{:x}", id)), &mut db));
    assert!(authorize(Some(format!("+{:x}", id)), &mut db));
}

#[test]
fn login_with_another_body_is_refused() {
    let mut db = AuthDb::new(32);
    assert_eq!(login(b"edwgi", 5, &mut db), None);
    assert_eq!(login(b"edwgiz ", 5, &mut db), None);
    assert_eq!(login(b"", 5, &mut db), None);
    assert!(!authorize(Some(format!("{:X}", expected_id(5))), &mut db));
}

#[test]
fn unknown_or_malformed_sessions_are_refused() {
    let mut db = AuthDb::new(4);
    db.push(0xF9681A64D3301861, u64::MAX);
    assert!(authorize(Some("F9681A64D3301861".to_string()), &mut db));
    assert!(!authorize(Some("F9681A64D3301862".to_string()), &mut db));
    assert!(!authorize(Some("".to_string()), &mut db));
    assert!(!authorize(Some("G".to_string()), &mut db));
    assert!(!authorize(Some("1F9681A64D3301861".to_string()), &mut db));
    assert!(!authorize(None, &mut db));
}

#[test]
fn the_least_recently_used_session_is_dropped() {
    let mut db = AuthDb::new(2);
    assert_eq!(db.push(1, 10), None);
    assert_eq!(db.push(2, 20), None);
    // using session 1 makes session 2 the least recently used one
    assert!(authorize(Some("1".to_string()), &mut db));
    assert_eq!(db.push(3, 30), Some((2, 20)));
    assert!(!authorize(Some("2".to_string()), &mut db));
    assert!(authorize(Some("1".to_string()), &mut db));
    assert_eq!(db.push(1, 11), Some((1, 10)));
    assert_eq!(db.get(1), Some(11));
}

#[test]
fn issued_cookie_names_the_session() {
    let mut db = AuthDb::new(1);
    assert_eq!(issue_session(0, 7, &mut db), "session_id=0; Path=/; Max-Age=2147483647");
    assert!(authorize(Some("0".to_string()), &mut db));
    assert_eq!(issue_session(255, 7, &mut db), "session_id=FF; Path=/; Max-Age=2147483647");
    assert!(!authorize(Some("0".to_string()), &mut db));
}
