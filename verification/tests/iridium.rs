use iridium_proxy::iridium::{session_cookie, RemoteAction, RemoteAttempts};

#[test]
fn session_cookie_is_picked_from_set_cookie() {
    assert_eq!(
        session_cookie("ir-session-id=abc123; Path=/; HttpOnly"),
        Some("ir-session-id=abc123".to_string())
    );
    assert_eq!(session_cookie("x=1, ir-session-id=Z"), Some("ir-session-id=Z".to_string()));
    assert_eq!(session_cookie("ir-session-id=;ir-session-id=q;"), Some("ir-session-id=q".to_string()));
    assert_eq!(session_cookie("ir-session-id="), None);
    assert_eq!(session_cookie("session=1"), None);
    assert_eq!(session_cookie(""), None);
}

#[test]
fn a_call_succeeds_on_200() {
    let mut a = RemoteAttempts::new();
    assert_eq!(a.begin(), RemoteAction::Send);
    assert_eq!(a.on_response(Some(200)), RemoteAction::Accept);
}

#[test]
fn a_call_logs_in_again_after_406() {
    let mut a = RemoteAttempts::new();
    assert_eq!(a.begin(), RemoteAction::Send);
    assert_eq!(a.on_response(Some(406)), RemoteAction::Relogin);
    assert_eq!(a.on_relogin(true), RemoteAction::Send);
    assert_eq!(a.on_response(Some(406)), RemoteAction::Relogin);
    assert_eq!(a.on_relogin(true), RemoteAction::Fail);
}

#[test]
fn a_call_gives_up() {
    let mut a = RemoteAttempts::new();
    assert_eq!(a.on_response(None), RemoteAction::Fail);
    let mut a = RemoteAttempts::new();
    assert_eq!(a.on_response(Some(406)), RemoteAction::Relogin);
    assert_eq!(a.on_relogin(false), RemoteAction::Fail);
    let mut a = RemoteAttempts::new();
    assert_eq!(a.on_response(Some(500)), RemoteAction::Send);
    assert_eq!(a.on_response(Some(500)), RemoteAction::Fail);
}
