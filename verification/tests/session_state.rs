use teralaunch::session::{AuthKeyOutcome, LauncherSession};

fn logged_in() -> LauncherSession<u8> {
    let mut s: LauncherSession<u8> = LauncherSession::new();
    s.set_auth_info("key0".to_string(), "alice".to_string(), 42, "3".to_string());
    s.set_client(7);
    s
}

#[test]
fn fresh_session_is_logged_out() {
    let s: LauncherSession<u8> = LauncherSession::new();
    assert!(s.client().is_none());
    assert_eq!(s.require_client().err(), Some("User is not authenticated (no client)".to_string()));
    assert!(!s.game_status(false));
    assert!(s.game_status(true));
    assert_eq!(s.auth().user_no, 0);
    assert!(s.acts_pairs().is_empty());
}

#[test]
fn launch_needs_login() {
    let mut s: LauncherSession<u8> = LauncherSession::new();
    assert_eq!(s.begin_launch(false), Err("Not authenticated. Please login first.".to_string()));
    assert!(!s.game_status(false));
}

#[test]
fn launch_is_exclusive() {
    let mut s = logged_in();
    assert_eq!(s.begin_launch(false), Ok(()));
    assert!(s.game_status(false));
    assert_eq!(s.begin_launch(false), Err("Game is already launching".to_string()));
    assert_eq!(s.begin_launch(true), Err("Game is already launching".to_string()));
    s.finish_launch();
    assert!(!s.game_status(false));
    assert_eq!(s.begin_launch(true), Err("Game is already running".to_string()));
    assert!(!s.game_status(false));
}

#[test]
fn fresh_key_gives_the_ticket() {
    let mut s = logged_in();
    s.begin_launch(false).unwrap();
    let t = s.receive_auth_key(AuthKeyOutcome::Fetched("fresh".to_string())).unwrap();
    assert_eq!(t.account_name, "42");
    assert_eq!(t.characters_count, "3");
    assert_eq!(t.ticket, "fresh");
    assert_eq!(s.auth().auth_key, "fresh");
    assert!(s.game_status(false));
}

#[test]
fn failed_key_ends_the_launch() {
    let mut s = logged_in();
    s.begin_launch(false).unwrap();
    let e = s.receive_auth_key(AuthKeyOutcome::CallFailed("timeout".to_string())).err().unwrap();
    assert_eq!(e, "Failed to call GetAuthKeyAction: timeout");
    assert!(!s.game_status(false));
    s.begin_launch(false).unwrap();
    let e = s.receive_auth_key(AuthKeyOutcome::ParseFailed("bad json".to_string())).err().unwrap();
    assert_eq!(e, "Failed to parse GetAuthKeyAction response: bad json");
    assert_eq!(s.auth().auth_key, "key0");
}

#[test]
fn missing_executable_ends_the_launch() {
    let mut s = logged_in();
    s.begin_launch(false).unwrap();
    let m = s.executable_missing("\"C:\\\\Games\\\\Binaries\\\\Tera.exe\"");
    assert_eq!(m, "Game executable not found at: \"C:\\\\Games\\\\Binaries\\\\Tera.exe\"");
    assert!(!s.game_status(false));
}

#[test]
fn maps_are_stored_and_read_back() {
    let mut s = logged_in();
    s.store_acts_map(vec![
        ("210".to_string(), "a".to_string()),
        ("211".to_string(), "b".to_string()),
        ("210".to_string(), "c".to_string()),
    ]);
    let mut acts = s.acts_pairs();
    acts.sort();
    assert_eq!(acts, vec![("210".to_string(), "c".to_string()), ("211".to_string(), "b".to_string())]);
    s.store_pages_map(vec![("main".to_string(), "/m".to_string())]);
    assert_eq!(s.pages_pairs(), vec![("main".to_string(), "/m".to_string())]);
}

#[test]
fn logout_clears_everything() {
    let mut s = logged_in();
    s.store_acts_map(vec![("1".to_string(), "x".to_string())]);
    s.begin_launch(false).unwrap();
    s.logout();
    assert!(s.client().is_none());
    assert!(s.acts_pairs().is_empty());
    assert!(s.pages_pairs().is_empty());
    assert_eq!(s.auth().user_name, "");
    assert_eq!(s.auth().auth_key, "");
    assert_eq!(s.auth().character_count, "");
    assert_eq!(s.auth().user_no, 0);
    assert!(!s.game_status(false));
}

#[test]
fn reset_launch_state_allows_a_new_launch() {
    let mut s = logged_in();
    s.begin_launch(false).unwrap();
    s.reset_launch_state();
    assert_eq!(s.begin_launch(false), Ok(()));
}
