use arenacoach::log_path::HostOs;
use arenacoach::poster::DeviceSession;
use arenacoach::settings::{device_name, empty_to_none, SavedSession, Settings};

#[test]
fn logout_invalidates_captured_session_keys() {
    let mut settings = Settings {
        token: Some("token".into()),
        user_id: Some(1),
        ..Settings::default()
    };
    let key = settings.session_key();
    settings.clear_session();
    assert_ne!(settings.session_key(), key);
}

#[test]
fn switching_environment_clears_session_but_preserves_preferences() {
    let mut settings = Settings {
        token: Some("secret".into()),
        user_email: Some("a@b.com".into()),
        show_debug_info: true,
        ..Settings::default()
    };
    assert!(!settings.set_developer_mode(false));
    assert!(settings.token().is_some());
    assert!(settings.set_developer_mode(true));
    assert!(settings.token().is_none());
    assert!(settings.user_email().is_none());
    assert!(settings.show_debug_info);
    assert_eq!(settings.api_base(), "https://arenacoach-web.test");
    settings.set_developer_mode(false);
    assert_eq!(settings.api_base(), "https://arenacoach.com");
}

#[test]
fn legacy_host_cannot_override_mode_or_leak_session() {
    let text = r#"{"api_base":"https://old.test","token":"secret"}"#;
    let stored = Settings {
        token: Some("secret".into()),
        ..Settings::default()
    };
    let settings = Settings::from_stored(stored, Settings::names_mode(text));
    assert_eq!(settings.api_base(), "https://arenacoach.com");
    assert!(settings.token().is_none());
    assert!(!settings.show_debug_info);
}

#[test]
fn stored_mode_keeps_the_session() {
    let text = r#"{"developer_mode":false,"user_id":3}"#;
    assert!(Settings::names_mode(text));
    assert!(!Settings::names_mode("not json"));
    let stored = Settings {
        token: Some("secret".into()),
        user_id: Some(3),
        ..Settings::default()
    };
    let settings = Settings::from_stored(stored, true);
    assert_eq!(settings.token().as_deref(), Some("secret"));
    assert_eq!(settings.user_id(), Some(3));
}

#[test]
fn blank_values_read_as_missing() {
    let settings = Settings {
        token: Some(String::new()),
        user_email: Some(String::new()),
        user_name: Some("Pilot".into()),
        user_id: Some(0),
        ..Settings::default()
    };
    assert_eq!(settings.token(), None);
    assert_eq!(settings.user_email(), None);
    assert_eq!(settings.user_name().as_deref(), Some("Pilot"));
    assert_eq!(settings.user_id(), None);
}

#[test]
fn clearing_wraps_the_generation() {
    let mut settings = Settings {
        generation: u64::MAX,
        ..Settings::default()
    };
    settings.clear_session();
    assert_eq!(settings.generation, 0);
}

#[test]
fn saved_session_only_with_a_token() {
    let settings = Settings {
        developer_mode: true,
        token: Some("t".into()),
        user_email: Some("a@b.com".into()),
        ..Settings::default()
    };
    let saved = settings.saved_session().unwrap();
    assert_eq!(saved.api_base, "https://arenacoach-web.test");
    assert_eq!(saved.token, "t");
    assert_eq!(saved.user_id, 0);
    assert_eq!(saved.user_email.as_deref(), Some("a@b.com"));
    assert!(Settings::default().saved_session().is_none());
}

#[test]
fn session_of_another_host_is_not_restored() {
    let mut settings = Settings::default();
    let session = SavedSession {
        api_base: "https://arenacoach-web.test".into(),
        token: "t".into(),
        user_id: 5,
        user_email: None,
        user_name: Some("P".into()),
    };
    assert!(!settings.restore_session(session.clone()));
    assert!(settings.token().is_none());
    settings.developer_mode = true;
    assert!(settings.restore_session(session));
    assert_eq!(settings.token().as_deref(), Some("t"));
    assert_eq!(settings.user_id(), Some(5));
    assert_eq!(settings.user_name().as_deref(), Some("P"));
}

#[test]
fn patch_trims_and_empties() {
    let mut settings = Settings::default();
    settings.apply_patch(Some("  tok  ".into()), Some("   ".into()));
    assert_eq!(settings.token.as_deref(), Some("tok"));
    assert_eq!(settings.log_path, None);
    settings.apply_patch(None, Some(" /logs/Player.log ".into()));
    assert_eq!(settings.token.as_deref(), Some("tok"));
    assert_eq!(settings.log_path.as_deref(), Some("/logs/Player.log"));
    assert_eq!(empty_to_none(" \t\n ".into()), None);
    assert_eq!(empty_to_none(" x ".into()).as_deref(), Some("x"));
}

#[test]
fn sign_in_and_out_keep_the_user_id() {
    let mut settings = Settings {
        user_id: Some(9),
        ..Settings::default()
    };
    settings.sign_in(DeviceSession {
        token: "t".into(),
        user_id: 9,
        email: "e@x.com".into(),
        name: "N".into(),
    });
    assert_eq!(settings.token().as_deref(), Some("t"));
    assert_eq!(settings.user_email().as_deref(), Some("e@x.com"));
    settings.sign_out();
    assert_eq!(settings.token(), None);
    assert_eq!(settings.user_name(), None);
    assert_eq!(settings.user_id(), Some(9));
}

#[test]
fn device_names_carry_the_platform() {
    assert_eq!(device_name(HostOs::Mac), "Arena Coach (macos)");
    assert_eq!(device_name(HostOs::Windows), "Arena Coach (windows)");
}
