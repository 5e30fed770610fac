use arenacoach::config::{
    api_base_for_mode, broadcasting_auth_url, device_login_url, device_logout_url, health_url,
    match_url, matches_url, platform_name, realtime_url,
};
use arenacoach::log_path::{
    player_log_path, player_log_path_for, player_prev_log_path, HostOs,
};
use std::path::Path;

#[test]
fn matches_url_strips_trailing_slash() {
    assert_eq!(
        matches_url("https://arenacoach-web.test/"),
        "https://arenacoach-web.test/api/matches"
    );
    assert_eq!(
        device_login_url("https://arenacoach-web.test/"),
        "https://arenacoach-web.test/api/device/login"
    );
    assert_eq!(
        realtime_url("https://arenacoach-web.test/"),
        "https://arenacoach-web.test/api/realtime"
    );
    assert_eq!(
        match_url("https://arenacoach-web.test/", "match-1"),
        "https://arenacoach-web.test/api/matches/match-1"
    );
}

#[test]
fn mode_selects_endpoint_independently_of_build() {
    assert_eq!(api_base_for_mode(false), "https://arenacoach.com");
    assert_eq!(api_base_for_mode(true), "https://arenacoach-web.test");
}

#[test]
fn every_endpoint_strips_all_trailing_slashes() {
    assert_eq!(health_url("https://h.test///"), "https://h.test/up");
    assert_eq!(
        device_logout_url("https://h.test"),
        "https://h.test/api/device/logout"
    );
    assert_eq!(
        broadcasting_auth_url("https://h.test/"),
        "https://h.test/api/broadcasting/auth"
    );
    assert_eq!(matches_url(""), "/api/matches");
}

#[test]
fn platform_names() {
    assert_eq!(platform_name(HostOs::Mac), "macos");
    assert_eq!(platform_name(HostOs::Windows), "windows");
    assert_eq!(platform_name(HostOs::Other), "other");
}

#[test]
fn mac_path_matches_prd() {
    let path = player_log_path_for(HostOs::Mac, "/Users/chris").unwrap();
    assert_eq!(
        Path::new(&path),
        Path::new("/Users/chris/Library/Logs/Wizards Of The Coast/MTGA/Player.log")
    );
}

#[test]
fn windows_path_uses_locallow() {
    let path = player_log_path_for(HostOs::Windows, "/Users/chris").unwrap();
    assert!(Path::new(&path).ends_with(Path::new(
        "AppData/LocalLow/Wizards Of The Coast/MTGA/Player.log"
    )));
}

#[test]
fn prev_log_sits_beside_player_log() {
    let current = "/tmp/MTGA/Player.log";
    assert_eq!(
        Path::new(&player_prev_log_path(current)),
        Path::new("/tmp/MTGA/Player-prev.log")
    );
}

#[test]
fn other_systems_have_no_known_log() {
    assert_eq!(player_log_path_for(HostOs::Other, "/home/chris"), None);
    assert_eq!(player_log_path(HostOs::Other), None);
}
