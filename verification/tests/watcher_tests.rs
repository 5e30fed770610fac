use arenacoach::local_stats::CompanionStats;
use arenacoach::log_follower::DetailedLogs;
use arenacoach::log_path::HostOs;
use arenacoach::poster::PostError;
use arenacoach::settings::Settings;
use arenacoach::watcher::{
    command_allowed, health_check_due, probe_due, resolve_log_path, resolve_log_path_from,
    upload_failure, UploadScheduler, WatchCommand, WatchPhase, WatcherStatus, AUTH_BLOCKED_MESSAGE,
    DETAILED_LOGS_OFF_MESSAGE, LOG_MISSING_MESSAGE,
};
use std::path::Path;

fn status(log_exists: bool) -> WatcherStatus {
    let settings = Settings {
        token: Some("t".into()),
        user_email: Some("a@b.com".into()),
        ..Settings::default()
    };
    WatcherStatus::from_settings(
        &settings,
        "Player.log".into(),
        log_exists,
        HostOs::Mac,
        false,
        CompanionStats::default(),
    )
}

#[test]
fn starting_status_follows_the_settings() {
    let s = status(true);
    assert_eq!(s.phase, WatchPhase::Starting);
    assert_eq!(s.platform, "macos");
    assert_eq!(s.api_base, "https://arenacoach.com");
    assert!(s.has_token);
    assert_eq!(s.signed_in_email.as_deref(), Some("a@b.com"));
    assert_eq!(status(false).phase, WatchPhase::LogMissing);
}

#[test]
fn probe_moves_between_quiet_and_watching() {
    let mut s = status(true);
    s.apply_probe(DetailedLogs::Off);
    assert_eq!(s.phase, WatchPhase::DetailedLogsOff);
    assert_eq!(s.detailed_logs, Some(false));
    assert_eq!(s.last_error.as_deref(), Some(DETAILED_LOGS_OFF_MESSAGE));
    s.apply_probe(DetailedLogs::On);
    assert_eq!(s.phase, WatchPhase::Watching);
    assert_eq!(s.last_error, None);
    s.phase = WatchPhase::Uploading;
    s.apply_probe(DetailedLogs::Off);
    assert_eq!(s.phase, WatchPhase::Uploading);
    s.log_absent();
    assert_eq!(s.phase, WatchPhase::Uploading);
    assert!(!s.log_exists);
}

#[test]
fn sync_phase_keeps_errors_and_shows_the_game() {
    let mut s = status(true);
    s.sync_phase(true);
    assert_eq!(s.phase, WatchPhase::MatchInProgress);
    s.sync_phase(false);
    assert_eq!(s.phase, WatchPhase::Watching);
    s.upload_started("m1");
    s.upload_succeeded(201);
    s.sync_phase(false);
    assert_eq!(s.phase, WatchPhase::Uploaded);
    s.show_error("boom".into());
    s.sync_phase(true);
    assert_eq!(s.phase, WatchPhase::Error);
    s.log_missing();
    assert_eq!(s.last_error.as_deref(), Some(LOG_MISSING_MESSAGE));
    s.sync_phase(true);
    assert_eq!(s.phase, WatchPhase::LogMissing);
}

#[test]
fn upload_failures_block_reject_or_wait() {
    let auth = upload_failure(&PostError::Http { status: 403, body: String::new() }, 10);
    assert!(auth.auth_blocked && !auth.reject);
    assert_eq!((auth.wait_secs, auth.next_delay), (10, 20));
    let rejected = upload_failure(&PostError::Http { status: 422, body: String::new() }, 160);
    assert!(!rejected.auth_blocked && rejected.reject);
    assert_eq!(rejected.next_delay, 300);
    let busy = upload_failure(&PostError::Network("offline".into()), 300);
    assert!(!busy.auth_blocked && !busy.reject);
    assert_eq!(busy.next_delay, 300);
    let mut s = status(true);
    s.upload_failed(true);
    assert_eq!(s.phase, WatchPhase::Error);
    assert_eq!(s.last_error.as_deref(), Some(AUTH_BLOCKED_MESSAGE));
}

#[test]
fn log_path_prefers_the_user_setting() {
    let custom = Settings {
        log_path: Some("/logs/Player.log".into()),
        ..Settings::default()
    };
    assert_eq!(resolve_log_path(&custom, HostOs::Mac), "/logs/Player.log");
    let blank = Settings {
        log_path: Some(String::new()),
        ..Settings::default()
    };
    assert_eq!(resolve_log_path(&blank, HostOs::Other), "Player.log");
    assert_eq!(
        Path::new(&resolve_log_path_from(&blank, HostOs::Mac, Some("/Users/chris"))),
        Path::new("/Users/chris/Library/Logs/Wizards Of The Coast/MTGA/Player.log")
    );
    assert_eq!(resolve_log_path_from(&blank, HostOs::Windows, None), "Player.log");
}

#[test]
fn timers_and_commands() {
    assert!(health_check_due(1));
    assert!(health_check_due(50));
    assert!(!health_check_due(2));
    assert!(probe_due(25));
    assert!(!probe_due(1));
    assert!(!command_allowed(&WatchCommand::ReplayEmbedded, false));
    assert!(command_allowed(&WatchCommand::ReplayFile("x".into()), true));
    assert!(command_allowed(&WatchCommand::RetryFailed, false));
}

#[test]
fn status_shows_replay_session_and_record() {
    let mut s = status(false);
    s.show_error("old".into());
    s.show_replay("/tmp/replay.log".into(), true);
    assert_eq!(s.phase, WatchPhase::Watching);
    assert_eq!(s.last_error, None);
    assert_eq!(s.log_path, "/tmp/replay.log");
    s.show_signed_out();
    assert!(!s.has_token);
    assert_eq!(s.signed_in_email, None);
    s.show_signed_in(Some("x@y.z".into()));
    assert!(s.has_token);
    s.show_host_reachable(false);
    assert_eq!(s.host_reachable, Some(false));
    s.saw_detailed_logs();
    assert_eq!(s.detailed_logs, Some(true));
    let record = CompanionStats { games: 3, wins: 2, losses: 1, unknown: 0 };
    s.show_stats(record);
    assert_eq!(s.stats, record);
    s.saw_entries(0);
    assert_eq!(s.entries_seen, 0);
    s.saw_entries(5);
    assert_eq!(s.entries_seen, 5);
    s.show_outbox(2, 1);
    assert_eq!((s.pending_uploads, s.failed_uploads), (2, 1));
    s.forget_last_upload();
    assert_eq!(s.last_match_id, None);
}

#[test]
fn scheduler_waits_blocks_and_resumes() {
    let mut scheduler = UploadScheduler::new(1_000, false);
    assert!(scheduler.may_upload(false, 1_000));
    assert!(!scheduler.may_upload(true, 1_000));
    let failure = scheduler.upload_failed(&PostError::Network("offline".into()), 1_000);
    assert!(!failure.reject && !failure.auth_blocked);
    assert_eq!(failure.wait_secs, 10);
    assert!(!scheduler.may_upload(false, 10_999));
    assert!(scheduler.may_upload(false, 11_000));
    let second = scheduler.upload_failed(&PostError::Network("offline".into()), 11_000);
    assert_eq!(second.wait_secs, 20);
    scheduler.upload_succeeded();
    let third = scheduler.upload_failed(&PostError::Http { status: 401, body: String::new() }, 40_000);
    assert!(third.auth_blocked);
    assert_eq!(third.wait_secs, 10);
    assert!(!scheduler.may_upload(false, u64::MAX));
    scheduler.refreshed();
    assert!(scheduler.may_upload(false, 50_000));
    scheduler.store_failed();
    assert!(scheduler.store_error());
    assert!(!scheduler.may_upload(false, 50_000));
    scheduler.outbox_cleared(60_000);
    assert!(scheduler.may_upload(false, 60_000));
    scheduler.upload_lost(60_000);
    assert!(!scheduler.may_upload(false, 69_999));
    assert!(scheduler.may_upload(false, 70_000));
}
