use vstd::prelude::*;

use crate::config::{platform_name, platform_name_spec};
use crate::local_stats::CompanionStats;
use crate::log_follower::DetailedLogs;
use crate::log_path::{home_dir, joined_path, player_log_path_for, HostOs, MAC_LOG_RELATIVE, WINDOWS_LOG_RELATIVE};
use crate::match_payload::opt_str_view;
use crate::poster::{law_retry_classes, should_retry, should_retry_spec, PostError};
use crate::settings::{api_base_spec, nonempty, Settings};

verus! {

/// What the watcher is doing, as shown to the user.
#[derive(Debug, Clone, Copy, PartialEq, Eq, Structural)]
pub enum WatchPhase {
    Starting,
    LogMissing,
    DetailedLogsOff,
    Watching,
    MatchInProgress,
    Uploading,
    Uploaded,
    Error,
}

/// Everything the companion shows about the watcher.
#[derive(Debug, Clone)]
pub struct WatcherStatus {
    pub phase: WatchPhase,
    pub platform: String,
    pub is_dev: bool,
    pub developer_mode: bool,
    pub show_debug_info: bool,
    pub api_base: String,
    pub has_token: bool,
    pub signed_in_email: Option<String>,
    pub signed_in_name: Option<String>,
    pub log_path: String,
    pub log_exists: bool,
    pub detailed_logs: Option<bool>,
    pub last_match_id: Option<String>,
    pub last_error: Option<String>,
    pub last_upload_status: Option<u16>,
    pub host_reachable: Option<bool>,
    pub entries_seen: u64,
    pub stats: CompanionStats,
    pub pending_uploads: usize,
    pub failed_uploads: usize,
}

/// What the user asks the watcher to do.
#[derive(Debug, Clone)]
pub enum WatchCommand {
    ReplayFile(String),
    ReplayEmbedded,
    Refresh,
    RetryFailed,
    DiscardFailed,
}

/// What the watcher does after an upload failed.
#[derive(Debug, Clone, Copy, PartialEq, Eq, Structural)]
pub struct UploadFailure {
    /// The session is refused: uploads wait for the user to sign in again.
    pub auth_blocked: bool,
    /// The server refused the match itself: it is marked refused and not sent again.
    pub reject: bool,
    /// Seconds to wait before the next attempt.
    pub wait_secs: u64,
    /// The wait after the next failure.
    pub next_delay: u64,
}

/// The message shown when the log is missing.
pub const LOG_MISSING_MESSAGE: &'static str = "Player.log is missing. Play Arena once, or enable Detailed Logs and restart it.";

/// The message shown when detailed logs are off.
pub const DETAILED_LOGS_OFF_MESSAGE: &'static str = "Detailed Logs are off. In Arena: Options → Account → Detailed Logs (Plugin Support), then restart Arena.";

/// The message shown when the session was refused.
pub const AUTH_BLOCKED_MESSAGE: &'static str = "Sign in again or verify your email on the website, then refresh to resume uploads.";

/// The message shown when an upload failed for another reason.
pub const UPLOAD_FAILED_MESSAGE: &'static str = "Could not sync a match. Temporary failures retry automatically; rejected matches remain saved on this device.";

/// The message stored with a match the server refused.
pub const REJECTED_MESSAGE: &'static str = "The server rejected this match.";

/// The longest wait between attempts, in seconds.
pub const MAX_RETRY_DELAY: u64 = 300;

/// The first wait between attempts, in seconds.
pub const FIRST_RETRY_DELAY: u64 = 10;

/// Where the log is read from: the path the user set, unless empty; else where Arena
/// writes it on `os` below `home`; else `Player.log`.
pub open spec fn resolved_log_path(log_path: Option<Seq<char>>, os: HostOs, home: Option<Seq<char>>) -> Seq<char> {
    match nonempty(log_path) {
        Some(p) => p,
        None => match home {
            Some(h) => match os {
                HostOs::Mac => joined_path(h, MAC_LOG_RELATIVE@),
                HostOs::Windows => joined_path(h, WINDOWS_LOG_RELATIVE@),
                HostOs::Other => "Player.log"@,
            },
            None => "Player.log"@,
        },
    }
}

/// The phase after the log was looked at: off detailed logs stop watching from a quiet
/// phase; on or unknown detailed logs start it from a phase that waited for the log.
pub open spec fn probed_phase(phase: WatchPhase, detected: DetailedLogs) -> WatchPhase {
    match detected {
        DetailedLogs::Off => match phase {
            WatchPhase::Watching | WatchPhase::Starting | WatchPhase::LogMissing => WatchPhase::DetailedLogsOff,
            _ => phase,
        },
        DetailedLogs::On => match phase {
            WatchPhase::DetailedLogsOff | WatchPhase::LogMissing | WatchPhase::Starting => WatchPhase::Watching,
            _ => phase,
        },
        DetailedLogs::Unknown => match phase {
            WatchPhase::Starting | WatchPhase::LogMissing | WatchPhase::DetailedLogsOff => WatchPhase::Watching,
            _ => phase,
        },
    }
}

/// Whether a phase is one that `sync_phase` leaves alone: an error, an upload, or a
/// missing or quiet log.
pub open spec fn is_sticky(phase: WatchPhase) -> bool {
    match phase {
        WatchPhase::Error | WatchPhase::Uploading | WatchPhase::LogMissing | WatchPhase::DetailedLogsOff => true,
        _ => false,
    }
}

/// The phase the game state gives: in a match, just uploaded, or watching.
pub open spec fn synced_phase(phase: WatchPhase, in_match: bool, has_last_match: bool, last_upload_status: Option<u16>) -> WatchPhase {
    if is_sticky(phase) {
        phase
    } else if in_match {
        WatchPhase::MatchInProgress
    } else if has_last_match && (last_upload_status matches Some(code) && 200 <= code < 300) {
        WatchPhase::Uploaded
    } else {
        WatchPhase::Watching
    }
}

/// Whether the session was refused: no token, or 401 / 403.
pub open spec fn is_auth_error(error: PostError) -> bool {
    match error {
        PostError::Unauthenticated => true,
        PostError::Http { status, .. } => status == 401 || status == 403,
        _ => false,
    }
}

/// The wait after the next failure: doubled, at most `MAX_RETRY_DELAY`.
pub open spec fn next_delay_spec(delay: u64) -> u64 {
    if delay * 2 < MAX_RETRY_DELAY {
        (delay * 2) as u64
    } else {
        MAX_RETRY_DELAY
    }
}

/// Whether the message of `status` is `text`.
pub open spec fn shows(status: WatcherStatus, text: Seq<char>) -> bool {
    opt_str_view(status.last_error) == Some(text)
}

impl WatcherStatus {
    /// The status a watcher starts with: what the settings say, where the log is and
    /// whether it exists, the platform, the build and the all-time record.
    pub fn from_settings(
        settings: &Settings,
        log_path: String,
        log_exists: bool,
        os: HostOs,
        is_dev: bool,
        stats: CompanionStats,
    ) -> (r: WatcherStatus)
        ensures
            r.phase == (if log_exists {
                WatchPhase::Starting
            } else {
                WatchPhase::LogMissing
            }),
            r.platform@ == platform_name_spec(os),
            r.is_dev == is_dev,
            r.developer_mode == settings.developer_mode,
            r.show_debug_info == settings.show_debug_info,
            r.api_base@ == api_base_spec(settings.developer_mode),
            r.has_token == (nonempty(opt_str_view(settings.token)) is Some),
            opt_str_view(r.signed_in_email) == nonempty(opt_str_view(settings.user_email)),
            opt_str_view(r.signed_in_name) == nonempty(opt_str_view(settings.user_name)),
            r.log_path == log_path,
            r.log_exists == log_exists,
            r.detailed_logs is None,
            r.last_match_id is None,
            r.last_error is None,
            r.last_upload_status is None,
            r.host_reachable is None,
            r.entries_seen == 0,
            r.stats == stats,
            r.pending_uploads == 0,
            r.failed_uploads == 0,
    {
        WatcherStatus {
            phase: if log_exists {
                WatchPhase::Starting
            } else {
                WatchPhase::LogMissing
            },
            platform: platform_name(os).to_owned(),
            is_dev,
            developer_mode: settings.developer_mode,
            show_debug_info: settings.show_debug_info,
            api_base: settings.api_base(),
            has_token: settings.token().is_some(),
            signed_in_email: settings.user_email(),
            signed_in_name: settings.user_name(),
            log_path,
            log_exists,
            detailed_logs: None,
            last_match_id: None,
            last_error: None,
            last_upload_status: None,
            host_reachable: None,
            entries_seen: 0,
            stats,
            pending_uploads: 0,
            failed_uploads: 0,
        }
    }

    /// Shows the session and the log path of `settings`, as after a change of settings.
    pub fn show_settings(&mut self, settings: &Settings, log_path: String, log_exists: bool)
        ensures
            final(self).api_base@ == api_base_spec(settings.developer_mode),
            opt_str_view(final(self).signed_in_email) == nonempty(opt_str_view(settings.user_email)),
            opt_str_view(final(self).signed_in_name) == nonempty(opt_str_view(settings.user_name)),
            *final(self) == (WatcherStatus {
                log_path: log_path,
                log_exists: log_exists,
                api_base: final(self).api_base,
                has_token: nonempty(opt_str_view(settings.token)) is Some,
                signed_in_email: final(self).signed_in_email,
                signed_in_name: final(self).signed_in_name,
                ..*old(self)
            }),
    {
        self.log_path = log_path;
        self.log_exists = log_exists;
        self.api_base = settings.api_base();
        self.has_token = settings.token().is_some();
        self.signed_in_email = settings.user_email();
        self.signed_in_name = settings.user_name();
    }

    /// Records that the log is not there: nothing is known of detailed logs, and the phase
    /// says so unless an upload is running.
    pub fn log_absent(&mut self)
        ensures
            *final(self) == (WatcherStatus {
                log_exists: false,
                detailed_logs: None,
                phase: if old(self).phase == WatchPhase::Uploading {
                    WatchPhase::Uploading
                } else {
                    WatchPhase::LogMissing
                },
                ..*old(self)
            }),
    {
        self.log_exists = false;
        self.detailed_logs = None;
        if self.phase != WatchPhase::Uploading {
            self.phase = WatchPhase::LogMissing;
        }
    }

    /// Records what a look at the end of the log found out about detailed logs.
    pub fn apply_probe(&mut self, detected: DetailedLogs)
        ensures
            final(self).phase == probed_phase(old(self).phase, detected),
            final(self).phase != old(self).phase && detected == DetailedLogs::Off ==> shows(
                *final(self),
                DETAILED_LOGS_OFF_MESSAGE@,
            ),
            final(self).phase != old(self).phase && detected != DetailedLogs::Off ==> final(self).last_error is None,
            final(self).phase == old(self).phase ==> final(self).last_error == old(self).last_error,
            *final(self) == (WatcherStatus {
                log_exists: true,
                detailed_logs: match detected {
                    DetailedLogs::On => Some(true),
                    DetailedLogs::Off => Some(false),
                    DetailedLogs::Unknown => old(self).detailed_logs,
                },
                phase: final(self).phase,
                last_error: final(self).last_error,
                ..*old(self)
            }),
    {
        self.log_exists = true;
        match detected {
            DetailedLogs::On => {
                self.detailed_logs = Some(true);
                match self.phase {
                    WatchPhase::DetailedLogsOff | WatchPhase::LogMissing | WatchPhase::Starting => {
                        self.phase = WatchPhase::Watching;
                        self.last_error = None;
                    },
                    _ => {},
                }
            },
            DetailedLogs::Off => {
                self.detailed_logs = Some(false);
                match self.phase {
                    WatchPhase::Watching | WatchPhase::Starting | WatchPhase::LogMissing => {
                        self.phase = WatchPhase::DetailedLogsOff;
                        self.last_error = Some(DETAILED_LOGS_OFF_MESSAGE.to_owned());
                    },
                    _ => {},
                }
            },
            DetailedLogs::Unknown => {
                match self.phase {
                    WatchPhase::Starting | WatchPhase::LogMissing | WatchPhase::DetailedLogsOff => {
                        self.phase = WatchPhase::Watching;
                        self.last_error = None;
                    },
                    _ => {},
                }
            },
        }
    }

    /// Brings the phase in line with the game: in a match, just uploaded, or watching; an
    /// error, an upload, or a missing or quiet log stay as they are.
    pub fn sync_phase(&mut self, in_match: bool)
        ensures
            *final(self) == (WatcherStatus {
                phase: synced_phase(
                    old(self).phase,
                    in_match,
                    old(self).last_match_id is Some,
                    old(self).last_upload_status,
                ),
                ..*old(self)
            }),
    {
        match self.phase {
            WatchPhase::Error | WatchPhase::Uploading | WatchPhase::LogMissing | WatchPhase::DetailedLogsOff => {
                return;
            },
            _ => {},
        }
        let uploaded = match self.last_upload_status {
            Some(code) => 200 <= code && code < 300,
            None => false,
        };
        self.phase = if in_match {
            WatchPhase::MatchInProgress
        } else if self.last_match_id.is_some() && uploaded {
            WatchPhase::Uploaded
        } else {
            WatchPhase::Watching
        };
    }

    /// Shows an error.
    pub fn show_error(&mut self, message: String)
        ensures
            *final(self) == (WatcherStatus {
                phase: WatchPhase::Error,
                last_error: Some(message),
                ..*old(self)
            }),
    {
        self.phase = WatchPhase::Error;
        self.last_error = Some(message);
    }

    /// Records that reading the log found no file.
    pub fn log_missing(&mut self)
        ensures
            shows(*final(self), LOG_MISSING_MESSAGE@),
            *final(self) == (WatcherStatus {
                phase: WatchPhase::LogMissing,
                log_exists: false,
                last_error: final(self).last_error,
                ..*old(self)
            }),
    {
        self.phase = WatchPhase::LogMissing;
        self.log_exists = false;
        self.last_error = Some(LOG_MISSING_MESSAGE.to_owned());
    }

    /// Records that more log entries were read.
    pub fn saw_entries(&mut self, count: u64)
        ensures
            count == 0 ==> *final(self) == *old(self),
            count > 0 ==> *final(self) == (WatcherStatus {
                entries_seen: if old(self).entries_seen + count > u64::MAX {
                    u64::MAX
                } else {
                    (old(self).entries_seen + count) as u64
                },
                log_exists: true,
                ..*old(self)
            }),
    {
        if count > 0 {
            self.entries_seen = self.entries_seen.saturating_add(count);
            self.log_exists = true;
        }
    }

    /// Records that an upload started for the game `id`.
    pub fn upload_started(&mut self, id: &str)
        ensures
            opt_str_view(final(self).last_match_id) == Some(id@),
            *final(self) == (WatcherStatus {
                phase: WatchPhase::Uploading,
                last_match_id: final(self).last_match_id,
                ..*old(self)
            }),
    {
        self.phase = WatchPhase::Uploading;
        self.last_match_id = Some(id.to_owned());
    }

    /// Records that the server accepted an upload with `status`.
    pub fn upload_succeeded(&mut self, status: u16)
        ensures
            *final(self) == (WatcherStatus {
                phase: WatchPhase::Uploaded,
                last_upload_status: Some(status),
                last_error: None,
                ..*old(self)
            }),
    {
        self.phase = WatchPhase::Uploaded;
        self.last_upload_status = Some(status);
        self.last_error = None;
    }

    /// Records that an upload failed; `auth_blocked` tells a refused session from the rest.
    pub fn upload_failed(&mut self, auth_blocked: bool)
        ensures
            auth_blocked ==> shows(*final(self), AUTH_BLOCKED_MESSAGE@),
            !auth_blocked ==> shows(*final(self), UPLOAD_FAILED_MESSAGE@),
            *final(self) == (WatcherStatus {
                phase: WatchPhase::Error,
                last_error: final(self).last_error,
                ..*old(self)
            }),
    {
        self.phase = WatchPhase::Error;
        self.last_error = Some(
            if auth_blocked {
                AUTH_BLOCKED_MESSAGE.to_owned()
            } else {
                UPLOAD_FAILED_MESSAGE.to_owned()
            },
        );
    }

    /// Records the counts of the outbox.
    pub fn show_outbox(&mut self, pending: usize, failed: usize)
        ensures
            *final(self) == (WatcherStatus {
                pending_uploads: pending,
                failed_uploads: failed,
                ..*old(self)
            }),
    {
        self.pending_uploads = pending;
        self.failed_uploads = failed;
    }

    /// Shows that the log at `log_path` is replayed from its start.
    pub fn show_replay(&mut self, log_path: String, log_exists: bool)
        ensures
            *final(self) == (WatcherStatus {
                log_path: log_path,
                log_exists: log_exists,
                phase: WatchPhase::Watching,
                last_error: None,
                ..*old(self)
            }),
    {
        self.log_path = log_path;
        self.log_exists = log_exists;
        self.phase = WatchPhase::Watching;
        self.last_error = None;
    }

    /// Shows that a log entry proved detailed logs on.
    pub fn saw_detailed_logs(&mut self)
        ensures
            *final(self) == (WatcherStatus { detailed_logs: Some(true), ..*old(self) }),
    {
        self.detailed_logs = Some(true);
    }

    /// Shows whether the host answered.
    pub fn show_host_reachable(&mut self, reachable: bool)
        ensures
            *final(self) == (WatcherStatus { host_reachable: Some(reachable), ..*old(self) }),
    {
        self.host_reachable = Some(reachable);
    }

    /// Shows the all-time record.
    pub fn show_stats(&mut self, stats: CompanionStats)
        ensures
            *final(self) == (WatcherStatus { stats: stats, ..*old(self) }),
    {
        self.stats = stats;
    }

    /// Shows a new sign-in: a token, the e-mail address, and no error.
    pub fn show_signed_in(&mut self, email: Option<String>)
        ensures
            *final(self) == (WatcherStatus {
                has_token: true,
                signed_in_email: email,
                last_error: None,
                ..*old(self)
            }),
    {
        self.has_token = true;
        self.signed_in_email = email;
        self.last_error = None;
    }

    /// Shows that the user signed out.
    pub fn show_signed_out(&mut self)
        ensures
            *final(self) == (WatcherStatus { has_token: false, signed_in_email: None, ..*old(self) }),
    {
        self.has_token = false;
        self.signed_in_email = None;
    }

    /// Forgets the last upload, as when the session changes.
    pub fn forget_last_upload(&mut self)
        ensures
            *final(self) == (WatcherStatus {
                last_match_id: None,
                last_upload_status: None,
                ..*old(self)
            }),
    {
        self.last_match_id = None;
        self.last_upload_status = None;
    }
}

/// Where the log is read from: the path the user set, unless empty; else where Arena
/// writes it on `os` below the home directory of the current user; else `Player.log`.
pub fn resolve_log_path(settings: &Settings, os: HostOs) -> (r: String)
    ensures
        exists|home: Option<Seq<char>>|
            r@ == #[trigger] resolved_log_path(opt_str_view(settings.log_path), os, home),
        nonempty(opt_str_view(settings.log_path)) matches Some(p) ==> r@ == p,
        nonempty(opt_str_view(settings.log_path)) is None && os == HostOs::Other ==> r@ == "Player.log"@,
{
    let home = home_dir();
    let r = match &home {
        Some(h) => resolve_log_path_from(settings, os, Some(h.as_str())),
        None => resolve_log_path_from(settings, os, None),
    };
    proof {
        let h = match home {
            Some(h) => Some(h@),
            None => None,
        };
        assert(r@ == resolved_log_path(opt_str_view(settings.log_path), os, h));
    }
    r
}

/// Where the log is read from, given the home directory `home`: the path the user set,
/// unless empty; else where Arena writes it on `os` below `home`; else `Player.log`.
pub fn resolve_log_path_from(settings: &Settings, os: HostOs, home: Option<&str>) -> (r: String)
    ensures
        r@ == resolved_log_path(
            opt_str_view(settings.log_path),
            os,
            match home {
                Some(h) => Some(h@),
                None => None,
            },
        ),
{
    match &settings.log_path {
        Some(p) => if !p.as_str().is_empty() {
            return p.clone();
        },
        None => {},
    }
    let found = match home {
        Some(h) => player_log_path_for(os, h),
        None => None,
    };
    match found {
        Some(p) => p,
        None => "Player.log".to_owned(),
    }
}

/// What to do after an upload failed with `error`, having waited `retry_delay` seconds
/// after the last failure: a refused session blocks uploads; an error not worth repeating
/// marks the match refused; the next attempt waits `retry_delay`, and the wait after that
/// doubles, up to `MAX_RETRY_DELAY`.
pub fn upload_failure(error: &PostError, retry_delay: u64) -> (r: UploadFailure)
    requires
        retry_delay <= MAX_RETRY_DELAY,
    ensures
        r.auth_blocked == (match *error {
            PostError::Unauthenticated => true,
            PostError::Http { status, .. } => status == 401 || status == 403,
            _ => false,
        }),
        r.auth_blocked ==> !r.reject,
        r.reject == (match *error {
            PostError::Http { status, .. } => status != 401 && status != 403 && status != 429
                && status < 500,
            PostError::TwoFactor | PostError::Encode(_) => true,
            PostError::Unauthenticated | PostError::Network(_) => false,
        }),
        r.next_delay == (if retry_delay * 2 < 300 {
            retry_delay * 2
        } else {
            300
        }),
        r.auth_blocked == is_auth_error(*error),
        r.reject == (!is_auth_error(*error) && !should_retry_spec(*error)),
        r.wait_secs == retry_delay,
        r.next_delay == next_delay_spec(retry_delay),
{
    proof {
        law_upload_failure_classes(*error, retry_delay);
    }
    let auth_blocked = match error {
        PostError::Unauthenticated => true,
        PostError::Http { status, .. } => *status == 401 || *status == 403,
        _ => false,
    };
    let doubled = retry_delay * 2;
    UploadFailure {
        auth_blocked,
        reject: !auth_blocked && !should_retry(error),
        wait_secs: retry_delay,
        next_delay: if doubled < MAX_RETRY_DELAY {
            doubled
        } else {
            MAX_RETRY_DELAY
        },
    }
}

/// What a failed upload means, by its error: a missing sign-in or a 401 / 403 blocks uploads
/// until the user signs in again and never rejects the match; a refusal of the match itself
/// (another status below 500 but 429, a second factor, a body that cannot be encoded) rejects
/// it; a network failure, a rate limit or a server error waits and tries again. The wait
/// doubles, up to 300 seconds.
pub proof fn law_upload_failure_classes(error: PostError, retry_delay: u64)
    ensures
        is_auth_error(error) == (match error {
            PostError::Unauthenticated => true,
            PostError::Http { status, .. } => status == 401 || status == 403,
            _ => false,
        }),
        (!is_auth_error(error) && !should_retry_spec(error)) == (match error {
            PostError::Http { status, .. } => status != 401 && status != 403 && status != 429
                && status < 500,
            PostError::TwoFactor | PostError::Encode(_) => true,
            PostError::Unauthenticated | PostError::Network(_) => false,
        }),
        next_delay_spec(retry_delay) == (if retry_delay * 2 < 300 {
            retry_delay * 2
        } else {
            300
        }),
{
    law_retry_classes(error);
}

/// Whether the host is checked on this tick of the loop: the first and every 25th.
pub fn health_check_due(ticks: u64) -> (r: bool)
    ensures
        r == (ticks == 1 || ticks % 25 == 0),
{
    ticks == 1 || ticks % 25 == 0
}

/// Whether the log is looked at again on this tick of the loop: every 25th.
pub fn probe_due(ticks: u64) -> (r: bool)
    ensures
        r == (ticks % 25 == 0),
{
    ticks % 25 == 0
}

/// Whether a command may run: replays only in developer mode.
pub fn command_allowed(command: &WatchCommand, developer_mode: bool) -> (r: bool)
    ensures
        r == (match command {
            WatchCommand::ReplayFile(_) | WatchCommand::ReplayEmbedded => developer_mode,
            _ => true,
        }),
{
    match command {
        WatchCommand::ReplayFile(_) | WatchCommand::ReplayEmbedded => developer_mode,
        _ => true,
    }
}

/// When the watcher may upload: what blocks uploads, the wait after the next failure, and
/// the time (in milliseconds on the watcher's clock) before which no attempt starts.
#[derive(Debug, Clone, Copy, PartialEq, Eq)]
pub struct UploadScheduler {
    auth_blocked: bool,
    outbox_error: bool,
    retry_delay: u64,
    next_retry_at_ms: u64,
}

/// The model of a scheduler.
pub struct SchedulerView {
    pub auth_blocked: bool,
    pub outbox_error: bool,
    pub retry_delay: u64,
    pub next_retry_at_ms: u64,
}

impl View for UploadScheduler {
    type V = SchedulerView;

    closed spec fn view(&self) -> SchedulerView {
        SchedulerView {
            auth_blocked: self.auth_blocked,
            outbox_error: self.outbox_error,
            retry_delay: self.retry_delay,
            next_retry_at_ms: self.next_retry_at_ms,
        }
    }
}

/// Whether an upload may start at `now_ms` while `uploading` tells whether one runs.
pub open spec fn may_upload_spec(s: SchedulerView, uploading: bool, now_ms: u64) -> bool {
    !s.outbox_error && !s.auth_blocked && !uploading && now_ms >= s.next_retry_at_ms
}

/// `now_ms` plus `secs` seconds, at most `u64::MAX`.
pub open spec fn later_ms(now_ms: u64, secs: u64) -> u64 {
    if now_ms + secs * 1000 > u64::MAX {
        u64::MAX
    } else {
        (now_ms + secs * 1000) as u64
    }
}

impl UploadScheduler {
    /// The wait stays within `MAX_RETRY_DELAY`.
    #[verifier::type_invariant]
    closed spec fn delay_bounded(self) -> bool {
        self.retry_delay <= MAX_RETRY_DELAY
    }

    /// A scheduler for a new session at `now_ms`: nothing blocks, the first wait is
    /// `FIRST_RETRY_DELAY`, and an upload may start at once.
    pub fn new(now_ms: u64, outbox_error: bool) -> (r: UploadScheduler)
        ensures
            r@ == (SchedulerView {
                auth_blocked: false,
                outbox_error: outbox_error,
                retry_delay: FIRST_RETRY_DELAY,
                next_retry_at_ms: now_ms,
            }),
    {
        UploadScheduler {
            auth_blocked: false,
            outbox_error,
            retry_delay: FIRST_RETRY_DELAY,
            next_retry_at_ms: now_ms,
        }
    }

    /// Whether an upload may start at `now_ms`: no store error, no refused session, no
    /// upload under way, and the wait is over.
    pub fn may_upload(&self, uploading: bool, now_ms: u64) -> (r: bool)
        ensures
            r == may_upload_spec(self@, uploading, now_ms),
    {
        !self.outbox_error && !self.auth_blocked && !uploading && now_ms >= self.next_retry_at_ms
    }

    /// Records that the outbox could not be loaded or stored: uploads stop.
    pub fn store_failed(&mut self)
        ensures
            final(self)@ == (SchedulerView { outbox_error: true, ..old(self)@ }),
    {
        proof {
            use_type_invariant(&*self);
        }
        self.outbox_error = true;
    }

    /// Whether storing the outbox failed.
    pub fn store_error(&self) -> (r: bool)
        ensures
            r == self@.outbox_error,
    {
        self.outbox_error
    }

    /// Records that the server accepted an upload: the wait starts over.
    pub fn upload_succeeded(&mut self)
        ensures
            final(self)@ == (SchedulerView { retry_delay: FIRST_RETRY_DELAY, ..old(self)@ }),
    {
        self.retry_delay = FIRST_RETRY_DELAY;
    }

    /// Records that an upload failed with `error` at `now_ms`, and says what to do with the
    /// match (see `upload_failure`).
    pub fn upload_failed(&mut self, error: &PostError, now_ms: u64) -> (r: UploadFailure)
        ensures
            r.auth_blocked == is_auth_error(*error),
            r.reject == (!is_auth_error(*error) && !should_retry_spec(*error)),
            r.wait_secs == old(self)@.retry_delay,
            r.next_delay == next_delay_spec(old(self)@.retry_delay),
            final(self)@ == (SchedulerView {
                auth_blocked: r.auth_blocked,
                retry_delay: r.next_delay,
                next_retry_at_ms: later_ms(now_ms, r.wait_secs),
                ..old(self)@
            }),
    {
        proof {
            use_type_invariant(&*self);
        }
        let failure = upload_failure(error, self.retry_delay);
        self.auth_blocked = failure.auth_blocked;
        self.retry_delay = failure.next_delay;
        self.next_retry_at_ms = now_ms.saturating_add(failure.wait_secs * 1000);
        failure
    }

    /// Records that an upload ended without an answer at `now_ms`: the next attempt waits
    /// `FIRST_RETRY_DELAY` seconds.
    pub fn upload_lost(&mut self, now_ms: u64)
        ensures
            final(self)@ == (SchedulerView {
                next_retry_at_ms: later_ms(now_ms, FIRST_RETRY_DELAY),
                ..old(self)@
            }),
    {
        proof {
            use_type_invariant(&*self);
        }
        self.next_retry_at_ms = now_ms.saturating_add(FIRST_RETRY_DELAY * 1000);
    }

    /// Records that the failed matches were retried or discarded and the outbox stored at
    /// `now_ms`: nothing blocks, and an upload may start at once.
    pub fn outbox_cleared(&mut self, now_ms: u64)
        ensures
            final(self)@ == (SchedulerView {
                outbox_error: false,
                auth_blocked: false,
                next_retry_at_ms: now_ms,
                ..old(self)@
            }),
    {
        proof {
            use_type_invariant(&*self);
        }
        self.outbox_error = false;
        self.auth_blocked = false;
        self.next_retry_at_ms = now_ms;
    }

    /// Records that the user asked to refresh: a refused session is tried again.
    pub fn refreshed(&mut self)
        ensures
            final(self)@ == (SchedulerView { auth_blocked: false, ..old(self)@ }),
    {
        proof {
            use_type_invariant(&*self);
        }
        self.auth_blocked = false;
    }
}

/// While the session is refused, no upload starts, whatever the time.
pub proof fn law_refused_session_blocks_uploads(s: SchedulerView, uploading: bool, now_ms: u64)
    requires
        s.auth_blocked,
    ensures
        !may_upload_spec(s, uploading, now_ms),
{
}

/// The wait between attempts never passes `MAX_RETRY_DELAY`, and grows until it reaches it.
pub proof fn law_retry_delay_bounded(delay: u64)
    requires
        delay <= MAX_RETRY_DELAY,
    ensures
        next_delay_spec(delay) <= MAX_RETRY_DELAY,
        delay > 0 ==> next_delay_spec(delay) > delay || next_delay_spec(delay) == MAX_RETRY_DELAY,
{
}

/// An error, an upload under way, or a missing or quiet log is never hidden by the game
/// state.
pub proof fn law_sync_keeps_sticky_phase(phase: WatchPhase, in_match: bool, has_last_match: bool, last_upload_status: Option<u16>)
    requires
        is_sticky(phase),
    ensures
        synced_phase(phase, in_match, has_last_match, last_upload_status) == phase,
{
}

} // verus!
