use vstd::prelude::*;

use crate::config::{api_base_for_mode, DEV_API_BASE, PROD_API_BASE};
use crate::json::parse_json;
use crate::match_payload::{copy_opt_str, opt_str_view};
use crate::config::{platform_name, platform_name_spec};
use crate::log_path::HostOs;
use crate::poster::DeviceSession;
use crate::text::{str_eq, trim_str, trim_ws};
use vstd::string::StringExecFns;

verus! {

/// The preferences of the companion and the session of the signed-in user.
#[derive(Debug, Clone)]
pub struct Settings {
    /// Counts the sessions ended, so that work started for an earlier session can tell.
    pub generation: u64,
    pub developer_mode: bool,
    pub show_debug_info: bool,
    pub token: Option<String>,
    pub user_id: Option<i64>,
    pub user_email: Option<String>,
    pub user_name: Option<String>,
    pub log_path: Option<String>,
}

/// The session kept in the system credential store.
#[derive(Debug, Clone)]
pub struct SavedSession {
    pub api_base: String,
    pub token: String,
    pub user_id: i64,
    pub user_email: Option<String>,
    pub user_name: Option<String>,
}

/// A text value where it is present and not empty.
pub open spec fn nonempty(value: Option<Seq<char>>) -> Option<Seq<char>> {
    match value {
        Some(v) => if v.len() > 0 {
            Some(v)
        } else {
            None
        },
        None => None,
    }
}

/// The web host of a mode.
pub open spec fn api_base_spec(developer_mode: bool) -> Seq<char> {
    if developer_mode {
        DEV_API_BASE@
    } else {
        PROD_API_BASE@
    }
}

/// A user id where it is present and positive.
pub open spec fn positive_id(value: Option<i64>) -> Option<i64> {
    match value {
        Some(id) => if id > 0 {
            Some(id)
        } else {
            None
        },
        None => None,
    }
}

/// Whether `s` holds no session: no token, no user.
pub open spec fn signed_out(s: Settings) -> bool {
    &&& s.token is None
    &&& s.user_id is None
    &&& s.user_email is None
    &&& s.user_name is None
}

/// Whether `t` keeps the preferences of `s`.
pub open spec fn same_preferences(s: Settings, t: Settings) -> bool {
    &&& t.show_debug_info == s.show_debug_info
    &&& opt_str_view(t.log_path) == opt_str_view(s.log_path)
}

/// What the stored text of the settings says of the mode: whether it is one JSON document
/// that names `developer_mode`.
pub open spec fn names_mode_spec(text: Seq<char>) -> bool {
    match crate::json::parsed_json(text) {
        Some(v) => v.get("developer_mode"@) is Some,
        None => false,
    }
}

/// The settings once the session is ended.
pub open spec fn cleared(s: Settings) -> Settings {
    Settings {
        generation: if s.generation == u64::MAX {
            0
        } else {
            (s.generation + 1) as u64
        },
        developer_mode: s.developer_mode,
        show_debug_info: s.show_debug_info,
        token: None,
        user_id: None,
        user_email: None,
        user_name: None,
        log_path: s.log_path,
    }
}

/// What identifies the session of `s`.
pub open spec fn session_key_spec(s: Settings) -> (Seq<char>, Option<i64>, u64, Option<Seq<char>>) {
    (api_base_spec(s.developer_mode), positive_id(s.user_id), s.generation, nonempty(opt_str_view(s.token)))
}

impl Default for Settings {
    fn default() -> (r: Settings)
        ensures
            r.generation == 0,
            !r.developer_mode,
            !r.show_debug_info,
            signed_out(r),
            r.log_path is None,
    {
        Settings {
            generation: 0,
            developer_mode: false,
            show_debug_info: false,
            token: None,
            user_id: None,
            user_email: None,
            user_name: None,
            log_path: None,
        }
    }
}

impl Settings {
    /// Ends the session: forgets the token and the user, and counts one more session ended
    /// (wrapping around).
    pub fn clear_session(&mut self)
        ensures
            *final(self) == cleared(*old(self)),
    {
        self.generation = self.generation.wrapping_add(1);
        self.token = None;
        self.user_id = None;
        self.user_email = None;
        self.user_name = None;
    }

    /// Switches between development and production. Returns whether the mode changed; a
    /// change ends the session, since a session belongs to one host.
    pub fn set_developer_mode(&mut self, enabled: bool) -> (changed: bool)
        ensures
            changed == (old(self).developer_mode != enabled),
            final(self).developer_mode == enabled,
            !changed ==> *final(self) == *old(self),
            changed ==> *final(self) == cleared(Settings { developer_mode: enabled, ..*old(self) }),
            same_preferences(*old(self), *final(self)),
    {
        if self.developer_mode == enabled {
            return false;
        }
        self.developer_mode = enabled;
        self.clear_session();
        true
    }

    /// The web host of the current mode.
    pub fn api_base(&self) -> (r: String)
        ensures
            r@ == api_base_spec(self.developer_mode),
    {
        api_base_for_mode(self.developer_mode)
    }

    /// The token, unless it is missing or empty.
    pub fn token(&self) -> (r: Option<String>)
        ensures
            opt_str_view(r) == nonempty(opt_str_view(self.token)),
    {
        nonempty_copy(&self.token)
    }

    /// The user's e-mail address, unless it is missing or empty.
    pub fn user_email(&self) -> (r: Option<String>)
        ensures
            opt_str_view(r) == nonempty(opt_str_view(self.user_email)),
    {
        nonempty_copy(&self.user_email)
    }

    /// The user's name, unless it is missing or empty.
    pub fn user_name(&self) -> (r: Option<String>)
        ensures
            opt_str_view(r) == nonempty(opt_str_view(self.user_name)),
    {
        nonempty_copy(&self.user_name)
    }

    /// The user id, unless it is missing or not positive.
    pub fn user_id(&self) -> (r: Option<i64>)
        ensures
            r == positive_id(self.user_id),
    {
        match self.user_id {
            Some(id) => if id > 0 {
                Some(id)
            } else {
                None
            },
            None => None,
        }
    }

    /// What identifies the current session: the host, the user, the sessions ended so far
    /// and the token. Work started for one session compares it before it reports back.
    pub fn session_key(&self) -> (r: (String, Option<i64>, u64, Option<String>))
        ensures
            (r.0@, r.1, r.2, opt_str_view(r.3)) == session_key_spec(*self),
    {
        (self.api_base(), self.user_id(), self.generation, self.token())
    }

    /// Settings read from storage: a file that does not name the mode was written by an
    /// older version, whose session may belong to another host, so its session is ended.
    pub fn from_stored(stored: Settings, names_mode: bool) -> (r: Settings)
        ensures
            r == (if names_mode {
                stored
            } else {
                cleared(stored)
            }),
    {
        let mut r = stored;
        if !names_mode {
            r.clear_session();
        }
        r
    }

    /// Whether the stored text of the settings names the mode.
    pub fn names_mode(text: &str) -> (r: bool)
        ensures
            r == names_mode_spec(text@),
    {
        match parse_json(text) {
            Some(v) => v.get("developer_mode").is_some(),
            None => false,
        }
    }

    /// The session to keep in the credential store: present while there is a token; a
    /// missing user id is kept as 0.
    pub fn saved_session(&self) -> (r: Option<SavedSession>)
        ensures
            nonempty(opt_str_view(self.token)) is None ==> r is None,
            nonempty(opt_str_view(self.token)) matches Some(t) ==> (r matches Some(s) && {
                &&& s.api_base@ == api_base_spec(self.developer_mode)
                &&& s.token@ == t
                &&& s.user_id == (match self.user_id {
                    Some(id) => id,
                    None => 0,
                })
                &&& opt_str_view(s.user_email) == opt_str_view(self.user_email)
                &&& opt_str_view(s.user_name) == opt_str_view(self.user_name)
            }),
    {
        match self.token() {
            Some(token) => Some(
                SavedSession {
                    api_base: self.api_base(),
                    token,
                    user_id: match self.user_id {
                        Some(id) => id,
                        None => 0,
                    },
                    user_email: copy_opt_str(&self.user_email),
                    user_name: copy_opt_str(&self.user_name),
                },
            ),
            None => None,
        }
    }

    /// Takes back a session from the credential store, where it belongs to the current host;
    /// a session of another host is ignored. Returns whether it was taken.
    pub fn restore_session(&mut self, session: SavedSession) -> (taken: bool)
        ensures
            taken == (session.api_base@ == api_base_spec(old(self).developer_mode)),
            taken ==> *final(self) == (Settings {
                token: Some(session.token),
                user_id: Some(session.user_id),
                user_name: session.user_name,
                user_email: session.user_email,
                ..*old(self)
            }),
            !taken ==> *final(self) == *old(self),
    {
        let base = self.api_base();
        if !str_eq(session.api_base.as_str(), base.as_str()) {
            return false;
        }
        self.token = Some(session.token);
        self.user_id = Some(session.user_id);
        self.user_name = session.user_name;
        self.user_email = session.user_email;
        true
    }
}


/// A value the user typed, trimmed; none when nothing is left.
pub fn empty_to_none(value: String) -> (r: Option<String>)
    ensures
        trim_ws(value@).len() == 0 ==> r is None,
        trim_ws(value@).len() > 0 ==> (r matches Some(t) && t@ == trim_ws(value@)),
{
    let trimmed = trim_str(value.as_str());
    if trimmed.as_str().is_empty() {
        None
    } else {
        Some(trimmed)
    }
}

/// The name under which this device signs in: `Arena Coach (` and the platform, then `)`.
pub fn device_name(os: HostOs) -> (r: String)
    ensures
        r@ == "Arena Coach ("@ + platform_name_spec(os) + ")"@,
{
    let mut r = "Arena Coach (".to_owned();
    r.append(platform_name(os));
    r.append(")");
    r
}

impl Settings {
    /// Takes the values the user changed: a token and a log path, each emptied when blank
    /// and trimmed otherwise; a value not given stays.
    pub fn apply_patch(&mut self, token: Option<String>, log_path: Option<String>)
        ensures
            match token {
                Some(t) => (trim_ws(t@).len() == 0 ==> final(self).token is None) && (trim_ws(t@).len()
                    > 0 ==> opt_str_view(final(self).token) == Some(trim_ws(t@))),
                None => final(self).token == old(self).token,
            },
            match log_path {
                Some(p) => (trim_ws(p@).len() == 0 ==> final(self).log_path is None) && (trim_ws(
                    p@,
                ).len() > 0 ==> opt_str_view(final(self).log_path) == Some(trim_ws(p@))),
                None => final(self).log_path == old(self).log_path,
            },
            final(self).generation == old(self).generation,
            final(self).developer_mode == old(self).developer_mode,
            final(self).show_debug_info == old(self).show_debug_info,
            final(self).user_id == old(self).user_id,
            final(self).user_email == old(self).user_email,
            final(self).user_name == old(self).user_name,
    {
        if let Some(t) = token {
            self.token = empty_to_none(t);
        }
        if let Some(p) = log_path {
            self.log_path = empty_to_none(p);
        }
    }

    /// Keeps the session a sign-in gave: its token, e-mail address and name.
    pub fn sign_in(&mut self, session: DeviceSession)
        ensures
            *final(self) == (Settings {
                token: Some(session.token),
                user_email: Some(session.email),
                user_name: Some(session.name),
                ..*old(self)
            }),
    {
        self.token = Some(session.token);
        self.user_email = Some(session.email);
        self.user_name = Some(session.name);
    }

    /// Forgets the token, e-mail address and name after signing out.
    pub fn sign_out(&mut self)
        ensures
            *final(self) == (Settings {
                token: None,
                user_email: None,
                user_name: None,
                ..*old(self)
            }),
    {
        self.token = None;
        self.user_email = None;
        self.user_name = None;
    }
}

/// A copy of a text value where it is present and not empty.
fn nonempty_copy(value: &Option<String>) -> (r: Option<String>)
    ensures
        opt_str_view(r) == nonempty(opt_str_view(*value)),
{
    match value {
        Some(v) => if !v.as_str().is_empty() {
            Some(v.clone())
        } else {
            None
        },
        None => None,
    }
}

/// Ending a session always changes what identifies it; the ended session has no user and
/// no token, and keeps the mode and the preferences.
pub proof fn law_clear_session_changes_key(s: Settings)
    ensures
        session_key_spec(cleared(s)) != session_key_spec(s),
        signed_out(cleared(s)),
        same_preferences(s, cleared(s)),
        cleared(s).developer_mode == s.developer_mode,
{
}

} // verus!
