use vstd::prelude::*;

verus! {

/// The operating systems Arena writes its log on, and the rest.
#[derive(Debug, Clone, Copy, PartialEq, Eq, Structural)]
pub enum HostOs {
    Mac,
    Windows,
    Other,
}

/// Where the log sits below the home directory on a Mac.
pub const MAC_LOG_RELATIVE: &'static str = "Library/Logs/Wizards Of The Coast/MTGA/Player.log";

/// Where the log sits below the home directory on Windows.
pub const WINDOWS_LOG_RELATIVE: &'static str = "AppData/LocalLow/Wizards Of The Coast/MTGA/Player.log";

/// The name of the log that Arena rotates out.
pub const PREV_LOG_NAME: &'static str = "Player-prev.log";

/// What `Path::new(base).join(relative)` gives, read as text.
pub uninterp spec fn joined_path(base: Seq<char>, relative: Seq<char>) -> Seq<char>;

/// What `Path::new(path).with_file_name(name)` gives, read as text.
pub uninterp spec fn path_with_file_name(path: Seq<char>, name: Seq<char>) -> Seq<char>;

/// A plain file name: not empty, not `.` or `..`, without a slash, a backslash or a drive
/// colon, so that joining it never replaces or normalizes the base.
pub open spec fn plain_name(name: Seq<char>) -> bool {
    &&& name.len() > 0
    &&& name != seq!['.']
    &&& name != seq!['.', '.']
    &&& forall|i: int| 0 <= i < name.len() ==> #[trigger] name[i] != '/' && name[i] != '\\' && name[i] != ':'
}

/// Joins a relative path onto a base path.
/// Calls `std::path::Path::join` (the separator and the rules for absolute parts are those
/// of the build target); the contract names the result `joined_path`. Of a plain file name
/// it claims what std documents for `PathBuf::push` of a relative path: the base, with a
/// separator where one is needed, then the name. So the part in front of the name depends
/// on the base alone, and other plain names are joined onto the same part.
#[verifier::external_body]
pub(crate) fn join_path(base: &str, relative: &str) -> (r: String)
    ensures
        r@ == joined_path(base@, relative@),
        plain_name(relative@) ==> {
            &&& r@.len() >= relative@.len()
            &&& forall|other: Seq<char>|
                plain_name(other) ==> #[trigger] joined_path(base@, other) == r@.subrange(
                    0,
                    r@.len() - relative@.len(),
                ) + other
        },
{
    std::path::Path::new(base).join(relative).to_string_lossy().into_owned()
}

/// Replaces the last component of a path.
/// Calls `std::path::Path::with_file_name`; the contract names the result
/// `path_with_file_name` and claims nothing more.
#[verifier::external_body]
pub(crate) fn replace_file_name(path: &str, name: &str) -> (r: String)
    ensures
        r@ == path_with_file_name(path@, name@),
{
    std::path::Path::new(path).with_file_name(name).to_string_lossy().into_owned()
}

/// The log that Arena rotates out sits beside the current one, as `Player-prev.log`.
pub fn player_prev_log_path(player_log: &str) -> (r: String)
    ensures
        r@ == path_with_file_name(player_log@, PREV_LOG_NAME@),
{
    replace_file_name(player_log, PREV_LOG_NAME)
}

/// Where Arena writes its log below `home` on `os`; nowhere known on other systems.
pub fn player_log_path_for(os: HostOs, home: &str) -> (r: Option<String>)
    ensures
        match os {
            HostOs::Mac => r matches Some(p) && p@ == joined_path(home@, MAC_LOG_RELATIVE@),
            HostOs::Windows => r matches Some(p) && p@ == joined_path(home@, WINDOWS_LOG_RELATIVE@),
            HostOs::Other => r is None,
        },
{
    match os {
        HostOs::Mac => Some(join_path(home, MAC_LOG_RELATIVE)),
        HostOs::Windows => Some(join_path(home, WINDOWS_LOG_RELATIVE)),
        HostOs::Other => None,
    }
}

/// The home directory of the current user.
/// Calls `dirs::home_dir`, whose answer comes from the environment (`$HOME` or the user
/// database, or the Windows profile folder); nothing is claimed of it.
#[verifier::external_body]
pub(crate) fn home_dir() -> (r: Option<String>) {
    match dirs::home_dir() {
        Some(p) => Some(p.to_string_lossy().into_owned()),
        None => None,
    }
}

/// Where Arena writes its log below the home directory of the current user on `os`.
pub fn player_log_path(os: HostOs) -> (r: Option<String>)
    ensures
        os == HostOs::Other ==> r is None,
        os == HostOs::Mac ==> (r matches Some(p) ==> exists|h: Seq<char>|
            p@ == joined_path(h, MAC_LOG_RELATIVE@)),
        os == HostOs::Windows ==> (r matches Some(p) ==> exists|h: Seq<char>|
            p@ == joined_path(h, WINDOWS_LOG_RELATIVE@)),
{
    match home_dir() {
        Some(home) => player_log_path_for(os, home.as_str()),
        None => None,
    }
}

} // verus!
