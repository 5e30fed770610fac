use vstd::prelude::*;
use vstd::string::StringExecFns;

use crate::log_path::HostOs;
use crate::text::{chars_of, string_of_range, trim_end_char, trim_end_len_exec};

verus! {

/// The web host used in developer mode.
pub const DEV_API_BASE: &'static str = "https://arenacoach-web.test";

/// The web host used otherwise.
pub const PROD_API_BASE: &'static str = "https://arenacoach.com";

/// The name under which a platform reports itself.
pub open spec fn platform_name_spec(os: HostOs) -> Seq<char> {
    match os {
        HostOs::Windows => "windows"@,
        HostOs::Mac => "macos"@,
        HostOs::Other => "other"@,
    }
}

/// The name under which the platform `os` reports itself.
pub fn platform_name(os: HostOs) -> (r: &'static str)
    ensures
        r@ == platform_name_spec(os),
{
    match os {
        HostOs::Windows => "windows",
        HostOs::Mac => "macos",
        HostOs::Other => "other",
    }
}

/// The web host for a mode: the development host in developer mode, the production host
/// otherwise, whatever the build.
pub fn api_base_for_mode(developer_mode: bool) -> (r: String)
    ensures
        r@ == (if developer_mode {
            DEV_API_BASE@
        } else {
            PROD_API_BASE@
        }),
{
    if developer_mode {
        DEV_API_BASE.to_owned()
    } else {
        PROD_API_BASE.to_owned()
    }
}

/// A host without its trailing slashes.
pub open spec fn host_of(api_base: Seq<char>) -> Seq<char> {
    trim_end_char(api_base, '/')
}

/// A host without its trailing slashes, built.
fn trimmed_host(api_base: &str) -> (r: String)
    ensures
        r@ == host_of(api_base@),
{
    let v = chars_of(api_base);
    let n = trim_end_len_exec(&v, '/', v.len());
    let r = string_of_range(&v, 0, n);
    assert(r@ =~= host_of(api_base@));
    r
}

/// The host followed by `path`.
fn url_with(api_base: &str, path: &str) -> (r: String)
    ensures
        r@ == host_of(api_base@) + path@,
{
    let mut r = trimmed_host(api_base);
    r.append(path);
    r
}

/// Where matches are posted.
pub fn matches_url(api_base: &str) -> (r: String)
    ensures
        r@ == host_of(api_base@) + "/api/matches"@,
{
    url_with(api_base, "/api/matches")
}

/// Where the host reports its health.
pub fn health_url(api_base: &str) -> (r: String)
    ensures
        r@ == host_of(api_base@) + "/up"@,
{
    url_with(api_base, "/up")
}

/// Where a device signs in.
pub fn device_login_url(api_base: &str) -> (r: String)
    ensures
        r@ == host_of(api_base@) + "/api/device/login"@,
{
    url_with(api_base, "/api/device/login")
}

/// Where a device signs out.
pub fn device_logout_url(api_base: &str) -> (r: String)
    ensures
        r@ == host_of(api_base@) + "/api/device/logout"@,
{
    url_with(api_base, "/api/device/logout")
}

/// Where the realtime settings are read.
pub fn realtime_url(api_base: &str) -> (r: String)
    ensures
        r@ == host_of(api_base@) + "/api/realtime"@,
{
    url_with(api_base, "/api/realtime")
}

/// Where private broadcast channels are authorized.
pub fn broadcasting_auth_url(api_base: &str) -> (r: String)
    ensures
        r@ == host_of(api_base@) + "/api/broadcasting/auth"@,
{
    url_with(api_base, "/api/broadcasting/auth")
}

/// Where one match is read or deleted.
pub fn match_url(api_base: &str, client_match_id: &str) -> (r: String)
    ensures
        r@ == host_of(api_base@) + "/api/matches/"@ + client_match_id@,
{
    let mut r = url_with(api_base, "/api/matches/");
    r.append(client_match_id);
    r
}

} // verus!
