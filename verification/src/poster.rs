use vstd::arithmetic::power2::{lemma2_to64, pow2};
use vstd::prelude::*;
use vstd::string::StringExecFns;

use crate::match_payload::opt_str_view;
use crate::text::{decimal, push_decimal};

verus! {

/// A request the server accepted.
#[derive(Debug, Clone)]
pub struct PostResult {
    pub status: u16,
    pub body: String,
}

/// The session a device gets when it signs in.
#[derive(Debug, Clone)]
pub struct DeviceSession {
    pub token: String,
    pub user_id: i64,
    pub email: String,
    pub name: String,
}

/// The account of the signed-in user.
#[derive(Debug, Clone, PartialEq, Eq)]
pub struct Account {
    pub id: i64,
    pub name: String,
    pub email: String,
}

/// Where the realtime server of the companion listens.
#[derive(Debug, Clone)]
pub struct ReverbConfig {
    pub key: String,
    pub host: String,
    pub port: u16,
    pub scheme: String,
}

/// The private channel of a user on the realtime server.
#[derive(Debug, Clone)]
pub struct RealtimeConfig {
    pub user_id: i64,
    pub channel: String,
    pub reverb: ReverbConfig,
}

/// A card named in a match report.
#[derive(Debug, Clone)]
pub struct CardRef {
    pub name: String,
    pub type_line: Option<String>,
    pub oracle_text: Option<String>,
}

/// Where a page of match reports sits among all of them.
#[derive(Debug, Clone, Copy, PartialEq, Eq)]
pub struct MatchPageMeta {
    pub current_page: u32,
    pub last_page: u32,
    pub total: u32,
}

/// Why a request to the server did not succeed.
#[derive(Debug, Clone)]
pub enum PostError {
    /// The server answered with a status outside 200..300.
    Http { status: u16, body: String },
    /// Signing in needs a second factor.
    TwoFactor,
    /// There is no token to send.
    Unauthenticated,
    /// The request did not reach the server, or its answer could not be read.
    Network(String),
    /// A body could not be encoded or decoded.
    Encode(String),
}

/// The user in the answer to a sign-in.
#[derive(Debug, Clone)]
pub struct LoginUser {
    pub id: i64,
    pub email: String,
    pub name: String,
}

/// The session in the answer to a sign-in.
#[derive(Debug, Clone)]
pub struct LoginData {
    pub token: String,
    pub user: LoginUser,
}

/// The answer to a sign-in, as far as it could be read; every field may be missing.
#[derive(Debug, Clone)]
pub struct LoginResponse {
    pub data: Option<LoginData>,
    pub two_factor: Option<bool>,
    pub message: Option<String>,
}

/// Whether `status` reports success.
pub open spec fn is_success(status: u16) -> bool {
    200 <= status < 300
}

/// Whether a request that failed with `error` is worth repeating: a network failure, a
/// rate limit or a server error.
pub open spec fn should_retry_spec(error: PostError) -> bool {
    match error {
        PostError::Network(_) => true,
        PostError::Http { status, .. } => status == 429 || status >= 500,
        _ => false,
    }
}

/// The text of an error, as it is shown.
pub open spec fn error_text(error: PostError) -> Seq<char> {
    match error {
        PostError::Http { status, body } => "HTTP "@ + decimal(status as nat) + ": "@ + body@,
        PostError::TwoFactor => "two-factor authentication required"@,
        PostError::Unauthenticated => "not signed in"@,
        PostError::Network(m) => m@,
        PostError::Encode(m) => m@,
    }
}

/// A text value where it is present and not empty.
pub open spec fn filled(value: Option<Seq<char>>) -> Option<Seq<char>> {
    match value {
        Some(v) => if v.len() > 0 {
            Some(v)
        } else {
            None
        },
        None => None,
    }
}

/// The named fields followed by each optional field that is present and not empty.
pub open spec fn with_optional(
    fields: Seq<(Seq<char>, Seq<char>)>,
    optional: Seq<(Seq<char>, Option<Seq<char>>)>,
) -> Seq<(Seq<char>, Seq<char>)>
    decreases optional.len(),
{
    if optional.len() == 0 {
        fields
    } else {
        let rest = with_optional(fields, optional.drop_last());
        match filled(optional.last().1) {
            Some(v) => rest.push((optional.last().0, v)),
            None => rest,
        }
    }
}

/// The models of text fields.
pub open spec fn fields_view(fields: Seq<(String, String)>) -> Seq<(Seq<char>, Seq<char>)> {
    fields.map_values(|f: (String, String)| (f.0@, f.1@))
}

/// The model of an optional borrowed text.
pub open spec fn opt_ref_view(value: Option<&str>) -> Option<Seq<char>> {
    match value {
        Some(v) => Some(v@),
        None => None,
    }
}

/// A failed request is worth repeating exactly when it never reached the server, the
/// server asked to slow down (429), or the server failed (any status from 500 on); a refusal
/// of the request itself (any other status), a missing sign-in, a second factor or a body
/// that cannot be encoded is never repeated.
pub proof fn law_retry_classes(error: PostError)
    ensures
        should_retry_spec(error) == (match error {
            PostError::Network(_) => true,
            PostError::Http { status, .. } => status == 429 || status >= 500,
            PostError::TwoFactor | PostError::Unauthenticated | PostError::Encode(_) => false,
        }),
        error matches PostError::Http { status, .. } ==> (500 <= status ==> should_retry_spec(error)),
        error matches PostError::Http { status, .. } ==> (400 <= status < 500 && status != 429 ==> !should_retry_spec(error)),
{
}

/// Whether a request that failed with `error` is worth repeating: a network failure, a
/// rate limit (429) or a server error (500 and above).
pub fn should_retry(error: &PostError) -> (r: bool)
    ensures
        r == should_retry_spec(*error),
        r == (match *error {
            PostError::Network(_) => true,
            PostError::Http { status, .. } => status == 429 || status >= 500,
            PostError::TwoFactor | PostError::Unauthenticated | PostError::Encode(_) => false,
        }),
{
    proof {
        law_retry_classes(*error);
    }
    match error {
        PostError::Network(_) => true,
        PostError::Http { status, .. } => *status == 429 || *status >= 500,
        PostError::TwoFactor | PostError::Unauthenticated | PostError::Encode(_) => false,
    }
}

impl PostError {
    /// The text of the error, as it is shown.
    pub fn message(&self) -> (r: String)
        ensures
            r@ == error_text(*self),
    {
        match self {
            PostError::Http { status, body } => {
                let mut r = String::new();
                r.append("HTTP ");
                push_decimal(&mut r, *status as u64);
                r.append(": ");
                r.append(body.as_str());
                r
            },
            PostError::TwoFactor => "two-factor authentication required".to_owned(),
            PostError::Unauthenticated => "not signed in".to_owned(),
            PostError::Network(m) => m.clone(),
            PostError::Encode(m) => m.clone(),
        }
    }
}

/// How long to wait before attempt `attempt + 1` of a request that failed with `error`:
/// 500 ms times 2 to the power of the attempt number, for at most three repeats; none when
/// the error is not worth repeating or the repeats are used up.
pub fn retry_wait_ms(error: &PostError, attempt: u32) -> (r: Option<u64>)
    ensures
        r is Some <==> (should_retry_spec(*error) && attempt < 3),
        r matches Some(ms) ==> ms == 500 * pow2((attempt + 1) as nat),
{
    if should_retry(error) && attempt < 3 {
        proof {
            lemma2_to64();
        }
        let ms: u64 = if attempt == 0 {
            1000
        } else if attempt == 1 {
            2000
        } else {
            4000
        };
        Some(ms)
    } else {
        None
    }
}

/// The token to send, where it is present and not empty; otherwise the request is refused
/// as unauthenticated before anything is sent.
pub fn require_token(token: Option<&str>) -> (r: Result<String, PostError>)
    ensures
        match filled(opt_ref_view(token)) {
            Some(t) => r matches Ok(s) && s@ == t,
            None => r matches Err(PostError::Unauthenticated),
        },
{
    match token {
        Some(t) => if !t.is_empty() {
            Ok(t.to_owned())
        } else {
            Err(PostError::Unauthenticated)
        },
        None => Err(PostError::Unauthenticated),
    }
}

/// The outcome of posting a match: accepted on a status in 200..300, an HTTP error with the
/// status and body otherwise.
pub fn post_outcome(status: u16, body: String) -> (r: Result<PostResult, PostError>)
    ensures
        is_success(status) ==> (r matches Ok(p) && p.status == status && p.body == body),
        !is_success(status) ==> r == Err::<PostResult, PostError>(PostError::Http { status, body }),
{
    if 200 <= status && status < 300 {
        Ok(PostResult { status, body })
    } else {
        Err(PostError::Http { status, body })
    }
}

/// The body of an answer that is to be read: returned on a status in 200..300, an HTTP
/// error with the status and body otherwise.
pub fn body_outcome(status: u16, body: String) -> (r: Result<String, PostError>)
    ensures
        is_success(status) ==> r == Ok::<String, PostError>(body),
        !is_success(status) ==> r == Err::<String, PostError>(PostError::Http { status, body }),
{
    if 200 <= status && status < 300 {
        Ok(body)
    } else {
        Err(PostError::Http { status, body })
    }
}

/// The outcome of a request whose answer is not read: done on a status in 200..300, an
/// HTTP error with the status and body otherwise.
pub fn unit_outcome(status: u16, body: String) -> (r: Result<(), PostError>)
    ensures
        is_success(status) ==> r is Ok,
        !is_success(status) ==> r == Err::<(), PostError>(PostError::Http { status, body }),
{
    if 200 <= status && status < 300 {
        Ok(())
    } else {
        Err(PostError::Http { status, body })
    }
}

/// The outcome of signing a device out: done on a status in 200..300, and on 401, where
/// the token is no longer valid anyway; an HTTP error otherwise.
pub fn logout_outcome(status: u16, body: String) -> (r: Result<(), PostError>)
    ensures
        (is_success(status) || status == 401) ==> r is Ok,
        !(is_success(status) || status == 401) ==> r == Err::<(), PostError>(
            PostError::Http { status, body },
        ),
{
    if (200 <= status && status < 300) || status == 401 {
        Ok(())
    } else {
        Err(PostError::Http { status, body })
    }
}

/// Whether the host answered its health check as reachable: a status in 200..400.
pub fn host_reachable(status: u16) -> (r: bool)
    ensures
        r == (200 <= status < 400),
{
    200 <= status && status < 400
}

/// The outcome of signing in: a second factor asked for comes first; then a session where
/// the status is in 200..300 and the answer holds one; else an HTTP error carrying the
/// server's message, or the raw body where there is none.
pub fn login_outcome(status: u16, body: String, parsed: LoginResponse) -> (r: Result<DeviceSession, PostError>)
    ensures
        parsed.two_factor == Some(true) ==> r matches Err(PostError::TwoFactor),
        parsed.two_factor != Some(true) && is_success(status) && parsed.data is Some ==> (
        r matches Ok(s) && {
            let d = parsed.data->0;
            &&& s.token == d.token
            &&& s.user_id == d.user.id
            &&& s.email == d.user.email
            &&& s.name == d.user.name
        }),
        parsed.two_factor != Some(true) && !(is_success(status) && parsed.data is Some) ==> (
        r matches Err(PostError::Http { status: st, body: b }) && st == status && b == (
        match parsed.message {
            Some(m) => m,
            None => body,
        })),
{
    if parsed.two_factor == Some(true) {
        return Err(PostError::TwoFactor);
    }
    if 200 <= status && status < 300 {
        if let Some(data) = parsed.data {
            return Ok(
                DeviceSession {
                    token: data.token,
                    user_id: data.user.id,
                    email: data.user.email,
                    name: data.user.name,
                },
            );
        }
    }
    let text = match parsed.message {
        Some(m) => m,
        None => body,
    };
    Err(PostError::Http { status, body: text })
}

/// Lemma: one more optional field is added where it is present and not empty.
proof fn lemma_with_optional_push(
    fields: Seq<(Seq<char>, Seq<char>)>,
    optional: Seq<(Seq<char>, Option<Seq<char>>)>,
    field: (Seq<char>, Option<Seq<char>>),
)
    ensures
        with_optional(fields, optional.push(field)) == (match filled(field.1) {
            Some(v) => with_optional(fields, optional).push((field.0, v)),
            None => with_optional(fields, optional),
        }),
{
    assert(optional.push(field).drop_last() =~= optional);
}

/// Pushes the field `name` where `value` is present and not empty.
fn push_filled(fields: &mut Vec<(String, String)>, name: &str, value: Option<&str>)
    ensures
        fields_view(final(fields)@) == (match filled(opt_ref_view(value)) {
            Some(v) => fields_view(old(fields)@).push((name@, v)),
            None => fields_view(old(fields)@),
        }),
{
    match value {
        Some(v) => if !v.is_empty() {
            fields.push((name.to_owned(), v.to_owned()));
            assert(fields_view(fields@) =~= fields_view(old(fields)@).push((name@, v@)));
        },
        None => {},
    }
}

/// The fields of a sign-in request: e-mail, password and device name, then the second
/// factor code and the recovery code where they are given and not empty.
pub fn login_fields(
    email: &str,
    password: &str,
    device_name: &str,
    code: Option<&str>,
    recovery_code: Option<&str>,
) -> (r: Vec<(String, String)>)
    ensures
        fields_view(r@) == with_optional(
            seq![("email"@, email@), ("password"@, password@), ("device_name"@, device_name@)],
            seq![("code"@, opt_ref_view(code)), ("recovery_code"@, opt_ref_view(recovery_code))],
        ),
{
    let mut r: Vec<(String, String)> = Vec::new();
    r.push(("email".to_owned(), email.to_owned()));
    r.push(("password".to_owned(), password.to_owned()));
    r.push(("device_name".to_owned(), device_name.to_owned()));
    let ghost base = seq![("email"@, email@), ("password"@, password@), ("device_name"@, device_name@)];
    assert(fields_view(r@) =~= base);
    let ghost a = ("code"@, opt_ref_view(code));
    let ghost b = ("recovery_code"@, opt_ref_view(recovery_code));
    proof {
        let none = Seq::<(Seq<char>, Option<Seq<char>>)>::empty();
        lemma_with_optional_push(base, none, a);
        lemma_with_optional_push(base, none.push(a), b);
        assert(none.push(a) =~= seq![a]);
        assert(none.push(a).push(b) =~= seq![a, b]);
    }
    push_filled(&mut r, "code", code);
    push_filled(&mut r, "recovery_code", recovery_code);
    r
}

/// The fields of an account update: name and e-mail, then the current password, the new
/// password and its confirmation where they are given and not empty.
pub fn account_update_fields(
    name: &str,
    email: &str,
    current_password: Option<&str>,
    password: Option<&str>,
    password_confirmation: Option<&str>,
) -> (r: Vec<(String, String)>)
    ensures
        fields_view(r@) == with_optional(
            seq![("name"@, name@), ("email"@, email@)],
            seq![
                ("current_password"@, opt_ref_view(current_password)),
                ("password"@, opt_ref_view(password)),
                ("password_confirmation"@, opt_ref_view(password_confirmation)),
            ],
        ),
{
    let mut r: Vec<(String, String)> = Vec::new();
    r.push(("name".to_owned(), name.to_owned()));
    r.push(("email".to_owned(), email.to_owned()));
    let ghost base = seq![("name"@, name@), ("email"@, email@)];
    assert(fields_view(r@) =~= base);
    let ghost a = ("current_password"@, opt_ref_view(current_password));
    let ghost b = ("password"@, opt_ref_view(password));
    let ghost c = ("password_confirmation"@, opt_ref_view(password_confirmation));
    proof {
        let none = Seq::<(Seq<char>, Option<Seq<char>>)>::empty();
        lemma_with_optional_push(base, none, a);
        lemma_with_optional_push(base, none.push(a), b);
        lemma_with_optional_push(base, none.push(a).push(b), c);
        assert(none.push(a) =~= seq![a]);
        assert(none.push(a).push(b) =~= seq![a, b]);
        assert(none.push(a).push(b).push(c) =~= seq![a, b, c]);
    }
    push_filled(&mut r, "current_password", current_password);
    push_filled(&mut r, "password", password);
    push_filled(&mut r, "password_confirmation", password_confirmation);
    r
}

/// The outcome of asking for a card image: none for a 404; for a status in 200..300 the
/// address `url` read from the answer, unless it is empty; an HTTP error otherwise.
pub fn card_image_outcome(status: u16, body: String, url: Option<String>) -> (r: Result<
    Option<String>,
    PostError,
>)
    ensures
        status == 404 ==> r == Ok::<Option<String>, PostError>(None),
        status != 404 && is_success(status) ==> (r matches Ok(u) && opt_str_view(u) == filled(
            opt_str_view(url),
        )),
        status != 404 && !is_success(status) ==> r == Err::<Option<String>, PostError>(
            PostError::Http { status, body },
        ),
{
    if status == 404 {
        return Ok(None);
    }
    if 200 <= status && status < 300 {
        match url {
            Some(u) => if !u.as_str().is_empty() {
                Ok(Some(u))
            } else {
                Ok(None)
            },
            None => Ok(None),
        }
    } else {
        Err(PostError::Http { status, body })
    }
}

} // verus!
