//! Talking to the launcher's account server: the addresses of its actions,
//! the login form, and the session cookie that keeps a login alive.
use vstd::prelude::*;
use crate::text::{chars_of, string_of, owned, push_str, split_chars, split_on, views_of, trim_chars, trim_spec,
    starts_with, starts_with_chars, strip_prefix_all, strip_prefix_all_chars};

verus! {

broadcast use vstd::string::group_string_axioms;

/// The actions of the account server that the launcher calls.
#[derive(Clone, Copy, PartialEq, Eq, Structural, Debug)]
pub enum Endpoint {
    Login,
    AccountInfo,
    AuthKey,
    CharacterCount,
    /// The main page, in English, read at login.
    MainPage,
    /// The main page as read when the account data is refreshed.
    MainPageRefresh,
    SignupForm,
    Signup,
    SignupVerify,
    MaintenanceStatus,
}

/// The path of each action below the server's address.
pub open spec fn endpoint_route(e: Endpoint) -> Seq<char> {
    match e {
        Endpoint::Login => "/launcher/LoginAction"@,
        Endpoint::AccountInfo => "/launcher/GetAccountInfoAction"@,
        Endpoint::AuthKey => "/launcher/GetAuthKeyAction"@,
        Endpoint::CharacterCount => "/launcher/GetCharacterCountAction"@,
        Endpoint::MainPage => "/launcher/Main?locale=en"@,
        Endpoint::MainPageRefresh => "/launcher/Main"@,
        Endpoint::SignupForm => "/launcher/SignupForm"@,
        Endpoint::Signup => "/launcher/SignupAction?launcher=true"@,
        Endpoint::SignupVerify => "/launcher/SignupVerifyAction?launcher=true"@,
        Endpoint::MaintenanceStatus => "/launcher/GetMaintenanceStatusAction"@,
    }
}

/// The address of an action: the server's address followed by its route.
pub fn endpoint_url(base: &str, e: Endpoint) -> (u: String)
    ensures
        u@ == base@ + endpoint_route(e),
{
    let route = match e {
        Endpoint::Login => "/launcher/LoginAction",
        Endpoint::AccountInfo => "/launcher/GetAccountInfoAction",
        Endpoint::AuthKey => "/launcher/GetAuthKeyAction",
        Endpoint::CharacterCount => "/launcher/GetCharacterCountAction",
        Endpoint::MainPage => "/launcher/Main?locale=en",
        Endpoint::MainPageRefresh => "/launcher/Main",
        Endpoint::SignupForm => "/launcher/SignupForm",
        Endpoint::Signup => "/launcher/SignupAction?launcher=true",
        Endpoint::SignupVerify => "/launcher/SignupVerifyAction?launcher=true",
        Endpoint::MaintenanceStatus => "/launcher/GetMaintenanceStatusAction",
    };
    let mut u = owned(base);
    push_str(&mut u, route);
    u
}

/// The login form body, written as is (`login=…&password=…`).
pub fn login_payload(username: &str, password: &str) -> (p: String)
    ensures
        p@ == "login="@ + username@ + "&password="@ + password@,
{
    let mut p = owned("login=");
    push_str(&mut p, username);
    push_str(&mut p, "&password=");
    push_str(&mut p, password);
    p
}

/// The session identifier in a `Cookie` header: the first `;`-separated
/// pair that, trimmed, begins with `launcher.sid=`, with every leading
/// `launcher.sid=` removed.
pub open spec fn session_cookie_spec(header: Seq<char>) -> Option<Seq<char>> {
    session_cookie_in(split_on(header, ';'), 0)
}

/// The session identifier among the pairs from the `i`-th on.
pub open spec fn session_cookie_in(pairs: Seq<Seq<char>>, i: int) -> Option<Seq<char>>
    decreases pairs.len() - i,
{
    if i < 0 || i >= pairs.len() {
        None
    } else if starts_with(trim_spec(pairs[i]), "launcher.sid="@) {
        Some(strip_prefix_all(trim_spec(pairs[i]), "launcher.sid="@))
    } else {
        session_cookie_in(pairs, i + 1)
    }
}

/// The session identifier from the cookies the server set at login.
pub fn session_cookie_from_header(header: &str) -> (r: Option<String>)
    ensures
        match r {
            Some(c) => session_cookie_spec(header@) == Some(c@),
            None => session_cookie_spec(header@) is None,
        },
{
    let text = chars_of(header);
    let pairs = split_chars(text.as_slice(), ';');
    let key = chars_of("launcher.sid=");
    let ghost ps = split_on(header@, ';');
    let mut i: usize = 0;
    while i < pairs.len()
        invariant
            i <= pairs@.len(),
            views_of(pairs@) == ps,
            ps == split_on(header@, ';'),
            key@ == "launcher.sid="@,
            session_cookie_spec(header@) == session_cookie_in(ps, i as int),
        decreases pairs.len() - i,
    {
        let pair = &pairs[i];
        assert(pair@ == ps[i as int]);
        let t = trim_chars(pair.as_slice());
        if starts_with_chars(t.as_slice(), key.as_slice()) {
            let v = strip_prefix_all_chars(t.as_slice(), key.as_slice());
            return Some(string_of(v.as_slice()));
        }
        i = i + 1;
    }
    None
}

/// The session identifier worth restoring: a non-empty one.
pub fn cookie_to_restore(session_cookie: Option<String>) -> (r: Option<String>)
    ensures
        match session_cookie {
            Some(c) => if c@.len() > 0 { r == Some(c) } else { r is None },
            None => r is None,
        },
{
    match session_cookie {
        Some(c) => {
            if !c.as_str().is_empty() {
                Some(c)
            } else {
                None
            }
        },
        None => None,
    }
}

/// The cookie that restores a session on the account server's host.
pub fn session_cookie_string(value: &str, host: &str) -> (c: String)
    ensures
        c@ == "launcher.sid="@ + value@ + "; Domain="@ + host@ + "; Path=/"@,
{
    let mut c = owned("launcher.sid=");
    push_str(&mut c, value);
    push_str(&mut c, "; Domain=");
    push_str(&mut c, host);
    push_str(&mut c, "; Path=/");
    c
}

/// The first answer of the account server to a login.
pub struct InitialLoginResponse {
    pub return_value: bool,
    pub msg: String,
    pub return_code: i32,
}

/// A refused login fails with the server's message; an accepted one gives
/// its return code and message.
pub fn check_login_response(r: InitialLoginResponse) -> (o: Result<(i32, String), String>)
    ensures
        r.return_value ==> o == Ok::<(i32, String), String>((r.return_code, r.msg)),
        !r.return_value ==> o == Err::<(i32, String), String>(r.msg),
{
    if r.return_value {
        Ok((r.return_code, r.msg))
    } else {
        Err(r.msg)
    }
}

/// The host of an address as the `url` crate reads it: `None` where
/// `url::Url::parse` refuses the address, `Some(None)` where the address
/// has no host, `Some(Some(host))` otherwise.
pub uninterp spec fn url_host_of(address: Seq<char>) -> Option<Option<Seq<char>>>;

/// `url::Url::parse(address)` followed by `host_str()`. Trusted: the
/// result depends on the address alone and is named `url_host_of`; nothing
/// more of the URL grammar is stated.
#[verifier::external_body]
fn url_host(address: &str) -> (r: Option<Option<String>>)
    ensures
        match r {
            None => url_host_of(address@) is None,
            Some(None) => url_host_of(address@) == Some(None::<Seq<char>>),
            Some(Some(h)) => url_host_of(address@) == Some(Some(h@)),
        },
{
    match url::Url::parse(address) {
        Ok(u) => Some(u.host_str().map(|h| h.to_string())),
        Err(_) => None,
    }
}

/// The cookie with which a stored session is restored: for a non-empty
/// session identifier, `launcher.sid=<id>; Domain=<host>; Path=/` with the
/// host of the launcher's address; `Ok(None)` when there is nothing to
/// restore. Fails when the launcher's address does not parse or has no
/// host.
pub fn restore_cookie(session_cookie: Option<String>, base_url: &str) -> (r: Result<Option<String>, String>)
    ensures
        match session_cookie {
            Some(c) if c@.len() > 0 => match url_host_of(base_url@) {
                Some(Some(h)) => (r matches Ok(Some(k)) && k@ == "launcher.sid="@ + c@ + "; Domain="@ + h + "; Path=/"@),
                Some(None) => (r matches Err(e) && e@ == "LAUNCHER_BASE_URL has no host"@),
                None => (r matches Err(e) && e@ == "Failed to parse LAUNCHER_BASE_URL"@),
            },
            _ => r == Ok::<Option<String>, String>(None),
        },
{
    match cookie_to_restore(session_cookie) {
        None => Ok(None),
        Some(c) => match url_host(base_url) {
            Some(Some(h)) => Ok(Some(session_cookie_string(c.as_str(), h.as_str()))),
            Some(None) => Err(owned("LAUNCHER_BASE_URL has no host")),
            None => Err(owned("Failed to parse LAUNCHER_BASE_URL")),
        },
    }
}

} // verus!
