//! Choosing how a session is opened.

use vstd::prelude::*;

verus! {

/// How an account proves who it is.
#[derive(Debug)]
pub enum Credential {
    /// With its password.
    Password(String),
    /// Through single sign-on in a browser.
    Sso,
}

/// Where the account's server is found.
#[derive(Debug)]
pub enum ServerChoice {
    /// The server that the operator named.
    Explicit(String),
    /// The server that the account's own identifier names.
    FromUser,
}

/// Why no session can be opened with what the operator gave.
#[derive(Clone, Copy, Debug, PartialEq, Eq, Structural)]
pub enum LoginError {
    /// The account's identifier is needed and missing.
    MissingUser,
    /// The password is needed and missing.
    MissingPassword,
}

/// How to open the session of one account.
#[derive(Debug)]
pub struct LoginPlan {
    /// Where the server is found.
    pub server: ServerChoice,
    /// The account's identifier, if one was given.
    pub user: Option<String>,
    /// How the account proves who it is.
    pub credential: Credential,
}

/// Whether the identifier is needed: to find the server when none is named,
/// and to log in with a password.
pub open spec fn needs_user(homeserver: Option<String>, use_sso: bool) -> bool {
    homeserver is None || !use_sso
}

/// The error, if any, that stands in the way of a login: a missing
/// identifier comes before a missing password.
pub open spec fn login_error(
    homeserver: Option<String>,
    user: Option<String>,
    password: Option<String>,
    use_sso: bool,
) -> Option<LoginError> {
    if needs_user(homeserver, use_sso) && user is None {
        Some(LoginError::MissingUser)
    } else if !use_sso && password is None {
        Some(LoginError::MissingPassword)
    } else {
        None
    }
}

/// Finds what stands in the way of a login, if anything does.
pub fn check_login(
    homeserver: &Option<String>,
    user: &Option<String>,
    password: &Option<String>,
    use_sso: bool,
) -> (error: Option<LoginError>)
    ensures
        error == login_error(*homeserver, *user, *password, use_sso),
{
    if user.is_none() && (homeserver.is_none() || !use_sso) {
        Some(LoginError::MissingUser)
    } else if !use_sso && password.is_none() {
        Some(LoginError::MissingPassword)
    } else {
        None
    }
}

/// Decides how to open a session, given that nothing stands in the way. A
/// named server is used as it is, otherwise the server is taken from the
/// account's identifier; single sign-on is used where asked for, otherwise
/// the password.
pub fn plan_login(
    homeserver: Option<String>,
    user: Option<String>,
    password: Option<String>,
    use_sso: bool,
) -> (plan: LoginPlan)
    requires
        login_error(homeserver, user, password, use_sso) is None,
    ensures
        plan.user == user,
        match homeserver {
            Some(name) => plan.server == ServerChoice::Explicit(name),
            None => plan.server == ServerChoice::FromUser,
        },
        if use_sso {
            plan.credential == Credential::Sso
        } else {
            plan.credential == Credential::Password(password->0)
        },
{
    let credential = if use_sso {
        Credential::Sso
    } else {
        Credential::Password(password.unwrap())
    };
    let server = match homeserver {
        Some(name) => ServerChoice::Explicit(name),
        None => ServerChoice::FromUser,
    };
    LoginPlan { server, user, credential }
}

} // verus!
