//! Token claims and the login answer.

use vstd::prelude::*;

use crate::error::ServiceError;
use crate::model::{User, UserAuth};
use crate::repositories::UserRepository;
use crate::services::users::login_outcome;

verus! {

/// The absolute expiry (seconds since the epoch) written into every token.
pub const TOKEN_EXPIRY: usize = 2000000000;

/// The signed payload of a bearer token.
#[derive(Debug, Clone, PartialEq, Eq)]
pub struct Claims {
    pub sub: String,
    pub company: String,
    pub exp: usize,
}

/// The response to a successful login.
#[derive(Debug, Clone, PartialEq, Eq)]
pub struct AuthBody {
    pub access_token: String,
    pub token_type: String,
}

impl Claims {
    /// The claims of a token for `user`: its username as subject, the fixed
    /// issuing company, and the fixed expiry.
    pub fn for_user(user: &User) -> (r: Claims)
        ensures
            r.sub@ == user.username@,
            r.company@ == "ACME"@,
            r.exp == TOKEN_EXPIRY,
    {
        Claims { sub: user.username.clone(), company: String::from_str("ACME"), exp: TOKEN_EXPIRY }
    }

    /// A two-line human-readable description of the claims.
    pub fn describe(&self) -> (r: String)
        ensures
            r@ == "Email: "@ + self.sub@ + "\nCompany: "@ + self.company@,
    {
        let mut s = String::from_str("Email: ");
        s.append(self.sub.as_str());
        s.append("\nCompany: ");
        s.append(self.company.as_str());
        s
    }
}

impl AuthBody {
    pub fn new(access_token: String) -> (r: Self)
        ensures
            r.access_token == access_token,
            r.token_type@ == "Bearer"@,
    {
        AuthBody { access_token, token_type: String::from_str("Bearer") }
    }
}

/// Checks the credentials and, on success, gives the claims to sign for the
/// user; every failure of the credential check is passed on unchanged.
pub fn authenticate(repo: &UserRepository, user: &UserAuth) -> (r: Result<Claims, ServiceError>)
    requires
        repo.wf(),
    ensures
        match login_outcome(repo.rows(), user.username@, user.password@) {
            Ok(u) => r matches Ok(c) && c.sub@ == u.username@ && c.company@ == "ACME"@ && c.exp
                == TOKEN_EXPIRY,
            Err(e) => r == Err::<Claims, ServiceError>(e),
        },
{
    let db_user = crate::services::users::login(repo, user)?;
    Ok(Claims::for_user(&db_user))
}

} // verus!
