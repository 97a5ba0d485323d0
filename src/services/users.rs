//! User operations: listing, lookup, registration, password change, login
//! and delete.

use vstd::prelude::*;

use crate::error::{AuthError, ServiceError};
use crate::model::{CommonQuery, Pagination, User, UserAuth, UserList, UserQuery};
use crate::password::verify_outcome;
use crate::repositories::{found, has_user, listing, user_named, UserRepository};
use crate::validation::valid_user_auth;

verus! {

/// The outcome of a credential check: missing credentials first; an unknown
/// username and a wrong password give the same `WrongCredentials`; a stored
/// digest that cannot be used is `CorruptDigest`.
pub open spec fn login_outcome(rows: Seq<User>, username: Seq<char>, password: Seq<char>) -> Result<
    User,
    ServiceError,
> {
    if username.len() == 0 || password.len() == 0 {
        Err(ServiceError::Auth(AuthError::MissingCredentials))
    } else {
        match user_named(rows, username) {
            None => Err(ServiceError::Auth(AuthError::WrongCredentials)),
            Some(u) => match verify_outcome(password, u.password_hash@) {
                Ok(true) => Ok(u),
                Ok(false) => Err(ServiceError::Auth(AuthError::WrongCredentials)),
                Err(e) => Err(e),
            },
        }
    }
}

/// One page of the users that the filters select, with the number selected.
pub fn find_all(repo: &UserRepository, conditions: &UserQuery, query: &CommonQuery, pagination: &Pagination) -> (r:
    Result<UserList, ServiceError>)
    requires
        repo.wf(),
    ensures
        match r {
            Ok(list) => listing(
                repo.rows(),
                crate::table::text_opt(conditions.username),
                query.ids@,
                *pagination,
            ) == Ok::<(Seq<User>, int), ServiceError>((list.data@, list.total as int)),
            Err(e) => listing(
                repo.rows(),
                crate::table::text_opt(conditions.username),
                query.ids@,
                *pagination,
            ) == Err::<(Seq<User>, int), ServiceError>(e),
        },
{
    repo.find_all(conditions, query, pagination)
}

/// The user with the given username, or `NotFound`.
pub fn view(repo: &UserRepository, username: &str) -> (r: Result<User, ServiceError>)
    requires
        repo.wf(),
    ensures
        r == found(user_named(repo.rows(), username@)),
{
    repo.find_by_username(username)
}

/// Validates the credentials and registers the user.
pub fn create(repo: &mut UserRepository, new_user: &UserAuth) -> (r: Result<User, ServiceError>)
    requires
        old(repo).wf(),
    ensures
        final(repo).wf(),
        !valid_user_auth(*new_user) ==> r == Err::<User, ServiceError>(ServiceError::Validation),
        valid_user_auth(*new_user) && has_user(old(repo).rows(), new_user.username@) ==> r == Err::<
            User,
            ServiceError,
        >(ServiceError::Conflict),
        valid_user_auth(*new_user) && !has_user(old(repo).rows(), new_user.username@) && old(
            repo,
        ).next_id() >= i32::MAX ==> r == Err::<User, ServiceError>(ServiceError::Storage),
        valid_user_auth(*new_user) && !has_user(old(repo).rows(), new_user.username@) && old(
            repo,
        ).next_id() < i32::MAX ==> r is Ok || r == Err::<User, ServiceError>(
            ServiceError::Hashing,
        ),
        r is Err ==> final(repo).rows() == old(repo).rows() && final(repo).next_id() == old(
            repo,
        ).next_id(),
        r matches Ok(u) ==> {
            &&& u.id == old(repo).next_id()
            &&& u.username == new_user.username
            &&& verify_outcome(new_user.password@, u.password_hash@) == Ok::<bool, ServiceError>(
                true,
            )
            &&& final(repo).rows() == old(repo).rows().push(u)
            &&& user_named(final(repo).rows(), new_user.username@) == Some(u)
        },
{
    new_user.validate()?;
    repo.create(new_user)
}

/// Validates the credentials and replaces the user's password digest.
pub fn update(repo: &mut UserRepository, user: &UserAuth) -> (r: Result<User, ServiceError>)
    requires
        old(repo).wf(),
    ensures
        final(repo).wf(),
        !valid_user_auth(*user) ==> r == Err::<User, ServiceError>(ServiceError::Validation),
        valid_user_auth(*user) && !has_user(old(repo).rows(), user.username@) ==> r == Err::<
            User,
            ServiceError,
        >(ServiceError::NotFound),
        valid_user_auth(*user) && has_user(old(repo).rows(), user.username@) ==> r is Ok || r
            == Err::<User, ServiceError>(ServiceError::Hashing),
        r is Err ==> final(repo).rows() == old(repo).rows(),
        r matches Ok(u) ==> {
            &&& user_named(old(repo).rows(), user.username@) matches Some(prev) && u.id == prev.id
            &&& u.username == user.username
            &&& verify_outcome(user.password@, u.password_hash@) == Ok::<bool, ServiceError>(true)
            &&& user_named(final(repo).rows(), user.username@) == Some(u)
        },
{
    user.validate()?;
    repo.update(user)
}

/// Checks a username and password against the stored digest.
pub fn login(repo: &UserRepository, user: &UserAuth) -> (r: Result<User, ServiceError>)
    requires
        repo.wf(),
    ensures
        r == login_outcome(repo.rows(), user.username@, user.password@),
{
    if user.username.as_str().unicode_len() == 0 || user.password.as_str().unicode_len() == 0 {
        return Err(ServiceError::Auth(AuthError::MissingCredentials));
    }
    let db_user = match repo.find_by_username(user.username.as_str()) {
        Ok(u) => u,
        Err(_) => return Err(ServiceError::Auth(AuthError::WrongCredentials)),
    };
    let verified = crate::password::verify(user.password.as_str(), db_user.password_hash.as_str())?;
    if !verified {
        return Err(ServiceError::Auth(AuthError::WrongCredentials));
    }
    Ok(db_user)
}

/// Deletes the user with the given username. Deleting a username that has
/// no user is `NotFound`.
pub fn delete(repo: &mut UserRepository, username: &str) -> (r: Result<u64, ServiceError>)
    requires
        old(repo).wf(),
    ensures
        final(repo).wf(),
        r == (if has_user(old(repo).rows(), username@) {
            Ok::<u64, ServiceError>(1)
        } else {
            Err(ServiceError::NotFound)
        }),
        !has_user(final(repo).rows(), username@),
{
    let affected = repo.delete(username);
    crate::services::check_affected(affected)
}

/// A user registered with valid credentials logs in with those credentials.
pub proof fn lemma_registered_user_logs_in(rows: Seq<User>, auth: UserAuth, u: User)
    requires
        valid_user_auth(auth),
        user_named(rows, auth.username@) == Some(u),
        verify_outcome(auth.password@, u.password_hash@) == Ok::<bool, ServiceError>(true),
    ensures
        login_outcome(rows, auth.username@, auth.password@) == Ok::<User, ServiceError>(u),
{
}

/// A wrong password for a known user and any password for an unknown user
/// are rejected alike, with `WrongCredentials`.
pub proof fn lemma_rejections_alike(
    rows: Seq<User>,
    other_rows: Seq<User>,
    username: Seq<char>,
    password: Seq<char>,
)
    requires
        username.len() > 0,
        password.len() > 0,
        user_named(rows, username) matches Some(u) && verify_outcome(password, u.password_hash@)
            == Ok::<bool, ServiceError>(false),
        user_named(other_rows, username) is None,
    ensures
        login_outcome(rows, username, password) == login_outcome(other_rows, username, password),
        login_outcome(rows, username, password) == Err::<User, ServiceError>(
            ServiceError::Auth(AuthError::WrongCredentials),
        ),
{
}

} // verus!
