//! Accounts and authorization: the user record, registration validation,
//! the login decision, the token claims, and the owner/assignee access
//! rules. Password hashing and token signing are standard primitives that
//! live outside the library; everything decided here is a pure function of
//! its inputs.

use vstd::prelude::*;

use crate::error::TaskFlowError;
use crate::task::TaskView;
use crate::text::trim;

verus! {

/// One account.
pub struct User {
    pub id: u128,
    pub username: String,
    pub email: String,
    pub password_hash: String,
    pub created_at: i64,
    pub updated_at: i64,
    pub is_active: bool,
}

/// The public face of an account: everything but the password hash.
pub struct UserResponse {
    pub id: u128,
    pub username: String,
    pub email: String,
    pub created_at: i64,
    pub is_active: bool,
}

impl User {
    /// A fresh active account with both timestamps set to `now`.
    pub fn new(username: String, email: String, password_hash: String, id: u128, now: i64) -> (r:
        User)
        ensures
            r.id == id,
            r.username@ == username@,
            r.email@ == email@,
            r.password_hash@ == password_hash@,
            r.created_at == now,
            r.updated_at == now,
            r.is_active,
    {
        User { id, username, email, password_hash, created_at: now, updated_at: now, is_active: true }
    }

    /// The public face of this account.
    pub fn to_response(&self) -> (r: UserResponse)
        ensures
            r.id == self.id,
            r.username@ == self.username@,
            r.email@ == self.email@,
            r.created_at == self.created_at,
            r.is_active == self.is_active,
    {
        UserResponse {
            id: self.id,
            username: self.username.clone(),
            email: self.email.clone(),
            created_at: self.created_at,
            is_active: self.is_active,
        }
    }
}

/// A request to open an account.
pub struct RegisterRequest {
    pub username: String,
    pub email: String,
    pub password: String,
}

/// A request to sign in.
pub struct LoginRequest {
    pub email: String,
    pub password: String,
}

/// Check a registration request: the username and the email must not be
/// blank, and the password must have at least six characters. The checks
/// run in that order and the first failure is reported.
pub fn validate_registration(req: &RegisterRequest) -> (r: Result<(), TaskFlowError>)
    ensures
        trim(req.username@).len() == 0 ==> (r matches Err(e) && e matches
            TaskFlowError::Validation { .. }),
        trim(req.username@).len() > 0 && trim(req.email@).len() == 0 ==> (r matches Err(e)
            && e matches TaskFlowError::Validation { .. }),
        trim(req.username@).len() > 0 && trim(req.email@).len() > 0 && req.password@.len() < 6 ==> (
        r matches Err(e) && e matches TaskFlowError::Validation { .. }),
        trim(req.username@).len() > 0 && trim(req.email@).len() > 0 && req.password@.len() >= 6
            ==> r == Ok::<(), TaskFlowError>(()),
{
    if crate::text::trimmed_is_empty(req.username.as_str()) {
        return Err(TaskFlowError::Validation {
            message: String::from_str("a username cannot be empty"),
        });
    }
    if crate::text::trimmed_is_empty(req.email.as_str()) {
        return Err(TaskFlowError::Validation {
            message: String::from_str("an email address cannot be empty"),
        });
    }
    if req.password.as_str().unicode_len() < 6 {
        return Err(TaskFlowError::Validation {
            message: String::from_str("a password must have at least six characters"),
        });
    }
    Ok(())
}

/// Decide a sign-in attempt, given whether the account was found, whether
/// the supplied password matched its hash, and whether the account is
/// active. An absent account and a wrong password are indistinguishable to
/// the caller; an inactive account is reported as deactivated.
pub fn login_decision(found: bool, password_ok: bool, is_active: bool) -> (r: Result<
    (),
    TaskFlowError,
>)
    ensures
        (!found || !password_ok) ==> (r matches Err(e) && e matches TaskFlowError::Authentication {
            ..
        }),
        found && password_ok && !is_active ==> (r matches Err(e) && e matches
            TaskFlowError::Authentication { .. }),
        found && password_ok && is_active ==> r == Ok::<(), TaskFlowError>(()),
{
    if !found || !password_ok {
        return Err(TaskFlowError::Authentication {
            message: String::from_str("invalid email or password"),
        });
    }
    if !is_active {
        return Err(TaskFlowError::Authentication {
            message: String::from_str("the account is deactivated"),
        });
    }
    Ok(())
}

/// The claims a session token carries: the subject (the account
/// identifier as a decimal numeral), the account's names, and the
/// issued-at and expiry instants in seconds.
pub struct Claims {
    pub sub: String,
    pub username: String,
    pub email: String,
    pub exp: u64,
    pub iat: u64,
}

/// How long a session token lives, in seconds.
pub open spec fn token_lifetime() -> u64 {
    86400
}

impl Claims {
    /// The claims of a fresh token for the given account: issued now,
    /// expiring one day later.
    pub fn new(user: &User, now: u64) -> (r: Claims)
        requires
            now + token_lifetime() <= u64::MAX,
        ensures
            r.sub@ == crate::numbers::dec_digits(user.id as nat),
            r.username@ == user.username@,
            r.email@ == user.email@,
            r.iat == now,
            r.exp == now + token_lifetime(),
    {
        let mut sub = String::new();
        crate::numbers::push_dec_u128(&mut sub, user.id);
        proof {
            assert(sub@ =~= crate::numbers::dec_digits(user.id as nat));
        }
        Claims {
            sub,
            username: user.username.clone(),
            email: user.email.clone(),
            exp: now + 86400,
            iat: now,
        }
    }

    /// Whether the token is expired at the given instant.
    pub fn is_expired(&self, now: u64) -> (r: bool)
        ensures
            r == (self.exp < now),
    {
        self.exp < now
    }
}

/// Whether an account may read or change a task: it must be the task's
/// creator or its assignee.
pub fn can_access(task: &crate::task::Task, user_id: u128) -> (r: bool)
    ensures
        r == (task@.created_by == Some(user_id) || task@.assigned_to == Some(user_id)),
{
    let by_creator = match task.created_by {
        Some(c) => c == user_id,
        None => false,
    };
    let by_assignee = match task.assigned_to {
        Some(a) => a == user_id,
        None => false,
    };
    by_creator || by_assignee
}

/// Whether an account may delete a task: it must be the task's creator.
pub fn can_delete(task: &crate::task::Task, user_id: u128) -> (r: bool)
    ensures
        r == (task@.created_by == Some(user_id)),
{
    match task.created_by {
        Some(c) => c == user_id,
        None => false,
    }
}

} // verus!
