//! Credentials: registration and the check of a login against stored users.
use crate::errors::{ApplicationError, ServerError};
use crate::hasher::{bcrypt_hash, bcrypt_verify, password_verdict, HASH_COST};
use vstd::prelude::*;

verus! {

pub open spec fn wrong_credentials_message() -> Seq<char> {
    "Email or password is incorrect"@
}

pub open spec fn mismatch_message() -> Seq<char> {
    "Password and password confirmation do not match"@
}

pub fn wrong_credentials_text() -> (r: String)
    ensures
        r@ == wrong_credentials_message(),
{
    "Email or password is incorrect".to_string()
}

/// A stored user. `created_at` is in seconds since the Unix epoch.
pub struct User {
    pub id: i32,
    pub email: String,
    pub company: String,
    pub password: String,
    pub created_at: i64,
}

/// A user record ready to be inserted, with its password already hashed.
pub struct NewUser {
    pub email: String,
    pub company: String,
    pub password: String,
    pub created_at: i64,
}

/// A registration request.
pub struct RegisterUser {
    pub email: String,
    pub company: String,
    pub password: String,
    pub password_confirmation: String,
}

/// A login request.
pub struct AuthenticateUser {
    pub email: String,
    pub password: String,
}

impl User {
    /// Hashes a password for storage.
    pub fn hash_password(plain_password: &str) -> (r: Result<String, ApplicationError>)
        ensures
            r matches Ok(h) ==> password_verdict(plain_password@, h@) == Some(true),
            r matches Err(e) ==> e is HashError,
    {
        match bcrypt_hash(plain_password, HASH_COST) {
            Ok(h) => Ok(h),
            Err(e) => Err(ApplicationError::HashError(e)),
        }
    }

    /// Builds the record to store for a validated registration: the email and
    /// company as given, and a hash of the password in place of the password.
    pub fn create(register_user: &RegisterUser, created_at: i64) -> (r: Result<
        NewUser,
        ApplicationError,
    >)
        ensures
            r matches Ok(u) ==> {
                &&& u.email@ == register_user.email@
                &&& u.company@ == register_user.company@
                &&& u.created_at == created_at
                &&& password_verdict(register_user.password@, u.password@) == Some(true)
            },
            r matches Err(e) ==> e is HashError,
    {
        let hashed = User::hash_password(register_user.password.as_str())?;
        Ok(
            NewUser {
                email: register_user.email.clone(),
                company: register_user.company.clone(),
                password: hashed,
                created_at,
            },
        )
    }
}

impl RegisterUser {
    /// Accepts the request when the password and its confirmation agree.
    pub fn validate(self) -> (r: Result<RegisterUser, ApplicationError>)
        ensures
            self.password@ == self.password_confirmation@ ==> r == Ok::<
                RegisterUser,
                ApplicationError,
            >(self),
            self.password@ != self.password_confirmation@ ==> (r matches Err(
                ApplicationError::PasswordNotMatch(m),
            ) && m@ == mismatch_message()),
    {
        if !(self.password == self.password_confirmation) {
            return Err(
                ApplicationError::PasswordNotMatch(
                    "Password and password confirmation do not match".to_string(),
                ),
            );
        }
        Ok(self)
    }
}

impl AuthenticateUser {
    /// Checks this login against the users stored under its email. The last
    /// of them is the one checked; no user and a wrong password give the same
    /// error, so that a caller cannot tell which it was.
    pub fn login(&self, records: Vec<User>) -> (r: Result<User, ApplicationError>)
        ensures
            records@.len() == 0 ==> (r matches Err(ApplicationError::WrongPassword(m))
                && m@ == wrong_credentials_message()),
            records@.len() > 0 ==> {
                let stored = records@.last();
                match password_verdict(self.password@, stored.password@) {
                    None => r matches Err(e) && e is HashError,
                    Some(true) => r == Ok::<User, ApplicationError>(stored),
                    Some(false) => r matches Err(ApplicationError::WrongPassword(m))
                        && m@ == wrong_credentials_message(),
                }
            },
    {
        let mut records = records;
        let user = match records.pop() {
            Some(u) => u,
            None => return Err(ApplicationError::WrongPassword(wrong_credentials_text())),
        };
        match bcrypt_verify(self.password.as_str(), user.password.as_str()) {
            Err(e) => Err(ApplicationError::HashError(e)),
            Ok(true) => Ok(user),
            Ok(false) => Err(ApplicationError::WrongPassword(wrong_credentials_text())),
        }
    }
}

/// Validates a registration and builds the record to store. A password that
/// differs from its confirmation is a 400 and nothing is built to store.
pub fn register(new_user: RegisterUser, created_at: i64) -> (r: Result<NewUser, ServerError>)
    ensures
        new_user.password@ != new_user.password_confirmation@ ==> (r matches Err(
            ServerError::BadRequest(m),
        ) && m@ == mismatch_message()),
        new_user.password@ == new_user.password_confirmation@ ==> match r {
            Ok(u) => {
                &&& u.email@ == new_user.email@
                &&& u.company@ == new_user.company@
                &&& u.created_at == created_at
                &&& password_verdict(new_user.password@, u.password@) == Some(true)
            },
            Err(e) => e.spec_status() == 401,
        },
{
    let register_user = match new_user.validate() {
        Ok(u) => u,
        Err(e) => return Err(e.to_server_error()),
    };
    match User::create(&register_user, created_at) {
        Ok(u) => Ok(u),
        Err(e) => Err(e.to_server_error()),
    }
}

} // verus!
