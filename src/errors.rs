use vstd::prelude::*;

verus! {

/// Errors handed to the HTTP layer, each with the status it is rendered with.
#[derive(Debug)]
pub enum ServerError {
    NotFound(String),
    BadRequest(String),
    InternalServerError(String),
    Unauthorized(String),
}

impl ServerError {
    pub open spec fn spec_status(&self) -> u16 {
        match self {
            ServerError::NotFound(_) => 404,
            ServerError::BadRequest(_) => 400,
            ServerError::InternalServerError(_) => 500,
            ServerError::Unauthorized(_) => 401,
        }
    }

    pub open spec fn spec_message(&self) -> Seq<char> {
        match self {
            ServerError::NotFound(m) => m@,
            ServerError::BadRequest(m) => m@,
            ServerError::InternalServerError(m) => m@,
            ServerError::Unauthorized(m) => m@,
        }
    }

    /// The HTTP status code of this error.
    pub fn status_code(&self) -> (r: u16)
        ensures
            r == self.spec_status(),
    {
        match self {
            ServerError::NotFound(_) => 404,
            ServerError::BadRequest(_) => 400,
            ServerError::InternalServerError(_) => 500,
            ServerError::Unauthorized(_) => 401,
        }
    }

    /// The message shown to the client, which is the JSON body of the response.
    pub fn message(&self) -> (r: String)
        ensures
            r@ == self.spec_message(),
    {
        match self {
            ServerError::NotFound(m) => m.clone(),
            ServerError::BadRequest(m) => m.clone(),
            ServerError::InternalServerError(m) => m.clone(),
            ServerError::Unauthorized(m) => m.clone(),
        }
    }
}

/// Errors of the user-facing handlers, each with the status it is rendered with.
#[derive(Debug)]
pub enum UserError {
    NotFound(String),
    BadRequest(String),
    InternalServerError(String),
}

impl UserError {
    pub open spec fn spec_status(&self) -> u16 {
        match self {
            UserError::NotFound(_) => 404,
            UserError::BadRequest(_) => 400,
            UserError::InternalServerError(_) => 500,
        }
    }

    pub open spec fn spec_message(&self) -> Seq<char> {
        match self {
            UserError::NotFound(m) => m@,
            UserError::BadRequest(m) => m@,
            UserError::InternalServerError(m) => m@,
        }
    }

    /// The HTTP status code of this error.
    pub fn status_code(&self) -> (r: u16)
        ensures
            r == self.spec_status(),
    {
        match self {
            UserError::NotFound(_) => 404,
            UserError::BadRequest(_) => 400,
            UserError::InternalServerError(_) => 500,
        }
    }

    /// The message shown to the client.
    pub fn message(&self) -> (r: String)
        ensures
            r@ == self.spec_message(),
    {
        match self {
            UserError::NotFound(m) => m.clone(),
            UserError::BadRequest(m) => m.clone(),
            UserError::InternalServerError(m) => m.clone(),
        }
    }
}

} // verus!

verus! {

/// Failure reported by the credential store.
#[derive(Debug)]
pub enum StoreError {
    /// No record matched the query.
    NotFound,
    /// Any other store failure, with its description.
    Failure(String),
}

/// Errors of the credential logic.
#[derive(Debug)]
pub enum ApplicationError {
    PasswordNotMatch(String),
    WrongPassword(String),
    DBError(StoreError),
    HashError(bcrypt::BcryptError),
}

impl From<bcrypt::BcryptError> for ApplicationError {
    fn from(error: bcrypt::BcryptError) -> (r: ApplicationError)
        ensures
            r == ApplicationError::HashError(error),
    {
        ApplicationError::HashError(error)
    }
}

impl vstd::std_specs::convert::FromSpecImpl<bcrypt::BcryptError> for ApplicationError {
    open spec fn obeys_from_spec() -> bool {
        true
    }

    open spec fn from_spec(v: bcrypt::BcryptError) -> ApplicationError {
        ApplicationError::HashError(v)
    }
}

impl From<StoreError> for ApplicationError {
    fn from(error: StoreError) -> (r: ApplicationError)
        ensures
            r == ApplicationError::DBError(error),
    {
        ApplicationError::DBError(error)
    }
}

impl vstd::std_specs::convert::FromSpecImpl<StoreError> for ApplicationError {
    open spec fn obeys_from_spec() -> bool {
        true
    }

    open spec fn from_spec(v: StoreError) -> ApplicationError {
        ApplicationError::DBError(v)
    }
}

pub open spec fn internal_error_message() -> Seq<char> {
    "Internal server error"@
}

/// How an error of the credential logic reaches the client. A failed
/// password or hash check is one and the same 401 so that the response does
/// not tell which part was wrong; a record the store did not find is that
/// same 401, and other store failures are a 500 that exposes no detail.
pub open spec fn spec_server_error_of(e: ApplicationError) -> (u16, Seq<char>) {
    match e {
        ApplicationError::PasswordNotMatch(m) => (400, m@),
        ApplicationError::WrongPassword(m) => (401, m@),
        ApplicationError::HashError(_) => (401, crate::user::wrong_credentials_message()),
        ApplicationError::DBError(StoreError::NotFound) => (401, crate::user::wrong_credentials_message()),
        ApplicationError::DBError(StoreError::Failure(_)) => (500, internal_error_message()),
    }
}

impl ApplicationError {
    /// Maps this error to the error rendered for the client.
    pub fn to_server_error(self) -> (r: ServerError)
        ensures
            (r.spec_status(), r.spec_message()) == spec_server_error_of(self),
    {
        match self {
            ApplicationError::PasswordNotMatch(m) => ServerError::BadRequest(m),
            ApplicationError::WrongPassword(m) => ServerError::Unauthorized(m),
            ApplicationError::HashError(_) => ServerError::Unauthorized(
                crate::user::wrong_credentials_text(),
            ),
            ApplicationError::DBError(StoreError::NotFound) => ServerError::Unauthorized(
                crate::user::wrong_credentials_text(),
            ),
            ApplicationError::DBError(StoreError::Failure(_)) => ServerError::InternalServerError(
                "Internal server error".to_string(),
            ),
        }
    }

    /// Text describing this error, for the server's own log.
    pub fn describe(&self) -> (r: String)
        ensures
            self matches ApplicationError::PasswordNotMatch(m) ==> r@ == m@,
            self matches ApplicationError::WrongPassword(m) ==> r@ == m@,
            self matches ApplicationError::DBError(StoreError::NotFound) ==> r@ == "Record not found"@,
            self matches ApplicationError::DBError(StoreError::Failure(m)) ==> r@ == m@,
    {
        match self {
            ApplicationError::PasswordNotMatch(m) => m.clone(),
            ApplicationError::WrongPassword(m) => m.clone(),
            ApplicationError::DBError(StoreError::NotFound) => "Record not found".to_string(),
            ApplicationError::DBError(StoreError::Failure(m)) => m.clone(),
            ApplicationError::HashError(e) => crate::hasher::bcrypt_error_text(e),
        }
    }
}

} // verus!
