//! The failures that the library reports.
use vstd::prelude::*;

verus! {

/// A refused request or an input that breaks a rule.
#[derive(Debug)]
pub enum KirinoError {
    /// The input breaks a rule of form; the text says which.
    Validation(String),
    /// A separation, cardinality, prerequisite or time constraint is broken.
    ConstraintViolation(String),
    /// The credentials do not prove the identity.
    AuthenticationFailed,
    /// The authority could not be established.
    AuthorizationDenied(String),
    /// No session has the id.
    SessionNotFound,
    /// The session is past its end.
    SessionExpired,
    /// What was asked for does not exist.
    NotFound(String),
    /// What was to be added is there already.
    AlreadyExists(String),
    /// A store could not be read or written.
    Store(String),
}

/// The text that goes with a failure.
pub enum ErrorView {
    /// See [`KirinoError::Validation`].
    Validation(Seq<char>),
    /// See [`KirinoError::ConstraintViolation`].
    ConstraintViolation(Seq<char>),
    /// See [`KirinoError::AuthenticationFailed`].
    AuthenticationFailed,
    /// See [`KirinoError::AuthorizationDenied`].
    AuthorizationDenied(Seq<char>),
    /// See [`KirinoError::SessionNotFound`].
    SessionNotFound,
    /// See [`KirinoError::SessionExpired`].
    SessionExpired,
    /// See [`KirinoError::NotFound`].
    NotFound(Seq<char>),
    /// See [`KirinoError::AlreadyExists`].
    AlreadyExists(Seq<char>),
    /// See [`KirinoError::Store`].
    Store(Seq<char>),
}

impl View for KirinoError {
    type V = ErrorView;

    open spec fn view(&self) -> ErrorView {
        match *self {
            KirinoError::Validation(s) => ErrorView::Validation(s@),
            KirinoError::ConstraintViolation(s) => ErrorView::ConstraintViolation(s@),
            KirinoError::AuthenticationFailed => ErrorView::AuthenticationFailed,
            KirinoError::AuthorizationDenied(s) => ErrorView::AuthorizationDenied(s@),
            KirinoError::SessionNotFound => ErrorView::SessionNotFound,
            KirinoError::SessionExpired => ErrorView::SessionExpired,
            KirinoError::NotFound(s) => ErrorView::NotFound(s@),
            KirinoError::AlreadyExists(s) => ErrorView::AlreadyExists(s@),
            KirinoError::Store(s) => ErrorView::Store(s@),
        }
    }
}

impl ErrorView {
    /// The message of the failure.
    pub open spec fn message(self) -> Seq<char> {
        match self {
            ErrorView::Validation(s) => s,
            ErrorView::ConstraintViolation(s) => s,
            ErrorView::AuthenticationFailed => "authentication failed"@,
            ErrorView::AuthorizationDenied(s) => s,
            ErrorView::SessionNotFound => "session not found"@,
            ErrorView::SessionExpired => "session expired"@,
            ErrorView::NotFound(s) => s,
            ErrorView::AlreadyExists(s) => s,
            ErrorView::Store(s) => s,
        }
    }
}

impl KirinoError {
    /// The message of the failure.
    pub fn message(&self) -> (r: String)
        ensures
            r@ == self@.message(),
    {
        match self {
            KirinoError::Validation(s) => s.clone(),
            KirinoError::ConstraintViolation(s) => s.clone(),
            KirinoError::AuthenticationFailed => "authentication failed".to_owned(),
            KirinoError::AuthorizationDenied(s) => s.clone(),
            KirinoError::SessionNotFound => "session not found".to_owned(),
            KirinoError::SessionExpired => "session expired".to_owned(),
            KirinoError::NotFound(s) => s.clone(),
            KirinoError::AlreadyExists(s) => s.clone(),
            KirinoError::Store(s) => s.clone(),
        }
    }
}

/// A failure that carries a text has it as its message; the others say what they are.
pub proof fn law_failures_speak(e: &KirinoError, r: String)
    requires
        call_ensures(KirinoError::message, (e,), r),
    ensures
        match *e {
            KirinoError::AuthenticationFailed => r@ == "authentication failed"@,
            KirinoError::SessionNotFound => r@ == "session not found"@,
            KirinoError::SessionExpired => r@ == "session expired"@,
            KirinoError::Validation(s)
            | KirinoError::ConstraintViolation(s)
            | KirinoError::AuthorizationDenied(s)
            | KirinoError::NotFound(s)
            | KirinoError::AlreadyExists(s)
            | KirinoError::Store(s) => r@ == s@,
        },
{
}

/// A failure is seen as what it is, with its text.
pub proof fn law_failures_are_told_apart(e: KirinoError)
    ensures
        match e {
            KirinoError::Validation(s) => e@ == ErrorView::Validation(s@),
            KirinoError::ConstraintViolation(s) => e@ == ErrorView::ConstraintViolation(s@),
            KirinoError::AuthenticationFailed => e@ is AuthenticationFailed,
            KirinoError::AuthorizationDenied(s) => e@ == ErrorView::AuthorizationDenied(s@),
            KirinoError::SessionNotFound => e@ is SessionNotFound,
            KirinoError::SessionExpired => e@ is SessionExpired,
            KirinoError::NotFound(s) => e@ == ErrorView::NotFound(s@),
            KirinoError::AlreadyExists(s) => e@ == ErrorView::AlreadyExists(s@),
            KirinoError::Store(s) => e@ == ErrorView::Store(s@),
        },
{
}

} // verus!
