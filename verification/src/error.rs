//! The error type every fallible service operation returns.
use vstd::prelude::*;

verus! {

/// Why an operation was refused or failed.
#[derive(Debug)]
pub enum AppError {
    /// A referenced record (profile, repository, rule, key, credential) does not exist.
    NotFound(String),
    /// The input breaks a rule (blank name, bad PIN, unsupported operator...).
    Validation(String),
    /// The operation would break a uniqueness or ownership rule.
    Conflict(String),
    /// An internal failure.
    Internal(String),
    /// A cryptographic operation failed (PIN hashing, key parsing).
    Crypto(String),
    /// The credential vault is missing an expected secret.
    Credential(String),
}

impl AppError {
    /// The variant's name, for display by callers.
    pub fn kind(&self) -> (r: &'static str)
        ensures
            r@ == kind_name(kind_of(*self)),
    {
        match self {
            AppError::NotFound(_) => "not found",
            AppError::Validation(_) => "validation",
            AppError::Conflict(_) => "conflict",
            AppError::Internal(_) => "internal",
            AppError::Crypto(_) => "crypto",
            AppError::Credential(_) => "credential",
        }
    }

    /// The message carried by the error.
    pub fn message(&self) -> (r: &String)
        ensures
            *r == match self {
                AppError::NotFound(m) => *m,
                AppError::Validation(m) => *m,
                AppError::Conflict(m) => *m,
                AppError::Internal(m) => *m,
                AppError::Crypto(m) => *m,
                AppError::Credential(m) => *m,
            },
    {
        match self {
            AppError::NotFound(m) => m,
            AppError::Validation(m) => m,
            AppError::Conflict(m) => m,
            AppError::Internal(m) => m,
            AppError::Crypto(m) => m,
            AppError::Credential(m) => m,
        }
    }
}

/// The variant of an error, for contracts.
#[derive(Debug, Clone, Copy, PartialEq, Eq, Structural)]
pub enum ErrorKind {
    NotFound,
    Validation,
    Conflict,
    Internal,
    Crypto,
    Credential,
}

pub open spec fn kind_of(e: AppError) -> ErrorKind {
    match e {
        AppError::NotFound(_) => ErrorKind::NotFound,
        AppError::Validation(_) => ErrorKind::Validation,
        AppError::Conflict(_) => ErrorKind::Conflict,
        AppError::Internal(_) => ErrorKind::Internal,
        AppError::Crypto(_) => ErrorKind::Crypto,
        AppError::Credential(_) => ErrorKind::Credential,
    }
}

/// The display name of an error kind.
pub open spec fn kind_name(k: ErrorKind) -> Seq<char> {
    match k {
        ErrorKind::NotFound => "not found"@,
        ErrorKind::Validation => "validation"@,
        ErrorKind::Conflict => "conflict"@,
        ErrorKind::Internal => "internal"@,
        ErrorKind::Crypto => "crypto"@,
        ErrorKind::Credential => "credential"@,
    }
}

/// `None` for `Ok`, else the kind of the error.
pub open spec fn err_kind<T>(r: Result<T, AppError>) -> Option<ErrorKind> {
    match r {
        Ok(_) => None,
        Err(e) => Some(kind_of(e)),
    }
}

} // verus!
