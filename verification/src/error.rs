//! The failures a request or a startup step can end in, and how each is
//! answered over HTTP.

use vstd::prelude::*;

verus! {

/// Every way a request or a startup step can fail.
#[derive(Debug, Clone, PartialEq, Eq)]
pub enum AppError {
    Config(String),
    Database,
    Migration,
    Network,
    Io,
    Crypto,
    NotFound,
    Invalid(String),
    Unauthorized,
}

/// The HTTP answer for a failed request.
pub struct ErrorReply {
    pub status: u16,
    pub message: String,
    /// Whether the failure is an internal one that the server logs.
    pub logged: bool,
}

pub open spec fn error_text(e: AppError) -> Seq<char> {
    match e {
        AppError::Config(m) => "configuration error: "@ + m@,
        AppError::Database => "database error"@,
        AppError::Migration => "migration error"@,
        AppError::Network => "network error"@,
        AppError::Io => "file error"@,
        AppError::Crypto => "encryption error"@,
        AppError::NotFound => "not found"@,
        AppError::Invalid(m) => "invalid input: "@ + m@,
        AppError::Unauthorized => "unauthorized"@,
    }
}

pub open spec fn reply_status(e: AppError) -> u16 {
    match e {
        AppError::Invalid(_) => 400,
        AppError::Unauthorized => 401,
        AppError::NotFound => 404,
        _ => 500,
    }
}

pub open spec fn reply_text(e: AppError) -> Seq<char> {
    match e {
        AppError::Invalid(m) => m@,
        AppError::Unauthorized => "Use the ADMIN_TOKEN configured on this server."@,
        AppError::NotFound => "That record no longer exists."@,
        AppError::Config(m) => m@,
        _ => "The server could not complete this request."@,
    }
}

pub open spec fn reply_logged(e: AppError) -> bool {
    match e {
        AppError::Invalid(_) | AppError::Unauthorized | AppError::NotFound | AppError::Config(_) => false,
        _ => true,
    }
}

fn owned(s: &str) -> (r: String)
    ensures r@ == s@,
{
    s.to_owned()
}

impl AppError {
    /// The error's display text.
    pub fn message(&self) -> (r: String)
        ensures r@ == error_text(*self),
    {
        match self {
            AppError::Config(m) => {
                let mut s = owned("configuration error: ");
                s.append(m.as_str());
                s
            },
            AppError::Database => owned("database error"),
            AppError::Migration => owned("migration error"),
            AppError::Network => owned("network error"),
            AppError::Io => owned("file error"),
            AppError::Crypto => owned("encryption error"),
            AppError::NotFound => owned("not found"),
            AppError::Invalid(m) => {
                let mut s = owned("invalid input: ");
                s.append(m.as_str());
                s
            },
            AppError::Unauthorized => owned("unauthorized"),
        }
    }

    /// Status code, body message and logging decision for this error.
    pub fn reply(&self) -> (r: ErrorReply)
        ensures
            r.status == reply_status(*self),
            r.message@ == reply_text(*self),
            r.logged == reply_logged(*self),
    {
        match self {
            AppError::Invalid(m) => ErrorReply { status: 400, message: m.clone(), logged: false },
            AppError::Unauthorized => ErrorReply {
                status: 401,
                message: owned("Use the ADMIN_TOKEN configured on this server."),
                logged: false,
            },
            AppError::NotFound => ErrorReply {
                status: 404,
                message: owned("That record no longer exists."),
                logged: false,
            },
            AppError::Config(m) => ErrorReply { status: 500, message: m.clone(), logged: false },
            _ => ErrorReply {
                status: 500,
                message: owned("The server could not complete this request."),
                logged: true,
            },
        }
    }
}

} // verus!
