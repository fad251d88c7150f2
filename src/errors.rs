use vstd::prelude::*;

verus! {

/// Everything that can go wrong in the upload core, as a tagged value.
#[derive(Debug, Clone)]
pub enum AppError {
    Database(String),
    Io(String),
    Image(String),
    Network(String),
    Json(String),
    InvalidWebhook { url: String },
    FileNotFound { path: String },
    InvalidFileType { path: String },
    FileTooLarge { path: String },
    MetadataParsing(String),
    UploadFailed { reason: String },
    Validation { field: String, message: String },
    RateLimit { retry_after_ms: u64 },
    Config(String),
    Internal(String),
    UploadCancelled { phase: String, session_id: String },
    ProgressUpdateFailed { session_id: String },
    ForumChannelError { message: String },
}

/// Errors worth another attempt at chunk scope.
pub open spec fn spec_is_retryable(e: AppError) -> bool {
    match e {
        AppError::Network(_) | AppError::RateLimit { .. } | AppError::UploadFailed { .. }
        | AppError::Io(_) | AppError::ForumChannelError { .. } => true,
        _ => false,
    }
}

/// Errors that no retry can mend; they go straight to the caller.
pub open spec fn spec_is_permanent(e: AppError) -> bool {
    match e {
        AppError::InvalidWebhook { .. } | AppError::FileNotFound { .. }
        | AppError::InvalidFileType { .. } | AppError::FileTooLarge { .. }
        | AppError::Validation { .. } => true,
        _ => false,
    }
}

fn owned(s: &str) -> (r: String)
    ensures
        r@ == s@,
{
    s.to_owned()
}

impl AppError {
    pub fn validation(field: &str, message: &str) -> (r: Self)
        ensures
            r matches AppError::Validation { field: f, message: m } && f@ == field@ && m@ == message@,
    {
        AppError::Validation { field: owned(field), message: owned(message) }
    }

    pub fn file_not_found(path: &str) -> (r: Self)
        ensures
            r matches AppError::FileNotFound { path: p } && p@ == path@,
    {
        AppError::FileNotFound { path: owned(path) }
    }

    pub fn invalid_file_type(path: &str) -> (r: Self)
        ensures
            r matches AppError::InvalidFileType { path: p } && p@ == path@,
    {
        AppError::InvalidFileType { path: owned(path) }
    }

    pub fn file_too_large(path: &str) -> (r: Self)
        ensures
            r matches AppError::FileTooLarge { path: p } && p@ == path@,
    {
        AppError::FileTooLarge { path: owned(path) }
    }

    pub fn invalid_webhook(url: &str) -> (r: Self)
        ensures
            r matches AppError::InvalidWebhook { url: u } && u@ == url@,
    {
        AppError::InvalidWebhook { url: owned(url) }
    }

    pub fn upload_cancelled(phase: &str, session_id: &str) -> (r: Self)
        ensures
            r matches AppError::UploadCancelled { phase: p, session_id: s } && p@ == phase@
                && s@ == session_id@,
    {
        AppError::UploadCancelled { phase: owned(phase), session_id: owned(session_id) }
    }

    /// The operation name only serves the log line that the host writes.
    pub fn progress_update_failed(session_id: &str, operation: &str) -> (r: Self)
        ensures
            r matches AppError::ProgressUpdateFailed { session_id: s } && s@ == session_id@,
    {
        AppError::ProgressUpdateFailed { session_id: owned(session_id) }
    }

    pub fn forum_channel_error(message: &str) -> (r: Self)
        ensures
            r matches AppError::ForumChannelError { message: m } && m@ == message@,
    {
        AppError::ForumChannelError { message: owned(message) }
    }

    pub fn is_retryable(&self) -> (r: bool)
        ensures
            r == spec_is_retryable(*self),
    {
        match self {
            AppError::Network(_) | AppError::RateLimit { .. } | AppError::UploadFailed { .. }
            | AppError::Io(_) | AppError::ForumChannelError { .. } => true,
            _ => false,
        }
    }

    pub fn is_permanent(&self) -> (r: bool)
        ensures
            r == spec_is_permanent(*self),
    {
        match self {
            AppError::InvalidWebhook { .. } | AppError::FileNotFound { .. }
            | AppError::InvalidFileType { .. } | AppError::FileTooLarge { .. }
            | AppError::Validation { .. } => true,
            _ => false,
        }
    }
}

} // verus!
