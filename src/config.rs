//! The application's settings and their validation.
use vstd::prelude::*;
use crate::errors::AppError;
use crate::model::AppConfig;
use crate::text::owned;

verus! {

/// Every persisted setting.
#[derive(Debug, Clone)]
pub struct Config {
    pub last_webhook_id: Option<i64>,
    pub group_by_metadata: bool,
    pub max_images_per_message: u8,
    pub enable_global_shortcuts: bool,
    pub theme: String,
    pub upload_quality: u8,
    /// Megabytes.
    pub auto_compress_threshold: u64,
    pub preserve_timestamps: bool,
    pub auto_cleanup_days: u32,
    pub rate_limit_delay_ms: u64,
    pub max_retry_attempts: u32,
    pub backup_original_files: bool,
    pub show_upload_notifications: bool,
    pub log_level: String,
}

impl Default for Config {
    fn default() -> (r: Self)
        ensures
            r.last_webhook_id.is_none(),
            r.group_by_metadata,
            r.max_images_per_message == 10,
            r.enable_global_shortcuts,
            r.theme@ == "dark"@,
            r.upload_quality == 85,
            r.auto_compress_threshold == 8,
            r.preserve_timestamps,
            r.auto_cleanup_days == 30,
            r.rate_limit_delay_ms == 1000,
            r.max_retry_attempts == 3,
            !r.backup_original_files,
            r.show_upload_notifications,
            r.log_level@ == "info"@,
    {
        Config {
            last_webhook_id: None,
            group_by_metadata: true,
            max_images_per_message: 10,
            enable_global_shortcuts: true,
            theme: owned("dark"),
            upload_quality: 85,
            auto_compress_threshold: 8,
            preserve_timestamps: true,
            auto_cleanup_days: 30,
            rate_limit_delay_ms: 1000,
            max_retry_attempts: 3,
            backup_original_files: false,
            show_upload_notifications: true,
            log_level: owned("info"),
        }
    }
}

/// The setting that `validate_config` rejects first, if any.
pub open spec fn config_problem(c: Config) -> Option<Seq<char>> {
    if c.max_images_per_message == 0 || c.max_images_per_message > 10 {
        Some("max_images_per_message"@)
    } else if c.upload_quality == 0 || c.upload_quality > 100 {
        Some("upload_quality"@)
    } else if c.auto_compress_threshold == 0 {
        Some("auto_compress_threshold"@)
    } else if c.auto_cleanup_days == 0 {
        Some("auto_cleanup_days"@)
    } else if c.rate_limit_delay_ms < 100 {
        Some("rate_limit_delay_ms"@)
    } else if c.max_retry_attempts > 10 {
        Some("max_retry_attempts"@)
    } else if !(c.theme@ == "dark"@ || c.theme@ == "light"@ || c.theme@ == "auto"@) {
        Some("theme"@)
    } else if !(c.log_level@ == "error"@ || c.log_level@ == "warn"@ || c.log_level@ == "info"@
        || c.log_level@ == "debug"@ || c.log_level@ == "trace"@) {
        Some("log_level"@)
    } else {
        None
    }
}

fn is(s: &String, t: &str) -> (r: bool)
    ensures
        r == (s@ == t@),
{
    *s == owned(t)
}

/// Checks every setting's range; the error names the first one out of range.
pub fn validate_config(config: &Config) -> (r: Result<(), AppError>)
    ensures
        match config_problem(*config) {
            None => r.is_ok(),
            Some(f) => r matches Err(AppError::Validation { field, .. }) && field@ == f,
        },
{
    if config.max_images_per_message == 0 || config.max_images_per_message > 10 {
        return Err(AppError::validation("max_images_per_message", "Must be between 1 and 10"));
    }
    if config.upload_quality == 0 || config.upload_quality > 100 {
        return Err(AppError::validation("upload_quality", "Must be between 1 and 100"));
    }
    if config.auto_compress_threshold == 0 {
        return Err(AppError::validation("auto_compress_threshold", "Must be greater than 0"));
    }
    if config.auto_cleanup_days == 0 {
        return Err(AppError::validation("auto_cleanup_days", "Must be greater than 0"));
    }
    if config.rate_limit_delay_ms < 100 {
        return Err(AppError::validation("rate_limit_delay_ms", "Must be at least 100ms"));
    }
    if config.max_retry_attempts > 10 {
        return Err(AppError::validation("max_retry_attempts", "Must be 10 or fewer"));
    }
    if !(is(&config.theme, "dark") || is(&config.theme, "light") || is(&config.theme, "auto")) {
        return Err(AppError::validation("theme", "Must be 'dark', 'light', or 'auto'"));
    }
    if !(is(&config.log_level, "error") || is(&config.log_level, "warn") || is(&config.log_level, "info")
        || is(&config.log_level, "debug") || is(&config.log_level, "trace")) {
        return Err(AppError::validation("log_level", "Must be a valid log level"));
    }
    Ok(())
}

impl Config {
    /// The settings the user interface shows.
    pub fn to_app_config(&self) -> (r: AppConfig)
        ensures
            r.last_webhook_id == self.last_webhook_id,
            r.group_by_metadata == self.group_by_metadata,
            r.max_images_per_message == self.max_images_per_message,
            r.enable_global_shortcuts == self.enable_global_shortcuts,
            r.auto_compress_threshold == self.auto_compress_threshold,
            r.upload_quality == self.upload_quality,
            r.compression_format@ == "webp"@,
    {
        AppConfig {
            last_webhook_id: self.last_webhook_id,
            group_by_metadata: self.group_by_metadata,
            max_images_per_message: self.max_images_per_message,
            enable_global_shortcuts: self.enable_global_shortcuts,
            auto_compress_threshold: self.auto_compress_threshold,
            upload_quality: self.upload_quality,
            compression_format: owned("webp"),
        }
    }

    /// The defaults, with what the user interface edits taken from `app_config`.
    pub fn from_app_config(app_config: &AppConfig) -> (r: Config)
        ensures
            r.last_webhook_id == app_config.last_webhook_id,
            r.group_by_metadata == app_config.group_by_metadata,
            r.max_images_per_message == app_config.max_images_per_message,
            r.enable_global_shortcuts == app_config.enable_global_shortcuts,
            r.auto_compress_threshold == app_config.auto_compress_threshold,
            r.upload_quality == app_config.upload_quality,
            r.theme@ == "dark"@,
            r.log_level@ == "info"@,
            r.auto_cleanup_days == 30,
            r.rate_limit_delay_ms == 1000,
            r.max_retry_attempts == 3,
    {
        let mut config = Config::default();
        config.last_webhook_id = app_config.last_webhook_id;
        config.group_by_metadata = app_config.group_by_metadata;
        config.max_images_per_message = app_config.max_images_per_message;
        config.enable_global_shortcuts = app_config.enable_global_shortcuts;
        config.auto_compress_threshold = app_config.auto_compress_threshold;
        config.upload_quality = app_config.upload_quality;
        config
    }
}

/// Files above this many bytes (8 MiB) are worth compressing before upload.
pub const COMPRESSION_THRESHOLD: u64 = 8388608;

/// Quality used when a chunk is re-encoded after a 413.
pub const FALLBACK_QUALITY: u8 = 85;

/// Largest width or height kept when re-encoding.
pub const MAX_DIMENSION: u32 = 4096;

/// Whether a file of this size should be compressed before upload.
pub fn should_compress_size(file_size: u64) -> (r: bool)
    ensures
        r == (file_size > COMPRESSION_THRESHOLD),
{
    file_size > COMPRESSION_THRESHOLD
}

/// Whether an image must be scaled down to fit 4096 by 4096 before re-encoding.
pub fn needs_downscale(width: u32, height: u32) -> (r: bool)
    ensures
        r == (width > MAX_DIMENSION || height > MAX_DIMENSION),
{
    width > MAX_DIMENSION || height > MAX_DIMENSION
}

/// Checks an encoding quality: 1 to 100.
pub fn validate_quality(quality: u8) -> (r: Result<(), AppError>)
    ensures
        r.is_ok() == (1 <= quality <= 100),
        r.is_err() ==> (r matches Err(AppError::Validation { field, .. }) && field@ == "quality"@),
{
    if quality == 0 || quality > 100 {
        return Err(AppError::validation("quality", "Quality must be between 1 and 100"));
    }
    Ok(())
}

/// The file extension of a re-encoded image: "jpg" when JPEG is configured, else "webp".
pub fn compressed_extension(format: &str) -> (r: String)
    ensures
        r@ == (if format@ == "jpg"@ { "jpg"@ } else { "webp"@ }),
{
    if crate::discord::same_text(format, "jpg") {
        owned("jpg")
    } else {
        owned("webp")
    }
}

} // verus!
