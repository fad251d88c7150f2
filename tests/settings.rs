use vrchat_uploader::config::{
    compressed_extension, needs_downscale, should_compress_size, validate_config, validate_quality, Config,
};
use vrchat_uploader::errors::AppError;
use vrchat_uploader::model::AppConfig;
use vrchat_uploader::timestamp::{resolve_local_time, wall_clock_from_file_name};

#[test]
fn default_config_is_valid() {
    let c = Config::default();
    assert!(validate_config(&c).is_ok());
    assert_eq!(c.max_images_per_message, 10);
    assert_eq!(c.theme, "dark");
}

#[test]
fn config_errors_name_the_first_bad_field() {
    let mut c = Config::default();
    c.theme = "neon".to_string();
    c.max_retry_attempts = 11;
    match validate_config(&c) {
        Err(AppError::Validation { field, .. }) => assert_eq!(field, "max_retry_attempts"),
        other => panic!("unexpected {:?}", other),
    }
    c.max_retry_attempts = 3;
    match validate_config(&c) {
        Err(AppError::Validation { field, .. }) => assert_eq!(field, "theme"),
        other => panic!("unexpected {:?}", other),
    }
}

#[test]
fn app_config_round_trip_keeps_edited_fields() {
    let a = AppConfig {
        last_webhook_id: Some(4),
        group_by_metadata: false,
        max_images_per_message: 3,
        enable_global_shortcuts: false,
        auto_compress_threshold: 12,
        upload_quality: 70,
        compression_format: "webp".to_string(),
    };
    let c = Config::from_app_config(&a);
    assert_eq!(c.max_images_per_message, 3);
    assert_eq!(c.log_level, "info");
    let back = c.to_app_config();
    assert_eq!(back.last_webhook_id, Some(4));
    assert_eq!(back.upload_quality, 70);
}

#[test]
fn compression_decisions() {
    assert!(!should_compress_size(8 * 1024 * 1024));
    assert!(should_compress_size(10 * 1024 * 1024));
    assert!(needs_downscale(5000, 100));
    assert!(!needs_downscale(4096, 4096));
    assert!(validate_quality(85).is_ok());
    assert!(validate_quality(0).is_err());
    assert_eq!(compressed_extension("jpg"), "jpg");
    assert_eq!(compressed_extension("png"), "webp");
}

#[test]
fn file_name_wall_clock() {
    let name = "VRChat_2024-01-02_03-04-05.678_1920x1080.png";
    assert_eq!(wall_clock_from_file_name(name), Some(1704164645));
    assert_eq!(wall_clock_from_file_name("VRChat_2024-01-02_03-04-05_1920x1080.png"), Some(1704164645));
    assert_eq!(wall_clock_from_file_name("holiday.png"), None);
    assert_eq!(wall_clock_from_file_name("VRChat_2024-13-02_03-04-05.png"), None);
}

#[test]
fn local_instant_or_utc_fallback() {
    assert_eq!(resolve_local_time(1704164645, Some(1704161045)), 1704161045);
    assert_eq!(resolve_local_time(1704164645, None), 1704164645);
}
