use vrchat_uploader::errors::AppError;
use vrchat_uploader::security::InputValidator;

#[test]
fn test_validate_webhook_name_valid() {
    let valid_names = vec![
        "My Discord Server",
        "Test-Webhook_123",
        "Simple Name",
        "Gaming-Community.Server",
        "VRChat_Photos",
    ];
    for name in valid_names {
        assert!(
            InputValidator::validate_webhook_name(name).is_ok(),
            "Valid name '{}' should pass validation",
            name
        );
    }
}

#[test]
fn test_validate_webhook_name_invalid() {
    let long_name = "a".repeat(101);
    let invalid_names = vec![
        ("", "empty name"),
        ("   ", "whitespace only"),
        (long_name.as_str(), "too long"),
        ("Invalid@Name", "contains @"),
        ("Name<script>", "contains HTML"),
        ("Name&Command", "contains ampersand"),
        ("Name|Pipe", "contains pipe"),
        ("Name\"Quote", "contains quote"),
    ];
    for (name, reason) in invalid_names {
        assert!(
            InputValidator::validate_webhook_name(name).is_err(),
            "Invalid name '{}' should fail validation ({})",
            name,
            reason
        );
    }
}

#[test]
fn test_validate_webhook_url_valid() {
    let valid_urls = vec![
        "https://discord.com/api/webhooks/123456789012345678/abcdefghijklmnopqrstuvwxyzABCDEFGHIJKLMNOPQRSTUVWXYZ1234567890-_",
        "https://discordapp.com/api/webhooks/987654321098765432/ZYXWVUTSRQPONMLKJIHGFEDCBAzyxwvutsrqponmlkjihgfedcba0987654321-_",
    ];
    for url in valid_urls {
        assert!(
            InputValidator::validate_webhook_url(url).is_ok(),
            "Valid URL '{}' should pass validation",
            url
        );
    }
}

#[test]
fn test_validate_webhook_url_invalid() {
    let invalid_urls = vec![
        ("", "empty URL"),
        ("not-a-url", "not a URL"),
        ("http://discord.com/api/webhooks/123456789012345678/abc", "http instead of https"),
        ("https://example.com/api/webhooks/123456789012345678/abc", "wrong domain"),
        ("https://discord.com/api/webhooks/123/abc", "webhook ID too short"),
        ("https://discord.com/api/webhooks/12345678901234567890/abc", "webhook ID too long"),
        ("https://discord.com/api/webhooks/123456789012345678/short", "token too short"),
        ("https://discord.com/api/webhooks/123456789012345678/toolongabcdefghijklmnopqrstuvwxyzABCDEFGHIJKLMNOPQRSTUVWXYZ1234567890EXTRALONGTOKEN", "token too long"),
    ];
    for (url, reason) in invalid_urls {
        assert!(
            InputValidator::validate_webhook_url(url).is_err(),
            "Invalid URL '{}' should fail validation ({})",
            url,
            reason
        );
    }
}

#[test]
fn test_validate_upload_settings_valid() {
    for i in 1..=10 {
        assert!(InputValidator::validate_upload_settings(i, true).is_ok(), "Max images {} should be valid", i);
        assert!(InputValidator::validate_upload_settings(i, false).is_ok(), "Max images {} should be valid", i);
    }
}

#[test]
fn test_validate_upload_settings_invalid() {
    assert!(InputValidator::validate_upload_settings(0, true).is_err());
    assert!(InputValidator::validate_upload_settings(11, true).is_err());
    assert!(InputValidator::validate_upload_settings(255, false).is_err());
}

#[test]
fn test_sanitize_filename() {
    let test_cases = vec![
        ("normal_file.png", "normal_file.png"),
        ("file with spaces.jpg", "file with spaces.jpg"),
        ("file<with>bad:chars.png", "file_with_bad_chars.png"),
        ("file\"with|quotes*.jpg", "file_with_quotes_.jpg"),
        ("file/with\\path/chars.png", "file_with_path_chars.png"),
        ("file?with?question.jpg", "file_with_question.jpg"),
        ("", ""),
        ("   spaced   ", "spaced"),
    ];
    for (input, expected) in test_cases {
        let result = InputValidator::sanitize_filename(input);
        assert_eq!(result, expected, "Sanitizing '{}' should produce '{}'", input, expected);
    }
}

#[test]
fn test_sanitize_filename_long() {
    let long_name = "a".repeat(300);
    let result = InputValidator::sanitize_filename(&long_name);
    assert_eq!(result.len(), 255);
    assert!(result.ends_with("..."));
}

#[test]
fn test_validate_file_path_invalid_paths() {
    let invalid_paths = vec![
        ("", "empty path"),
        ("../etc/passwd", "path traversal"),
        ("~/secret/file.png", "home directory traversal"),
        ("file.txt", "not an image extension"),
        ("file.exe", "executable file"),
        ("image", "no extension"),
    ];
    for (path, reason) in invalid_paths {
        assert!(
            InputValidator::validate_file_path(path).is_err(),
            "Invalid path '{}' should fail validation ({})",
            path,
            reason
        );
    }
}

#[test]
fn test_security_validation_integration() {
    let valid_webhook = "https://discord.com/api/webhooks/123456789012345678/abcdefghijklmnopqrstuvwxyzABCDEFGHIJKLMNOPQRSTUVWXYZ1234567890-_";
    let invalid_webhook = "https://malicious.com/api/webhooks/123456789012345678/token";
    assert!(InputValidator::validate_webhook_url(valid_webhook).is_ok());
    assert!(InputValidator::validate_webhook_url(invalid_webhook).is_err());

    let valid_name = "My Discord Server";
    let invalid_name = "Server<script>alert('xss')</script>";
    assert!(InputValidator::validate_webhook_name(valid_name).is_ok());
    assert!(InputValidator::validate_webhook_name(invalid_name).is_err());

    assert!(InputValidator::validate_upload_settings(5, true).is_ok());
    assert!(InputValidator::validate_upload_settings(0, false).is_err());
    assert!(InputValidator::validate_upload_settings(11, true).is_err());

    let dangerous_filename = "../../etc/passwd<script>.png";
    let safe_filename = InputValidator::sanitize_filename(dangerous_filename);
    assert!(safe_filename.contains(".."));
    assert!(!safe_filename.contains("<"));
    assert!(!safe_filename.contains(">"));
}

#[test]
fn test_data_flow_integration() {
    let user_webhook_input = "  https://discord.com/api/webhooks/123456789012345678/abcdefghijklmnopqrstuvwxyzABCDEFGHIJKLMNOPQRSTUVWXYZ1234567890-_  ";
    let trimmed = user_webhook_input.trim();
    assert!(InputValidator::validate_webhook_url(trimmed).is_ok());

    let user_name_input = "  My Gaming Server  ";
    let trimmed_name = user_name_input.trim();
    assert!(InputValidator::validate_webhook_name(trimmed_name).is_ok());

    let user_max_images = 5u8;
    let user_group_metadata = true;
    assert!(InputValidator::validate_upload_settings(user_max_images, user_group_metadata).is_ok());
}

#[test]
fn upload_settings_zero_and_eleven_are_validation_errors() {
    assert!(matches!(InputValidator::validate_upload_settings(0, true), Err(AppError::Validation { .. })));
    assert!(matches!(InputValidator::validate_upload_settings(11, false), Err(AppError::Validation { .. })));
}

#[test]
fn sixty_megabyte_file_is_too_large() {
    let size = 60u64 * 1024 * 1024;
    match InputValidator::validate_file_size("big.png", size) {
        Err(AppError::FileTooLarge { path }) => assert_eq!(path, "big.png"),
        other => panic!("unexpected {:?}", other),
    }
    assert!(InputValidator::validate_file_size("ok.png", 50 * 1024 * 1024).is_ok());
}

#[test]
fn foreign_host_webhook_is_invalid_webhook() {
    let url = "https://evil.example/api/webhooks/123456789012345678/abcdefghijklmnopqrstuvwxyzABCDEFGHIJKLMNOPQRSTUVWXYZ1234567890-_";
    match InputValidator::validate_webhook_url(url) {
        Err(AppError::InvalidWebhook { url: u }) => assert_eq!(u, url),
        other => panic!("unexpected {:?}", other),
    }
}

#[test]
fn invalid_webhook_error_carries_the_trimmed_url() {
    match InputValidator::validate_webhook_url("not-a-webhook") {
        Err(AppError::InvalidWebhook { url }) => assert_eq!(url, "not-a-webhook"),
        other => panic!("unexpected {:?}", other),
    }
}

#[test]
fn image_paths_are_accepted_in_any_case() {
    assert!(InputValidator::validate_file_path("/photos/VRChat_2024-01-01.PNG").is_ok());
    assert!(InputValidator::validate_file_path("shot.jpeg").is_ok());
    assert!(matches!(InputValidator::validate_file_path("file.txt"), Err(AppError::InvalidFileType { .. })));
    assert!(matches!(InputValidator::validate_file_path("image"), Err(AppError::Validation { .. })));
}
