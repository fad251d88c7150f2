use vrchat_uploader::discord::{choose_thread_id, extract_thread_id, extract_webhook_id, mime_type_for, UploadPayload};

#[test]
fn thread_id_from_id_or_channel_id() {
    assert_eq!(extract_thread_id(r#"{"id":"T1","channel_id":"C1"}"#).as_deref(), Some("T1"));
    assert_eq!(extract_thread_id(r#"{"channel_id":"C1"}"#).as_deref(), Some("C1"));
    assert_eq!(extract_thread_id(r#"{"id":5}"#), None);
    assert_eq!(extract_thread_id("not json"), None);
    assert_eq!(extract_thread_id(""), None);
}

#[test]
fn first_present_thread_id_wins() {
    assert_eq!(choose_thread_id(Some("a".into()), Some("b".into())).as_deref(), Some("a"));
    assert_eq!(choose_thread_id(None, Some("b".into())).as_deref(), Some("b"));
    assert_eq!(choose_thread_id(None, None), None);
}

#[test]
fn webhook_id_is_next_to_last_segment() {
    assert_eq!(extract_webhook_id("https://discord.com/api/webhooks/123456789012345678/tok"), "123456789012345678");
    assert_eq!(extract_webhook_id("plain"), "default");
    assert_eq!(extract_webhook_id("/x"), "");
}

#[test]
fn mime_types_by_extension() {
    assert_eq!(mime_type_for("a.png"), "image/png");
    assert_eq!(mime_type_for("a.jpg"), "image/jpeg");
    assert_eq!(mime_type_for("a.jpeg"), "image/jpeg");
    assert_eq!(mime_type_for("a.webp"), "image/webp");
    assert_eq!(mime_type_for("a.gif"), "image/gif");
    assert_eq!(mime_type_for("a.bmp"), "image/png");
    assert_eq!(mime_type_for(".gif"), "image/png");
}

#[test]
fn payload_fields_replace_same_key() {
    let mut p = UploadPayload::new();
    p.add_text_field("content".into(), "one".into());
    p.add_text_field("thread_name".into(), "t".into());
    p.add_text_field("content".into(), "two".into());
    assert_eq!(p.text_fields().len(), 2);
    assert_eq!(p.text_fields()[0], ("content".to_string(), "two".to_string()));
    p.add_file_data("x.webp".into(), vec![1, 2], "files[0]".into());
    assert_eq!(p.files()[0].mime_type, "image/webp");
    assert_eq!(p.files()[0].field_name, "files[0]");
}
