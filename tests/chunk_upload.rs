use vrchat_uploader::chunk_upload::{is_payload_too_large, ChunkAction, ChunkStage, ChunkUpload};

fn send_files(c: &ChunkUpload) -> (Vec<String>, Option<String>) {
    match c.next_action() {
        ChunkAction::Send { files, thread_id } => (files, thread_id),
        other => panic!("unexpected {:?}", other),
    }
}

#[test]
fn payload_too_large_by_status_or_body() {
    assert!(is_payload_too_large(413, ""));
    assert!(is_payload_too_large(400, "error: Payload Too Large here"));
    assert!(!is_payload_too_large(400, "bad request"));
}

#[test]
fn delivered_on_first_try() {
    let mut c = ChunkUpload::new(vec!["a.png".into()], Some("T".into()));
    let (files, thread) = send_files(&c);
    assert_eq!(files, vec!["a.png"]);
    assert_eq!(thread.as_deref(), Some("T"));
    c.on_sent(true, false);
    assert!(matches!(c.next_action(), ChunkAction::Done));
    assert!(c.temp_files().is_empty());
}

#[test]
fn re_encoded_over_seven_mebibytes_goes_in_sub_chunks_into_same_thread() {
    let mib = 1024 * 1024u64;
    let originals: Vec<String> = vec!["a.png".into(), "b.png".into()];
    let mut c = ChunkUpload::new(originals.clone(), Some("T".into()));
    c.on_sent(false, true);
    match c.next_action() {
        ChunkAction::Compress { files } => assert_eq!(files, originals),
        other => panic!("unexpected {:?}", other),
    }
    let compressed: Vec<String> = vec!["/tmp/a2.webp".into(), "/tmp/b2.webp".into()];
    c.on_compressed(compressed.clone(), vec![5 * mib, 4 * mib]);
    assert_eq!(c.stage, ChunkStage::Split(0));
    let mut sent = Vec::new();
    loop {
        match c.next_action() {
            ChunkAction::Send { files, thread_id } => {
                assert_eq!(thread_id.as_deref(), Some("T"));
                sent.push(files);
                c.on_sent(true, false);
            }
            ChunkAction::Done => break,
            other => panic!("unexpected {:?}", other),
        }
    }
    assert_eq!(sent, vec![vec!["/tmp/a2.webp".to_string()], vec!["/tmp/b2.webp".to_string()]]);
    assert_eq!(c.temp_files(), compressed);
}

#[test]
fn re_encoded_within_seven_mebibytes_goes_together() {
    let mib = 1024 * 1024u64;
    let mut c = ChunkUpload::new(vec!["a.png".into(), "b.png".into()], None);
    c.on_sent(false, true);
    c.on_compressed(vec!["/tmp/a.webp".into(), "/tmp/b.webp".into()], vec![3 * mib, 4 * mib]);
    let (files, _) = send_files(&c);
    assert_eq!(files.len(), 2);
    c.on_sent(false, true);
    assert!(matches!(c.next_action(), ChunkAction::Fail));
}

#[test]
fn other_refusal_fails_chunk_and_keeps_originals() {
    let mut c = ChunkUpload::new(vec!["a.png".into(), "b.png".into()], None);
    c.on_sent(false, true);
    c.on_compressed(vec!["/tmp/a.webp".into(), "b.png".into()], vec![10, 20]);
    c.on_sent(false, false);
    assert!(matches!(c.next_action(), ChunkAction::Fail));
    assert_eq!(c.temp_files(), vec!["/tmp/a.webp"]);
}
