use vrchat_uploader::driver::{split_into_size_chunks, RateLimiter, SAFE_CHUNK_SIZE_BYTES};
use vrchat_uploader::group_upload::{GroupAction, GroupUpload};
use vrchat_uploader::grouper::{create_individual_groups_with_metadata, group_images_by_metadata, ImageEntry};
use vrchat_uploader::model::{ImageMetadata, UploadRequest, Webhook, WorldInfo};
use vrchat_uploader::progress::{
    conclude_step, fail_unsent_groups, mark_session_cancelled, start_session, outcome_event, update_progress_group_failure, update_progress_success,
    SessionOutcome, SessionStatus, UploadProgress,
};
use vrchat_uploader::security::InputValidator;

fn world_entry(path: &str, world: &str, ts: i64) -> ImageEntry {
    ImageEntry {
        path: path.to_string(),
        metadata: Some(ImageMetadata {
            author: None,
            world: Some(WorldInfo { name: "World A".into(), id: world.into(), instance_id: String::new() }),
            players: Vec::new(),
        }),
        timestamp: Some(ts),
    }
}

/// Runs a group to its end; every call is answered with `body`. Returns the
/// thread id each call carried.
fn run_group(g: &mut GroupUpload, body: &str) -> Vec<Option<String>> {
    let mut calls = Vec::new();
    loop {
        match g.next_action() {
            GroupAction::SendText { thread_id, .. } | GroupAction::UploadChunk { thread_id, .. } => {
                calls.push(thread_id);
                g.on_success(body);
            }
            GroupAction::Done | GroupAction::Fail { .. } => return calls,
        }
    }
}

#[test]
fn three_shots_one_world_forum_thread() {
    let es = vec![
        world_entry("a.png", "wrld_A", 1_700_000_400),
        world_entry("b.png", "wrld_A", 1_700_000_460),
        world_entry("c.png", "wrld_A", 1_700_000_560),
    ];
    let groups = group_images_by_metadata(es, 10, true);
    assert_eq!(groups.len(), 1);
    let mut g = GroupUpload::new(&groups[0], 10, true, true, true);
    let mut p = UploadProgress::new(3);
    match g.next_action() {
        GroupAction::SendText { thread_name, thread_id, .. } => {
            assert!(thread_name.is_some());
            assert!(thread_id.is_none());
        }
        other => panic!("unexpected {:?}", other),
    }
    g.on_success(r#"{"id":"T1"}"#);
    match g.next_action() {
        GroupAction::UploadChunk { index, thread_id } => {
            assert_eq!(thread_id.as_deref(), Some("T1"));
            for f in &g.chunks[index] {
                update_progress_success(&mut p, f.clone());
            }
        }
        other => panic!("unexpected {:?}", other),
    }
    g.on_success("{}");
    assert!(matches!(g.next_action(), GroupAction::Done));
    assert_eq!(conclude_step(&mut p, true, 0), SessionOutcome::Completed);
    assert_eq!(p.session_status, SessionStatus::Completed);
    assert_eq!(p.completed, 3);
}

#[test]
fn twenty_five_individual_groups_non_forum() {
    let es: Vec<ImageEntry> = (0..25).map(|i| world_entry(&format!("s{}.png", i), "w", 1000 + i)).collect();
    let groups = create_individual_groups_with_metadata(es);
    assert_eq!(groups.len(), 25);
    let mut limiter = RateLimiter::new();
    let mut now: u64 = 0;
    let mut last: Option<u64> = None;
    let mut chunks = 0;
    for group in &groups {
        let mut g = GroupUpload::new(group, 10, false, false, true);
        assert!(matches!(g.next_action(), GroupAction::SendText { .. }));
        loop {
            let action = g.next_action();
            if matches!(action, GroupAction::Done) {
                break;
            }
            if matches!(action, GroupAction::UploadChunk { .. }) {
                chunks += 1;
            }
            now += limiter.wait_time_ms("123", now);
            if let Some(t) = last {
                assert!(now - t >= 1000);
            }
            last = Some(now);
            limiter.update_rate_limit("123", now);
            g.on_success("");
            now += 10;
        }
    }
    assert_eq!(chunks, 25);
}

#[test]
fn forum_response_without_ids_fails_group() {
    let es: Vec<ImageEntry> = (0..4).map(|i| world_entry(&format!("f{}.png", i), "wrld_A", 1_700_000_400 + i)).collect();
    let groups = group_images_by_metadata(es, 10, true);
    let mut g = GroupUpload::new(&groups[0], 10, true, true, false);
    run_group(&mut g, r#"{"content":"posted"}"#);
    let mut p = UploadProgress::new(4);
    for f in g.failed_images() {
        update_progress_group_failure(&mut p, f, "no thread id".into(), true, groups[0].group_id.clone());
    }
    assert_eq!(p.failed_uploads.len(), 4);
    assert!(p.failed_uploads.iter().all(|f| f.is_retryable && f.error.starts_with("[Group: ")));
    let outcome = conclude_step(&mut p, false, 0);
    assert_eq!(outcome, SessionOutcome::Failed);
    assert_eq!(outcome_event(outcome).as_deref(), Some("upload-failed"));
    assert_eq!(p.session_status, SessionStatus::Failed);
}

#[test]
fn oversize_pair_splits_into_two_sub_chunks() {
    let mib = 1024 * 1024u64;
    let files = vec!["a.webp".to_string(), "b.webp".to_string()];
    let sizes = vec![5 * mib, 4 * mib];
    assert!(sizes.iter().sum::<u64>() > SAFE_CHUNK_SIZE_BYTES);
    let subs = split_into_size_chunks(&files, &sizes);
    assert_eq!(subs, vec![vec!["a.webp".to_string()], vec!["b.webp".to_string()]]);
    let mut p = UploadProgress::new(2);
    for sub in &subs {
        for f in sub {
            update_progress_success(&mut p, f.clone());
        }
    }
    assert_eq!(p.successful_uploads, files);
}

#[test]
fn cancel_between_chunk_two_and_three() {
    let es: Vec<ImageEntry> = (0..10).map(|i| world_entry(&format!("c{}.png", i), "wrld_A", 1_700_000_400 + i)).collect();
    let groups = group_images_by_metadata(es, 10, true);
    let mut g = GroupUpload::new(&groups[0], 2, false, true, false);
    let mut p = UploadProgress::new(10);
    g.on_success("");
    for _ in 0..2 {
        match g.next_action() {
            GroupAction::UploadChunk { index, .. } => {
                for f in &g.chunks[index] {
                    update_progress_success(&mut p, f.clone());
                }
                g.on_success("");
            }
            other => panic!("unexpected {:?}", other),
        }
    }
    mark_session_cancelled(&mut p);
    let outcome = conclude_step(&mut p, true, 0);
    assert_eq!(outcome, SessionOutcome::Cancelled);
    assert_eq!(outcome_event(outcome).as_deref(), Some("upload-cancelled"));
    assert_eq!(p.successful_uploads.len(), 4);
    assert_eq!(p.session_status, SessionStatus::Cancelled);
}

#[test]
fn foreign_webhook_host_is_refused_before_a_session() {
    let r = InputValidator::validate_webhook_url(
        "https://evil.example/api/webhooks/123456789012345678/abcdefghijklmnopqrstuvwxyzABCDEFGHIJKLMNOPQRSTUVWXYZ1234567890-_",
    );
    assert!(matches!(r, Err(vrchat_uploader::errors::AppError::InvalidWebhook { .. })));
}

#[test]
fn continue_while_groups_remain() {
    let mut p = UploadProgress::new(2);
    assert_eq!(conclude_step(&mut p, true, 1), SessionOutcome::Continue);
    assert_eq!(outcome_event(SessionOutcome::Continue), None);
    assert_eq!(p.session_status, SessionStatus::Active);
}

#[test]
fn start_session_checks_before_creating_a_record() {
    let request = UploadRequest {
        webhook_id: 1,
        file_paths: vec!["a.png".into(), "b.png".into()],
        group_by_metadata: true,
        max_images_per_message: 10,
        is_forum_channel: false,
        include_player_names: true,
        grouping_time_window: 10,
        group_by_world: true,
    };
    let bad = Webhook { id: 1, name: "x".into(), url: "https://evil.example/api/webhooks/123456789012345678/abcdefghijklmnopqrstuvwxyzABCDEFGHIJKLMNOPQRSTUVWXYZ1234567890-_".into(), is_forum: false };
    assert!(matches!(start_session(&bad, &request), Err(vrchat_uploader::errors::AppError::InvalidWebhook { .. })));
    let good = Webhook { url: "https://discord.com/api/webhooks/123456789012345678/abcdefghijklmnopqrstuvwxyzABCDEFGHIJKLMNOPQRSTUVWXYZ1234567890-_".into(), ..bad };
    let record = start_session(&good, &request).unwrap();
    assert_eq!(record.total_images, 2);
    assert_eq!(record.session_status, SessionStatus::Active);
    let mut zero = request.clone();
    zero.max_images_per_message = 0;
    assert!(matches!(start_session(&good, &zero), Err(vrchat_uploader::errors::AppError::Validation { .. })));
}

#[test]
fn forum_request_for_fifteen_images_is_capped_not_refused() {
    let mut request = UploadRequest {
        webhook_id: 1,
        file_paths: vec!["a.png".into()],
        group_by_metadata: true,
        max_images_per_message: 15,
        is_forum_channel: true,
        include_player_names: true,
        grouping_time_window: 10,
        group_by_world: true,
    };
    let hook = Webhook { id: 1, name: "x".into(), url: "https://discord.com/api/webhooks/123456789012345678/abcdefghijklmnopqrstuvwxyzABCDEFGHIJKLMNOPQRSTUVWXYZ1234567890-_".into(), is_forum: true };
    assert!(start_session(&hook, &request).is_ok());
    request.is_forum_channel = false;
    assert!(matches!(start_session(&hook, &request), Err(vrchat_uploader::errors::AppError::Validation { .. })));
}

#[test]
fn failed_session_counts_files_of_unsent_groups() {
    let es: Vec<ImageEntry> = (0..3).map(|i| world_entry(&format!("g{}.png", i), &format!("w{}", i), 1000 * i)).collect();
    let groups = group_images_by_metadata(es, 0, true);
    assert_eq!(groups.len(), 3);
    let mut p = UploadProgress::new(3);
    update_progress_success(&mut p, groups[0].images[0].clone());
    update_progress_group_failure(&mut p, groups[1].images[0].clone(), "boom".into(), true, groups[1].group_id.clone());
    fail_unsent_groups(&mut p, &groups, 2, "Not sent: an earlier group failed");
    assert_eq!(conclude_step(&mut p, false, 1), SessionOutcome::Failed);
    assert_eq!(p.completed, p.total_images);
    assert_eq!(p.failed_uploads.len(), 2);
    assert!(p.failed_uploads[1].error.starts_with("[Group: w2_all]"));
}
