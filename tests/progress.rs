use vrchat_uploader::progress::{
    cancel_session, is_session_cancelled, mark_session_cancelled, mark_session_completed, mark_session_failed,
    update_progress_current_with_phase, update_progress_failure, update_progress_group_failure,
    update_progress_success, update_time_estimate, SessionStatus, UploadProgress,
};

fn counts_hold(p: &UploadProgress) {
    assert_eq!(p.completed, p.successful_uploads.len() + p.failed_uploads.len());
    assert!(p.completed <= p.total_images);
}

#[test]
fn completed_counts_every_file_once() {
    let mut p = UploadProgress::new(3);
    update_progress_success(&mut p, "a".to_string());
    counts_hold(&p);
    update_progress_failure(&mut p, "b".to_string(), "boom".to_string(), true);
    counts_hold(&p);
    update_progress_failure(&mut p, "b".to_string(), "again".to_string(), false);
    counts_hold(&p);
    assert_eq!(p.failed_uploads[0].retry_count, 1);
    assert_eq!(p.failed_uploads[0].error, "again");
    assert!(!p.failed_uploads[0].is_retryable);
    update_progress_success(&mut p, "b".to_string());
    counts_hold(&p);
    assert!(p.failed_uploads.is_empty());
    assert_eq!(p.successful_uploads, vec!["a", "b"]);
    update_progress_success(&mut p, "c".to_string());
    update_progress_success(&mut p, "d".to_string());
    counts_hold(&p);
    assert_eq!(p.completed, 3);
}

#[test]
fn success_wins_over_failure() {
    let mut p = UploadProgress::new(2);
    update_progress_success(&mut p, "a".to_string());
    update_progress_failure(&mut p, "a".to_string(), "late error".to_string(), true);
    assert_eq!(p.successful_uploads, vec!["a"]);
    assert!(p.failed_uploads.is_empty());
    assert_eq!(p.completed, 1);
}

#[test]
fn group_failure_names_the_group() {
    let mut p = UploadProgress::new(4);
    for f in ["1", "2", "3", "4"] {
        update_progress_group_failure(&mut p, f.to_string(), "no thread".to_string(), true, "wrld_A_t1".to_string());
    }
    mark_session_failed(&mut p);
    assert_eq!(p.failed_uploads.len(), 4);
    for f in &p.failed_uploads {
        assert!(f.error.starts_with("[Group: "));
        assert_eq!(f.error, "[Group: wrld_A_t1] no thread");
        assert!(f.is_retryable);
    }
    assert_eq!(p.session_status, SessionStatus::Failed);
    assert_eq!(p.status_text(), "failed");
}

#[test]
fn terminal_states_absorb_changes() {
    let mut p = UploadProgress::new(2);
    mark_session_completed(&mut p);
    update_progress_success(&mut p, "a".to_string());
    mark_session_cancelled(&mut p);
    assert_eq!(p.session_status, SessionStatus::Completed);
    assert_eq!(p.completed, 0);
    assert!(cancel_session(&mut p, "s").is_err());
}

#[test]
fn cancel_only_an_active_session() {
    let mut p = UploadProgress::new(5);
    assert!(!is_session_cancelled(Some(&p)));
    assert!(cancel_session(&mut p, "s").is_ok());
    assert!(is_session_cancelled(Some(&p)));
    assert_eq!(p.estimated_time_remaining, Some(0));
    assert!(is_session_cancelled(None));
}

#[test]
fn cancelled_after_two_chunks_keeps_their_uploads() {
    let mut p = UploadProgress::new(10);
    for f in ["1", "2", "3", "4"] {
        update_progress_success(&mut p, f.to_string());
    }
    mark_session_cancelled(&mut p);
    update_progress_success(&mut p, "5".to_string());
    assert_eq!(p.successful_uploads.len(), 4);
    assert_eq!(p.session_status, SessionStatus::Cancelled);
}

#[test]
fn eta_rounds_up_with_overhead() {
    let mut p = UploadProgress::new(5);
    update_time_estimate(&mut p, 10_000, 2, 5);
    assert_eq!(p.estimated_time_remaining, Some(20));
    update_time_estimate(&mut p, 0, 1, 5);
    assert_eq!(p.estimated_time_remaining, Some(0));
    let mut q = UploadProgress::new(5);
    update_time_estimate(&mut q, 10_000, 0, 5);
    assert_eq!(q.estimated_time_remaining, None);
}

#[test]
fn phase_label_shows_step_and_file() {
    let mut p = UploadProgress::new(1);
    update_progress_current_with_phase(&mut p, "shot.png", "Compressing", 150);
    assert_eq!(p.current_image.as_deref(), Some("Compressing - shot.png"));
    assert_eq!(p.current_progress, 100);
}
