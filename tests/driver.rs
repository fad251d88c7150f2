use vrchat_uploader::driver::{
    calculate_backoff_delay, chunk_by_count, effective_max_images, should_retry_error, split_into_size_chunks,
    RateLimiter, SAFE_CHUNK_SIZE_BYTES,
};

fn names(n: usize) -> Vec<String> {
    (0..n).map(|i| format!("img{}.png", i)).collect()
}

#[test]
fn forum_caps_chunk_size_at_ten() {
    assert_eq!(effective_max_images(true, 15), 10);
    assert_eq!(effective_max_images(false, 15), 15);
    assert_eq!(effective_max_images(true, 4), 4);
}

#[test]
fn chunks_by_count_keep_order() {
    let imgs = names(25);
    let chunks = chunk_by_count(&imgs, 10);
    assert_eq!(chunks.iter().map(|c| c.len()).collect::<Vec<_>>(), vec![10, 10, 5]);
    let flat: Vec<String> = chunks.concat();
    assert_eq!(flat, imgs);
}

#[test]
fn oversize_chunk_splits_into_bins_of_seven_mebibytes() {
    let mib = 1024 * 1024u64;
    let imgs = names(6);
    let sizes = vec![5 * mib / 2; 6];
    let chunks = split_into_size_chunks(&imgs, &sizes);
    assert_eq!(chunks.len(), 3);
    let flat: Vec<String> = chunks.concat();
    assert_eq!(flat, imgs);
    let mut k = 0;
    for c in &chunks {
        let total: u64 = sizes[k..k + c.len()].iter().sum();
        assert!(total <= SAFE_CHUNK_SIZE_BYTES);
        k += c.len();
    }
}

#[test]
fn large_file_gets_its_own_bin() {
    let mib = 1024 * 1024u64;
    let imgs = names(4);
    let sizes = vec![mib, 9 * mib, 2 * mib, 6 * mib];
    let chunks = split_into_size_chunks(&imgs, &sizes);
    assert_eq!(
        chunks,
        vec![vec![imgs[0].clone()], vec![imgs[1].clone()], vec![imgs[2].clone()], vec![imgs[3].clone()]]
    );
    let chunks = split_into_size_chunks(&imgs[2..], &[2 * mib, 5 * mib]);
    assert_eq!(chunks.len(), 1);
}

#[test]
fn retry_statuses() {
    for s in [429u16, 500, 502, 503, 504] {
        assert!(should_retry_error(s));
    }
    for s in [400u16, 404, 413, 501] {
        assert!(!should_retry_error(s));
    }
}

#[test]
fn backoff_doubles_up_to_two_minutes() {
    assert_eq!(calculate_backoff_delay(1), 1000);
    assert_eq!(calculate_backoff_delay(2), 2000);
    assert_eq!(calculate_backoff_delay(3), 4000);
    assert_eq!(calculate_backoff_delay(8), 120000);
    assert_eq!(calculate_backoff_delay(40), 120000);
}

#[test]
fn requests_to_one_webhook_are_a_second_apart() {
    let mut l = RateLimiter::new();
    assert_eq!(l.wait_time_ms("123", 5000), 0);
    l.update_rate_limit("123", 5000);
    assert_eq!(l.wait_time_ms("123", 5300), 700);
    assert_eq!(l.wait_time_ms("123", 6000), 0);
    assert_eq!(l.wait_time_ms("456", 5300), 0);
    l.update_rate_limit("123", 7000);
    let wait = l.wait_time_ms("123", 7001);
    assert!(7001 + wait >= 8000);
}
