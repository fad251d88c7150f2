use vrchat_uploader::group_upload::{GroupAction, GroupStage, GroupUpload};
use vrchat_uploader::grouper::ImageGroup;
use vrchat_uploader::model::WorldInfo;

fn group(n: usize) -> ImageGroup {
    ImageGroup {
        images: (0..n).map(|i| format!("img{}.png", i)).collect(),
        timestamp: Some(1_700_000_000),
        group_id: "wrld_A_t1".to_string(),
        all_players: Vec::new(),
        all_worlds: vec![WorldInfo { name: "A".to_string(), id: "wrld_A".to_string(), instance_id: String::new() }],
    }
}

#[test]
fn forum_group_opens_thread_then_uploads_into_it() {
    let mut g = GroupUpload::new(&group(3), 10, true, true, true);
    match g.next_action() {
        GroupAction::SendText { thread_name, thread_id, .. } => {
            assert_eq!(thread_name.as_deref(), Some("📸 Photos from A"));
            assert!(thread_id.is_none());
        }
        other => panic!("unexpected {:?}", other),
    }
    g.on_success(r#"{"id":"T1","content":"x"}"#);
    match g.next_action() {
        GroupAction::UploadChunk { index, thread_id } => {
            assert_eq!(index, 0);
            assert_eq!(thread_id.as_deref(), Some("T1"));
        }
        other => panic!("unexpected {:?}", other),
    }
    g.on_success("{}");
    assert!(matches!(g.next_action(), GroupAction::Done));
}

#[test]
fn forum_calls_after_the_first_share_the_thread() {
    let mut g = GroupUpload::new(&group(25), 15, true, true, false);
    g.on_success(r#"{"channel_id":"C9"}"#);
    let mut seen = 0;
    loop {
        match g.next_action() {
            GroupAction::UploadChunk { thread_id, .. } => {
                assert_eq!(thread_id.as_deref(), Some("C9"));
                seen += 1;
                g.on_success("{}");
            }
            GroupAction::Done => break,
            other => panic!("unexpected {:?}", other),
        }
    }
    assert_eq!(seen, 3);
}

#[test]
fn forum_response_without_thread_fails_whole_group() {
    let mut g = GroupUpload::new(&group(4), 10, true, true, false);
    g.on_success(r#"{"content":"no ids"}"#);
    assert_eq!(g.stage, GroupStage::Failed(0));
    assert!(matches!(g.next_action(), GroupAction::Fail { from_chunk: 0 }));
    assert_eq!(g.failed_images().len(), 4);
}

#[test]
fn non_forum_group_sends_text_then_images() {
    let mut g = GroupUpload::new(&group(1), 10, false, true, false);
    match g.next_action() {
        GroupAction::SendText { thread_name, .. } => assert!(thread_name.is_none()),
        other => panic!("unexpected {:?}", other),
    }
    g.on_failure();
    assert!(matches!(g.next_action(), GroupAction::UploadChunk { index: 0, thread_id: None }));
    g.on_success("");
    assert!(matches!(g.next_action(), GroupAction::Done));
}

#[test]
fn failed_chunk_fails_remaining_images() {
    let mut g = GroupUpload::new(&group(5), 2, false, false, false);
    g.on_success("");
    g.on_success("");
    g.on_failure();
    assert_eq!(g.stage, GroupStage::Failed(1));
    assert_eq!(g.failed_images(), vec!["img2.png", "img3.png", "img4.png"]);
}
