use vrchat_uploader::composer::{
    create_compact_world_messages, create_discord_payload, create_split_player_messages, create_worlds_only_message,
};
use vrchat_uploader::model::{PlayerInfo, WorldInfo};

fn world(name: &str, id: &str) -> WorldInfo {
    WorldInfo { name: name.to_string(), id: id.to_string(), instance_id: String::new() }
}

fn player(name: &str, id: &str) -> PlayerInfo {
    PlayerInfo { display_name: name.to_string(), id: id.to_string() }
}

#[test]
fn worlds_only_message_with_time() {
    let ws = vec![world("Home", "wrld_1")];
    let text = create_worlds_only_message(&ws, Some(1700000000));
    assert_eq!(
        text,
        "📸 Photos taken at **Home** ([VRChat](<https://vrchat.com/home/launch?worldId=wrld_1>), [VRCX](<https://vrcx.azurewebsites.net/world/wrld_1>)) at <t:1700000000:f>"
    );
}

#[test]
fn worlds_only_message_without_worlds() {
    assert_eq!(create_worlds_only_message(&[], None), "📸 Photos");
    assert_eq!(create_worlds_only_message(&[], Some(-5)), "📸 Photos taken at <t:-5:f>");
}

#[test]
fn two_worlds_are_joined_by_comma() {
    let ws = vec![world("A", "a"), world("B", "b")];
    let text = create_worlds_only_message(&ws, None);
    assert_eq!(
        text,
        "📸 Photos taken at **A** ([VRChat](<https://vrchat.com/home/launch?worldId=a>), [VRCX](<https://vrcx.azurewebsites.net/world/a>)), **B** ([VRChat](<https://vrchat.com/home/launch?worldId=b>), [VRCX](<https://vrcx.azurewebsites.net/world/b>))"
    );
}

#[test]
fn first_message_names_players_and_forum_thread() {
    let ws = vec![world("Home", "wrld_1")];
    let ps = vec![player("Alice", "u1"), player("Bob", "u2")];
    let (fields, overflow) = create_discord_payload(&ws, &ps, None, true, 0, true, None, true);
    let content = fields.content.unwrap();
    assert!(content.ends_with(" with **Alice**, **Bob**"));
    assert_eq!(fields.thread_name.unwrap(), "📸 Photos from Home");
    assert!(overflow.is_empty());
}

#[test]
fn players_left_out_when_not_requested() {
    let ws = vec![world("Home", "wrld_1")];
    let ps = vec![player("Alice", "u1")];
    let (fields, overflow) = create_discord_payload(&ws, &ps, None, true, 0, false, None, false);
    assert_eq!(fields.content.unwrap(), create_worlds_only_message(&ws, None));
    assert!(fields.thread_name.is_none());
    assert!(overflow.is_empty());
}

#[test]
fn continuation_chunks_carry_no_text() {
    let ws = vec![world("Home", "wrld_1")];
    let ps = vec![player("Alice", "u1")];
    let (fields, overflow) = create_discord_payload(&ws, &ps, Some(1), false, 2, true, Some("T1"), true);
    assert!(fields.content.is_none());
    assert!(fields.thread_name.is_none());
    assert!(overflow.is_empty());
}

fn sized_players(header_len: usize, extra: usize) -> Vec<PlayerInfo> {
    // " with **" + name + "**" and ", **b**" make the content header + 6 + 4 + x + 7 bytes.
    let x = 1883 + extra - header_len;
    vec![player(&"a".repeat(x), "u1"), player("b", "u2")]
}

#[test]
fn content_of_exactly_1900_bytes_fits() {
    let ws = vec![world("Home", "wrld_1")];
    let header = create_worlds_only_message(&ws, None);
    let ps = sized_players(header.len(), 0);
    let (fields, overflow) = create_discord_payload(&ws, &ps, None, true, 0, false, None, true);
    let content = fields.content.unwrap();
    assert_eq!(content.len(), 1900);
    assert!(content.ends_with(", **b**"));
    assert!(overflow.is_empty());
}

#[test]
fn content_of_1901_bytes_overflows_at_player_boundary() {
    let ws = vec![world("Home", "wrld_1")];
    let header = create_worlds_only_message(&ws, None);
    let ps = sized_players(header.len(), 1);
    let (fields, overflow) = create_discord_payload(&ws, &ps, None, true, 0, false, None, true);
    let content = fields.content.unwrap();
    assert!(content.ends_with("**,"));
    assert_eq!(content.len(), 1895);
    assert_eq!(overflow, vec!["**b**".to_string()]);
}

#[test]
fn players_that_do_not_fit_at_all_overflow_with_prefix() {
    let long = "x".repeat(1950);
    let ws = vec![world(&long, "wrld_1")];
    let ps = vec![player("Alice", "u1"), player("Bob", "u2")];
    let (fields, overflow) = create_discord_payload(&ws, &ps, None, true, 0, false, None, true);
    assert!(!fields.content.unwrap().contains("Alice"));
    assert_eq!(overflow, vec!["with **Alice**, **Bob**".to_string()]);
}

#[test]
fn thread_title_is_cut_to_100_characters() {
    let ws = vec![world(&"n".repeat(150), "w")];
    let (fields, _) = create_discord_payload(&ws, &[], None, true, 0, true, None, false);
    let title = fields.thread_name.unwrap();
    assert_eq!(title.chars().count(), 100);
    assert!(title.starts_with("📸 Photos from nnn"));
    assert!(title.ends_with("..."));
}

#[test]
fn thread_title_without_worlds() {
    let (fields, _) = create_discord_payload(&[], &[], Some(3), true, 0, true, None, false);
    assert_eq!(fields.thread_name.unwrap(), "📸 Photos");
    assert_eq!(fields.content.unwrap(), "📸 Photos taken at <t:3:f>");
}

#[test]
fn compact_world_messages_list_names_and_links() {
    let ws = vec![world("One", "id1"), world("Two", "id2")];
    let (summary, links) = create_compact_world_messages(&ws);
    assert_eq!(summary, "📸 Photos from 2 worlds:\n• One\n• Two");
    assert_eq!(
        links,
        vec![
            "World Links:\n• [VRChat](<https://vrchat.com/home/launch?worldId=id1>) | [VRCX](<https://vrcx.azurewebsites.net/world/id1>)\n• [VRChat](<https://vrchat.com/home/launch?worldId=id2>) | [VRCX](<https://vrcx.azurewebsites.net/world/id2>)".to_string()
        ]
    );
    let (empty_summary, empty_links) = create_compact_world_messages(&[]);
    assert_eq!(empty_summary, "📸 Photos");
    assert!(empty_links.is_empty());
}

#[test]
fn split_player_messages_open_with_with() {
    let ps = vec![player("A", "1"), player("B", "2")];
    assert_eq!(create_split_player_messages(&ps), vec!["with **A**, **B**".to_string()]);
    assert!(create_split_player_messages(&[]).is_empty());
}

#[test]
fn split_player_messages_break_before_1900_bytes() {
    let ps: Vec<PlayerInfo> = (0..300).map(|i| player(&format!("player{:04}", i), &i.to_string())).collect();
    let msgs = create_split_player_messages(&ps);
    assert!(msgs.len() > 1);
    for m in &msgs {
        assert!(m.len() <= 1900);
    }
    assert!(msgs[0].starts_with("with **player0000**"));
    assert!(msgs[0].ends_with(','));
    assert!(msgs[1].starts_with("**player"));
    let total: usize = msgs.iter().map(|m| m.matches("**player").count()).sum();
    assert_eq!(total, 300);
}

#[test]
fn comma_never_pushes_main_text_past_1900() {
    let ws = vec![world("Home", "wrld_1")];
    let header = create_worlds_only_message(&ws, None);
    // First player brings the text to 1893 bytes, second to exactly 1900; a third follows.
    let x = 1883 - header.len();
    let ps = vec![player(&"a".repeat(x), "u1"), player("b", "u2"), player("c", "u3")];
    let (fields, overflow) = create_discord_payload(&ws, &ps, None, true, 0, false, None, true);
    let content = fields.content.unwrap();
    assert!(content.len() <= 1900);
    assert!(content.ends_with("**,"));
    assert_eq!(overflow, vec!["**b**, **c**".to_string()]);
}
