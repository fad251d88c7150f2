use vrchat_uploader::grouper::{
    create_individual_groups_with_metadata, group_images_by_metadata, individual_group_id, individual_groups,
    ImageEntry,
};
use vrchat_uploader::model::{ImageMetadata, PlayerInfo, WorldInfo};

fn meta(world_id: Option<&str>, players: &[(&str, &str)]) -> ImageMetadata {
    ImageMetadata {
        author: None,
        world: world_id.map(|w| WorldInfo { name: format!("World {}", w), id: w.to_string(), instance_id: String::new() }),
        players: players.iter().map(|(n, i)| PlayerInfo { display_name: n.to_string(), id: i.to_string() }).collect(),
    }
}

fn entry(path: &str, m: Option<ImageMetadata>, ts: Option<i64>) -> ImageEntry {
    ImageEntry { path: path.to_string(), metadata: m, timestamp: ts }
}

#[test]
fn one_world_within_window_is_one_group() {
    let base = 1_700_000_400; // start of a 10-minute window
    let es = vec![
        entry("a.png", Some(meta(Some("wrld_A"), &[])), Some(base + 10)),
        entry("b.png", Some(meta(Some("wrld_A"), &[])), Some(base + 70)),
        entry("c.png", Some(meta(Some("wrld_A"), &[])), Some(base + 190)),
    ];
    let groups = group_images_by_metadata(es, 10, true);
    assert_eq!(groups.len(), 1);
    assert_eq!(groups[0].images, vec!["a.png", "b.png", "c.png"]);
    assert_eq!(groups[0].group_id, format!("wrld_A_t{}", (base + 10) / 600));
    assert_eq!(groups[0].timestamp, Some(base + 10));
    assert_eq!(groups[0].all_worlds.len(), 1);
}

#[test]
fn regrouping_a_group_gives_it_back() {
    let es = vec![
        entry("a.png", Some(meta(Some("w1"), &[("Zed", "z")])), Some(1000)),
        entry("b.png", Some(meta(Some("w2"), &[])), Some(50)),
        entry("c.png", Some(meta(Some("w1"), &[("Amy", "a")])), Some(1100)),
    ];
    let groups = group_images_by_metadata(es.clone(), 0, true);
    assert_eq!(groups.len(), 2);
    for g in &groups {
        let members: Vec<ImageEntry> = es.iter().filter(|e| g.images.contains(&e.path)).cloned().collect();
        let again = group_images_by_metadata(members, 0, true);
        assert_eq!(again.len(), 1);
        assert_eq!(again[0].group_id, g.group_id);
        assert_eq!(again[0].images, g.images);
        assert_eq!(again[0].timestamp, g.timestamp);
        assert_eq!(again[0].all_players.len(), g.all_players.len());
    }
}

#[test]
fn groups_sorted_by_earliest_timestamp() {
    let es = vec![
        entry("late.png", Some(meta(Some("w1"), &[])), Some(5000)),
        entry("early.png", Some(meta(Some("w2"), &[])), Some(100)),
        entry("later.png", Some(meta(Some("w1"), &[])), Some(4000)),
    ];
    let groups = group_images_by_metadata(es, 0, true);
    assert_eq!(groups[0].group_id, "w2_all");
    assert_eq!(groups[1].group_id, "w1_all");
    assert_eq!(groups[1].timestamp, Some(4000));
    assert_eq!(groups[1].images, vec!["late.png", "later.png"]);
}

#[test]
fn players_merged_by_id_and_sorted_by_name() {
    let es = vec![
        entry("a.png", Some(meta(Some("w1"), &[("Zed", "z"), ("Amy", "a")])), Some(1)),
        entry("b.png", Some(meta(Some("w1"), &[("Amy again", "a"), ("Bob", "b")])), Some(2)),
    ];
    let groups = group_images_by_metadata(es, 0, true);
    let names: Vec<&str> = groups[0].all_players.iter().map(|p| p.display_name.as_str()).collect();
    assert_eq!(names, vec!["Amy", "Bob", "Zed"]);
}

#[test]
fn keys_without_metadata() {
    let es = vec![
        entry("x.png", None, Some(1200)),
        entry("y.png", None, None),
        entry("z.png", Some(meta(None, &[])), Some(1300)),
    ];
    let groups = group_images_by_metadata(es.clone(), 10, true);
    let ids: Vec<&str> = groups.iter().map(|g| g.group_id.as_str()).collect();
    assert!(ids.contains(&"unknown_2"));
    assert!(ids.contains(&"unknown_y.png"));
    assert!(ids.contains(&"any_world_t2"));
    let all = group_images_by_metadata(es, 0, false);
    let ids: Vec<&str> = all.iter().map(|g| g.group_id.as_str()).collect();
    assert_eq!(ids.len(), 2);
    assert!(ids.contains(&"unknown_all"));
    assert!(ids.contains(&"any_world_all"));
}

#[test]
fn negative_timestamps_bucket_downwards() {
    let es = vec![entry("n.png", None, Some(-1))];
    let groups = group_images_by_metadata(es, 1, true);
    assert_eq!(groups[0].group_id, "unknown_-1");
}

#[test]
fn individual_groups_one_per_image_in_time_order() {
    let es: Vec<ImageEntry> = (0..25).map(|i| entry(&format!("/p/img{}.png", i), None, Some(1000 - i as i64))).collect();
    let groups = create_individual_groups_with_metadata(es);
    assert_eq!(groups.len(), 25);
    assert_eq!(groups[0].images, vec!["/p/img24.png"]);
    assert_eq!(groups[0].group_id, "individual_24_img24.png");
    assert_eq!(groups[24].group_id, "individual_0_img0.png");
}

#[test]
fn individual_group_id_format() {
    assert_eq!(individual_group_id(7, "shot.png"), "individual_7_shot.png");
    let es = vec![entry("a", Some(meta(Some("w"), &[("P", "p")])), None)];
    let groups = individual_groups(&es, &vec!["name".to_string()]);
    assert_eq!(groups[0].group_id, "individual_0_name");
    assert_eq!(groups[0].all_players.len(), 1);
    assert_eq!(groups[0].all_worlds[0].id, "w");
}
