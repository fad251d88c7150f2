//! Partition of a batch of screenshots into groups by world and time window.
use vstd::prelude::*;
use vstd::utf8::encode_utf8;
use crate::composer::texts;
use crate::model::{ImageMetadata, PlayerInfo, WorldInfo};
use crate::text::{append, decimal, decimal_string, owned, usize_string};

verus! {

/// One screenshot with what was read from it before grouping.
#[derive(Debug, Clone)]
pub struct ImageEntry {
    pub path: String,
    pub metadata: Option<ImageMetadata>,
    pub timestamp: Option<i64>,
}

/// Photos presented together as one post.
#[derive(Debug, Clone)]
pub struct ImageGroup {
    pub images: Vec<String>,
    pub timestamp: Option<i64>,
    pub group_id: String,
    pub all_players: Vec<PlayerInfo>,
    pub all_worlds: Vec<WorldInfo>,
}

/// Byte-wise lexicographic order, the order of Rust's `str`.
pub open spec fn bytes_lt(a: Seq<u8>, b: Seq<u8>) -> bool
    decreases a.len(),
{
    if b.len() == 0 {
        false
    } else if a.len() == 0 {
        true
    } else if a[0] != b[0] {
        a[0] < b[0]
    } else {
        bytes_lt(a.drop_first(), b.drop_first())
    }
}

/// `a` sorts strictly before `b`.
pub open spec fn text_lt(a: Seq<char>, b: Seq<char>) -> bool {
    bytes_lt(encode_utf8(a), encode_utf8(b))
}

fn bytes_less(a: &[u8], b: &[u8]) -> (r: bool)
    ensures
        r == bytes_lt(a@, b@),
{
    let mut i: usize = 0;
    assert(a@.skip(0) =~= a@);
    assert(b@.skip(0) =~= b@);
    while i < a.len() && i < b.len() && a[i] == b[i]
        invariant
            i <= a@.len(),
            i <= b@.len(),
            bytes_lt(a@, b@) == bytes_lt(a@.skip(i as int), b@.skip(i as int)),
        decreases a@.len() - i,
    {
        proof {
            assert(a@.skip(i as int).drop_first() =~= a@.skip(i + 1));
            assert(b@.skip(i as int).drop_first() =~= b@.skip(i + 1));
        }
        i += 1;
    }
    if i == b.len() {
        false
    } else if i == a.len() {
        true
    } else {
        a[i] < b[i]
    }
}

/// Whether text `a` sorts strictly before text `b`.
pub fn text_less(a: &str, b: &str) -> (r: bool)
    ensures
        r == text_lt(a@, b@),
{
    bytes_less(a.as_bytes(), b.as_bytes())
}

/// The integer part of `t / w` rounded down.
pub fn floor_div(t: i64, w: i64) -> (r: i64)
    requires
        w > 0,
    ensures
        r as int == t as int / w as int,
{
    if t >= 0 {
        t / w
    } else {
        let m: i64 = -(t + 1);
        let q: i64 = m / w;
        proof {
            let ti = t as int;
            let wi = w as int;
            let qi = q as int;
            let mi = m as int;
            assert(qi * wi <= mi < qi * wi + wi) by (nonlinear_arith)
                requires qi == mi / wi, wi > 0, mi >= 0;
            assert((-qi - 1) * wi <= ti < (-qi - 1) * wi + wi) by (nonlinear_arith)
                requires qi * wi <= mi < qi * wi + wi, mi == -(ti + 1);
            assert(ti / wi == -qi - 1) by (nonlinear_arith)
                requires (-qi - 1) * wi <= ti < (-qi - 1) * wi + wi, wi > 0;
        }
        -q - 1
    }
}

/// A missing timestamp counts as zero.
pub open spec fn ts_or_zero(t: Option<i64>) -> int {
    match t {
        Some(v) => v as int,
        None => 0,
    }
}

/// The world part of a key: the world id when grouping by world and known.
pub open spec fn world_part(m: ImageMetadata, group_by_world: bool) -> Seq<char> {
    if group_by_world && m.world.is_some() {
        m.world.unwrap().id@
    } else {
        "any_world"@
    }
}

/// The key of a screenshot: images with equal keys share a group.
pub open spec fn entry_key(e: ImageEntry, minutes: u32, group_by_world: bool) -> Seq<char> {
    let w = minutes as int * 60;
    match e.metadata {
        Some(m) => if minutes == 0 {
            world_part(m, group_by_world) + "_all"@
        } else {
            world_part(m, group_by_world) + "_t"@ + decimal(ts_or_zero(e.timestamp) / w)
        },
        None => if minutes == 0 {
            "unknown_all"@
        } else {
            match e.timestamp {
                Some(t) => "unknown_"@ + decimal(t as int / w),
                None => "unknown_"@ + e.path@,
            }
        },
    }
}

/// The key of a screenshot that has metadata.
fn create_metadata_key(
    metadata: &ImageMetadata,
    timestamp: Option<i64>,
    time_window_seconds: i64,
    no_time_limit: bool,
    group_by_world: bool,
) -> (r: String)
    requires
        time_window_seconds > 0,
    ensures
        no_time_limit ==> r@ == world_part(*metadata, group_by_world) + "_all"@,
        !no_time_limit ==> r@ == world_part(*metadata, group_by_world) + "_t"@ + decimal(
            ts_or_zero(timestamp) / time_window_seconds as int,
        ),
{
    let mut key = match &metadata.world {
        Some(w) if group_by_world => w.id.clone(),
        _ => owned("any_world"),
    };
    if no_time_limit {
        append(&mut key, "_all");
    } else {
        let t = match timestamp {
            Some(v) => v,
            None => 0,
        };
        append(&mut key, "_t");
        let b = decimal_string(floor_div(t, time_window_seconds));
        append(&mut key, b.as_str());
    }
    key
}

/// The grouping key of one screenshot.
fn entry_key_text(e: &ImageEntry, minutes: u32, group_by_world: bool) -> (r: String)
    ensures
        r@ == entry_key(*e, minutes, group_by_world),
{
    let no_time_limit = minutes == 0;
    let window: i64 = if no_time_limit { 1 } else { minutes as i64 * 60 };
    match &e.metadata {
        Some(m) => create_metadata_key(m, e.timestamp, window, no_time_limit, group_by_world),
        None => {
            if no_time_limit {
                owned("unknown_all")
            } else {
                let mut key = owned("unknown_");
                match e.timestamp {
                    Some(t) => {
                        let b = decimal_string(floor_div(t, window));
                        append(&mut key, b.as_str());
                    },
                    None => {
                        append(&mut key, e.path.as_str());
                    },
                }
                key
            }
        },
    }
}

/// Whether a player with this id is already listed.
pub open spec fn has_player(acc: Seq<PlayerInfo>, id: Seq<char>) -> bool {
    exists|i: int| 0 <= i < acc.len() && #[trigger] acc[i].id@ == id
}

/// Places `p` before the first listed player whose name sorts after its own.
pub open spec fn insert_player(acc: Seq<PlayerInfo>, p: PlayerInfo) -> Seq<PlayerInfo>
    decreases acc.len(),
{
    if acc.len() == 0 {
        seq![p]
    } else if text_lt(p.display_name@, acc[0].display_name@) {
        seq![p] + acc
    } else {
        seq![acc[0]] + insert_player(acc.drop_first(), p)
    }
}

/// Adds the players of `ps` whose id is new, keeping the list ordered by name.
pub open spec fn merge_players(acc: Seq<PlayerInfo>, ps: Seq<PlayerInfo>) -> Seq<PlayerInfo>
    decreases ps.len(),
{
    if ps.len() == 0 {
        acc
    } else {
        let a = merge_players(acc, ps.drop_last());
        if has_player(a, ps.last().id@) {
            a
        } else {
            insert_player(a, ps.last())
        }
    }
}

/// Whether a world with this id is already listed.
pub open spec fn has_world(acc: Seq<WorldInfo>, id: Seq<char>) -> bool {
    exists|i: int| 0 <= i < acc.len() && #[trigger] acc[i].id@ == id
}

/// Places `w` before the first listed world whose name sorts after its own.
pub open spec fn insert_world(acc: Seq<WorldInfo>, w: WorldInfo) -> Seq<WorldInfo>
    decreases acc.len(),
{
    if acc.len() == 0 {
        seq![w]
    } else if text_lt(w.name@, acc[0].name@) {
        seq![w] + acc
    } else {
        seq![acc[0]] + insert_world(acc.drop_first(), w)
    }
}

/// The screenshots of `es` whose key is `k`, in their order.
pub open spec fn members(es: Seq<ImageEntry>, minutes: u32, group_by_world: bool, k: Seq<char>) -> Seq<ImageEntry>
    decreases es.len(),
{
    if es.len() == 0 {
        Seq::empty()
    } else {
        let r = members(es.drop_last(), minutes, group_by_world, k);
        if entry_key(es.last(), minutes, group_by_world) == k {
            r.push(es.last())
        } else {
            r
        }
    }
}

/// The paths of a list of screenshots.
pub open spec fn paths_of(ms: Seq<ImageEntry>) -> Seq<Seq<char>> {
    ms.map_values(|e: ImageEntry| e.path@)
}

/// The earlier of two optional timestamps; an absent one is ignored.
pub open spec fn earliest(a: Option<i64>, b: Option<i64>) -> Option<i64> {
    match (a, b) {
        (None, x) => x,
        (x, None) => x,
        (Some(x), Some(y)) => Some(if y < x { y } else { x }),
    }
}

/// The earliest timestamp present among the screenshots.
pub open spec fn earliest_of(ms: Seq<ImageEntry>) -> Option<i64>
    decreases ms.len(),
{
    if ms.len() == 0 {
        None
    } else {
        earliest(earliest_of(ms.drop_last()), ms.last().timestamp)
    }
}

/// The players of the screenshots, one per id, ordered by name.
pub open spec fn players_of(ms: Seq<ImageEntry>) -> Seq<PlayerInfo>
    decreases ms.len(),
{
    if ms.len() == 0 {
        Seq::empty()
    } else {
        let a = players_of(ms.drop_last());
        match ms.last().metadata {
            Some(m) => merge_players(a, m.players@),
            None => a,
        }
    }
}

/// The worlds of the screenshots, one per id, ordered by name.
pub open spec fn worlds_of(ms: Seq<ImageEntry>) -> Seq<WorldInfo>
    decreases ms.len(),
{
    if ms.len() == 0 {
        Seq::empty()
    } else {
        let a = worlds_of(ms.drop_last());
        match ms.last().metadata {
            Some(m) => match m.world {
                Some(w) => if has_world(a, w.id@) { a } else { insert_world(a, w) },
                None => a,
            },
            None => a,
        }
    }
}

/// What a group holds: id, image paths, timestamp, players, worlds.
pub type GroupView = (Seq<char>, Seq<Seq<char>>, Option<i64>, Seq<PlayerInfo>, Seq<WorldInfo>);

pub open spec fn group_view(g: ImageGroup) -> GroupView {
    (g.group_id@, texts(g.images@), g.timestamp, g.all_players@, g.all_worlds@)
}

pub open spec fn group_views(gs: Seq<ImageGroup>) -> Seq<GroupView> {
    gs.map_values(|g: ImageGroup| group_view(g))
}

/// The group of the screenshots of `es` whose key is `k`.
pub open spec fn group_model(es: Seq<ImageEntry>, minutes: u32, group_by_world: bool, k: Seq<char>) -> GroupView {
    let ms = members(es, minutes, group_by_world, k);
    (k, paths_of(ms), earliest_of(ms), players_of(ms), worlds_of(ms))
}

/// The distinct keys of `es` in the order they first occur.
pub open spec fn first_keys(es: Seq<ImageEntry>, minutes: u32, group_by_world: bool) -> Seq<Seq<char>>
    decreases es.len(),
{
    if es.len() == 0 {
        Seq::empty()
    } else {
        let d = first_keys(es.drop_last(), minutes, group_by_world);
        let k = entry_key(es.last(), minutes, group_by_world);
        if d.contains(k) {
            d
        } else {
            d.push(k)
        }
    }
}

/// Places `g` after every listed group whose time is not later than its own.
pub open spec fn insert_by_time(acc: Seq<GroupView>, g: GroupView) -> Seq<GroupView>
    decreases acc.len(),
{
    if acc.len() == 0 {
        seq![g]
    } else if ts_or_zero(g.2) < ts_or_zero(acc[0].2) {
        seq![g] + acc
    } else {
        seq![acc[0]] + insert_by_time(acc.drop_first(), g)
    }
}

/// A stable sort by timestamp, absent counting as zero.
pub open spec fn sort_by_time(gs: Seq<GroupView>) -> Seq<GroupView>
    decreases gs.len(),
{
    if gs.len() == 0 {
        Seq::empty()
    } else {
        insert_by_time(sort_by_time(gs.drop_last()), gs.last())
    }
}

/// The groups of a batch, ordered by time, ties kept in order of first occurrence.
pub open spec fn grouping(es: Seq<ImageEntry>, minutes: u32, group_by_world: bool) -> Seq<GroupView> {
    sort_by_time(
        first_keys(es, minutes, group_by_world).map_values(
            |k: Seq<char>| group_model(es, minutes, group_by_world, k),
        ),
    )
}

proof fn lemma_insert_player_at(acc: Seq<PlayerInfo>, p: PlayerInfo, i: int)
    requires
        0 <= i <= acc.len(),
        forall|j: int| 0 <= j < i ==> !text_lt(p.display_name@, #[trigger] acc[j].display_name@),
        i < acc.len() ==> text_lt(p.display_name@, acc[i].display_name@),
    ensures
        insert_player(acc, p) == acc.insert(i, p),
    decreases acc.len(),
{
    if acc.len() == 0 {
        assert(seq![p] =~= acc.insert(i, p));
    } else if i == 0 {
        assert(seq![p] + acc =~= acc.insert(0, p));
    } else {
        assert forall|j: int| 0 <= j < i - 1 implies !text_lt(p.display_name@, #[trigger] acc.drop_first()[j].display_name@) by {
            assert(acc.drop_first()[j] == acc[j + 1]);
        }
        lemma_insert_player_at(acc.drop_first(), p, i - 1);
        assert(seq![acc[0]] + acc.drop_first().insert(i - 1, p) =~= acc.insert(i, p));
    }
}

proof fn lemma_insert_world_at(acc: Seq<WorldInfo>, w: WorldInfo, i: int)
    requires
        0 <= i <= acc.len(),
        forall|j: int| 0 <= j < i ==> !text_lt(w.name@, #[trigger] acc[j].name@),
        i < acc.len() ==> text_lt(w.name@, acc[i].name@),
    ensures
        insert_world(acc, w) == acc.insert(i, w),
    decreases acc.len(),
{
    if acc.len() == 0 {
        assert(seq![w] =~= acc.insert(i, w));
    } else if i == 0 {
        assert(seq![w] + acc =~= acc.insert(0, w));
    } else {
        assert forall|j: int| 0 <= j < i - 1 implies !text_lt(w.name@, #[trigger] acc.drop_first()[j].name@) by {
            assert(acc.drop_first()[j] == acc[j + 1]);
        }
        lemma_insert_world_at(acc.drop_first(), w, i - 1);
        assert(seq![acc[0]] + acc.drop_first().insert(i - 1, w) =~= acc.insert(i, w));
    }
}

proof fn lemma_insert_by_time_at(acc: Seq<GroupView>, g: GroupView, i: int)
    requires
        0 <= i <= acc.len(),
        forall|j: int| 0 <= j < i ==> !(ts_or_zero(g.2) < ts_or_zero(#[trigger] acc[j].2)),
        i < acc.len() ==> ts_or_zero(g.2) < ts_or_zero(acc[i].2),
    ensures
        insert_by_time(acc, g) == acc.insert(i, g),
    decreases acc.len(),
{
    if acc.len() == 0 {
        assert(seq![g] =~= acc.insert(i, g));
    } else if i == 0 {
        assert(seq![g] + acc =~= acc.insert(0, g));
    } else {
        assert forall|j: int| 0 <= j < i - 1 implies !(ts_or_zero(g.2) < ts_or_zero(#[trigger] acc.drop_first()[j].2)) by {
            assert(acc.drop_first()[j] == acc[j + 1]);
        }
        lemma_insert_by_time_at(acc.drop_first(), g, i - 1);
        assert(seq![acc[0]] + acc.drop_first().insert(i - 1, g) =~= acc.insert(i, g));
    }
}

/// Adds `p` unless a player with its id is listed, keeping the order by name.
fn merge_player(acc: &mut Vec<PlayerInfo>, p: &PlayerInfo)
    ensures
        final(acc)@ == (if has_player(old(acc)@, p.id@) { old(acc)@ } else { insert_player(old(acc)@, *p) }),
{
    let mut i: usize = 0;
    while i < acc.len()
        invariant
            i <= acc@.len(),
            forall|j: int| 0 <= j < i ==> #[trigger] acc@[j].id@ != p.id@,
        decreases acc@.len() - i,
    {
        if acc[i].id == p.id {
            return;
        }
        i += 1;
    }
    let mut pos: usize = 0;
    while pos < acc.len() && !text_less(p.display_name.as_str(), acc[pos].display_name.as_str())
        invariant
            pos <= acc@.len(),
            forall|j: int| 0 <= j < pos ==> !text_lt(p.display_name@, #[trigger] acc@[j].display_name@),
        decreases acc@.len() - pos,
    {
        pos += 1;
    }
    proof {
        lemma_insert_player_at(acc@, *p, pos as int);
    }
    acc.insert(pos, p.duplicate());
}

/// Adds `w` unless a world with its id is listed, keeping the order by name.
fn merge_world(acc: &mut Vec<WorldInfo>, w: &WorldInfo)
    ensures
        final(acc)@ == (if has_world(old(acc)@, w.id@) { old(acc)@ } else { insert_world(old(acc)@, *w) }),
{
    let mut i: usize = 0;
    while i < acc.len()
        invariant
            i <= acc@.len(),
            forall|j: int| 0 <= j < i ==> #[trigger] acc@[j].id@ != w.id@,
        decreases acc@.len() - i,
    {
        if acc[i].id == w.id {
            return;
        }
        i += 1;
    }
    let mut pos: usize = 0;
    while pos < acc.len() && !text_less(w.name.as_str(), acc[pos].name.as_str())
        invariant
            pos <= acc@.len(),
            forall|j: int| 0 <= j < pos ==> !text_lt(w.name@, #[trigger] acc@[j].name@),
        decreases acc@.len() - pos,
    {
        pos += 1;
    }
    proof {
        lemma_insert_world_at(acc@, *w, pos as int);
    }
    acc.insert(pos, w.duplicate());
}

fn merge_players_into(acc: &mut Vec<PlayerInfo>, ps: &Vec<PlayerInfo>)
    ensures
        final(acc)@ == merge_players(old(acc)@, ps@),
{
    let ghost start = acc@;
    let mut j: usize = 0;
    assert(ps@.take(0) =~= Seq::<PlayerInfo>::empty());
    while j < ps.len()
        invariant
            j <= ps@.len(),
            acc@ == merge_players(start, ps@.take(j as int)),
        decreases ps@.len() - j,
    {
        proof {
            assert(ps@.take(j + 1).drop_last() =~= ps@.take(j as int));
            assert(ps@.take(j + 1).last() == ps@[j as int]);
        }
        merge_player(acc, &ps[j]);
        j += 1;
    }
    assert(ps@.take(ps@.len() as int) =~= ps@);
}

/// The time a group sorts by.
fn time_key(g: &ImageGroup) -> (r: i64)
    ensures
        r as int == ts_or_zero(g.timestamp),
{
    match g.timestamp {
        Some(v) => v,
        None => 0,
    }
}

/// Builds the group of the screenshots whose key is `key`.
fn build_group(entries: &Vec<ImageEntry>, keys: &Vec<String>, key: &String, minutes: u32, group_by_world: bool) -> (r: ImageGroup)
    requires
        keys@.len() == entries@.len(),
        forall|i: int| 0 <= i < keys@.len() ==> #[trigger] keys@[i]@ == entry_key(entries@[i], minutes, group_by_world),
    ensures
        group_view(r) == group_model(entries@, minutes, group_by_world, key@),
{
    let ghost es = entries@;
    let mut images: Vec<String> = Vec::new();
    let mut timestamp: Option<i64> = None;
    let mut all_players: Vec<PlayerInfo> = Vec::new();
    let mut all_worlds: Vec<WorldInfo> = Vec::new();
    let mut i: usize = 0;
    assert(es.take(0) =~= Seq::<ImageEntry>::empty());
    assert(texts(images@) =~= paths_of(Seq::<ImageEntry>::empty()));
    while i < entries.len()
        invariant
            i <= es.len(),
            es == entries@,
            keys@.len() == es.len(),
            forall|j: int| 0 <= j < keys@.len() ==> #[trigger] keys@[j]@ == entry_key(es[j], minutes, group_by_world),
            texts(images@) == paths_of(members(es.take(i as int), minutes, group_by_world, key@)),
            timestamp == earliest_of(members(es.take(i as int), minutes, group_by_world, key@)),
            all_players@ == players_of(members(es.take(i as int), minutes, group_by_world, key@)),
            all_worlds@ == worlds_of(members(es.take(i as int), minutes, group_by_world, key@)),
        decreases es.len() - i,
    {
        let ghost prev = members(es.take(i as int), minutes, group_by_world, key@);
        proof {
            assert(es.take(i + 1).drop_last() =~= es.take(i as int));
            assert(es.take(i + 1).last() == es[i as int]);
        }
        if keys[i] == *key {
            let e = &entries[i];
            let ghost old_images = images@;
            images.push(e.path.clone());
            proof {
                let now = prev.push(es[i as int]);
                assert(now.drop_last() =~= prev);
                assert(texts(images@) =~= texts(old_images).push(e.path@));
                assert(paths_of(now) =~= paths_of(prev).push(e.path@));
            }
            timestamp = match (timestamp, e.timestamp) {
                (None, x) => x,
                (x, None) => x,
                (Some(x), Some(y)) => Some(if y < x { y } else { x }),
            };
            if let Some(m) = &e.metadata {
                merge_players_into(&mut all_players, &m.players);
                if let Some(w) = &m.world {
                    merge_world(&mut all_worlds, w);
                }
            }
            proof {
                let now = prev.push(es[i as int]);
                assert(now.drop_last() =~= prev);
            }
        }
        i += 1;
    }
    assert(es.take(es.len() as int) =~= es);
    ImageGroup { images, timestamp, group_id: key.clone(), all_players, all_worlds }
}

/// Groups screenshots by world and time window. With a window of 0 minutes
/// time plays no part. Within a group the images keep their order; groups
/// come ordered by their earliest timestamp, a missing one counting as 0,
/// ties in order of first occurrence.
pub fn group_images_by_metadata(entries: Vec<ImageEntry>, time_window_minutes: u32, group_by_world: bool) -> (r: Vec<ImageGroup>)
    ensures
        group_views(r@) == grouping(entries@, time_window_minutes, group_by_world),
{
    let ghost es = entries@;
    let mut keys: Vec<String> = Vec::new();
    let mut order: Vec<String> = Vec::new();
    let mut i: usize = 0;
    assert(es.take(0) =~= Seq::<ImageEntry>::empty());
    assert(texts(order@) =~= Seq::<Seq<char>>::empty());
    while i < entries.len()
        invariant
            i <= es.len(),
            es == entries@,
            keys@.len() == i,
            forall|j: int| 0 <= j < i ==> #[trigger] keys@[j]@ == entry_key(es[j], time_window_minutes, group_by_world),
            texts(order@) == first_keys(es.take(i as int), time_window_minutes, group_by_world),
        decreases es.len() - i,
    {
        proof {
            assert(es.take(i + 1).drop_last() =~= es.take(i as int));
            assert(es.take(i + 1).last() == es[i as int]);
        }
        let k = entry_key_text(&entries[i], time_window_minutes, group_by_world);
        let mut found = false;
        let mut j: usize = 0;
        while j < order.len()
            invariant
                j <= order@.len(),
                found ==> texts(order@).contains(k@),
                !found ==> forall|t: int| 0 <= t < j ==> #[trigger] order@[t]@ != k@,
            decreases order@.len() - j,
        {
            if order[j] == k {
                found = true;
                assert(texts(order@)[j as int] == k@);
            }
            j += 1;
        }
        proof {
            if !found {
                assert forall|t: int| 0 <= t < texts(order@).len() implies #[trigger] texts(order@)[t] != k@ by {
                    assert(order@[t]@ != k@);
                }
            }
        }
        if !found {
            let ghost old_order = order@;
            order.push(k.clone());
            assert(texts(order@) =~= texts(old_order).push(k@));
        }
        keys.push(k);
        i += 1;
    }
    assert(es.take(es.len() as int) =~= es);
    let ghost fk = first_keys(es, time_window_minutes, group_by_world);
    let ghost models = fk.map_values(|k: Seq<char>| group_model(es, time_window_minutes, group_by_world, k));
    let mut sorted: Vec<ImageGroup> = Vec::new();
    let mut g: usize = 0;
    assert(models.take(0) =~= Seq::<GroupView>::empty());
    assert(group_views(sorted@) =~= Seq::<GroupView>::empty());
    while g < order.len()
        invariant
            g <= order@.len(),
            texts(order@) == fk,
            models == fk.map_values(|k: Seq<char>| group_model(es, time_window_minutes, group_by_world, k)),
            es == entries@,
            keys@.len() == es.len(),
            forall|j: int| 0 <= j < keys@.len() ==> #[trigger] keys@[j]@ == entry_key(es[j], time_window_minutes, group_by_world),
            group_views(sorted@) == sort_by_time(models.take(g as int)),
        decreases order@.len() - g,
    {
        let group = build_group(&entries, &keys, &order[g], time_window_minutes, group_by_world);
        proof {
            assert(texts(order@)[g as int] == order@[g as int]@);
            assert(models.take(g + 1).drop_last() =~= models.take(g as int));
            assert(models.take(g + 1).last() == models[g as int]);
        }
        let t = time_key(&group);
        let mut pos: usize = 0;
        while pos < sorted.len() && !(t < time_key(&sorted[pos]))
            invariant
                pos <= sorted@.len(),
                t as int == ts_or_zero(group.timestamp),
                forall|j: int| 0 <= j < pos ==> !(ts_or_zero(group.timestamp) < ts_or_zero(#[trigger] sorted@[j].timestamp)),
            decreases sorted@.len() - pos,
        {
            pos += 1;
        }
        proof {
            let vs = group_views(sorted@);
            assert forall|j: int| 0 <= j < pos implies !(ts_or_zero(group_view(group).2) < ts_or_zero(#[trigger] vs[j].2)) by {
                assert(vs[j] == group_view(sorted@[j]));
            }
            if pos < sorted@.len() {
                assert(vs[pos as int] == group_view(sorted@[pos as int]));
            }
            lemma_insert_by_time_at(vs, group_view(group), pos as int);
        }
        let ghost old_sorted = sorted@;
        sorted.insert(pos, group);
        proof {
            assert(group_views(sorted@) =~= group_views(old_sorted).insert(pos as int, group_view(group)));
        }
        g += 1;
    }
    assert(models.take(models.len() as int) =~= models);
    sorted
}

proof fn lemma_first_keys_single(ms: Seq<ImageEntry>, minutes: u32, group_by_world: bool, k: Seq<char>)
    requires
        ms.len() > 0,
        forall|i: int| 0 <= i < ms.len() ==> entry_key(#[trigger] ms[i], minutes, group_by_world) == k,
    ensures
        first_keys(ms, minutes, group_by_world) == seq![k],
    decreases ms.len(),
{
    if ms.len() == 1 {
        assert(ms.drop_last() =~= Seq::<ImageEntry>::empty());
        assert(ms.last() == ms[0]);
        assert(entry_key(ms[0], minutes, group_by_world) == k);
        assert(first_keys(ms.drop_last(), minutes, group_by_world) =~= Seq::<Seq<char>>::empty());
        assert(!Seq::<Seq<char>>::empty().contains(k));
        assert(Seq::<Seq<char>>::empty().push(k) =~= seq![k]);
    } else {
        assert forall|i: int| 0 <= i < ms.drop_last().len() implies entry_key(#[trigger] ms.drop_last()[i], minutes, group_by_world) == k by {
            assert(ms.drop_last()[i] == ms[i]);
        }
        lemma_first_keys_single(ms.drop_last(), minutes, group_by_world, k);
        assert(entry_key(ms.last(), minutes, group_by_world) == k);
        assert(seq![k].contains(k)) by {
            assert(seq![k][0] == k);
        }
    }
}

proof fn lemma_members_keys(es: Seq<ImageEntry>, minutes: u32, group_by_world: bool, k: Seq<char>)
    ensures
        forall|i: int| 0 <= i < members(es, minutes, group_by_world, k).len()
            ==> entry_key(#[trigger] members(es, minutes, group_by_world, k)[i], minutes, group_by_world) == k,
        members(members(es, minutes, group_by_world, k), minutes, group_by_world, k) == members(es, minutes, group_by_world, k),
        first_keys(es, minutes, group_by_world).contains(k) ==> members(es, minutes, group_by_world, k).len() > 0,
    decreases es.len(),
{
    if es.len() > 0 {
        let prev = members(es.drop_last(), minutes, group_by_world, k);
        lemma_members_keys(es.drop_last(), minutes, group_by_world, k);
        if entry_key(es.last(), minutes, group_by_world) == k {
            let now = prev.push(es.last());
            assert(now.drop_last() =~= prev);
            assert forall|i: int| 0 <= i < now.len() implies entry_key(#[trigger] now[i], minutes, group_by_world) == k by {
                if i < prev.len() {
                    assert(now[i] == prev[i]);
                }
            }
        } else {
            let d = first_keys(es.drop_last(), minutes, group_by_world);
            let kl = entry_key(es.last(), minutes, group_by_world);
            if first_keys(es, minutes, group_by_world).contains(k) && !d.contains(k) {
                let t = choose|t: int| 0 <= t < d.push(kl).len() && d.push(kl)[t] == k;
                if t < d.len() {
                    assert(d[t] == k);
                }
            }
        }
    } else {
        assert(members(es, minutes, group_by_world, k) =~= Seq::<ImageEntry>::empty());
    }
}

/// Grouping again the screenshots of any group gives back exactly that
/// group: the grouper is idempotent on its own output.
pub proof fn lemma_regroup_is_identity(es: Seq<ImageEntry>, minutes: u32, group_by_world: bool, k: Seq<char>)
    requires
        first_keys(es, minutes, group_by_world).contains(k),
    ensures
        grouping(members(es, minutes, group_by_world, k), minutes, group_by_world) == seq![
            group_model(es, minutes, group_by_world, k),
        ],
{
    let ms = members(es, minutes, group_by_world, k);
    lemma_members_keys(es, minutes, group_by_world, k);
    lemma_first_keys_single(ms, minutes, group_by_world, k);
    let models = seq![k].map_values(|key: Seq<char>| group_model(ms, minutes, group_by_world, key));
    assert(models =~= seq![group_model(es, minutes, group_by_world, k)]);
    assert(models.len() == 1);
    assert(models.drop_last() =~= Seq::<GroupView>::empty());
    assert(sort_by_time(models.drop_last()) =~= Seq::<GroupView>::empty());
    assert(insert_by_time(Seq::<GroupView>::empty(), models.last()) == seq![models.last()]);
    assert(sort_by_time(models) =~= models);
}

/// Screenshots that all carry one world id, grouped by world over a
/// 10-minute window, form exactly one group when their timestamps fall in
/// one window.
pub proof fn lemma_one_world_one_window(es: Seq<ImageEntry>, world_id: Seq<char>)
    requires
        es.len() > 0,
        forall|i: int| 0 <= i < es.len() ==> {
            let m = #[trigger] es[i].metadata;
            m.is_some() && m.unwrap().world.is_some() && m.unwrap().world.unwrap().id@ == world_id
        },
        forall|i: int, j: int| 0 <= i < es.len() && 0 <= j < es.len()
            ==> ts_or_zero(#[trigger] es[i].timestamp) / 600 == ts_or_zero(#[trigger] es[j].timestamp) / 600,
    ensures
        grouping(es, 10, true).len() == 1,
{
    let k = entry_key(es[0], 10, true);
    assert forall|i: int| 0 <= i < es.len() implies entry_key(#[trigger] es[i], 10, true) == k by {
        assert(ts_or_zero(es[i].timestamp) / 600 == ts_or_zero(es[0].timestamp) / 600);
        assert(es[0].metadata.is_some());
    }
    lemma_first_keys_single(es, 10, true, k);
    let models = seq![k].map_values(|key: Seq<char>| group_model(es, 10, true, key));
    assert(models.len() == 1);
    assert(models.drop_last() =~= Seq::<GroupView>::empty());
    assert(sort_by_time(models.drop_last()) =~= Seq::<GroupView>::empty());
    assert(insert_by_time(Seq::<GroupView>::empty(), models.last()) == seq![models.last()]);
    assert(sort_by_time(models) =~= seq![models.last()]);
}

/// The id of the group that holds the `index`-th screenshot alone.
pub open spec fn individual_id(index: int, file_name: Seq<char>) -> Seq<char> {
    "individual_"@ + decimal(index) + "_"@ + file_name
}

/// The group that holds one screenshot alone.
pub open spec fn individual_model(e: ImageEntry, index: int, file_name: Seq<char>) -> GroupView {
    (
        individual_id(index, file_name),
        seq![e.path@],
        e.timestamp,
        match e.metadata {
            Some(m) => m.players@,
            None => Seq::empty(),
        },
        match e.metadata {
            Some(m) => match m.world {
                Some(w) => seq![w],
                None => Seq::empty(),
            },
            None => Seq::empty(),
        },
    )
}

/// One group per screenshot, in order of the screenshots.
pub open spec fn individual_models(es: Seq<ImageEntry>, names: Seq<Seq<char>>) -> Seq<GroupView> {
    Seq::new(es.len(), |i: int| individual_model(es[i], i, names[i]))
}

/// The id of the group that holds the `index`-th screenshot alone.
pub fn individual_group_id(index: usize, file_name: &str) -> (r: String)
    ensures
        r@ == individual_id(index as int, file_name@),
{
    let mut id = owned("individual_");
    let n = usize_string(index);
    append(&mut id, n.as_str());
    append(&mut id, "_");
    append(&mut id, file_name);
    id
}

fn copy_players(ps: &Vec<PlayerInfo>) -> (r: Vec<PlayerInfo>)
    ensures
        r@ == ps@,
{
    let mut out: Vec<PlayerInfo> = Vec::new();
    let mut i: usize = 0;
    while i < ps.len()
        invariant
            i <= ps@.len(),
            out@ == ps@.take(i as int),
        decreases ps@.len() - i,
    {
        out.push(ps[i].duplicate());
        assert(out@ =~= ps@.take(i + 1));
        i += 1;
    }
    assert(ps@.take(ps@.len() as int) =~= ps@);
    out
}

/// One group per screenshot, given the file name of each, ordered by time.
pub fn individual_groups(entries: &Vec<ImageEntry>, file_names: &Vec<String>) -> (r: Vec<ImageGroup>)
    requires
        file_names@.len() == entries@.len(),
    ensures
        group_views(r@) == sort_by_time(individual_models(entries@, texts(file_names@))),
{
    let ghost models = individual_models(entries@, texts(file_names@));
    let mut sorted: Vec<ImageGroup> = Vec::new();
    let mut g: usize = 0;
    assert(models.take(0) =~= Seq::<GroupView>::empty());
    assert(group_views(sorted@) =~= Seq::<GroupView>::empty());
    while g < entries.len()
        invariant
            g <= entries@.len(),
            file_names@.len() == entries@.len(),
            models == individual_models(entries@, texts(file_names@)),
            group_views(sorted@) == sort_by_time(models.take(g as int)),
        decreases entries@.len() - g,
    {
        let e = &entries[g];
        let mut images: Vec<String> = Vec::new();
        images.push(e.path.clone());
        let mut all_players: Vec<PlayerInfo> = Vec::new();
        let mut all_worlds: Vec<WorldInfo> = Vec::new();
        if let Some(m) = &e.metadata {
            all_players = copy_players(&m.players);
            if let Some(w) = &m.world {
                all_worlds.push(w.duplicate());
            }
        }
        let group = ImageGroup {
            images,
            timestamp: e.timestamp,
            group_id: individual_group_id(g, file_names[g].as_str()),
            all_players,
            all_worlds,
        };
        proof {
            assert(texts(group.images@) =~= seq![e.path@]);
            assert(group.all_worlds@ =~= individual_model(*e, g as int, file_names@[g as int]@).4);
            assert(group_view(group) == models[g as int]);
            assert(models.take(g + 1).drop_last() =~= models.take(g as int));
            assert(models.take(g + 1).last() == models[g as int]);
        }
        let t = time_key(&group);
        let mut pos: usize = 0;
        while pos < sorted.len() && !(t < time_key(&sorted[pos]))
            invariant
                pos <= sorted@.len(),
                t as int == ts_or_zero(group.timestamp),
                forall|j: int| 0 <= j < pos ==> !(ts_or_zero(group.timestamp) < ts_or_zero(#[trigger] sorted@[j].timestamp)),
            decreases sorted@.len() - pos,
        {
            pos += 1;
        }
        proof {
            let vs = group_views(sorted@);
            assert forall|j: int| 0 <= j < pos implies !(ts_or_zero(group_view(group).2) < ts_or_zero(#[trigger] vs[j].2)) by {
                assert(vs[j] == group_view(sorted@[j]));
            }
            if pos < sorted@.len() {
                assert(vs[pos as int] == group_view(sorted@[pos as int]));
            }
            lemma_insert_by_time_at(vs, group_view(group), pos as int);
        }
        let ghost old_sorted = sorted@;
        sorted.insert(pos, group);
        proof {
            assert(group_views(sorted@) =~= group_views(old_sorted).insert(pos as int, group_view(group)));
        }
        g += 1;
    }
    assert(models.take(models.len() as int) =~= models);
    sorted
}

/// Relies on `Path::file_name`: the last component of a path, whose reading
/// of separators depends on the platform, so nothing is claimed of it.
#[verifier::external_body]
pub(crate) fn file_name_text(path: &str) -> (r: String) {
    std::path::Path::new(path).file_name().unwrap_or_default().to_string_lossy().to_string()
}

/// One group per screenshot, with grouping turned off, ordered by time.
pub fn create_individual_groups_with_metadata(entries: Vec<ImageEntry>) -> (r: Vec<ImageGroup>)
    ensures
        exists|names: Seq<Seq<char>>|
            names.len() == entries@.len() && group_views(r@) == sort_by_time(
                #[trigger] individual_models(entries@, names),
            ),
{
    let mut names: Vec<String> = Vec::new();
    let mut i: usize = 0;
    while i < entries.len()
        invariant
            i <= entries@.len(),
            names@.len() == i,
        decreases entries@.len() - i,
    {
        names.push(file_name_text(entries[i].path.as_str()));
        i += 1;
    }
    individual_groups(&entries, &names)
}

proof fn lemma_bytes_lt_trans(a: Seq<u8>, b: Seq<u8>, c: Seq<u8>)
    requires
        bytes_lt(a, b),
        bytes_lt(b, c),
    ensures
        bytes_lt(a, c),
    decreases a.len(),
{
    if a.len() > 0 && b.len() > 0 && c.len() > 0 && a[0] == b[0] && b[0] == c[0] {
        lemma_bytes_lt_trans(a.drop_first(), b.drop_first(), c.drop_first());
    }
}

proof fn lemma_bytes_lt_irrefl(a: Seq<u8>)
    ensures
        !bytes_lt(a, a),
    decreases a.len(),
{
    if a.len() > 0 {
        lemma_bytes_lt_irrefl(a.drop_first());
    }
}

/// Players ordered by name: none sorts before one listed earlier.
pub open spec fn players_sorted(ps: Seq<PlayerInfo>) -> bool {
    forall|i: int, j: int| 0 <= i < j < ps.len() ==> !text_lt(#[trigger] ps[j].display_name@, #[trigger] ps[i].display_name@)
}

/// Worlds ordered by name: none sorts before one listed earlier.
pub open spec fn worlds_sorted(ws: Seq<WorldInfo>) -> bool {
    forall|i: int, j: int| 0 <= i < j < ws.len() ==> !text_lt(#[trigger] ws[j].name@, #[trigger] ws[i].name@)
}

/// Groups ordered by time, a missing one counting as zero.
pub open spec fn groups_sorted(gs: Seq<GroupView>) -> bool {
    forall|i: int, j: int| 0 <= i < j < gs.len() ==> ts_or_zero(#[trigger] gs[i].2) <= ts_or_zero(#[trigger] gs[j].2)
}

proof fn lemma_insert_player_sorted(acc: Seq<PlayerInfo>, p: PlayerInfo)
    requires
        players_sorted(acc),
    ensures
        players_sorted(insert_player(acc, p)),
        insert_player(acc, p).len() == acc.len() + 1,
        forall|x: PlayerInfo| #[trigger] insert_player(acc, p).contains(x) ==> x == p || acc.contains(x),
    decreases acc.len(),
{
    let r = insert_player(acc, p);
    if acc.len() == 0 {
        assert forall|x: PlayerInfo| #[trigger] r.contains(x) implies x == p || acc.contains(x) by {
            assert(r[0] == p);
        }
    } else if text_lt(p.display_name@, acc[0].display_name@) {
        assert forall|i: int, j: int| 0 <= i < j < r.len() implies !text_lt(#[trigger] r[j].display_name@, #[trigger] r[i].display_name@) by {
            if i == 0 {
                assert(r[j] == acc[j - 1]);
                if j - 1 > 0 {
                    assert(!text_lt(acc[j - 1].display_name@, acc[0].display_name@));
                }
                if text_lt(r[j].display_name@, p.display_name@) {
                    lemma_bytes_lt_trans(
                        vstd::utf8::encode_utf8(r[j].display_name@),
                        vstd::utf8::encode_utf8(p.display_name@),
                        vstd::utf8::encode_utf8(acc[0].display_name@),
                    );
                    lemma_bytes_lt_irrefl(vstd::utf8::encode_utf8(acc[0].display_name@));
                }
            } else {
                assert(r[i] == acc[i - 1] && r[j] == acc[j - 1]);
            }
        }
        assert forall|x: PlayerInfo| #[trigger] r.contains(x) implies x == p || acc.contains(x) by {
            let k = choose|k: int| 0 <= k < r.len() && r[k] == x;
            if k > 0 {
                assert(acc[k - 1] == x);
            }
        }
    } else {
        let tail = insert_player(acc.drop_first(), p);
        assert(players_sorted(acc.drop_first())) by {
            assert forall|i: int, j: int| 0 <= i < j < acc.drop_first().len() implies !text_lt(#[trigger] acc.drop_first()[j].display_name@, #[trigger] acc.drop_first()[i].display_name@) by {
                assert(acc.drop_first()[i] == acc[i + 1] && acc.drop_first()[j] == acc[j + 1]);
            }
        }
        lemma_insert_player_sorted(acc.drop_first(), p);
        assert forall|i: int, j: int| 0 <= i < j < r.len() implies !text_lt(#[trigger] r[j].display_name@, #[trigger] r[i].display_name@) by {
            if i == 0 {
                assert(r[0] == acc[0]);
                assert(r[j] == tail[j - 1]);
                assert(tail.contains(tail[j - 1]));
                if r[j] == p {
                } else {
                    let k = choose|k: int| 0 <= k < acc.drop_first().len() && acc.drop_first()[k] == r[j];
                    assert(acc[k + 1] == r[j]);
                }
            } else {
                assert(r[i] == tail[i - 1] && r[j] == tail[j - 1]);
            }
        }
        assert forall|x: PlayerInfo| #[trigger] r.contains(x) implies x == p || acc.contains(x) by {
            let k = choose|k: int| 0 <= k < r.len() && r[k] == x;
            if k == 0 {
                assert(acc[0] == x);
            } else {
                assert(tail[k - 1] == x);
                assert(tail.contains(x));
                if x != p {
                    let m = choose|m: int| 0 <= m < acc.drop_first().len() && acc.drop_first()[m] == x;
                    assert(acc[m + 1] == x);
                }
            }
        }
    }
}

proof fn lemma_insert_world_sorted(acc: Seq<WorldInfo>, p: WorldInfo)
    requires
        worlds_sorted(acc),
    ensures
        worlds_sorted(insert_world(acc, p)),
        insert_world(acc, p).len() == acc.len() + 1,
        forall|x: WorldInfo| #[trigger] insert_world(acc, p).contains(x) ==> x == p || acc.contains(x),
    decreases acc.len(),
{
    let r = insert_world(acc, p);
    if acc.len() == 0 {
        assert forall|x: WorldInfo| #[trigger] r.contains(x) implies x == p || acc.contains(x) by {
            assert(r[0] == p);
        }
    } else if text_lt(p.name@, acc[0].name@) {
        assert forall|i: int, j: int| 0 <= i < j < r.len() implies !text_lt(#[trigger] r[j].name@, #[trigger] r[i].name@) by {
            if i == 0 {
                assert(r[j] == acc[j - 1]);
                if j - 1 > 0 {
                    assert(!text_lt(acc[j - 1].name@, acc[0].name@));
                }
                if text_lt(r[j].name@, p.name@) {
                    lemma_bytes_lt_trans(
                        vstd::utf8::encode_utf8(r[j].name@),
                        vstd::utf8::encode_utf8(p.name@),
                        vstd::utf8::encode_utf8(acc[0].name@),
                    );
                    lemma_bytes_lt_irrefl(vstd::utf8::encode_utf8(acc[0].name@));
                }
            } else {
                assert(r[i] == acc[i - 1] && r[j] == acc[j - 1]);
            }
        }
        assert forall|x: WorldInfo| #[trigger] r.contains(x) implies x == p || acc.contains(x) by {
            let k = choose|k: int| 0 <= k < r.len() && r[k] == x;
            if k > 0 {
                assert(acc[k - 1] == x);
            }
        }
    } else {
        let tail = insert_world(acc.drop_first(), p);
        assert(worlds_sorted(acc.drop_first())) by {
            assert forall|i: int, j: int| 0 <= i < j < acc.drop_first().len() implies !text_lt(#[trigger] acc.drop_first()[j].name@, #[trigger] acc.drop_first()[i].name@) by {
                assert(acc.drop_first()[i] == acc[i + 1] && acc.drop_first()[j] == acc[j + 1]);
            }
        }
        lemma_insert_world_sorted(acc.drop_first(), p);
        assert forall|i: int, j: int| 0 <= i < j < r.len() implies !text_lt(#[trigger] r[j].name@, #[trigger] r[i].name@) by {
            if i == 0 {
                assert(r[0] == acc[0]);
                assert(r[j] == tail[j - 1]);
                assert(tail.contains(tail[j - 1]));
                if r[j] == p {
                } else {
                    let k = choose|k: int| 0 <= k < acc.drop_first().len() && acc.drop_first()[k] == r[j];
                    assert(acc[k + 1] == r[j]);
                }
            } else {
                assert(r[i] == tail[i - 1] && r[j] == tail[j - 1]);
            }
        }
        assert forall|x: WorldInfo| #[trigger] r.contains(x) implies x == p || acc.contains(x) by {
            let k = choose|k: int| 0 <= k < r.len() && r[k] == x;
            if k == 0 {
                assert(acc[0] == x);
            } else {
                assert(tail[k - 1] == x);
                assert(tail.contains(x));
                if x != p {
                    let m = choose|m: int| 0 <= m < acc.drop_first().len() && acc.drop_first()[m] == x;
                    assert(acc[m + 1] == x);
                }
            }
        }
    }
}

proof fn lemma_merge_players_sorted(acc: Seq<PlayerInfo>, ps: Seq<PlayerInfo>)
    requires
        players_sorted(acc),
    ensures
        players_sorted(merge_players(acc, ps)),
    decreases ps.len(),
{
    if ps.len() > 0 {
        lemma_merge_players_sorted(acc, ps.drop_last());
        let a = merge_players(acc, ps.drop_last());
        if !has_player(a, ps.last().id@) {
            lemma_insert_player_sorted(a, ps.last());
        }
    }
}

proof fn lemma_members_ordered(ms: Seq<ImageEntry>)
    ensures
        players_sorted(players_of(ms)),
        worlds_sorted(worlds_of(ms)),
    decreases ms.len(),
{
    if ms.len() > 0 {
        lemma_members_ordered(ms.drop_last());
        let a = players_of(ms.drop_last());
        let w = worlds_of(ms.drop_last());
        match ms.last().metadata {
            Some(m) => {
                lemma_merge_players_sorted(a, m.players@);
                match m.world {
                    Some(x) => {
                        if !has_world(w, x.id@) {
                            lemma_insert_world_sorted(w, x);
                        }
                    },
                    None => {},
                }
            },
            None => {},
        }
    }
}

/// Groups whose players and worlds are ordered by name.
pub open spec fn names_ordered(gs: Seq<GroupView>) -> bool {
    forall|i: int| #![trigger gs[i]] 0 <= i < gs.len() ==> players_sorted(gs[i].3) && worlds_sorted(gs[i].4)
}

proof fn lemma_insert_by_time_ordered(acc: Seq<GroupView>, g: GroupView)
    requires
        groups_sorted(acc),
        names_ordered(acc),
        players_sorted(g.3),
        worlds_sorted(g.4),
    ensures
        groups_sorted(insert_by_time(acc, g)),
        names_ordered(insert_by_time(acc, g)),
        insert_by_time(acc, g).len() == acc.len() + 1,
        insert_by_time(acc, g).len() > 0,
        acc.len() > 0 ==> insert_by_time(acc, g)[0] == acc[0] || insert_by_time(acc, g)[0] == g,
    decreases acc.len(),
{
    let r = insert_by_time(acc, g);
    if acc.len() == 0 {
    } else if ts_or_zero(g.2) < ts_or_zero(acc[0].2) {
        assert forall|i: int, j: int| 0 <= i < j < r.len() implies ts_or_zero(#[trigger] r[i].2) <= ts_or_zero(#[trigger] r[j].2) by {
            if i == 0 {
                assert(r[j] == acc[j - 1]);
                if j - 1 > 0 {
                    assert(ts_or_zero(acc[0].2) <= ts_or_zero(acc[j - 1].2));
                }
            } else {
                assert(r[i] == acc[i - 1] && r[j] == acc[j - 1]);
            }
        }
        assert forall|i: int| #![trigger r[i]] 0 <= i < r.len() implies players_sorted(r[i].3) && worlds_sorted(r[i].4) by {
            if i > 0 {
                assert(r[i] == acc[i - 1]);
            }
        }
    } else {
        let rest = acc.drop_first();
        assert(groups_sorted(rest)) by {
            assert forall|i: int, j: int| 0 <= i < j < rest.len() implies ts_or_zero(#[trigger] rest[i].2) <= ts_or_zero(#[trigger] rest[j].2) by {
                assert(rest[i] == acc[i + 1] && rest[j] == acc[j + 1]);
            }
        }
        assert(names_ordered(rest)) by {
            assert forall|i: int| #![trigger rest[i]] 0 <= i < rest.len() implies players_sorted(rest[i].3) && worlds_sorted(rest[i].4) by {
                assert(rest[i] == acc[i + 1]);
            }
        }
        lemma_insert_by_time_ordered(rest, g);
        let tail = insert_by_time(rest, g);
        assert forall|i: int, j: int| 0 <= i < j < r.len() implies ts_or_zero(#[trigger] r[i].2) <= ts_or_zero(#[trigger] r[j].2) by {
            if i == 0 {
                assert(r[0] == acc[0]);
                assert(r[j] == tail[j - 1]);
                if j - 1 > 0 {
                    assert(ts_or_zero(tail[0].2) <= ts_or_zero(tail[j - 1].2));
                }
                if rest.len() > 0 {
                    assert(ts_or_zero(acc[0].2) <= ts_or_zero(acc[1].2));
                    assert(rest[0] == acc[1]);
                }
            } else {
                assert(r[i] == tail[i - 1] && r[j] == tail[j - 1]);
            }
        }
        assert forall|i: int| #![trigger r[i]] 0 <= i < r.len() implies players_sorted(r[i].3) && worlds_sorted(r[i].4) by {
            if i > 0 {
                assert(r[i] == tail[i - 1]);
            }
        }
    }
}

proof fn lemma_sort_by_time_ordered(gs: Seq<GroupView>)
    requires
        names_ordered(gs),
    ensures
        groups_sorted(sort_by_time(gs)),
        names_ordered(sort_by_time(gs)),
    decreases gs.len(),
{
    if gs.len() > 0 {
        assert(names_ordered(gs.drop_last())) by {
            assert forall|i: int| #![trigger gs.drop_last()[i]] 0 <= i < gs.drop_last().len() implies players_sorted(gs.drop_last()[i].3) && worlds_sorted(gs.drop_last()[i].4) by {
                assert(gs.drop_last()[i] == gs[i]);
            }
        }
        lemma_sort_by_time_ordered(gs.drop_last());
        assert(players_sorted(gs[gs.len() - 1].3) && worlds_sorted(gs[gs.len() - 1].4));
        lemma_insert_by_time_ordered(sort_by_time(gs.drop_last()), gs.last());
    }
}

/// The grouper's output is ordered as the posts are: groups by earliest
/// timestamp, and within each group the players and the worlds by name.
pub proof fn lemma_grouping_ordered(es: Seq<ImageEntry>, minutes: u32, group_by_world: bool)
    ensures
        groups_sorted(grouping(es, minutes, group_by_world)),
        names_ordered(grouping(es, minutes, group_by_world)),
{
    let models = first_keys(es, minutes, group_by_world).map_values(
        |k: Seq<char>| group_model(es, minutes, group_by_world, k),
    );
    assert forall|i: int| #![trigger models[i]] 0 <= i < models.len() implies players_sorted(models[i].3) && worlds_sorted(models[i].4) by {
        lemma_members_ordered(members(es, minutes, group_by_world, first_keys(es, minutes, group_by_world)[i]));
    }
    lemma_sort_by_time_ordered(models);
}

} // verus!
