//! Discord message bodies for a group of photos: the main text with world
//! links, time and players, the overflow messages for players that do not fit,
//! and the title of a forum thread.
use vstd::prelude::*;
use crate::model::{PlayerInfo, WorldInfo};
use crate::text::{append, blen, lemma_blen_concat, lemma_trim_end_shorter, byte_len, decimal, decimal_string, owned, trim_end, trim_end_chars, usize_string};

verus! {

/// Discord accepts 2000 characters; messages stay below this many bytes.
pub const MAX_MESSAGE_BYTES: usize = 1900;

/// Longest thread title, in characters.
pub const MAX_TITLE_CHARS: usize = 100;

/// The views of a sequence of strings.
pub open spec fn texts(v: Seq<String>) -> Seq<Seq<char>> {
    v.map_values(|s: String| s@)
}

/// A name set in bold.
pub open spec fn bold(name: Seq<char>) -> Seq<char> {
    "**"@ + name + "**"@
}

/// One world with its two launch links.
pub open spec fn world_entry(w: WorldInfo) -> Seq<char> {
    "**"@ + w.name@ + "** ([VRChat](<https://vrchat.com/home/launch?worldId="@ + w.id@
        + ">), [VRCX](<https://vrcx.azurewebsites.net/world/"@ + w.id@ + ">))"@
}

/// The world entries joined by ", ".
pub open spec fn world_list(ws: Seq<WorldInfo>) -> Seq<char>
    decreases ws.len(),
{
    if ws.len() == 0 {
        Seq::empty()
    } else if ws.len() == 1 {
        world_entry(ws[0])
    } else {
        world_list(ws.drop_last()) + ", "@ + world_entry(ws.last())
    }
}

/// Discord's timestamp markup, shown in each reader's own time zone.
pub open spec fn time_tag(ts: i64) -> Seq<char> {
    "<t:"@ + decimal(ts as int) + ":f>"@
}

/// The opening of a group's first message: worlds and time, no players.
pub open spec fn worlds_header(ws: Seq<WorldInfo>, ts: Option<i64>) -> Seq<char> {
    if ws.len() == 0 {
        match ts {
            Some(t) => "📸 Photos"@ + " taken at "@ + time_tag(t),
            None => "📸 Photos"@,
        }
    } else {
        match ts {
            Some(t) => "📸 Photos taken at "@ + world_list(ws) + " at "@ + time_tag(t),
            None => "📸 Photos taken at "@ + world_list(ws),
        }
    }
}

/// One byte kept free for the continuation comma while players remain after index `k`.
pub open spec fn comma_room(ps: Seq<PlayerInfo>, k: int) -> nat {
    if k + 1 < ps.len() { 1 } else { 0 }
}

/// Adds players from index `k` on to `content` while the text stays within
/// the bound, keeping room for a comma while more players follow; on the
/// first that does not fit, ends the text with a comma. Gives the text and
/// the index of the first player left out.
pub open spec fn fill_players(content: Seq<char>, ps: Seq<PlayerInfo>, k: nat) -> (Seq<char>, nat)
    decreases ps.len() - k,
{
    if k >= ps.len() {
        (content, k)
    } else {
        let add = ", "@ + bold(ps[k as int].display_name@);
        if blen(content) + blen(add) + comma_room(ps, k as int) > MAX_MESSAGE_BYTES {
            (content + ","@, k)
        } else {
            fill_players(content + add, ps, k + 1)
        }
    }
}

/// The main text of a group, the index from which players overflow, and
/// whether any player made it into the main text.
pub open spec fn main_text(ws: Seq<WorldInfo>, ps: Seq<PlayerInfo>, ts: Option<i64>, with_players: bool) -> (
    Seq<char>,
    nat,
    bool,
) {
    let h = worlds_header(ws, ts);
    if ws.len() == 0 || !with_players || ps.len() == 0 {
        (h, ps.len(), false)
    } else {
        let first = bold(ps[0].display_name@);
        if blen(h) + blen(" with "@) + blen(first) + comma_room(ps, 0) <= MAX_MESSAGE_BYTES {
            let r = fill_players(h + " with "@ + first, ps, 1);
            (r.0, r.1, true)
        } else {
            (h, 0, false)
        }
    }
}

/// Packs players from index `k` on into comma-separated messages: a message
/// that already holds a player beyond its prefix of `plen` bytes is closed
/// with a comma when the next player would pass the bound, keeping room for
/// that comma while more players follow.
pub open spec fn pack_players(
    msgs: Seq<Seq<char>>,
    cur: Seq<char>,
    plen: nat,
    ps: Seq<PlayerInfo>,
    k: nat,
) -> (Seq<Seq<char>>, Seq<char>)
    decreases ps.len() - k,
{
    if k >= ps.len() {
        (msgs, cur)
    } else {
        let item = bold(ps[k as int].display_name@);
        let add = if blen(cur) > plen { ", "@ + item } else { item };
        if blen(cur) > plen && blen(cur) + blen(add) + comma_room(ps, k as int) > MAX_MESSAGE_BYTES {
            pack_players(msgs.push(cur + ","@), item, plen, ps, k + 1)
        } else {
            pack_players(msgs, cur + add, plen, ps, k + 1)
        }
    }
}

/// Follow-up messages for the players that the main text could not hold.
pub open spec fn overflow_messages(rest: Seq<PlayerInfo>, had_players_in_main: bool) -> Seq<Seq<char>> {
    let start = if had_players_in_main { Seq::<char>::empty() } else { "with "@ };
    let r = pack_players(Seq::empty(), start, blen(start), rest, 0);
    if blen(r.1) > blen(start) || (!had_players_in_main && blen(r.1) > 0) {
        r.0.push(r.1)
    } else {
        r.0
    }
}

/// Player messages on their own, each opening with "with ".
pub open spec fn split_player_messages(ps: Seq<PlayerInfo>) -> Seq<Seq<char>> {
    if ps.len() == 0 {
        Seq::empty()
    } else {
        let r = pack_players(Seq::empty(), "with "@, blen("with "@), ps, 0);
        if blen(r.1) > blen("with "@) {
            r.0.push(r.1)
        } else if r.1 == "with "@ {
            r.0.push("with "@ + bold(ps[0].display_name@))
        } else {
            r.0
        }
    }
}

/// World names joined by ", ".
pub open spec fn name_list(ws: Seq<WorldInfo>) -> Seq<char>
    decreases ws.len(),
{
    if ws.len() == 0 {
        Seq::empty()
    } else if ws.len() == 1 {
        ws[0].name@
    } else {
        name_list(ws.drop_last()) + ", "@ + ws.last().name@
    }
}

/// The title of a new forum thread, at most 100 characters.
pub open spec fn thread_title(ws: Seq<WorldInfo>) -> Seq<char> {
    if ws.len() == 0 {
        "📸 Photos"@
    } else {
        let t = "📸 Photos from "@ + name_list(ws);
        if t.len() > MAX_TITLE_CHARS {
            t.subrange(0, 97) + "..."@
        } else {
            t
        }
    }
}

/// One bullet line per world name.
pub open spec fn name_bullets(ws: Seq<WorldInfo>) -> Seq<char>
    decreases ws.len(),
{
    if ws.len() == 0 {
        Seq::empty()
    } else {
        name_bullets(ws.drop_last()) + "• "@ + ws.last().name@ + "\n"@
    }
}

/// The links of one world, on a line of their own.
pub open spec fn link_line(w: WorldInfo) -> Seq<char> {
    "• [VRChat](<https://vrchat.com/home/launch?worldId="@ + w.id@
        + ">) | [VRCX](<https://vrcx.azurewebsites.net/world/"@ + w.id@ + ">)\n"@
}

/// Packs link lines from index `k` on into messages within the bound.
pub open spec fn pack_links(msgs: Seq<Seq<char>>, cur: Seq<char>, ws: Seq<WorldInfo>, k: nat) -> (
    Seq<Seq<char>>,
    Seq<char>,
)
    decreases ws.len() - k,
{
    if k >= ws.len() {
        (msgs, cur)
    } else {
        let line = link_line(ws[k as int]);
        if blen(cur) + blen(line) > MAX_MESSAGE_BYTES {
            pack_links(msgs.push(trim_end_chars(cur)), line, ws, k + 1)
        } else {
            pack_links(msgs, cur + line, ws, k + 1)
        }
    }
}

/// Every world's link line fits in a message after the "World Links:" heading.
pub open spec fn links_fit(ws: Seq<WorldInfo>) -> bool {
    forall|j: int| 0 <= j < ws.len() ==> blen("World Links:\n"@) + blen(#[trigger] link_line(ws[j])) <= MAX_MESSAGE_BYTES
}

/// A short summary naming the worlds, and their links in messages of their own.
pub open spec fn compact_world_messages(ws: Seq<WorldInfo>) -> (Seq<char>, Seq<Seq<char>>) {
    if ws.len() == 0 {
        ("📸 Photos"@, Seq::empty())
    } else {
        let summary = "📸 Photos from "@ + decimal(ws.len() as int) + " worlds:\n"@ + name_bullets(ws);
        let r = pack_links(Seq::empty(), "World Links:\n"@, ws, 0);
        (trim_end_chars(summary), r.0.push(trim_end_chars(r.1)))
    }
}

fn world_entry_text(w: &WorldInfo) -> (r: String)
    ensures
        r@ == world_entry(*w),
{
    let mut s = owned("**");
    append(&mut s, w.name.as_str());
    append(&mut s, "** ([VRChat](<https://vrchat.com/home/launch?worldId=");
    append(&mut s, w.id.as_str());
    append(&mut s, ">), [VRCX](<https://vrcx.azurewebsites.net/world/");
    append(&mut s, w.id.as_str());
    append(&mut s, ">))");
    s
}

fn world_list_text(ws: &[WorldInfo]) -> (r: String)
    ensures
        r@ == world_list(ws@),
{
    let mut s = String::new();
    let mut i: usize = 0;
    while i < ws.len()
        invariant
            i <= ws@.len(),
            s@ == world_list(ws@.take(i as int)),
        decreases ws@.len() - i,
    {
        let e = world_entry_text(&ws[i]);
        proof {
            assert(ws@.take(i + 1).drop_last() =~= ws@.take(i as int));
            assert(ws@.take(i + 1).last() == ws@[i as int]);
        }
        if i > 0 {
            append(&mut s, ", ");
        } else {
            assert(s@ + e@ =~= e@);
        }
        append(&mut s, e.as_str());
        i += 1;
    }
    assert(ws@.take(ws@.len() as int) =~= ws@);
    s
}

fn time_tag_text(ts: i64) -> (r: String)
    ensures
        r@ == time_tag(ts),
{
    let mut s = owned("<t:");
    let d = decimal_string(ts);
    append(&mut s, d.as_str());
    append(&mut s, ":f>");
    s
}

fn bold_text(name: &String) -> (r: String)
    ensures
        r@ == bold(name@),
{
    let mut s = owned("**");
    append(&mut s, name.as_str());
    append(&mut s, "**");
    s
}

/// A message with the worlds and the time only, used where the combined
/// message would be too long.
pub fn create_worlds_only_message(all_worlds: &[WorldInfo], timestamp: Option<i64>) -> (r: String)
    ensures
        r@ == worlds_header(all_worlds@, timestamp),
{
    if all_worlds.len() == 0 {
        let mut content = owned("📸 Photos");
        if let Some(ts) = timestamp {
            append(&mut content, " taken at ");
            let t = time_tag_text(ts);
            append(&mut content, t.as_str());
        }
        return content;
    }
    let mut content = owned("📸 Photos taken at ");
    let list = world_list_text(all_worlds);
    append(&mut content, list.as_str());
    if let Some(ts) = timestamp {
        append(&mut content, " at ");
        let t = time_tag_text(ts);
        append(&mut content, t.as_str());
    }
    content
}

fn room(k: usize, n: usize) -> (r: usize)
    ensures
        r == (if k + 1 < n { 1nat } else { 0nat }),
{
    if k < n && n - k > 1 { 1 } else { 0 }
}

/// Whether appending `add` to a text of `cur` bytes passes the bound.
fn exceeds(cur: usize, add: usize) -> (r: bool)
    ensures
        r == (cur + add > MAX_MESSAGE_BYTES),
{
    cur > MAX_MESSAGE_BYTES || add > MAX_MESSAGE_BYTES - cur
}

/// The main text of a group's first message, the index of the first player
/// left for the overflow messages, and whether the main text names a player.
fn create_message_content_with_players(
    all_worlds: &[WorldInfo],
    all_players: &[PlayerInfo],
    timestamp: Option<i64>,
    include_player_names: bool,
) -> (r: (String, usize, bool))
    ensures
        (r.0@, r.1 as nat, r.2) == main_text(all_worlds@, all_players@, timestamp, include_player_names),
        blen(worlds_header(all_worlds@, timestamp)) <= MAX_MESSAGE_BYTES ==> blen(r.0@) <= MAX_MESSAGE_BYTES,
{
    let mut content = create_worlds_only_message(all_worlds, timestamp);
    let n = all_players.len();
    if all_worlds.len() == 0 || !include_player_names || n == 0 {
        return (content, n, false);
    }
    let first_player = bold_text(&all_players[0].display_name);
    let with_prefix = " with ";
    let hl = byte_len(content.as_str());
    let wl = byte_len(with_prefix);
    let fl = byte_len(first_player.as_str());
    let r0 = room(0, n);
    if exceeds(hl, wl) || exceeds(hl + wl, fl) || exceeds(hl + wl + fl, r0) {
        return (content, 0, false);
    }
    let ghost h = content@;
    append(&mut content, with_prefix);
    append(&mut content, first_player.as_str());
    proof {
        lemma_blen_concat(h, " with "@);
        lemma_blen_concat(h + " with "@, first_player@);
        reveal_strlit(",");
        assert(blen(","@) == 1) by {
            let c = seq![','];
            assert(","@ =~= c);
            assert(c.drop_first() =~= Seq::<char>::empty());
            assert((',' as u32) == 44);
            assert(vstd::utf8::has_width_1_encoding(c[0] as u32));
            assert(vstd::utf8::encode_scalar(c[0] as u32).len() == 1);
            assert(vstd::utf8::encode_utf8(c.drop_first()).len() == 0);
        }
    }
    let ghost target = fill_players(content@, all_players@, 1);
    let mut k: usize = 1;
    let mut done = false;
    while k < n && !done
        invariant
            n == all_players@.len(),
            1 <= k <= n,
            !done ==> fill_players(content@, all_players@, k as nat) == target,
            done ==> (content@, k as nat) == target,
            !done ==> blen(content@) + (if k < n { 1int } else { 0int }) <= MAX_MESSAGE_BYTES,
            done ==> blen(content@) <= MAX_MESSAGE_BYTES,
            blen(","@) == 1,
        decreases n - k + (if done { 0int } else { 1int }),
    {
        let player_str = bold_text(&all_players[k].display_name);
        let mut addition = owned(", ");
        append(&mut addition, player_str.as_str());
        let cl = byte_len(content.as_str());
        let al = byte_len(addition.as_str());
        if exceeds(cl, al) || exceeds(cl + al, room(k, n)) {
            let ghost before = content@;
            append(&mut content, ",");
            proof {
                lemma_blen_concat(before, ","@);
            }
            done = true;
        } else {
            let ghost before = content@;
            append(&mut content, addition.as_str());
            proof {
                lemma_blen_concat(before, addition@);
            }
            k += 1;
        }
    }
    (content, k, true)
}

/// Every player's bold name fits in a message after a prefix of `plen`
/// bytes with a comma to spare.
pub open spec fn names_fit(ps: Seq<PlayerInfo>, plen: nat) -> bool {
    forall|j: int| 0 <= j < ps.len() ==> plen + blen(#[trigger] bold(ps[j].display_name@)) + 1 <= MAX_MESSAGE_BYTES
}

/// Every message is within the bound.
pub open spec fn all_within(ms: Seq<Seq<char>>) -> bool {
    forall|j: int| 0 <= j < ms.len() ==> blen(#[trigger] ms[j]) <= MAX_MESSAGE_BYTES
}

proof fn lemma_comma_len()
    ensures
        blen(","@) == 1,
{
    reveal_strlit(",");
    let c = seq![','];
    assert(","@ =~= c);
    assert(c.drop_first() =~= Seq::<char>::empty());
    assert((',' as u32) == 44);
    assert(vstd::utf8::has_width_1_encoding(c[0] as u32));
    assert(vstd::utf8::encode_scalar(c[0] as u32).len() == 1);
    assert(vstd::utf8::encode_utf8(c.drop_first()).len() == 0);
}

proof fn lemma_names_fit_rest(ps: Seq<PlayerInfo>, start: int, a: nat, b: nat)
    requires
        names_fit(ps, a),
        b <= a,
        0 <= start < ps.len(),
    ensures
        names_fit(ps.subrange(start, ps.len() as int), b),
        b < MAX_MESSAGE_BYTES,
{
    assert(a + blen(bold(ps[start].display_name@)) + 1 <= MAX_MESSAGE_BYTES);
    assert forall|j: int| 0 <= j < ps.subrange(start, ps.len() as int).len() implies b + blen(
        #[trigger] bold(ps.subrange(start, ps.len() as int)[j].display_name@),
    ) + 1 <= MAX_MESSAGE_BYTES by {
        assert(ps.subrange(start, ps.len() as int)[j] == ps[start + j]);
        assert(a + blen(bold(ps[start + j].display_name@)) + 1 <= MAX_MESSAGE_BYTES);
    }
}

/// Runs `pack_players` from index `k` on.
fn pack_player_texts(ps: &[PlayerInfo], start: String, plen: usize, k: usize) -> (r: (Vec<String>, String))
    requires
        k <= ps@.len(),
    ensures
        (texts(r.0@), r.1@) == pack_players(Seq::empty(), start@, plen as nat, ps@, k as nat),
        names_fit(ps@, plen as nat) && blen(start@) == plen && plen < MAX_MESSAGE_BYTES ==> all_within(texts(r.0@))
            && blen(r.1@) <= MAX_MESSAGE_BYTES,
{
    proof {
        lemma_comma_len();
    }
    let ghost fits = names_fit(ps@, plen as nat) && blen(start@) == plen && plen < MAX_MESSAGE_BYTES;
    let ghost target = pack_players(Seq::empty(), start@, plen as nat, ps@, k as nat);
    let mut msgs: Vec<String> = Vec::new();
    let mut current = start;
    let mut i: usize = k;
    assert(texts(msgs@) =~= Seq::<Seq<char>>::empty());
    while i < ps.len()
        invariant
            k <= i <= ps@.len(),
            pack_players(texts(msgs@), current@, plen as nat, ps@, i as nat) == target,
            blen(","@) == 1,
            fits == (names_fit(ps@, plen as nat) && blen(start@) == plen && plen < MAX_MESSAGE_BYTES),
            fits ==> all_within(texts(msgs@)),
            fits ==> blen(current@) + (if i < ps@.len() { 1int } else { 0int }) <= MAX_MESSAGE_BYTES,
        decreases ps@.len() - i,
    {
        let player_str = bold_text(&ps[i].display_name);
        let cl = byte_len(current.as_str());
        let mut addition = if cl > plen {
            owned(", ")
        } else {
            String::new()
        };
        let ghost before = addition@;
        append(&mut addition, player_str.as_str());
        proof {
            if cl <= plen {
                assert(addition@ =~= player_str@);
            }
        }
        let al = byte_len(addition.as_str());
        proof {
            if fits {
                assert(plen + blen(bold(ps@[i as int].display_name@)) + 1 <= MAX_MESSAGE_BYTES);
            }
        }
        if cl > plen && (exceeds(cl, al) || exceeds(cl + al, room(i, ps.len()))) {
            let ghost cur_before = current@;
            append(&mut current, ",");
            proof {
                lemma_blen_concat(cur_before, ","@);
            }
            let ghost old_msgs = msgs@;
            msgs.push(current);
            proof {
                assert(texts(msgs@) =~= texts(old_msgs).push(texts(msgs@).last()));
                if fits {
                    assert forall|j: int| 0 <= j < texts(msgs@).len() implies blen(#[trigger] texts(msgs@)[j]) <= MAX_MESSAGE_BYTES by {
                        if j < texts(old_msgs).len() {
                            assert(texts(msgs@)[j] == texts(old_msgs)[j]);
                        }
                    }
                }
            }
            current = player_str;
        } else {
            let ghost cur_before = current@;
            append(&mut current, addition.as_str());
            proof {
                lemma_blen_concat(cur_before, addition@);
            }
        }
        i += 1;
    }
    (msgs, current)
}

/// Follow-up messages naming the players from index `start` on.
fn create_overflow_player_messages(
    all_players: &[PlayerInfo],
    start: usize,
    had_players_in_main: bool,
) -> (r: Vec<String>)
    requires
        start <= all_players@.len(),
    ensures
        texts(r@) == overflow_messages(all_players@.subrange(start as int, all_players@.len() as int), had_players_in_main),
        start < all_players@.len() && names_fit(all_players@, blen("with "@)) ==> all_within(texts(r@)),
{
    let rest = vstd::slice::slice_subrange(all_players, start, all_players.len());
    let current = if had_players_in_main {
        String::new()
    } else {
        owned("with ")
    };
    let prefix_len = byte_len(current.as_str());
    proof {
        if start < all_players@.len() && names_fit(all_players@, blen("with "@)) {
            lemma_names_fit_rest(all_players@, start as int, blen("with "@), prefix_len as nat);
        }
    }
    let (mut messages, last) = pack_player_texts(rest, current, prefix_len, 0);
    let ll = byte_len(last.as_str());
    if ll > prefix_len || (!had_players_in_main && ll > 0) {
        let ghost old_msgs = messages@;
        messages.push(last);
        proof {
            assert(texts(messages@) =~= texts(old_msgs).push(last@));
            assert forall|j: int| 0 <= j < texts(messages@).len() && all_within(texts(old_msgs)) && blen(last@) <= MAX_MESSAGE_BYTES
                implies blen(#[trigger] texts(messages@)[j]) <= MAX_MESSAGE_BYTES by {
                if j < texts(old_msgs).len() {
                    assert(texts(messages@)[j] == texts(old_msgs)[j]);
                }
            }
        }
    }
    messages
}

/// Messages that name all players, each opening with "with ", for when the
/// combined message would be too long.
pub fn create_split_player_messages(all_players: &[PlayerInfo]) -> (r: Vec<String>)
    ensures
        texts(r@) == split_player_messages(all_players@),
        names_fit(all_players@, blen("with "@)) ==> all_within(texts(r@)),
{
    if all_players.len() == 0 {
        let v: Vec<String> = Vec::new();
        assert(texts(v@) =~= Seq::<Seq<char>>::empty());
        return v;
    }
    let current = owned("with ");
    let prefix_len = byte_len(current.as_str());
    proof {
        if names_fit(all_players@, blen("with "@)) {
            lemma_names_fit_rest(all_players@, 0, blen("with "@), prefix_len as nat);
            assert(all_players@.subrange(0, all_players@.len() as int) =~= all_players@);
        }
    }
    let (mut messages, last) = pack_player_texts(all_players, current, prefix_len, 0);
    let ghost old_msgs = messages@;
    if byte_len(last.as_str()) > prefix_len {
        messages.push(last);
        assert(texts(messages@) =~= texts(old_msgs).push(last@));
    } else if last == owned("with ") {
        let mut m = owned("with ");
        let b = bold_text(&all_players[0].display_name);
        append(&mut m, b.as_str());
        proof {
            lemma_blen_concat("with "@, b@);
        }
        messages.push(m);
        assert(texts(messages@) =~= texts(old_msgs).push(m@));
    }
    proof {
        if names_fit(all_players@, blen("with "@)) {
            assert forall|j: int| 0 <= j < texts(messages@).len() implies blen(#[trigger] texts(messages@)[j]) <= MAX_MESSAGE_BYTES by {
                if j < texts(old_msgs).len() {
                    assert(texts(messages@)[j] == texts(old_msgs)[j]);
                } else {
                    assert(blen(bold(all_players@[0].display_name@)) + prefix_len + 1 <= MAX_MESSAGE_BYTES);
                }
            }
        }
    }
    messages
}

fn name_list_text(ws: &[WorldInfo]) -> (r: String)
    ensures
        r@ == name_list(ws@),
{
    let mut s = String::new();
    let mut i: usize = 0;
    while i < ws.len()
        invariant
            i <= ws@.len(),
            s@ == name_list(ws@.take(i as int)),
        decreases ws@.len() - i,
    {
        proof {
            assert(ws@.take(i + 1).drop_last() =~= ws@.take(i as int));
            assert(ws@.take(i + 1).last() == ws@[i as int]);
        }
        if i > 0 {
            append(&mut s, ", ");
        } else {
            assert(s@ + ws@[0].name@ =~= ws@[0].name@);
        }
        append(&mut s, ws[i].name.as_str());
        i += 1;
    }
    assert(ws@.take(ws@.len() as int) =~= ws@);
    s
}

/// The title of the forum thread that a group opens.
fn create_thread_title(all_worlds: &[WorldInfo]) -> (r: String)
    ensures
        r@ == thread_title(all_worlds@),
        r@.len() <= MAX_TITLE_CHARS,
{
    if all_worlds.len() == 0 {
        proof {
            reveal_strlit("📸 Photos");
        }
        return owned("📸 Photos");
    }
    let mut title = owned("📸 Photos from ");
    let names = name_list_text(all_worlds);
    append(&mut title, names.as_str());
    if title.as_str().unicode_len() > MAX_TITLE_CHARS {
        let mut cut = owned(title.as_str().substring_char(0, 97));
        append(&mut cut, "...");
        proof {
            reveal_strlit("...");
        }
        cut
    } else {
        title
    }
}

/// A summary of the worlds by name, and messages that carry their links,
/// for groups with many worlds.
pub fn create_compact_world_messages(all_worlds: &[WorldInfo]) -> (r: (String, Vec<String>))
    ensures
        (r.0@, texts(r.1@)) == compact_world_messages(all_worlds@),
        links_fit(all_worlds@) ==> all_within(texts(r.1@)),
{
    if all_worlds.len() == 0 {
        let v: Vec<String> = Vec::new();
        assert(texts(v@) =~= Seq::<Seq<char>>::empty());
        return (owned("📸 Photos"), v);
    }
    let mut summary = owned("📸 Photos from ");
    let count = usize_string(all_worlds.len());
    append(&mut summary, count.as_str());
    append(&mut summary, " worlds:\n");
    let ghost head = summary@;
    let mut i: usize = 0;
    while i < all_worlds.len()
        invariant
            i <= all_worlds@.len(),
            summary@ == head + name_bullets(all_worlds@.take(i as int)),
        decreases all_worlds@.len() - i,
    {
        proof {
            assert(all_worlds@.take(i + 1).drop_last() =~= all_worlds@.take(i as int));
            assert(all_worlds@.take(i + 1).last() == all_worlds@[i as int]);
        }
        append(&mut summary, "• ");
        append(&mut summary, all_worlds[i].name.as_str());
        append(&mut summary, "\n");
        i += 1;
    }
    assert(all_worlds@.take(all_worlds@.len() as int) =~= all_worlds@);

    let ghost target = pack_links(Seq::empty(), "World Links:\n"@, all_worlds@, 0);
    let ghost fits = links_fit(all_worlds@);
    let mut link_messages: Vec<String> = Vec::new();
    let mut current_links = owned("World Links:\n");
    proof {
        if fits {
            assert(blen("World Links:\n"@) + blen(link_line(all_worlds@[0])) <= MAX_MESSAGE_BYTES);
        }
    }
    let mut j: usize = 0;
    assert(texts(link_messages@) =~= Seq::<Seq<char>>::empty());
    while j < all_worlds.len()
        invariant
            j <= all_worlds@.len(),
            pack_links(texts(link_messages@), current_links@, all_worlds@, j as nat) == target,
            fits == links_fit(all_worlds@),
            fits ==> all_within(texts(link_messages@)) && blen(current_links@) <= MAX_MESSAGE_BYTES,
        decreases all_worlds@.len() - j,
    {
        let w = &all_worlds[j];
        let mut line = owned("• [VRChat](<https://vrchat.com/home/launch?worldId=");
        append(&mut line, w.id.as_str());
        append(&mut line, ">) | [VRCX](<https://vrcx.azurewebsites.net/world/");
        append(&mut line, w.id.as_str());
        append(&mut line, ">)\n");
        if exceeds(byte_len(current_links.as_str()), byte_len(line.as_str())) {
            let done = trim_end(current_links.as_str());
            proof {
                lemma_trim_end_shorter(current_links@);
            }
            let ghost old_msgs = link_messages@;
            link_messages.push(done);
            assert(texts(link_messages@) =~= texts(old_msgs).push(done@));
            proof {
                if fits {
                    assert(blen("World Links:\n"@) + blen(link_line(all_worlds@[j as int])) <= MAX_MESSAGE_BYTES);
                    assert forall|t: int| 0 <= t < texts(link_messages@).len() implies blen(#[trigger] texts(link_messages@)[t]) <= MAX_MESSAGE_BYTES by {
                        if t < texts(old_msgs).len() {
                            assert(texts(link_messages@)[t] == texts(old_msgs)[t]);
                        }
                    }
                }
            }
            current_links = line;
        } else {
            let ghost before = current_links@;
            append(&mut current_links, line.as_str());
            proof {
                lemma_blen_concat(before, line@);
            }
        }
        j += 1;
    }
    let last = trim_end(current_links.as_str());
    proof {
        lemma_trim_end_shorter(current_links@);
    }
    let ghost old_msgs = link_messages@;
    link_messages.push(last);
    assert(texts(link_messages@) =~= texts(old_msgs).push(last@));
    proof {
        if fits {
            assert forall|t: int| 0 <= t < texts(link_messages@).len() implies blen(#[trigger] texts(link_messages@)[t]) <= MAX_MESSAGE_BYTES by {
                if t < texts(old_msgs).len() {
                    assert(texts(link_messages@)[t] == texts(old_msgs)[t]);
                }
            }
        }
    }
    (trim_end(summary.as_str()), link_messages)
}

/// The text fields of one webhook call: the message body and, for a new
/// forum thread, its title.
#[derive(Debug, Clone)]
pub struct TextFields {
    pub content: Option<String>,
    pub thread_name: Option<String>,
}

impl TextFields {
    /// No text: the call uploads images silently.
    pub fn empty() -> (r: Self)
        ensures
            r.content.is_none(),
            r.thread_name.is_none(),
    {
        TextFields { content: None, thread_name: None }
    }

    /// Whether the call carries no text field.
    pub fn is_empty(&self) -> (r: bool)
        ensures
            r == (self.content.is_none() && self.thread_name.is_none()),
    {
        self.content.is_none() && self.thread_name.is_none()
    }
}

/// The view of an optional string.
pub open spec fn opt_text(o: Option<String>) -> Option<Seq<char>> {
    match o {
        Some(s) => Some(s@),
        None => None,
    }
}

/// The text fields of a chunk: the main text on a group's first message, with
/// a thread title when it opens a forum thread; nothing on later chunks.
pub open spec fn payload_fields(
    ws: Seq<WorldInfo>,
    ps: Seq<PlayerInfo>,
    ts: Option<i64>,
    is_first_message: bool,
    is_forum_post: bool,
    with_players: bool,
) -> (Option<Seq<char>>, Option<Seq<char>>) {
    if is_first_message {
        (
            Some(main_text(ws, ps, ts, with_players).0),
            if is_forum_post { Some(thread_title(ws)) } else { None },
        )
    } else {
        (None, None)
    }
}

/// The overflow messages of a chunk: only a first message has any, for the
/// players that its main text could not hold.
pub open spec fn payload_overflow(
    ws: Seq<WorldInfo>,
    ps: Seq<PlayerInfo>,
    ts: Option<i64>,
    is_first_message: bool,
    with_players: bool,
) -> Seq<Seq<char>> {
    let m = main_text(ws, ps, ts, with_players);
    if is_first_message && m.1 < ps.len() {
        overflow_messages(ps.subrange(m.1 as int, ps.len() as int), m.2)
    } else {
        Seq::empty()
    }
}

/// Composes the text of one chunk of a group and the follow-up messages
/// that carry the players the main text could not hold. The thread id of a
/// continuation does not change the text.
pub fn create_discord_payload(
    all_worlds: &[WorldInfo],
    all_players: &[PlayerInfo],
    timestamp: Option<i64>,
    is_first_message: bool,
    chunk_index: usize,
    is_forum_post: bool,
    thread_id: Option<&str>,
    include_player_names: bool,
) -> (r: (TextFields, Vec<String>))
    ensures
        (opt_text(r.0.content), opt_text(r.0.thread_name)) == payload_fields(
            all_worlds@,
            all_players@,
            timestamp,
            is_first_message,
            is_forum_post,
            include_player_names,
        ),
        texts(r.1@) == payload_overflow(
            all_worlds@,
            all_players@,
            timestamp,
            is_first_message,
            include_player_names,
        ),
        blen(worlds_header(all_worlds@, timestamp)) <= MAX_MESSAGE_BYTES ==> match r.0.content {
            Some(c) => blen(c@) <= MAX_MESSAGE_BYTES,
            None => true,
        },
        names_fit(all_players@, blen("with "@)) ==> all_within(texts(r.1@)),
{
    let mut fields = TextFields::empty();
    let mut overflow: Vec<String> = Vec::new();
    assert(texts(overflow@) =~= Seq::<Seq<char>>::empty());
    if is_first_message {
        let (content, rest_start, had_players_in_main) = create_message_content_with_players(
            all_worlds,
            all_players,
            timestamp,
            include_player_names,
        );
        fields.content = Some(content);
        if is_forum_post {
            fields.thread_name = Some(create_thread_title(all_worlds));
        }
        if rest_start < all_players.len() {
            overflow = create_overflow_player_messages(all_players, rest_start, had_players_in_main);
        }
    }
    (fields, overflow)
}

} // verus!
