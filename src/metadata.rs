//! Metadata of one screenshot from the bytes of its file: VRCX JSON first,
//! then VRChat's XMP, else nothing.
use vstd::prelude::*;
use crate::errors::AppError;
use crate::json::{array_len, item_string, json_array_len, json_item_string, json_parses, json_string_at, opt_view, parses, string_at, has, json_has};
use crate::model::{AuthorInfo, ImageMetadata, MetadataSource, MetadataWithSource, PlayerInfo, WorldInfo};
use crate::png::{
    has_bytes,     be32_at, compressed_text_content, first_match, get_png_description, has_png_signature, is_iend_tag, is_text_tag,
    itxt_xmp, meta_close_key, meta_open_key, mentions_xmp, packet_begin_key, packet_end_key, scan_description, tag_at,
    text_content, utf8_of, MAX_CHUNK_SIZE,
};
use crate::text::{owned, trim, trim_end_chars, trim_start_chars};
use crate::xmp::{parse_vrchat_xmp, xmp_found, author_name_of, author_id_of, world_id_of, world_name_of, or_empty};

verus! {

/// The players listed in VRCX JSON: items with both a display name and an id.
pub open spec fn json_players(t: Seq<char>, n: nat) -> Seq<(Seq<char>, Seq<char>)>
    decreases n,
{
    if n == 0 {
        Seq::empty()
    } else {
        let prev = json_players(t, (n - 1) as nat);
        match (
            json_item_string(t, seq!["players"@], (n - 1) as nat, "displayName"@),
            json_item_string(t, seq!["players"@], (n - 1) as nat, "id"@),
        ) {
            (Some(a), Some(b)) => prev.push((a, b)),
            _ => prev,
        }
    }
}

/// The players of metadata, by name and id.
pub open spec fn player_views(ps: Seq<PlayerInfo>) -> Seq<(Seq<char>, Seq<char>)> {
    ps.map_values(|p: PlayerInfo| (p.display_name@, p.id@))
}

/// A string at a path, or a default.
pub open spec fn string_or(t: Seq<char>, path: Seq<Seq<char>>, default: Seq<char>) -> Seq<char> {
    match json_string_at(t, path) {
        Some(v) => v,
        None => default,
    }
}

/// Metadata read from VRCX JSON text: an author with both name and id, a
/// world whose missing name and id read "Unknown World" and "Unknown ID", and
/// the players that have both.
pub open spec fn is_vrcx_metadata(m: ImageMetadata, t: Seq<char>) -> bool {
    let an = json_string_at(t, seq!["author"@, "displayName"@]);
    let ai = json_string_at(t, seq!["author"@, "id"@]);
    &&& m.author.is_some() == (an.is_some() && ai.is_some())
    &&& m.author matches Some(a) ==> Some(a.display_name@) == an && Some(a.id@) == ai
    &&& m.world.is_some() == json_has(t, seq!["world"@])
    &&& m.world matches Some(w) ==> w.name@ == string_or(t, seq!["world"@, "name"@], "Unknown World"@)
        && w.id@ == string_or(t, seq!["world"@, "id"@], "Unknown ID"@)
        && w.instance_id@ == string_or(t, seq!["world"@, "instanceId"@], Seq::empty())
    &&& player_views(m.players@) == match json_array_len(t, seq!["players"@]) {
        Some(n) => json_players(t, n),
        None => Seq::empty(),
    }
}

fn string_or_exec(t: &str, path: &[&str], default: &str) -> (r: String)
    ensures
        r@ == string_or(t@, crate::json::key_path(path@), default@),
{
    match string_at(t, path) {
        Some(v) => v,
        None => owned(default),
    }
}

/// Reads VRCX JSON metadata; fields that are missing stay absent, so any
/// JSON text is read.
pub fn parse_vrchat_metadata(json_text: &str) -> (r: Result<ImageMetadata, AppError>)
    ensures
        r matches Ok(m) && is_vrcx_metadata(m, json_text@),
{
    let author_name_path: [&str; 2] = ["author", "displayName"];
    let author_id_path: [&str; 2] = ["author", "id"];
    let world_path: [&str; 1] = ["world"];
    let world_name_path: [&str; 2] = ["world", "name"];
    let world_id_path: [&str; 2] = ["world", "id"];
    let instance_path: [&str; 2] = ["world", "instanceId"];
    let players_path: [&str; 1] = ["players"];
    proof {
        assert(crate::json::key_path(author_name_path@) =~= seq!["author"@, "displayName"@]);
        assert(crate::json::key_path(author_id_path@) =~= seq!["author"@, "id"@]);
        assert(crate::json::key_path(world_path@) =~= seq!["world"@]);
        assert(crate::json::key_path(world_name_path@) =~= seq!["world"@, "name"@]);
        assert(crate::json::key_path(world_id_path@) =~= seq!["world"@, "id"@]);
        assert(crate::json::key_path(instance_path@) =~= seq!["world"@, "instanceId"@]);
        assert(crate::json::key_path(players_path@) =~= seq!["players"@]);
    }
    let author = match (string_at(json_text, &author_name_path), string_at(json_text, &author_id_path)) {
        (Some(name), Some(id)) => Some(AuthorInfo { display_name: name, id }),
        _ => None,
    };
    proof {
        reveal_strlit("");
    }
    let world = if has(json_text, &world_path) {
        Some(WorldInfo {
            name: string_or_exec(json_text, &world_name_path, "Unknown World"),
            id: string_or_exec(json_text, &world_id_path, "Unknown ID"),
            instance_id: string_or_exec(json_text, &instance_path, ""),
        })
    } else {
        None
    };
    let mut players: Vec<PlayerInfo> = Vec::new();
    assert(player_views(players@) =~= Seq::<(Seq<char>, Seq<char>)>::empty());
    if let Some(n) = array_len(json_text, &players_path) {
        let mut i: usize = 0;
        while i < n
            invariant
                i <= n,
                crate::json::key_path(players_path@) == seq!["players"@],
                player_views(players@) == json_players(json_text@, i as nat),
            decreases n - i,
        {
            let a = item_string(json_text, &players_path, i, "displayName");
            let b = item_string(json_text, &players_path, i, "id");
            proof {
                reveal_strlit("displayName");
                reveal_strlit("id");
            }
            match (a, b) {
                (Some(x), Some(y)) => {
                    let ghost before = players@;
                    players.push(PlayerInfo { display_name: x, id: y });
                    assert(player_views(players@) =~= player_views(before).push((players@.last().display_name@, players@.last().id@)));
                },
                _ => {},
            }
            i += 1;
        }
    }
    let r = ImageMetadata { author, world, players };
    proof {
        let t = json_text@;
        assert(r.author matches Some(a) ==> Some(a.display_name@) == json_string_at(t, seq!["author"@, "displayName"@]));
        assert(r.author matches Some(a) ==> Some(a.id@) == json_string_at(t, seq!["author"@, "id"@]));
        assert(r.world matches Some(w) ==> w.name@ == string_or(t, seq!["world"@, "name"@], "Unknown World"@));
        assert(r.world matches Some(w) ==> w.id@ == string_or(t, seq!["world"@, "id"@], "Unknown ID"@));
        assert(r.world matches Some(w) ==> w.instance_id@ == string_or(t, seq!["world"@, "instanceId"@], Seq::empty()));
    }
    Ok(r)
}

/// The XMP text of the chunk at `p` with `len` data bytes, when it yields metadata.
pub open spec fn xmp_in_chunk(s: Seq<u8>, p: int, len: int) -> Option<Seq<char>> {
    let d = s.subrange(p + 8, p + 8 + len);
    let t = if tag_at(s, p + 4, 105, 84, 88, 116) {
        itxt_xmp(d)
    } else if tag_at(s, p + 4, 116, 69, 88, 116) {
        match text_content(d) {
            Some(c) => if mentions_xmp(c) { Some(c) } else { None },
            None => None,
        }
    } else {
        match compressed_text_content(d) {
            Some(c) => if mentions_xmp(c) { Some(c) } else { None },
            None => None,
        }
    };
    match t {
        Some(c) => if xmp_found(c) { Some(c) } else { None },
        None => None,
    }
}

/// Scans the chunks from offset `p` for XMP text that yields metadata, in
/// the same walk as the Description scan.
pub open spec fn scan_xmp(s: Seq<u8>, p: int) -> Option<Seq<char>>
    decreases if 0 <= p <= s.len() { s.len() - p } else { 0 },
{
    if p < 0 || p + 8 > s.len() {
        None
    } else {
        let len = be32_at(s, p);
        let next = p + 12 + len;
        if len > MAX_CHUNK_SIZE {
            scan_xmp(s, next)
        } else if is_text_tag(s, p + 4) {
            if p + 8 + len > s.len() {
                None
            } else {
                match xmp_in_chunk(s, p, len) {
                    Some(t) => Some(t),
                    None => scan_xmp(s, next),
                }
            }
        } else if is_iend_tag(s, p + 4) {
            None
        } else {
            scan_xmp(s, next)
        }
    }
}

proof fn lemma_scan_xmp_found(s: Seq<u8>, p: int)
    ensures
        scan_xmp(s, p) matches Some(t) ==> xmp_found(t),
    decreases if 0 <= p <= s.len() { s.len() - p } else { 0 },
{
    if !(p < 0 || p + 8 > s.len()) {
        let len = be32_at(s, p);
        lemma_scan_xmp_found(s, p + 12 + len);
    }
}

/// The text between an opening marker and a closing one found after it, the
/// closing marker and `tail` more bytes included (no further than the end).
pub open spec fn raw_packet(s: Seq<u8>, open: Seq<u8>, close: Seq<u8>, tail: int) -> Option<Seq<char>> {
    match first_match(s, open, 0) {
        Some(st) => match first_match(s.skip(st), close, 0) {
            Some(off) => {
                let end = if st + off + tail < s.len() { st + off + tail } else { s.len() as int };
                match utf8_of(s.subrange(st, end)) {
                    Some(t) => if xmp_found(t) { Some(t) } else { None },
                    None => None,
                }
            },
            None => None,
        },
        None => None,
    }
}

/// XMP found anywhere in the raw bytes: an xpacket, else an x:xmpmeta element.
pub open spec fn raw_xmp(s: Seq<u8>) -> Option<Seq<char>> {
    match raw_packet(s, packet_begin_key(), packet_end_key(), 20) {
        Some(t) => Some(t),
        None => raw_packet(s, meta_open_key(), meta_close_key(), 12),
    }
}

/// The XMP text that metadata is taken from: from a chunk, else from the raw bytes.
pub open spec fn xmp_text(s: Seq<u8>) -> Option<Seq<char>> {
    match scan_xmp(s, 8) {
        Some(t) => Some(t),
        None => raw_xmp(s),
    }
}

/// Metadata taken from an XMP packet.
pub open spec fn is_xmp_metadata(m: ImageMetadata, c: Seq<char>) -> bool {
    &&& m.players@.len() == 0
    &&& m.author.is_some() == (author_name_of(c).is_some() || author_id_of(c).is_some())
    &&& m.author matches Some(a) ==> a.display_name@ == or_empty(author_name_of(c)) && a.id@ == or_empty(author_id_of(c))
    &&& m.world.is_some() == (world_id_of(c).is_some() || world_name_of(c).is_some())
    &&& m.world matches Some(w) ==> w.name@ == or_empty(world_name_of(c)) && w.id@ == or_empty(world_id_of(c))
        && w.instance_id@.len() == 0
}

fn xmp_from_chunk(data: &[u8], p: usize, len: usize) -> (r: Option<String>)
    requires
        p + 8 + len <= data@.len(),
        is_text_tag(data@, p + 4),
    ensures
        opt_view(r) == xmp_in_chunk(data@, p as int, len as int),
{
    let n = data.len();
    let d = vstd::slice::slice_subrange(data, p + 8, p + 8 + len);
    let t = if data[p + 4] == 105 {
        crate::png::extract_xmp_from_itxt(d)
    } else {
        let c = if data[p + 4] == 116 {
            crate::png::extract_text_content(d)
        } else {
            crate::png::extract_compressed_text_content(d)
        };
        match c {
            Some(x) => if crate::png::mentions_xmp_exec(x.as_str()) { Some(x) } else { None },
            None => None,
        }
    };
    match t {
        Some(c) => if parse_vrchat_xmp(c.as_str()).is_some() { Some(c) } else { None },
        None => None,
    }
}

fn scan_xmp_exec(data: &[u8]) -> (r: Option<String>)
    requires
        data@.len() >= 8,
    ensures
        opt_view(r) == scan_xmp(data@, 8),
{
    let n = data.len();
    let mut p: usize = 8;
    loop
        invariant
            n == data@.len(),
            8 <= p <= n,
            scan_xmp(data@, 8) == scan_xmp(data@, p as int),
        decreases n - p,
    {
        if n - p < 8 {
            return None;
        }
        let len = crate::png::read_be32(data, p);
        let next: u128 = p as u128 + 12 + len as u128;
        if len <= MAX_CHUNK_SIZE && crate::png::is_text_chunk(data, p + 4) {
            if (p as u128) + 8 + (len as u128) > n as u128 {
                return None;
            }
            let found = xmp_from_chunk(data, p, len as usize);
            if found.is_some() {
                return found;
            }
        } else if len <= MAX_CHUNK_SIZE && crate::png::is_iend_chunk(data, p + 4) {
            return None;
        }
        if next > n as u128 {
            assert(scan_xmp(data@, next as int) == None::<Seq<char>>);
            return None;
        }
        p = next as usize;
    }
}

fn raw_packet_exec(data: &[u8], open: &[u8], close: &[u8], tail: usize) -> (r: Option<String>)
    requires
        open@.len() > 0,
        close@.len() > 0,
        tail <= 20,
    ensures
        opt_view(r) == raw_packet(data@, open@, close@, tail as int),
{
    let n = data.len();
    let st = match crate::png::find_subsequence(data, open) {
        Some(st) => st,
        None => return None,
    };
    proof {
        crate::png::lemma_first_match_range(data@, open@, 0);
    }
    let rest = vstd::slice::slice_subrange(data, st, n);
    assert(rest@ =~= data@.skip(st as int));
    let off = match crate::png::find_subsequence(rest, close) {
        Some(off) => off,
        None => return None,
    };
    proof {
        crate::png::lemma_first_match_range(rest@, close@, 0);
    }
    let end = if (st as u128) + (off as u128) + (tail as u128) < n as u128 { st + off + tail } else { n };
    let slice = vstd::slice::slice_subrange(data, st, end);
    match crate::png::utf8_text(slice) {
        Some(t) => if parse_vrchat_xmp(t.as_str()).is_some() { Some(t) } else { None },
        None => None,
    }
}

fn raw_xmp_exec(data: &[u8]) -> (r: Option<String>)
    ensures
        opt_view(r) == raw_xmp(data@),
{
    let b: [u8; 15] = [60, 63, 120, 112, 97, 99, 107, 101, 116, 32, 98, 101, 103, 105, 110];
    let e: [u8; 13] = [60, 63, 120, 112, 97, 99, 107, 101, 116, 32, 101, 110, 100];
    let o: [u8; 10] = [60, 120, 58, 120, 109, 112, 109, 101, 116, 97];
    let c: [u8; 12] = [60, 47, 120, 58, 120, 109, 112, 109, 101, 116, 97, 62];
    assert(b@ =~= packet_begin_key());
    assert(e@ =~= packet_end_key());
    assert(o@ =~= meta_open_key());
    assert(c@ =~= meta_close_key());
    match raw_packet_exec(data, &b, &e, 20) {
        Some(t) => Some(t),
        None => raw_packet_exec(data, &o, &c, 12),
    }
}

/// The trimmed Description text of a PNG file, when it is JSON.
pub open spec fn description_json(s: Seq<u8>) -> Option<Seq<char>> {
    match scan_description(s, 8) {
        Some(t) => {
            let d = trim_start_chars(trim_end_chars(t));
            if json_parses(d) { Some(d) } else { None }
        },
        None => None,
    }
}

/// The metadata a PNG file's bytes yield: read from VRCX JSON when the
/// Description text is JSON, else from XMP when there is any, else none.
pub open spec fn extracted(m: Option<ImageMetadata>, s: Seq<u8>) -> bool {
    match description_json(s) {
        Some(d) => m matches Some(md) && is_vrcx_metadata(md, d),
        None => match xmp_text(s) {
            Some(c) => m matches Some(md) && is_xmp_metadata(md, c),
            None => m.is_none(),
        },
    }
}

/// The metadata a PNG file's bytes yield, with the place it was found.
pub open spec fn extracted_with_source(m: Option<ImageMetadata>, source: MetadataSource, s: Seq<u8>) -> bool {
    &&& extracted(m, s)
    &&& source == if description_json(s).is_some() {
        MetadataSource::Vrcx
    } else if xmp_text(s).is_some() {
        MetadataSource::VrchatXmp
    } else {
        MetadataSource::NotFound
    }
}

/// The metadata of a PNG file from its bytes, and where it was found: VRCX
/// JSON in a Description text chunk when the text parses as JSON, else
/// VRChat XMP from a chunk or from the raw bytes, else nothing. Data without
/// the PNG signature is refused as `InvalidFileType`.
pub fn extract_metadata_with_source(data: &[u8], file_path: &str) -> (r: Result<MetadataWithSource, AppError>)
    ensures
        !has_png_signature(data@) ==> (r matches Err(AppError::InvalidFileType { path: q }) && q@ == file_path@),
        has_png_signature(data@) ==> r.is_ok(),
        r matches Ok(m) ==> extracted_with_source(m.metadata, m.source, data@),
{
    let description = match get_png_description(data, file_path) {
        Err(e) => return Err(e),
        Ok(d) => d,
    };
    if let Some(text) = description {
        let cleaned = trim(text.as_str());
        if parses(cleaned.as_str()) {
            match parse_vrchat_metadata(cleaned.as_str()) {
                Ok(m) => return Ok(MetadataWithSource { metadata: Some(m), source: MetadataSource::Vrcx }),
                Err(e) => return Err(e),
            }
        }
    }
    proof {
        lemma_scan_xmp_found(data@, 8);
    }
    let found = match scan_xmp_exec(data) {
        Some(t) => Some(t),
        None => raw_xmp_exec(data),
    };
    match found {
        Some(t) => match parse_vrchat_xmp(t.as_str()) {
            Some(m) => Ok(MetadataWithSource { metadata: Some(m), source: MetadataSource::VrchatXmp }),
            None => Ok(MetadataWithSource { metadata: None, source: MetadataSource::NotFound }),
        },
        None => Ok(MetadataWithSource { metadata: None, source: MetadataSource::NotFound }),
    }
}

/// The metadata of a PNG file from its bytes, without its source.
pub fn extract_metadata(data: &[u8], file_path: &str) -> (r: Result<Option<ImageMetadata>, AppError>)
    ensures
        !has_png_signature(data@) ==> (r matches Err(AppError::InvalidFileType { path: q }) && q@ == file_path@),
        has_png_signature(data@) ==> r.is_ok(),
        r matches Ok(o) ==> extracted(o, data@),
{
    match extract_metadata_with_source(data, file_path) {
        Ok(m) => Ok(m.metadata),
        Err(e) => Err(e),
    }
}

/// Whether the chunk walk from offset `p` meets a text chunk (tEXt, iTXt or
/// zTXt) before the IEND chunk or the end of the data.
pub open spec fn text_chunk_ahead(s: Seq<u8>, p: int) -> bool
    decreases if 0 <= p <= s.len() { s.len() - p } else { 0 },
{
    if p < 0 || p + 8 > s.len() {
        false
    } else {
        let len = be32_at(s, p);
        if len > MAX_CHUNK_SIZE {
            text_chunk_ahead(s, p + 12 + len)
        } else if is_text_tag(s, p + 4) {
            true
        } else if is_iend_tag(s, p + 4) {
            false
        } else {
            text_chunk_ahead(s, p + 12 + len)
        }
    }
}

proof fn lemma_no_text_chunk_scans(s: Seq<u8>, p: int)
    requires
        !text_chunk_ahead(s, p),
    ensures
        scan_description(s, p).is_none(),
        scan_xmp(s, p).is_none(),
    decreases if 0 <= p <= s.len() { s.len() - p } else { 0 },
{
    if !(p < 0 || p + 8 > s.len()) {
        let len = be32_at(s, p);
        if len > MAX_CHUNK_SIZE || (!is_text_tag(s, p + 4) && !is_iend_tag(s, p + 4)) {
            lemma_no_text_chunk_scans(s, p + 12 + len);
        }
    }
}

/// A PNG file with no text chunk, and no XMP packet or x:xmpmeta element in
/// its bytes, yields no metadata: the extractor reports no Description text
/// and no XMP, hence source `NotFound` and no metadata.
pub proof fn lemma_no_text_chunks_no_metadata(s: Seq<u8>)
    requires
        has_png_signature(s),
        !text_chunk_ahead(s, 8),
        !has_bytes(s, packet_begin_key()),
        !has_bytes(s, meta_open_key()),
    ensures
        scan_description(s, 8).is_none(),
        xmp_text(s).is_none(),
        forall|m: Option<ImageMetadata>| #[trigger] extracted(m, s) ==> m.is_none(),
        forall|m: Option<ImageMetadata>, src: MetadataSource| #[trigger] extracted_with_source(m, src, s)
            ==> m.is_none() && src == MetadataSource::NotFound,
{
    lemma_no_text_chunk_scans(s, 8);
}

} // verus!
