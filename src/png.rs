//! Metadata embedded in a PNG file: VRCX-style JSON in a "Description" text
//! chunk, or VRChat's XMP packet. Everything here works on the bytes of the
//! file; reading the file is the host's part.
use vstd::prelude::*;
use vstd::utf8::{decode_utf8, valid_utf8};
use crate::json::opt_view;
use crate::text::push_char;

verus! {

/// The eight bytes every PNG file opens with.
pub open spec fn png_signature() -> Seq<u8> {
    seq![137u8, 80, 78, 71, 13, 10, 26, 10]
}

/// Chunks longer than this many bytes (50 MiB) are skipped.
pub const MAX_CHUNK_SIZE: u64 = 52428800;

/// The big-endian number in the four bytes at `p`.
pub open spec fn be32_at(s: Seq<u8>, p: int) -> int {
    s[p] as int * 16777216 + s[p + 1] as int * 65536 + s[p + 2] as int * 256 + s[p + 3] as int
}

/// Whether the four bytes at `p` are `a b c d`.
pub open spec fn tag_at(s: Seq<u8>, p: int, a: u8, b: u8, c: u8, d: u8) -> bool {
    s[p] == a && s[p + 1] == b && s[p + 2] == c && s[p + 3] == d
}

pub open spec fn is_text_tag(s: Seq<u8>, p: int) -> bool {
    tag_at(s, p, 116, 69, 88, 116) || tag_at(s, p, 105, 84, 88, 116) || tag_at(s, p, 122, 84, 88, 116)
}

pub open spec fn is_iend_tag(s: Seq<u8>, p: int) -> bool {
    tag_at(s, p, 73, 69, 78, 68)
}

/// Equal bytes up to ASCII case.
pub open spec fn ci_byte(a: u8, b: u8) -> bool {
    a == b || (65 <= a <= 90 && a + 32 == b) || (65 <= b <= 90 && b + 32 == a)
}

/// The bytes of "Description".
pub open spec fn description_key() -> Seq<u8> {
    seq![68u8, 101, 115, 99, 114, 105, 112, 116, 105, 111, 110]
}

/// Whether `k` spells "Description" in any ASCII case.
pub open spec fn is_description(k: Seq<u8>) -> bool {
    k.len() == 11 && forall|i: int| 0 <= i < 11 ==> ci_byte(#[trigger] k[i], description_key()[i])
}

/// The index of the first zero byte at or after `from`.
pub open spec fn first_zero(s: Seq<u8>, from: int) -> Option<int>
    decreases s.len() - from,
{
    if from >= s.len() || from < 0 {
        None
    } else if s[from] == 0 {
        Some(from)
    } else {
        first_zero(s, from + 1)
    }
}

/// The text that UTF-8 bytes encode.
pub open spec fn utf8_of(b: Seq<u8>) -> Option<Seq<char>> {
    if valid_utf8(b) { Some(decode_utf8(b)) } else { None }
}

/// Bytes read as Latin-1: each byte is the character of that code.
pub open spec fn latin1_of(b: Seq<u8>) -> Seq<char> {
    b.map_values(|x: u8| x as char)
}

/// What raw deflate data inflates to, as flate2's `DeflateDecoder` reads it.
pub uninterp spec fn inflated(data: Seq<u8>) -> Option<Seq<u8>>;

/// Relies on `std::str::from_utf8`: the text when the bytes are valid UTF-8.
#[verifier::external_body]
pub fn utf8_text(bytes: &[u8]) -> (r: Option<String>)
    ensures
        opt_view(r) == utf8_of(bytes@),
{
    std::str::from_utf8(bytes).ok().map(|s| s.to_string())
}

/// Bytes read as Latin-1.
fn latin1_text(bytes: &[u8]) -> (r: String)
    ensures
        r@ == latin1_of(bytes@),
{
    let mut out = String::new();
    let mut i: usize = 0;
    while i < bytes.len()
        invariant
            i <= bytes@.len(),
            out@ == latin1_of(bytes@.take(i as int)),
        decreases bytes@.len() - i,
    {
        push_char(&mut out, bytes[i] as char);
        assert(latin1_of(bytes@.take(i + 1)) =~= latin1_of(bytes@.take(i as int)).push(bytes@[i as int] as char));
        i += 1;
    }
    assert(bytes@.take(bytes@.len() as int) =~= bytes@);
    out
}

/// Relies on `flate2::read::DeflateDecoder` and `Read::read_to_end`: the inflated bytes, if the data inflates.
#[verifier::external_body]
fn inflate(data: &[u8]) -> (r: Option<Vec<u8>>)
    ensures
        match r {
            Some(v) => inflated(data@) == Some(v@),
            None => inflated(data@).is_none(),
        },
{
    let mut out = Vec::new();
    match std::io::Read::read_to_end(&mut flate2::read::DeflateDecoder::new(data), &mut out) {
        Ok(_) => Some(out),
        Err(_) => None,
    }
}

/// Inflated data read as UTF-8 text.
pub open spec fn inflated_text(data: Seq<u8>) -> Option<Seq<char>> {
    match inflated(data) {
        Some(b) => utf8_of(b),
        None => None,
    }
}

fn inflate_text(data: &[u8]) -> (r: Option<String>)
    ensures
        opt_view(r) == inflated_text(data@),
{
    match inflate(data) {
        Some(v) => utf8_text(v.as_slice()),
        None => None,
    }
}

/// The Description text of a tEXt chunk: after the first zero byte, UTF-8 if
/// valid, else Latin-1.
pub open spec fn text_chunk_description(d: Seq<u8>) -> Option<Seq<char>> {
    match first_zero(d, 0) {
        None => None,
        Some(z) => if is_description(d.take(z)) {
            let t = d.skip(z + 1);
            match utf8_of(t) {
                Some(s) => Some(s),
                None => Some(latin1_of(t)),
            }
        } else {
            None
        },
    }
}

/// Where the text of an iTXt chunk starts: the chunk is keyword, NUL,
/// compression flag, compression method, language tag, NUL, translated
/// keyword, NUL, text.
pub open spec fn itxt_text_start(d: Seq<u8>) -> Option<int> {
    match first_zero(d, 0) {
        Some(z0) => if z0 + 3 <= d.len() {
            match first_zero(d, z0 + 3) {
                Some(z1) => match first_zero(d, z1 + 1) {
                    Some(z2) => Some(z2 + 1),
                    None => None,
                },
                None => None,
            }
        } else {
            None
        },
        None => None,
    }
}

/// The Description text of an iTXt chunk; inflated when its compression flag is 1.
pub open spec fn itxt_description(d: Seq<u8>) -> Option<Seq<char>> {
    match (first_zero(d, 0), itxt_text_start(d)) {
        (Some(z), Some(start)) => if is_description(d.take(z)) && start < d.len() {
            let flag = if z + 1 < d.len() { d[z + 1] } else { 0 };
            if flag == 0 {
                utf8_of(d.skip(start))
            } else if flag == 1 {
                inflated_text(d.skip(start))
            } else {
                None
            }
        } else {
            None
        },
        _ => None,
    }
}

/// The Description text of a zTXt chunk, whose compression method must be 0.
pub open spec fn ztxt_description(d: Seq<u8>) -> Option<Seq<char>> {
    match first_zero(d, 0) {
        None => None,
        Some(z) => if is_description(d.take(z)) && d.len() > z + 2 && d[z + 1] == 0 {
            inflated_text(d.skip(z + 2))
        } else {
            None
        },
    }
}

fn find_zero(d: &[u8], from: usize) -> (r: Option<usize>)
    requires
        from <= d@.len(),
    ensures
        match r {
            Some(z) => first_zero(d@, from as int) == Some(z as int) && from <= z < d@.len(),
            None => first_zero(d@, from as int).is_none(),
        },
{
    let mut i: usize = from;
    while i < d.len()
        invariant
            from <= i <= d@.len(),
            first_zero(d@, from as int) == first_zero(d@, i as int),
        decreases d@.len() - i,
    {
        if d[i] == 0 {
            return Some(i);
        }
        i += 1;
    }
    None
}

fn itxt_start(d: &[u8]) -> (r: Option<usize>)
    ensures
        match r {
            Some(t) => itxt_text_start(d@) == Some(t as int) && t <= d@.len(),
            None => itxt_text_start(d@).is_none(),
        },
{
    let n = d.len();
    let z0 = match find_zero(d, 0) {
        Some(z) => z,
        None => return None,
    };
    if n - z0 < 3 {
        return None;
    }
    let z1 = match find_zero(d, z0 + 3) {
        Some(z) => z,
        None => return None,
    };
    match find_zero(d, z1 + 1) {
        Some(z2) => Some(z2 + 1),
        None => None,
    }
}

fn key_is_description(d: &[u8], end: usize) -> (r: bool)
    requires
        end <= d@.len(),
    ensures
        r == is_description(d@.take(end as int)),
{
    if end != 11 {
        return false;
    }
    let key: [u8; 11] = [68, 101, 115, 99, 114, 105, 112, 116, 105, 111, 110];
    assert(key@ =~= description_key());
    let mut i: usize = 0;
    while i < 11
        invariant
            i <= 11,
            end == 11,
            end <= d@.len(),
            key@ == description_key(),
            forall|j: int| 0 <= j < i ==> ci_byte(#[trigger] d@.take(11)[j], description_key()[j]),
        decreases 11 - i,
    {
        let a = d[i];
        let b = key[i];
        if !(a == b || (65 <= a && a <= 90 && a + 32 == b) || (65 <= b && b <= 90 && b + 32 == a)) {
            assert(d@.take(11)[i as int] == a);
            assert(!ci_byte(d@.take(11)[i as int], description_key()[i as int]));
            return false;
        }
        i += 1;
    }
    true
}

fn extract_from_text_chunk(d: &[u8]) -> (r: Option<String>)
    ensures
        opt_view(r) == text_chunk_description(d@),
{
    match find_zero(d, 0) {
        None => None,
        Some(z) => {
            if !key_is_description(d, z) {
                return None;
            }
            let t = vstd::slice::slice_subrange(d, z + 1, d.len());
            assert(t@ =~= d@.skip(z + 1));
            match utf8_text(t) {
                Some(s) => Some(s),
                None => Some(latin1_text(t)),
            }
        },
    }
}

fn extract_from_international_text_chunk(d: &[u8]) -> (r: Option<String>)
    ensures
        opt_view(r) == itxt_description(d@),
{
    let dl = d.len();
    let z = match find_zero(d, 0) {
        None => return None,
        Some(z) => z,
    };
    let start = match itxt_start(d) {
        Some(p) => p,
        None => return None,
    };
    if !key_is_description(d, z) || start >= d.len() {
        return None;
    }
    let flag: u8 = if z + 1 < d.len() { d[z + 1] } else { 0 };
    let t = vstd::slice::slice_subrange(d, start, d.len());
    assert(t@ =~= d@.skip(start as int));
    if flag == 0 {
        utf8_text(t)
    } else if flag == 1 {
        inflate_text(t)
    } else {
        None
    }
}

fn extract_from_compressed_text_chunk(d: &[u8]) -> (r: Option<String>)
    ensures
        opt_view(r) == ztxt_description(d@),
{
    match find_zero(d, 0) {
        None => None,
        Some(z) => {
            if !key_is_description(d, z) || d.len() <= z + 2 || d[z + 1] != 0 {
                return None;
            }
            let t = vstd::slice::slice_subrange(d, z + 2, d.len());
            assert(t@ =~= d@.skip(z + 2));
            inflate_text(t)
        },
    }
}

/// The Description text of the text chunk at `p` with `len` data bytes.
pub open spec fn description_in_chunk(s: Seq<u8>, p: int, len: int) -> Option<Seq<char>> {
    let d = s.subrange(p + 8, p + 8 + len);
    if tag_at(s, p + 4, 116, 69, 88, 116) {
        text_chunk_description(d)
    } else if tag_at(s, p + 4, 105, 84, 88, 116) {
        itxt_description(d)
    } else {
        ztxt_description(d)
    }
}

/// Scans the chunks from offset `p` for a Description text, stopping at the
/// IEND chunk or at the end of the data; oversize chunks are passed over.
pub open spec fn scan_description(s: Seq<u8>, p: int) -> Option<Seq<char>>
    decreases if 0 <= p <= s.len() { s.len() - p } else { 0 },
{
    if p < 0 || p + 8 > s.len() {
        None
    } else {
        let len = be32_at(s, p);
        let next = p + 12 + len;
        if len > MAX_CHUNK_SIZE {
            scan_description(s, next)
        } else if is_text_tag(s, p + 4) {
            if p + 8 + len > s.len() {
                None
            } else {
                match description_in_chunk(s, p, len) {
                    Some(t) => Some(t),
                    None => scan_description(s, next),
                }
            }
        } else if is_iend_tag(s, p + 4) {
            None
        } else {
            scan_description(s, next)
        }
    }
}

/// The Description text of one text chunk, by the kind its tag at `tag` names.
fn extract_description_from_chunk(s: &[u8], tag: usize, d: &[u8]) -> (r: Option<String>)
    requires
        tag + 4 <= s@.len(),
        is_text_tag(s@, tag as int),
    ensures
        opt_view(r) == if tag_at(s@, tag as int, 116, 69, 88, 116) {
            text_chunk_description(d@)
        } else if tag_at(s@, tag as int, 105, 84, 88, 116) {
            itxt_description(d@)
        } else {
            ztxt_description(d@)
        },
{
    if tag_is(s, tag, 116, 69, 88, 116) {
        extract_from_text_chunk(d)
    } else if tag_is(s, tag, 105, 84, 88, 116) {
        extract_from_international_text_chunk(d)
    } else {
        extract_from_compressed_text_chunk(d)
    }
}

/// Whether the data opens with the PNG signature.
pub open spec fn has_png_signature(s: Seq<u8>) -> bool {
    s.len() >= 8 && s.take(8) == png_signature()
}

fn check_signature(data: &[u8]) -> (r: bool)
    ensures
        r == has_png_signature(data@),
{
    if data.len() < 8 {
        return false;
    }
    let sig: [u8; 8] = [137, 80, 78, 71, 13, 10, 26, 10];
    assert(sig@ =~= png_signature());
    let mut i: usize = 0;
    while i < 8
        invariant
            i <= 8,
            data@.len() >= 8,
            sig@ == png_signature(),
            forall|j: int| 0 <= j < i ==> data@[j] == #[trigger] sig@[j],
        decreases 8 - i,
    {
        if data[i] != sig[i] {
            assert(data@.take(8)[i as int] != png_signature()[i as int]);
            return false;
        }
        i += 1;
    }
    assert(data@.take(8) =~= png_signature());
    true
}

pub fn read_be32(s: &[u8], p: usize) -> (r: u64)
    requires
        p + 4 <= s@.len(),
    ensures
        r as int == be32_at(s@, p as int),
{
    (s[p] as u64) * 16777216 + (s[p + 1] as u64) * 65536 + (s[p + 2] as u64) * 256 + (s[p + 3] as u64)
}

fn tag_is(s: &[u8], p: usize, a: u8, b: u8, c: u8, d: u8) -> (r: bool)
    requires
        p + 4 <= s@.len(),
    ensures
        r == tag_at(s@, p as int, a, b, c, d),
{
    s[p] == a && s[p + 1] == b && s[p + 2] == c && s[p + 3] == d
}

/// The Description text of a PNG file's first text chunk that has one.
/// Data that does not open with the PNG signature is refused.
pub fn get_png_description(data: &[u8], file_path: &str) -> (r: Result<Option<String>, crate::errors::AppError>)
    ensures
        !has_png_signature(data@) ==> (r matches Err(crate::errors::AppError::InvalidFileType { path: q }) && q@ == file_path@),
        has_png_signature(data@) ==> (r matches Ok(t) && opt_view(t) == scan_description(data@, 8)),
{
    if !check_signature(data) {
        return Err(crate::errors::AppError::invalid_file_type(file_path));
    }
    let n = data.len();
    let mut p: usize = 8;
    loop
        invariant
            n == data@.len(),
            8 <= p <= n,
            has_png_signature(data@),
            scan_description(data@, 8) == scan_description(data@, p as int),
        decreases n - p,
    {
        if n - p < 8 {
            return Ok(None);
        }
        let len = read_be32(data, p);
        let next: u128 = p as u128 + 12 + len as u128;
        if len > MAX_CHUNK_SIZE {
            if next > n as u128 {
                assert(scan_description(data@, next as int) == None::<Seq<char>>);
                return Ok(None);
            }
            p = next as usize;
        } else if tag_is(data, p + 4, 116, 69, 88, 116) || tag_is(data, p + 4, 105, 84, 88, 116)
            || tag_is(data, p + 4, 122, 84, 88, 116) {
            if (p as u128) + 8 + (len as u128) > n as u128 {
                return Ok(None);
            }
            let end = p + 8 + len as usize;
            let d = vstd::slice::slice_subrange(data, p + 8, end);
            let found = extract_description_from_chunk(data, p + 4, d);
            if found.is_some() {
                return Ok(found);
            }
            if next > n as u128 {
                assert(scan_description(data@, next as int) == None::<Seq<char>>);
                return Ok(None);
            }
            p = next as usize;
        } else if tag_is(data, p + 4, 73, 69, 78, 68) {
            return Ok(None);
        } else {
            if next > n as u128 {
                assert(scan_description(data@, next as int) == None::<Seq<char>>);
                return Ok(None);
            }
            p = next as usize;
        }
    }
}

/// The first index at or after `from` where `needle` occurs in `hay`.
pub open spec fn first_match(hay: Seq<u8>, needle: Seq<u8>, from: int) -> Option<int>
    decreases hay.len() + 1 - from,
{
    if from < 0 || from + needle.len() > hay.len() {
        None
    } else if hay.subrange(from, from + needle.len()) == needle {
        Some(from)
    } else {
        first_match(hay, needle, from + 1)
    }
}

/// The first position of a non-empty byte string in another.
pub fn find_subsequence(haystack: &[u8], needle: &[u8]) -> (r: Option<usize>)
    requires
        needle@.len() > 0,
    ensures
        match r {
            Some(i) => first_match(haystack@, needle@, 0) == Some(i as int),
            None => first_match(haystack@, needle@, 0).is_none(),
        },
{
    let n = haystack.len();
    let m = needle.len();
    if m > n {
        return None;
    }
    let mut i: usize = 0;
    while i <= n - m
        invariant
            n == haystack@.len(),
            m == needle@.len(),
            m <= n,
            i <= n - m + 1,
            first_match(haystack@, needle@, 0) == first_match(haystack@, needle@, i as int),
        decreases n - m + 1 - i,
    {
        let mut j: usize = 0;
        while j < m && haystack[i + j] == needle[j]
            invariant
                j <= m,
                i + m <= n,
                n == haystack@.len(),
                m == needle@.len(),
                forall|t: int| 0 <= t < j ==> haystack@[i + t] == #[trigger] needle@[t],
            decreases m - j,
        {
            j += 1;
        }
        if j == m {
            assert(haystack@.subrange(i as int, i + m) =~= needle@);
            return Some(i);
        }
        assert(haystack@.subrange(i as int, i + m)[j as int] != needle@[j as int]);
        i += 1;
    }
    None
}

/// Whether `needle` occurs in `hay`.
pub open spec fn has_bytes(hay: Seq<u8>, needle: Seq<u8>) -> bool {
    first_match(hay, needle, 0).is_some()
}

fn contains_bytes(hay: &[u8], needle: &[u8]) -> (r: bool)
    requires
        needle@.len() > 0,
    ensures
        r == has_bytes(hay@, needle@),
{
    find_subsequence(hay, needle).is_some()
}

/// The bytes of "XMP".
pub open spec fn xmp_key() -> Seq<u8> {
    seq![88u8, 77, 80]
}

/// The bytes of "XML:com.adobe.xmp".
pub open spec fn xml_xmp_key() -> Seq<u8> {
    seq![88u8, 77, 76, 58, 99, 111, 109, 46, 97, 100, 111, 98, 101, 46, 120, 109, 112]
}

/// The bytes of "xpacket".
pub open spec fn xpacket_key() -> Seq<u8> {
    seq![120u8, 112, 97, 99, 107, 101, 116]
}

/// The bytes of "WorldID".
pub open spec fn world_id_key() -> Seq<u8> {
    seq![87u8, 111, 114, 108, 100, 73, 68]
}

/// The bytes of "AuthorID".
pub open spec fn author_id_key() -> Seq<u8> {
    seq![65u8, 117, 116, 104, 111, 114, 73, 68]
}

/// The bytes of "x:xmpmeta".
pub open spec fn xmpmeta_key() -> Seq<u8> {
    seq![120u8, 58, 120, 109, 112, 109, 101, 116, 97]
}

/// The bytes of "<?xpacket begin".
pub open spec fn packet_begin_key() -> Seq<u8> {
    seq![60u8, 63, 120, 112, 97, 99, 107, 101, 116, 32, 98, 101, 103, 105, 110]
}

/// The bytes of "<?xpacket end".
pub open spec fn packet_end_key() -> Seq<u8> {
    seq![60u8, 63, 120, 112, 97, 99, 107, 101, 116, 32, 101, 110, 100]
}

/// The bytes of "<x:xmpmeta".
pub open spec fn meta_open_key() -> Seq<u8> {
    seq![60u8, 120, 58, 120, 109, 112, 109, 101, 116, 97]
}

/// The bytes of "</x:xmpmeta>".
pub open spec fn meta_close_key() -> Seq<u8> {
    seq![60u8, 47, 120, 58, 120, 109, 112, 109, 101, 116, 97, 62]
}

/// Equal byte strings up to ASCII case.
pub open spec fn ci_eq_bytes(a: Seq<u8>, b: Seq<u8>) -> bool {
    a.len() == b.len() && forall|i: int| 0 <= i < a.len() ==> ci_byte(#[trigger] a[i], b[i])
}

/// Whether an iTXt keyword names an XMP packet.
pub open spec fn names_xmp(k: Seq<u8>) -> bool {
    valid_utf8(k) && (has_bytes(k, xmp_key()) || has_bytes(k, xml_xmp_key()) || ci_eq_bytes(k, xpacket_key()))
}

/// The text an XMP-bearing iTXt chunk carries, inflated when its compression
/// flag is not 0.
pub open spec fn itxt_xmp(d: Seq<u8>) -> Option<Seq<char>> {
    match (first_zero(d, 0), itxt_text_start(d)) {
        (Some(z), Some(start)) => if names_xmp(d.take(z)) && start < d.len() {
            let flag = if z + 1 < d.len() { d[z + 1] } else { 0 };
            if flag == 0 { utf8_of(d.skip(start)) } else { inflated_text(d.skip(start)) }
        } else {
            None
        },
        _ => None,
    }
}

/// The UTF-8 text after the first zero byte of a tEXt chunk.
pub open spec fn text_content(d: Seq<u8>) -> Option<Seq<char>> {
    match first_zero(d, 0) {
        None => None,
        Some(z) => utf8_of(d.skip(z + 1)),
    }
}

/// The inflated text of a zTXt chunk whose compression method is 0.
pub open spec fn compressed_text_content(d: Seq<u8>) -> Option<Seq<char>> {
    match first_zero(d, 0) {
        None => None,
        Some(z) => if d.len() > z + 2 && d[z + 1] == 0 { inflated_text(d.skip(z + 2)) } else { None },
    }
}

/// Whether a text chunk's body looks like XMP: it names WorldID, AuthorID or x:xmpmeta.
pub open spec fn mentions_xmp(t: Seq<char>) -> bool {
    let b = vstd::utf8::encode_utf8(t);
    has_bytes(b, world_id_key()) || has_bytes(b, author_id_key()) || has_bytes(b, xmpmeta_key())
}

fn ci_eq_exec(a: &[u8], b: &[u8]) -> (r: bool)
    ensures
        r == ci_eq_bytes(a@, b@),
{
    if a.len() != b.len() {
        return false;
    }
    let mut i: usize = 0;
    while i < a.len()
        invariant
            a@.len() == b@.len(),
            i <= a@.len(),
            forall|j: int| 0 <= j < i ==> ci_byte(#[trigger] a@[j], b@[j]),
        decreases a@.len() - i,
    {
        let x = a[i];
        let y = b[i];
        if !(x == y || (65 <= x && x <= 90 && x + 32 == y) || (65 <= y && y <= 90 && y + 32 == x)) {
            return false;
        }
        i += 1;
    }
    true
}

pub fn extract_xmp_from_itxt(d: &[u8]) -> (r: Option<String>)
    ensures
        opt_view(r) == itxt_xmp(d@),
{
    let dl = d.len();
    let z = match find_zero(d, 0) {
        None => return None,
        Some(z) => z,
    };
    let start = match itxt_start(d) {
        Some(p) => p,
        None => return None,
    };
    let k = vstd::slice::slice_subrange(d, 0, z);
    assert(k@ =~= d@.take(z as int));
    let xmp: [u8; 3] = [88, 77, 80];
    let xml: [u8; 17] = [88, 77, 76, 58, 99, 111, 109, 46, 97, 100, 111, 98, 101, 46, 120, 109, 112];
    let xpacket: [u8; 7] = [120, 112, 97, 99, 107, 101, 116];
    assert(xmp@ =~= xmp_key());
    assert(xml@ =~= xml_xmp_key());
    assert(xpacket@ =~= xpacket_key());
    let named = utf8_text(k).is_some()
        && (contains_bytes(k, &xmp) || contains_bytes(k, &xml) || ci_eq_exec(k, &xpacket));
    if !named || start >= d.len() {
        return None;
    }
    let flag: u8 = if z + 1 < d.len() { d[z + 1] } else { 0 };
    let t = vstd::slice::slice_subrange(d, start, d.len());
    assert(t@ =~= d@.skip(start as int));
    if flag == 0 {
        utf8_text(t)
    } else {
        inflate_text(t)
    }
}

pub fn extract_text_content(d: &[u8]) -> (r: Option<String>)
    ensures
        opt_view(r) == text_content(d@),
{
    let dl = d.len();
    match find_zero(d, 0) {
        None => None,
        Some(z) => {
            let t = vstd::slice::slice_subrange(d, z + 1, d.len());
            assert(t@ =~= d@.skip(z + 1));
            utf8_text(t)
        },
    }
}

pub fn extract_compressed_text_content(d: &[u8]) -> (r: Option<String>)
    ensures
        opt_view(r) == compressed_text_content(d@),
{
    let dl = d.len();
    match find_zero(d, 0) {
        None => None,
        Some(z) => {
            if d.len() - z > 2 && d[z + 1] == 0 {
                let t = vstd::slice::slice_subrange(d, z + 2, d.len());
                assert(t@ =~= d@.skip(z + 2));
                inflate_text(t)
            } else {
                None
            }
        },
    }
}

pub fn mentions_xmp_exec(t: &str) -> (r: bool)
    ensures
        r == mentions_xmp(t@),
{
    let b = t.as_bytes();
    let w: [u8; 7] = [87, 111, 114, 108, 100, 73, 68];
    let a: [u8; 8] = [65, 117, 116, 104, 111, 114, 73, 68];
    let x: [u8; 9] = [120, 58, 120, 109, 112, 109, 101, 116, 97];
    assert(w@ =~= world_id_key());
    assert(a@ =~= author_id_key());
    assert(x@ =~= xmpmeta_key());
    contains_bytes(b, &w) || contains_bytes(b, &a) || contains_bytes(b, &x)
}

/// Whether the tag at `p` names a text chunk.
pub fn is_text_chunk(s: &[u8], p: usize) -> (r: bool)
    requires
        p + 4 <= s@.len(),
    ensures
        r == is_text_tag(s@, p as int),
{
    tag_is(s, p, 116, 69, 88, 116) || tag_is(s, p, 105, 84, 88, 116) || tag_is(s, p, 122, 84, 88, 116)
}

/// Whether the tag at `p` names the IEND chunk.
pub fn is_iend_chunk(s: &[u8], p: usize) -> (r: bool)
    requires
        p + 4 <= s@.len(),
    ensures
        r == is_iend_tag(s@, p as int),
{
    tag_is(s, p, 73, 69, 78, 68)
}

pub proof fn lemma_first_match_range(hay: Seq<u8>, needle: Seq<u8>, from: int)
    requires
        from >= 0,
    ensures
        first_match(hay, needle, from) matches Some(i) ==> from <= i && i + needle.len() <= hay.len(),
    decreases hay.len() + 1 - from,
{
    if from + needle.len() <= hay.len() && hay.subrange(from, from + needle.len()) != needle {
        lemma_first_match_range(hay, needle, from + 1);
    }
}

} // verus!
