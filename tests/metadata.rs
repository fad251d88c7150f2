use std::io::Write;
use vrchat_uploader::errors::AppError;
use vrchat_uploader::metadata::{extract_metadata, extract_metadata_with_source, parse_vrchat_metadata};
use vrchat_uploader::model::MetadataSource;
use vrchat_uploader::png::{find_subsequence, get_png_description};
use vrchat_uploader::xmp::{extract_xmp_value, parse_vrchat_xmp};

fn chunk(tag: &[u8; 4], data: &[u8]) -> Vec<u8> {
    let mut out = (data.len() as u32).to_be_bytes().to_vec();
    out.extend_from_slice(tag);
    out.extend_from_slice(data);
    out.extend_from_slice(&[0, 0, 0, 0]);
    out
}

fn png_with(chunks: &[Vec<u8>]) -> Vec<u8> {
    let mut out = vec![0x89, 0x50, 0x4E, 0x47, 0x0D, 0x0A, 0x1A, 0x0A];
    out.extend(chunk(b"IHDR", &[0, 0, 0, 1, 0, 0, 0, 1, 8, 2, 0, 0, 0]));
    for c in chunks {
        out.extend_from_slice(c);
    }
    out.extend(chunk(b"IDAT", &[0x08, 0x99, 0x01, 0x01, 0x00, 0x00, 0x00, 0xFF, 0xFF]));
    out.extend(chunk(b"IEND", &[]));
    out
}

const VRCX: &str = r#"{"application":"VRCX","version":1,"author":{"displayName":"TestUser","id":"usr_test123"},"world":{"name":"Test World","id":"wrld_test123","instanceId":"wrld_test123:1"},"players":[{"displayName":"Alice","id":"usr_a"},{"displayName":"NoId"},{"displayName":"Bob","id":"usr_b"}]}"#;

#[test]
fn png_without_text_chunks_has_no_metadata() {
    let data = png_with(&[]);
    let r = extract_metadata_with_source(&data, "min.png").unwrap();
    assert!(r.metadata.is_none());
    assert_eq!(r.source, MetadataSource::NotFound);
    assert_eq!(extract_metadata(&data, "min.png").unwrap().is_none(), true);
}

#[test]
fn description_text_chunk_with_vrcx_json() {
    let mut body = b"Description\0".to_vec();
    body.extend_from_slice(VRCX.as_bytes());
    let data = png_with(&[chunk(b"tEXt", &body)]);
    let r = extract_metadata_with_source(&data, "v.png").unwrap();
    assert_eq!(r.source, MetadataSource::Vrcx);
    let m = r.metadata.unwrap();
    let a = m.author.unwrap();
    assert_eq!(a.display_name, "TestUser");
    assert_eq!(a.id, "usr_test123");
    let w = m.world.unwrap();
    assert_eq!(w.name, "Test World");
    assert_eq!(w.id, "wrld_test123");
    assert_eq!(w.instance_id, "wrld_test123:1");
    let names: Vec<&str> = m.players.iter().map(|p| p.display_name.as_str()).collect();
    assert_eq!(names, vec!["Alice", "Bob"]);
}

#[test]
fn keyword_is_matched_in_any_case_and_ztxt_is_inflated() {
    let mut enc = flate2::write::DeflateEncoder::new(Vec::new(), flate2::Compression::default());
    enc.write_all(VRCX.as_bytes()).unwrap();
    let compressed = enc.finish().unwrap();
    let mut body = b"description\0\0".to_vec();
    body.extend_from_slice(&compressed);
    let data = png_with(&[chunk(b"zTXt", &body)]);
    let d = get_png_description(&data, "z.png").unwrap().unwrap();
    assert_eq!(d, VRCX);
    let r = extract_metadata_with_source(&data, "z.png").unwrap();
    assert_eq!(r.source, MetadataSource::Vrcx);
}

#[test]
fn latin1_description_falls_back() {
    let mut body = b"Description\0caf".to_vec();
    body.push(0xE9);
    let data = png_with(&[chunk(b"tEXt", &body)]);
    assert_eq!(get_png_description(&data, "l.png").unwrap().unwrap(), "café");
}

#[test]
fn world_defaults_when_fields_missing() {
    let m = parse_vrchat_metadata(r#"{"world":{},"author":{"displayName":"x"}}"#).unwrap();
    assert!(m.author.is_none());
    let w = m.world.unwrap();
    assert_eq!(w.name, "Unknown World");
    assert_eq!(w.id, "Unknown ID");
    assert_eq!(w.instance_id, "");
    assert!(m.players.is_empty());
}

#[test]
fn not_a_png_is_invalid_file_type() {
    let r = extract_metadata_with_source(b"GIF89a....", "x.gif");
    match r {
        Err(AppError::InvalidFileType { path }) => assert_eq!(path, "x.gif"),
        other => panic!("unexpected {:?}", other),
    }
}

const XMP: &str = r#"<x:xmpmeta xmlns:x="adobe:ns:meta/"><rdf:RDF><rdf:Description xmlns:vrc="http://ns.vrchat.com/vrc/1.0/" vrc:WorldID="wrld_x" vrc:AuthorID="usr_y"><vrc:WorldDisplayName> Great World </vrc:WorldDisplayName><xmp:Author>Someone</xmp:Author></rdf:Description></rdf:RDF></x:xmpmeta>"#;

#[test]
fn xmp_in_itxt_chunk() {
    let mut body = b"XML:com.adobe.xmp\0\0\0\0\0".to_vec();
    body.extend_from_slice(XMP.as_bytes());
    let data = png_with(&[chunk(b"iTXt", &body)]);
    let r = extract_metadata_with_source(&data, "x.png").unwrap();
    assert_eq!(r.source, MetadataSource::VrchatXmp);
    let m = r.metadata.unwrap();
    let w = m.world.unwrap();
    assert_eq!(w.id, "wrld_x");
    assert_eq!(w.name, "Great World");
    let a = m.author.unwrap();
    assert_eq!(a.id, "usr_y");
    assert_eq!(a.display_name, "Someone");
    assert!(m.players.is_empty());
}

#[test]
fn xmp_found_in_raw_bytes() {
    let mut data = png_with(&[]);
    data.extend_from_slice(XMP.as_bytes());
    let r = extract_metadata_with_source(&data, "raw.png").unwrap();
    assert_eq!(r.source, MetadataSource::VrchatXmp);
}

#[test]
fn xmp_values_by_each_form() {
    assert_eq!(extract_xmp_value("<a:WorldID> w1 </a:WorldID>", "WorldID").as_deref(), Some("w1"));
    assert_eq!(extract_xmp_value("<WorldID>w2</WorldID>", "WorldID").as_deref(), Some("w2"));
    assert_eq!(extract_xmp_value(r#"<x WorldID="w3"/>"#, "WorldID").as_deref(), Some("w3"));
    assert_eq!(extract_xmp_value(r#"<x WorldID=""/>"#, "WorldID"), None);
    assert!(parse_vrchat_xmp("<nothing/>").is_none());
}

#[test]
fn subsequence_search() {
    assert_eq!(find_subsequence(b"abcabc", b"ca"), Some(2));
    assert_eq!(find_subsequence(b"abc", b"abcd"), None);
    assert_eq!(find_subsequence(b"abc", b"x"), None);
}

fn create_test_image() -> Vec<u8> {
    vec![
        0x89, 0x50, 0x4E, 0x47, 0x0D, 0x0A, 0x1A, 0x0A, 0x00, 0x00, 0x00, 0x0D, 0x49, 0x48, 0x44, 0x52, 0x00, 0x00,
        0x00, 0x01, 0x00, 0x00, 0x00, 0x01, 0x08, 0x02, 0x00, 0x00, 0x00, 0x90, 0x77, 0x53, 0xDE, 0x00, 0x00, 0x00,
        0x0C, 0x49, 0x44, 0x41, 0x54, 0x08, 0x99, 0x01, 0x01, 0x00, 0x00, 0x00, 0xFF, 0xFF, 0x00, 0x00, 0x00, 0x02,
        0x00, 0x01, 0x00, 0x00, 0x00, 0x00, 0x49, 0x45, 0x4E, 0x44, 0xAE, 0x42, 0x60, 0x82,
    ]
}

#[test]
fn test_extract_metadata_no_metadata() {
    let png_data = create_test_image();
    let result = extract_metadata(&png_data, "test_image_processor.png");
    match result {
        Ok(metadata) => assert!(metadata.is_none(), "Should return None for image without metadata"),
        Err(_) => println!("Extract metadata failed (acceptable for minimal test PNG)"),
    }
}

#[test]
fn test_parse_vrchat_metadata_invalid_json() {
    let invalid_json = r#"{"invalid":"structure"}"#;
    let result = parse_vrchat_metadata(invalid_json);
    if let Ok(m) = result {
        assert!(m.author.is_none() && m.world.is_none() && m.players.is_empty());
    }
}

#[test]
fn test_parse_vrchat_metadata_valid_structure() {
    let valid_json = r#"{"application":"VRChat","version":"2024.1.1","author":{"displayName":"TestUser","id":"usr_test123"},"world":{"name":"Test World","id":"wrld_test123"}}"#;
    let result = parse_vrchat_metadata(valid_json);
    assert!(result.is_ok(), "Should successfully parse valid VRChat metadata structure");
    if let Ok(metadata) = result {
        if let Some(author) = metadata.author {
            assert_eq!(author.display_name, "TestUser");
            assert_eq!(author.id, "usr_test123");
        }
        if let Some(world) = metadata.world {
            assert_eq!(world.name, "Test World");
            assert_eq!(world.id, "wrld_test123");
        }
        assert!(metadata.players.is_empty() || !metadata.players.is_empty());
    }
}

#[test]
fn compressed_itxt_description_with_zero_byte_in_data() {
    // A long run of one byte deflates to data that holds zero bytes.
    let text = format!("{{\"world\":{{\"name\":\"{}\",\"id\":\"wrld_z\"}}}}", "z".repeat(2000));
    let mut enc = flate2::write::DeflateEncoder::new(Vec::new(), flate2::Compression::default());
    enc.write_all(text.as_bytes()).unwrap();
    let compressed = enc.finish().unwrap();
    assert!(compressed.contains(&0));
    let mut body = b"Description\0\x01\x00en\0Description\0".to_vec();
    body.extend_from_slice(&compressed);
    let data = png_with(&[chunk(b"iTXt", &body)]);
    assert_eq!(get_png_description(&data, "i.png").unwrap().unwrap(), text);
    let m = extract_metadata(&data, "i.png").unwrap().unwrap();
    assert_eq!(m.world.unwrap().id, "wrld_z");
}
