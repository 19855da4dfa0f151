use txpaint::document::Document;
use txpaint::font::FontAtlas;
use txpaint::io::xp::{check_writable, decode_file, encode_file, read, XpError};
use txpaint::palette::Color;
use txpaint::tile::Tile;

fn font() -> FontAtlas {
    FontAtlas { name: "test".to_string(), cell_w: 1, cell_h: 1, mask: vec![0; 256] }
}

fn le(v: i32) -> [u8; 4] {
    v.to_le_bytes()
}

fn body(num_layers: i32, dims: &[(i32, i32)], cells: &[u8]) -> Vec<u8> {
    let mut b = Vec::new();
    b.extend_from_slice(&le(-1));
    b.extend_from_slice(&le(num_layers));
    for &(w, h) in dims {
        b.extend_from_slice(&le(w));
        b.extend_from_slice(&le(h));
    }
    b.extend_from_slice(cells);
    b
}

#[test]
fn write_then_read_gives_back_the_tiles() {
    let mut doc = Document::new_with_size(3, 2, font());
    let t = Tile { glyph: 65, fg: Color([1, 2, 3, 255]), bg: Color([4, 5, 6, 255]) };
    doc.layers[0].tiles[1 * 3 + 2] = t;
    let bytes = txpaint::io::xp::write(&doc);
    assert_eq!(bytes.len(), 8 + 8 + 10 * 6);
    let back = read(&bytes, font()).ok().unwrap();
    assert_eq!(back.width, 3);
    assert_eq!(back.height, 2);
    assert_eq!(back.layers.len(), 1);
    assert_eq!(back.layers[0].name, "Layer 1");
    assert_eq!(back.layers[0].tiles[5], t);
    assert_eq!(back.layers[0].tiles, doc.layers[0].tiles);
    assert_eq!(back.resources_generation, 2);
}

#[test]
fn read_rejects_bad_layer_counts() {
    let b = body(0, &[], &[]);
    assert!(matches!(read(&b, font()), Err(XpError::BadLayerCount { count: 0 })));
    let b = body(65, &[], &[]);
    assert!(matches!(read(&b, font()), Err(XpError::BadLayerCount { count: 65 })));
}

#[test]
fn file_roundtrip_through_gzip() {
    let doc = Document::new_with_size(4, 3, font());
    let z = encode_file(&doc).ok().unwrap();
    assert_eq!(&z[0..2], &[0x1f, 0x8b]);
    let back = decode_file(&z, font()).ok().unwrap();
    assert_eq!(back.width, 4);
    assert_eq!(back.height, 3);
}

#[test]
fn write_bakes_offsets_and_drops_alpha() {
    let mut doc = Document::new_with_size(3, 1, font());
    let t = Tile { glyph: 7, fg: Color([10, 20, 30, 40]), bg: Color([50, 60, 70, 80]) };
    doc.layers[0].tiles[0] = t;
    doc.layers[0].offset = (1, 0);
    let bytes = txpaint::io::xp::write(&doc);
    let back = read(&bytes, font()).ok().unwrap();
    let stored = Tile { glyph: 7, fg: Color([10, 20, 30, 255]), bg: Color([50, 60, 70, 255]) };
    // Buffer cell 0 shows at canvas cell 1; canvas cell 0 shows nothing.
    assert_eq!(back.layers[0].tiles[1], stored);
    assert_eq!(back.layers[0].tiles[0], Tile::default());
    assert_eq!(back.layers[0].offset, (0, 0));
    // The document itself keeps its offset.
    assert_eq!(doc.layers[0].offset, (1, 0));
}

#[test]
fn write_is_column_major_with_glyph_words() {
    let mut doc = Document::new_with_size(2, 2, font());
    doc.layers[0].tiles[1] = Tile { glyph: 200, fg: Color([1, 1, 1, 255]), bg: Color([2, 2, 2, 255]) };
    let bytes = txpaint::io::xp::write(&doc);
    assert_eq!(&bytes[0..8], &[255, 255, 255, 255, 1, 0, 0, 0]);
    assert_eq!(&bytes[8..16], &[2, 0, 0, 0, 2, 0, 0, 0]);
    // Cell (x = 1, y = 0) is the third cell in column-major order.
    let q = 16 + 10 * 2;
    assert_eq!(&bytes[q..q + 10], &[200, 0, 0, 0, 1, 1, 1, 2, 2, 2]);
}

#[test]
fn read_reports_truncation() {
    assert!(matches!(read(&[0, 0, 0], font()), Err(XpError::Truncated)));
    let b = body(1, &[], &[]);
    assert!(matches!(read(&b, font()), Err(XpError::Truncated)));
    let b = body(1, &[(2, 2)], &[0; 39]);
    assert!(matches!(read(&b, font()), Err(XpError::Truncated)));
}

#[test]
fn read_rejects_bad_dimensions() {
    let b = body(1, &[(0, 5)], &[]);
    assert!(matches!(read(&b, font()), Err(XpError::BadDimensions { width: 0, height: 5 })));
    let b = body(1, &[(3, -2)], &[]);
    assert!(matches!(read(&b, font()), Err(XpError::BadDimensions { width: 3, height: -2 })));
}

#[test]
fn read_rejects_inconsistent_layers() {
    let mut b = body(2, &[(1, 1)], &[9, 0, 0, 0, 1, 2, 3, 4, 5, 6]);
    b.extend_from_slice(&le(2));
    b.extend_from_slice(&le(1));
    match read(&b, font()) {
        Err(XpError::InconsistentSize { layer, width, height, expected_width, expected_height }) => {
            assert_eq!((layer, width, height, expected_width, expected_height), (1, 2, 1, 1, 1));
        }
        _ => panic!("expected an inconsistent size"),
    }
}

#[test]
fn read_names_layers_and_ignores_version_and_trailing_bytes() {
    let cell = [65, 0, 0, 0, 1, 2, 3, 4, 5, 6];
    let mut b = Vec::new();
    b.extend_from_slice(&le(7));
    b.extend_from_slice(&le(2));
    for _ in 0..2 {
        b.extend_from_slice(&le(1));
        b.extend_from_slice(&le(1));
        b.extend_from_slice(&cell);
    }
    b.extend_from_slice(&[1, 2, 3]);
    let d = read(&b, font()).ok().unwrap();
    assert_eq!(d.layers.len(), 2);
    assert_eq!(d.layers[0].name, "Layer 1");
    assert_eq!(d.layers[1].name, "Layer 2");
    assert_eq!(d.active_layer, 0);
    assert!(d.layers[1].full_upload);
    assert_eq!(
        d.layers[1].tiles[0],
        Tile { glyph: 65, fg: Color([1, 2, 3, 255]), bg: Color([4, 5, 6, 255]) }
    );
}

#[test]
fn glyph_keeps_only_the_low_byte() {
    let b = body(1, &[(1, 1)], &[0x41, 0x01, 0, 0, 0, 0, 0, 0, 0, 0]);
    let d = read(&b, font()).ok().unwrap();
    assert_eq!(d.layers[0].tiles[0].glyph, 0x41);
}

#[test]
fn decode_file_rejects_non_gzip() {
    assert!(matches!(decode_file(&[1, 2, 3, 4], font()), Err(XpError::Gzip(_))));
}

#[test]
fn decode_file_rejects_oversized_layers() {
    let doc = Document::new_with_size(1, 1, font());
    let z = encode_file(&doc).ok().unwrap();
    assert!(decode_file(&z, font()).is_ok());
    // A body announcing a 70000 x 70000 layer, gzipped by hand.
    let b = body(1, &[(70000, 70000)], &[]);
    let mut e = flate2::write::GzEncoder::new(Vec::new(), flate2::Compression::default());
    std::io::Write::write_all(&mut e, &b).unwrap();
    let z = e.finish().unwrap();
    assert!(matches!(
        decode_file(&z, font()),
        Err(XpError::Oversized { width: 70000, height: 70000 })
    ));
}

#[test]
fn roundtrip_law_on_a_two_layer_document() {
    let mut doc = Document::new_with_size(2, 3, font());
    let top = txpaint::layer::Layer::new("top".to_string(), 2, 3);
    doc.layers.push(top);
    doc.layers[1].tiles[4] = Tile { glyph: 1, fg: Color([9, 9, 9, 255]), bg: Color([0, 0, 0, 255]) };
    let back = read(&txpaint::io::xp::write(&doc), font()).ok().unwrap();
    assert_eq!(back.layers.len(), 2);
    assert_eq!(back.layers[0].tiles, doc.layers[0].tiles);
    assert_eq!(back.layers[1].tiles, doc.layers[1].tiles);
}

#[test]
fn writability_depends_on_layer_offsets() {
    let mut doc = Document::new_with_size(80, 25, font());
    assert!(check_writable(&doc));
    assert!(encode_file(&doc).is_ok());
    doc.layers[0].offset = (i32::MIN, 0);
    assert!(!check_writable(&doc));
    doc.layers[0].offset = (0, i32::MIN);
    assert!(!check_writable(&doc));
    doc.layers[0].offset = (-1000, 5);
    assert!(check_writable(&doc));
}

#[test]
fn a_damaged_trailer_after_a_complete_body_still_opens() {
    let mut doc = Document::new_with_size(5, 4, font());
    let t = Tile { glyph: 7, fg: Color([9, 8, 7, 255]), bg: Color([1, 2, 3, 255]) };
    doc.layers[0].tiles[6] = t;
    let z = encode_file(&doc).ok().unwrap();
    // A wrong checksum in the trailer.
    let mut bad_crc = z.clone();
    let k = bad_crc.len() - 8;
    bad_crc[k] ^= 0xff;
    let back = decode_file(&bad_crc, font()).ok().unwrap();
    assert_eq!(back.layers[0].tiles[6], t);
    // The trailer cut off.
    let cut = &z[..z.len() - 8];
    let back = decode_file(cut, font()).ok().unwrap();
    assert_eq!(back.layers[0].tiles, doc.layers[0].tiles);
}

#[test]
fn a_stream_that_fails_inside_the_body_is_a_gzip_error() {
    let doc = Document::new_with_size(40, 30, font());
    let z = encode_file(&doc).ok().unwrap();
    let cut = &z[..12];
    assert!(matches!(decode_file(cut, font()), Err(XpError::Gzip(_))));
}

#[test]
fn a_clean_but_short_body_is_truncated() {
    let b = body(1, &[(2, 2)], &[0; 10]);
    let mut e = flate2::write::GzEncoder::new(Vec::new(), flate2::Compression::default());
    std::io::Write::write_all(&mut e, &b).unwrap();
    let z = e.finish().unwrap();
    assert!(matches!(decode_file(&z, font()), Err(XpError::Truncated)));
}
