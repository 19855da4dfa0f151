use std::io::Cursor;

use txpaint::font::{BundledFont, FontAtlas, FontError};
use txpaint::io::png_import::{layer_from_image_bytes, layer_from_rgba};
use txpaint::palette::Color;
use txpaint::tile::Tile;

fn png(w: u32, h: u32, px: Vec<u8>) -> Vec<u8> {
    let img = image::RgbaImage::from_raw(w, h, px).unwrap();
    let mut out = Cursor::new(Vec::new());
    image::DynamicImage::ImageRgba8(img).write_to(&mut out, image::ImageFormat::Png).unwrap();
    out.into_inner()
}

fn shade(a: u8) -> u8 {
    let l = layer_from_rgba("p".to_string(), 1, 1, &[10, 20, 30, a], 1, 1);
    l.tiles[0].glyph
}

#[test]
fn alpha_picks_the_shade_glyph() {
    assert_eq!(shade(1), 176);
    assert_eq!(shade(63), 176);
    assert_eq!(shade(64), 177);
    assert_eq!(shade(127), 177);
    assert_eq!(shade(128), 178);
    assert_eq!(shade(191), 178);
    assert_eq!(shade(192), 219);
    assert_eq!(shade(255), 219);
}

#[test]
fn pixels_become_cells() {
    let l = layer_from_rgba("p".to_string(), 2, 1, &[10, 20, 30, 255, 1, 2, 3, 0], 2, 1);
    assert_eq!(l.tiles[0], Tile { glyph: 219, fg: Color([10, 20, 30, 255]), bg: Color([0, 0, 0, 255]) });
    assert_eq!(l.tiles[1], Tile { glyph: 0, fg: Color([0, 0, 0, 255]), bg: Color([255, 0, 255, 255]) });
    assert!(l.full_upload);
    assert!(l.visible);
    assert_eq!(l.name, "p");
}

#[test]
fn pictures_are_clipped_and_padded() {
    // A 3 x 1 picture on a 2 x 2 canvas: the third pixel is cut, the second row is blank.
    let px = vec![1, 1, 1, 255, 2, 2, 2, 255, 3, 3, 3, 255];
    let l = layer_from_rgba("p".to_string(), 3, 1, &px, 2, 2);
    assert_eq!(l.tiles.len(), 4);
    assert_eq!(l.tiles[1].fg, Color([2, 2, 2, 255]));
    assert_eq!(l.tiles[2], Tile::default());
    assert_eq!(l.tiles[3], Tile::default());
}

#[test]
fn png_bytes_decode_into_a_layer() {
    let bytes = png(2, 1, vec![200, 100, 50, 100, 0, 0, 0, 0]);
    let l = layer_from_image_bytes("imported".to_string(), &bytes, 4, 2).ok().unwrap();
    assert_eq!(l.tiles.len(), 8);
    assert_eq!(l.tiles[0], Tile { glyph: 177, fg: Color([200, 100, 50, 255]), bg: Color([0, 0, 0, 255]) });
    assert_eq!(l.tiles[1].bg, Color([255, 0, 255, 255]));
    assert_eq!(l.tiles[2], Tile::default());
}

#[test]
fn undecodable_bytes_are_an_error() {
    assert!(layer_from_image_bytes("x".to_string(), &[1, 2, 3], 2, 2).is_err());
}

#[test]
fn font_from_png_uses_alpha_or_luminance() {
    let mut px = vec![0u8; 16 * 16 * 4];
    // Pixel 0: opaque grey 200 -> luminance 200; pixel 1: translucent -> its alpha.
    px[0..4].copy_from_slice(&[200, 200, 200, 255]);
    px[4..8].copy_from_slice(&[255, 255, 255, 7]);
    let bytes = png(16, 16, px);
    let f = FontAtlas::from_png_bytes("f".to_string(), &bytes).ok().unwrap();
    assert_eq!(f.cell_w, 1);
    assert_eq!(f.cell_h, 1);
    assert_eq!(f.atlas_w(), 16);
    assert_eq!(f.mask.len(), 256);
    assert_eq!(f.mask[0], 200);
    assert_eq!(f.mask[1], 7);
    assert_eq!(f.mask[2], 0);
}

#[test]
fn font_size_must_divide_by_sixteen() {
    let bytes = png(17, 16, vec![0; 17 * 16 * 4]);
    assert!(matches!(
        FontAtlas::from_png_bytes("f".to_string(), &bytes),
        Err(FontError::NotDivisible { width: 17, height: 16 })
    ));
    assert!(matches!(
        FontAtlas::from_png_bytes("f".to_string(), &[0, 1]),
        Err(FontError::Decode(_))
    ));
}

#[test]
fn bundled_font_index_out_of_range() {
    let fonts: [BundledFont; 0] = [];
    assert!(matches!(
        FontAtlas::from_bundled(&fonts, 3),
        Err(FontError::NoSuchBundledFont { index: 3 })
    ));
}
