use vstd::prelude::*;

use crate::trusted::{decode_image_rgba8, decoded_image};

verus! {

/// A font image shipped with the program.
pub struct BundledFont {
    pub name: &'static str,
    pub bytes: &'static [u8],
}

/// A CP437 font laid out as a 16 x 16 grid of glyphs.
///
/// `mask` holds one coverage byte (0..=255) per pixel of the whole atlas,
/// row by row; the atlas is `cell_w * 16` x `cell_h * 16` pixels.
pub struct FontAtlas {
    pub name: String,
    pub cell_w: u32,
    pub cell_h: u32,
    pub mask: Vec<u8>,
}

/// Why a font could not be made.
#[derive(Debug)]
pub enum FontError {
    /// The image did not decode.
    Decode(image::ImageError),
    /// The image is not a 16 x 16 grid of equal cells.
    NotDivisible { width: u32, height: u32 },
    /// No bundled font has this index.
    NoSuchBundledFont { index: usize },
}

/// Coverage of one RGBA pixel: its alpha when the pixel is translucent,
/// otherwise its luminance `(30 r + 59 g + 11 b) / 100`.
pub open spec fn coverage(r: u8, g: u8, b: u8, a: u8) -> u8 {
    if a < 255 {
        a
    } else {
        let lum = (r * 30 + g * 59 + b * 11) / 100;
        if lum <= 255 {
            lum as u8
        } else {
            255
        }
    }
}

/// The coverage of every pixel of an RGBA8 buffer.
pub open spec fn coverage_mask(px: Seq<u8>) -> Seq<u8> {
    Seq::new(
        px.len() / 4,
        |i: int| coverage(px[4 * i], px[4 * i + 1], px[4 * i + 2], px[4 * i + 3]),
    )
}

/// What [`FontAtlas::from_rgba`] makes of a `w` x `h` RGBA8 image.
pub open spec fn atlas_from_rgba_ok(r: Result<FontAtlas, FontError>, name: Seq<char>, w: u32, h: u32, px: Seq<u8>) -> bool {
    if w % 16 != 0 || h % 16 != 0 {
        r matches Err(FontError::NotDivisible { width, height }) && width == w && height == h
    } else {
        r matches Ok(a) && a.name@ == name && a.cell_w == w / 16 && a.cell_h == h / 16 && a.mask@
            == coverage_mask(px)
    }
}

impl FontAtlas {
    /// Atlas width in pixels.
    pub fn atlas_w(&self) -> (w: u32)
        requires
            self.cell_w * 16 <= u32::MAX,
        ensures
            w == self.cell_w * 16,
    {
        self.cell_w * 16
    }

    /// Atlas height in pixels.
    pub fn atlas_h(&self) -> (h: u32)
        requires
            self.cell_h * 16 <= u32::MAX,
        ensures
            h == self.cell_h * 16,
    {
        self.cell_h * 16
    }

    /// A font from a `w` x `h` RGBA8 image, which must be a 16 x 16 grid of
    /// glyph cells. Translucent pixels give their alpha as coverage, opaque
    /// ones their luminance.
    pub fn from_rgba(name: String, w: u32, h: u32, px: &[u8]) -> (r: Result<FontAtlas, FontError>)
        requires
            px@.len() == 4 * (w * h),
        ensures
            atlas_from_rgba_ok(r, name@, w, h, px@),
    {
        if w % 16 != 0 || h % 16 != 0 {
            return Err(FontError::NotDivisible { width: w, height: h });
        }
        let len = px.len();
        let n = len / 4;
        assert(px@.len() == 4 * (w * h));
        assert(px@.len() == 4 * n);
        let mut mask: Vec<u8> = Vec::new();
        let mut i: usize = 0;
        while i < n
            invariant
                i <= n,
                n == px@.len() / 4,
                px@.len() == 4 * n,
                4 * n <= usize::MAX,
                mask@ =~= coverage_mask(px@).subrange(0, i as int),
            decreases n - i,
        {
            let r = px[4 * i];
            let g = px[4 * i + 1];
            let b = px[4 * i + 2];
            let a = px[4 * i + 3];
            let m = if a < 255 {
                a
            } else {
                let lum = ((r as u32) * 30 + (g as u32) * 59 + (b as u32) * 11) / 100;
                if lum <= 255 {
                    lum as u8
                } else {
                    255u8
                }
            };
            mask.push(m);
            i = i + 1;
            assert(mask@ =~= coverage_mask(px@).subrange(0, i as int));
        }
        assert(mask@ =~= coverage_mask(px@));
        Ok(FontAtlas { name, cell_w: w / 16, cell_h: h / 16, mask })
    }

    /// A font from PNG bytes: the image is decoded with the `image` crate and
    /// then read as in [`FontAtlas::from_rgba`].
    pub fn from_png_bytes(name: String, bytes: &[u8]) -> (r: Result<FontAtlas, FontError>)
        ensures
            match decoded_image(bytes@) {
                None => r matches Err(FontError::Decode(_)),
                Some((w, h, px)) => atlas_from_rgba_ok(r, name@, w, h, px),
            },
    {
        match decode_image_rgba8(bytes) {
            Ok((w, h, px)) => Self::from_rgba(name, w, h, px.as_slice()),
            Err(e) => Err(FontError::Decode(e)),
        }
    }

    /// The bundled font at `index` of `fonts`.
    pub fn from_bundled(fonts: &[BundledFont], index: usize) -> (r: Result<FontAtlas, FontError>)
        ensures
            index >= fonts@.len() ==> (r matches Err(FontError::NoSuchBundledFont { index: i }) && i
                == index),
            index < fonts@.len() ==> match decoded_image(fonts@[index as int].bytes@) {
                None => r matches Err(FontError::Decode(_)),
                Some((w, h, px)) => atlas_from_rgba_ok(r, fonts@[index as int].name@, w, h, px),
            },
    {
        if index >= fonts.len() {
            return Err(FontError::NoSuchBundledFont { index });
        }
        let bf = &fonts[index];
        Self::from_png_bytes(bf.name.to_owned(), bf.bytes)
    }
}

} // verus!
