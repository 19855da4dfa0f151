//! Calls into outside crates and into parts of std that vstd does not
//! specify. Verus believes the contracts here; each doc comment says what
//! is claimed of which outside function.
use vstd::prelude::*;

verus! {

/// The error type of the `image` crate.
#[verifier::external_type_specification]
#[verifier::external_body]
pub struct ExImageError(image::ImageError);

/// What `image::load_from_memory` makes of `bytes`, converted to RGBA8:
/// width, height and the pixels row by row, four bytes each; `None` when
/// decoding fails.
pub uninterp spec fn decoded_image(bytes: Seq<u8>) -> Option<(u32, u32, Seq<u8>)>;

/// Decodes an image with `image::load_from_memory` and converts it with
/// `DynamicImage::to_rgba8`. Claimed: success and the pixels are
/// `decoded_image(bytes)`; the pixel buffer holds four bytes per pixel (an
/// `RgbaImage` invariant); and the decoder's default allocation limit of
/// 512 MiB, which `load_from_memory` applies to the decoded buffer of at
/// least one byte per pixel, bounds the pixel count.
#[verifier::external_body]
pub fn decode_image_rgba8(bytes: &[u8]) -> (r: Result<(u32, u32, Vec<u8>), image::ImageError>)
    ensures
        match r {
            Ok((w, h, px)) => {
                &&& decoded_image(bytes@) == Some((w, h, px@))
                &&& px@.len() == 4 * (w * h)
                &&& w * h <= 536870912
            },
            Err(_) => decoded_image(bytes@) == None::<(u32, u32, Seq<u8>)>,
        },
{
    match image::load_from_memory(bytes) {
        Ok(img) => {
            let w = img.width();
            let h = img.height();
            Ok((w, h, img.to_rgba8().into_raw()))
        },
        Err(e) => Err(e),
    }
}


/// The error type of `std::io`.
#[verifier::external_type_specification]
#[verifier::external_body]
pub struct ExIoError(std::io::Error);

/// The gzip stream that a `flate2::write::GzEncoder` with the default header
/// and `Compression::default()` writes for `data`.
pub uninterp spec fn gzip_compressed(data: Seq<u8>) -> Seq<u8>;

/// What `flate2::read::GzDecoder` delivers for `data` when read one byte
/// at a time until it ends or fails: the bytes delivered, and whether it
/// ended without an error (an error comes from a bad header, corrupt or
/// incomplete deflate data, or a bad or missing trailer at the end of the
/// first gzip member).
pub uninterp spec fn gunzip_stream(data: Seq<u8>) -> (Seq<u8>, bool);

/// Compresses `data` into one gzip member with `flate2::write::GzEncoder`
/// over a `Vec<u8>`. Claimed: it succeeds (the encoder only writes into the
/// `Vec`, which cannot fail, and the compressor reports errors only for bad
/// parameters, a bad stream state or a dictionary request, none of which the
/// default settings produce), the output is `gzip_compressed(data)`, and
/// decompressing it gives `data` back without an error (gzip is lossless).
#[verifier::external_body]
pub fn gzip_compress(data: &[u8]) -> (r: Result<Vec<u8>, std::io::Error>)
    ensures
        r is Ok,
        r matches Ok(z) ==> z@ == gzip_compressed(data@) && gunzip_stream(z@) == (data@, true),
{
    let mut encoder = flate2::write::GzEncoder::new(Vec::new(), flate2::Compression::default());
    match std::io::Write::write_all(&mut encoder, data) {
        Ok(()) => encoder.finish(),
        Err(e) => Err(e),
    }
}

/// Decompresses `data` with `flate2::read::GzDecoder`, one byte at a time,
/// until the decoder ends or fails; the bytes it delivered before a failure
/// are kept. Claimed: the bytes and the outcome are `gunzip_stream(data)`,
/// the error being the decoder's own.
#[verifier::external_body]
pub fn gunzip_bytes(data: &[u8]) -> (r: (Vec<u8>, Option<std::io::Error>))
    ensures
        r.0@ == gunzip_stream(data@).0,
        r.1 is None <==> gunzip_stream(data@).1,
{
    let mut out: Vec<u8> = Vec::new();
    for byte in std::io::Read::bytes(flate2::read::GzDecoder::new(data)) {
        match byte {
            Ok(b) => out.push(b),
            Err(e) => return (out, Some(e)),
        }
    }
    (out, None)
}

/// The decimal digit `d` as a character.
pub open spec fn digit_char(d: nat) -> char {
    (48 + d) as char
}

/// The decimal numeral of `n`, without leading zeros.
pub open spec fn decimal(n: nat) -> Seq<char>
    decreases n,
{
    if n < 10 {
        seq![digit_char(n)]
    } else {
        decimal(n / 10).push(digit_char(n % 10))
    }
}

/// `n.to_string()` for a `u32` (std's `Display` for integers): its decimal
/// numeral.
#[verifier::external_body]
pub fn decimal_string(n: u32) -> (s: String)
    ensures
        s@ == decimal(n as nat),
{
    n.to_string()
}


/// Unicode's White_Space property, which `char::is_whitespace` tests: tab,
/// line feed, vertical tab, form feed, carriage return, space, next line,
/// no-break space, ogham space mark, the spaces U+2000 to U+200A, line and
/// paragraph separators, narrow no-break space, medium mathematical space
/// and ideographic space.
pub open spec fn is_white_space(c: char) -> bool {
    let u = c as u32;
    ||| 9 <= u <= 13
    ||| u == 32
    ||| u == 0x85
    ||| u == 0xA0
    ||| u == 0x1680
    ||| 0x2000 <= u <= 0x200A
    ||| u == 0x2028
    ||| u == 0x2029
    ||| u == 0x202F
    ||| u == 0x205F
    ||| u == 0x3000
}

/// `s` without its leading white space.
pub open spec fn trim_start_spec(s: Seq<char>) -> Seq<char>
    decreases s.len(),
{
    if s.len() > 0 && is_white_space(s[0]) {
        trim_start_spec(s.drop_first())
    } else {
        s
    }
}

/// `s` without its trailing white space.
pub open spec fn trim_end_spec(s: Seq<char>) -> Seq<char>
    decreases s.len(),
{
    if s.len() > 0 && is_white_space(s.last()) {
        trim_end_spec(s.drop_last())
    } else {
        s
    }
}

/// `s` without leading and trailing white space.
pub open spec fn trimmed(s: Seq<char>) -> Seq<char> {
    trim_end_spec(trim_start_spec(s))
}

/// `str::trim`: the slice of `s` without leading and trailing characters
/// that have the White_Space property.
#[verifier::external_body]
pub fn trim<'a>(s: &'a str) -> (r: &'a str)
    ensures
        r@ == trimmed(s@),
{
    s.trim()
}

/// The string of the characters `cs`, in order (`String: FromIterator<char>`).
#[verifier::external_body]
pub fn string_from_chars(cs: &[char]) -> (s: String)
    ensures
        s@ == cs@,
{
    cs.iter().collect()
}

} // verus!
