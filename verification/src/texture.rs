//! The texture front end: image-format detection by file suffix, PPM
//! decoding into pixels, and the `Texture` record that the render path hands
//! around.
//!
//! The texture pipeline is still scaffolding: [`Texture::new`] runs the PPM
//! decoder to validate its input, but does not yet carry the decoded pixels
//! into the texture it returns, so a fresh texture always holds zero
//! dimensions and no pixels. [`decode_ppm`] exposes the full decoded image.

use vstd::prelude::*;
use vstd::string::StringSliceAdditionalSpecFns;

use crate::ppm::{
    header_of, lemma_header_end, p3_values, parse_header, parse_p3_values, HeaderModel,
};

verus! {

/// One color sample: red, green, blue, alpha.
#[derive(Clone, Copy, Debug, PartialEq, Eq, Structural)]
pub struct Pixel {
    pub r: u8,
    pub g: u8,
    pub b: u8,
    pub a: u8,
}

/// A texture as the render path sees it: the path it was loaded from, its
/// dimensions, and its pixels.
pub struct Texture {
    pub file_path: String,
    pub width: u32,
    pub height: u32,
    pub pixels: Vec<Pixel>,
}

/// The pixels packed from a flat sample sequence: three samples per pixel,
/// in order red, green, blue, with alpha fixed at 255.
pub open spec fn pixels_of(vals: Seq<u8>) -> Seq<Pixel> {
    Seq::new(
        vals.len() / 3,
        |i: int|
            Pixel { r: vals[3 * i], g: vals[3 * i + 1], b: vals[3 * i + 2], a: 255 },
    )
}

/// Packs a flat slice of samples into pixels, three samples each.
#[verifier::loop_isolation(false)]
pub fn pixels_from_values(vals: &[u8]) -> (r: Vec<Pixel>)
    requires
        vals@.len() % 3 == 0,
    ensures
        r@ == pixels_of(vals@),
{
    let n = vals.len() / 3;
    let mut out: Vec<Pixel> = Vec::new();
    let mut k: usize = 0;
    while k < n
        invariant
            k <= n,
            n == vals@.len() / 3,
            vals@.len() % 3 == 0,
            out@ == pixels_of(vals@).take(k as int),
        decreases n - k,
    {
        proof {
            assert(3 * k + 2 < vals@.len());
        }
        let p = Pixel { r: vals[3 * k], g: vals[3 * k + 1], b: vals[3 * k + 2], a: 255 };
        out.push(p);
        proof {
            assert(out@ =~= pixels_of(vals@).take(k + 1));
        }
        k = k + 1;
    }
    proof {
        assert(pixels_of(vals@).take(n as int) =~= pixels_of(vals@));
    }
    out
}

/// The magic line of the plain-text variant: "P3".
pub open spec fn p3_magic() -> Seq<u8> {
    seq![80u8, 51u8]
}

/// The magic line of the raw variant: "P6".
pub open spec fn p6_magic() -> Seq<u8> {
    seq![80u8, 54u8]
}

/// The flat sample sequence of a PPM stream: the plain-text scan for "P3",
/// the remaining raw bytes for "P6", nothing for any other format line.
pub open spec fn ppm_samples(s: Seq<u8>) -> Option<Seq<u8>> {
    match header_of(s) {
        Some(m) => if m.format == p3_magic() {
            p3_values(s, m.end)
        } else if m.format == p6_magic() {
            Some(s.subrange(m.end, s.len() as int))
        } else {
            None
        },
        None => None,
    }
}

/// A PPM stream decodes when its header scans, its format line is "P3" or
/// "P6", its samples all read, and they fill whole pixels.
pub open spec fn ppm_decodes(s: Seq<u8>) -> bool {
    &&& ppm_samples(s) is Some
    &&& ppm_samples(s).unwrap().len() % 3 == 0
}

/// A decoded PPM image.
pub struct PpmImage {
    pub width: u32,
    pub height: u32,
    pub max_color: u32,
    pub pixels: Vec<Pixel>,
}

/// Decodes a whole PPM byte stream; yields the image exactly when the stream
/// decodes.
pub fn decode_ppm(data: &[u8]) -> (r: Option<PpmImage>)
    ensures
        match r {
            Some(img) => {
                &&& ppm_decodes(data@)
                &&& header_of(data@) matches Some(m)
                &&& img.width == m.width
                &&& img.height == m.height
                &&& img.max_color == m.max_color
                &&& img.pixels@ == pixels_of(ppm_samples(data@).unwrap())
            },
            None => !ppm_decodes(data@),
        },
{
    let h = match parse_header(data) {
        Some(h) => h,
        None => {
            return None;
        },
    };
    proof {
        lemma_header_end(data@);
    }
    let is_p3 = h.format.len() == 2 && h.format[0] == 80 && h.format[1] == 51;
    let is_p6 = h.format.len() == 2 && h.format[0] == 80 && h.format[1] == 54;
    proof {
        assert(is_p3 == (h.format@ == p3_magic())) by {
            if is_p3 {
                assert(h.format@ =~= p3_magic());
            }
        }
        assert(is_p6 == (h.format@ == p6_magic())) by {
            if is_p6 {
                assert(h.format@ =~= p6_magic());
            }
        }
    }
    let vals: Vec<u8> = if is_p3 {
        match parse_p3_values(data, h.body_start) {
            Some(vals) => vals,
            None => {
                return None;
            },
        }
    } else if is_p6 {
        vstd::slice::slice_to_vec(&data[h.body_start..data.len()])
    } else {
        return None;
    };
    if vals.len() % 3 == 0 {
        Some(
            PpmImage {
                width: h.width,
                height: h.height,
                max_color: h.max_color,
                pixels: pixels_from_values(vals.as_slice()),
            },
        )
    } else {
        None
    }
}

/// Validates a PPM stream with the decoder; the decoded pixels themselves
/// are set aside for now, so the result is always empty. Callers that need
/// them use [`decode_ppm`].
pub fn parse_ppm(data: &[u8]) -> (pixels: Vec<Pixel>)
    requires
        ppm_decodes(data@),
    ensures
        pixels@ == Seq::<Pixel>::empty(),
{
    let _img = decode_ppm(data);
    Vec::new()
}

/// `suffix` holds the last bytes of `s`.
pub open spec fn has_suffix(s: Seq<u8>, suffix: Seq<u8>) -> bool {
    &&& suffix.len() <= s.len()
    &&& s.subrange(s.len() - suffix.len(), s.len() as int) == suffix
}

/// The file suffix that marks a PPM image: ".ppm".
pub open spec fn ppm_suffix() -> Seq<u8> {
    seq![46u8, 112u8, 112u8, 109u8]
}

/// The file suffix that marks a BMP image: ".bmp".
pub open spec fn bmp_suffix() -> Seq<u8> {
    seq![46u8, 98u8, 109u8, 112u8]
}

/// Paths that name a PPM file.
pub open spec fn is_ppm_path(path: &str) -> bool {
    has_suffix(path.spec_bytes(), ppm_suffix())
}

/// Paths that name a BMP file.
pub open spec fn is_bmp_path(path: &str) -> bool {
    has_suffix(path.spec_bytes(), bmp_suffix())
}

/// Tests whether `s` ends with the four given bytes.
fn ends_with4(s: &[u8], s0: u8, s1: u8, s2: u8, s3: u8) -> (r: bool)
    ensures
        r == has_suffix(s@, seq![s0, s1, s2, s3]),
{
    let n = s.len();
    let r = n >= 4 && s[n - 4] == s0 && s[n - 3] == s1 && s[n - 2] == s2 && s[n - 1] == s3;
    proof {
        if r {
            assert(s@.subrange(s@.len() - 4, s@.len() as int) =~= seq![s0, s1, s2, s3]);
        }
    }
    r
}

/// Names the image format a path points at, by its file suffix: ".ppm" and
/// ".bmp" are the simple formats this loader knows.
pub fn find_image_format(path: &str) -> (r: Option<&str>)
    ensures
        match r {
            Some(f) => (is_ppm_path(path) && f@ == "ppm"@) || (!is_ppm_path(path)
                && is_bmp_path(path) && f@ == "bmp"@),
            None => !is_ppm_path(path) && !is_bmp_path(path),
        },
{
    let b = path.as_bytes();
    if ends_with4(b, 46, 112, 112, 109) {
        Some("ppm")
    } else if ends_with4(b, 46, 98, 109, 112) {
        Some("bmp")
    } else {
        None
    }
}

impl Texture {
    /// Builds the texture record for an image file: `path` names the file
    /// and `data` holds its bytes. Only the formats that
    /// [`find_image_format`] knows are accepted, and a PPM stream must
    /// decode, as [`parse_ppm`] demands; the pixel payload is not yet wired
    /// through, so the texture comes back with zero dimensions and no
    /// pixels.
    pub fn new(path: &str, data: &[u8]) -> (t: Texture)
        requires
            is_ppm_path(path) || is_bmp_path(path),
            is_ppm_path(path) ==> ppm_decodes(data@),
        ensures
            t.file_path@ == path@,
            t.width == 0,
            t.height == 0,
            t.pixels@ == Seq::<Pixel>::empty(),
    {
        let mut texture = Texture {
            file_path: path.to_owned(),
            width: 0,
            height: 0,
            pixels: Vec::new(),
        };
        match find_image_format(path) {
            Some(_) => {
                if ends_with4(path.as_bytes(), 46, 112, 112, 109) {
                    texture.pixels = parse_ppm(data);
                }
                // a BMP suffix is recognized, but its parser is not written
                // yet, so the texture keeps its empty pixel vector
            },
            None => {
                // ruled out by the precondition: the path carries one of the
                // two known suffixes
            },
        }
        texture
    }
}

} // verus!
