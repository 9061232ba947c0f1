//! Image optimisation: decode, shrink to a maximum width keeping the aspect
//! ratio, and re-encode, all through the `image` crate; plus the naming rules
//! of the optimiser's output files.

use image::{DynamicImage, ImageError};
use vstd::prelude::*;
use vstd::string::StringExecFns;
use crate::fspath::{extension_of, file_stem_of, path_extension, path_file_stem, path_with_file_name, with_file_name};
use crate::text::{chars_of, find, find_chars, lemma_find, matches_at};

verus! {

#[verifier::external_type_specification]
#[verifier::external_body]
pub struct ExDynamicImage(DynamicImage);

#[verifier::external_type_specification]
#[verifier::external_body]
pub struct ExImageError(ImageError);

/// The encodings that `optimize` can produce.
#[derive(Debug, Clone, Copy, PartialEq, Eq, Structural)]
pub enum OutFormat {
    Jpeg,
    Png,
    WebP,
}

/// The file extension written for each output format.
pub open spec fn format_ext(f: OutFormat) -> Seq<char> {
    match f {
        OutFormat::Jpeg => "jpg"@,
        OutFormat::Png => "png"@,
        OutFormat::WebP => "webp"@,
    }
}

impl OutFormat {
    /// File extension (without the dot) for this format.
    pub fn ext(self) -> (r: &'static str)
        ensures
            r@ == format_ext(self),
    {
        match self {
            OutFormat::Jpeg => "jpg",
            OutFormat::Png => "png",
            OutFormat::WebP => "webp",
        }
    }
}

/// What to produce.
#[derive(Debug, Clone)]
pub struct OptimizeOptions {
    /// Images wider than this are shrunk to it, keeping the aspect ratio.
    pub max_width: Option<u32>,
    /// JPEG quality, 1 to 100 (other formats ignore it).
    pub quality: u8,
    pub format: OutFormat,
}

/// The encoded image and its dimensions.
#[derive(Debug)]
pub struct OptimizeResult {
    pub bytes: Vec<u8>,
    pub width: u32,
    pub height: u32,
}

/// Why `optimize` failed, with the image library's message.
#[derive(Debug)]
pub enum OptimizeError {
    /// The input is not an image in a supported format.
    Decode(String),
    /// Encoding to the given format failed.
    Encode(OutFormat, String),
}

/// Resampling filters for resizing.
#[derive(Debug, Clone, Copy, PartialEq, Eq, Structural)]
pub enum ResizeFilter {
    Nearest,
    Triangle,
    CatmullRom,
    Gaussian,
    Lanczos3,
}

/// An image's content as plain values: width, height, colour type (the index
/// of the `ColorType` variant) and the raw sample bytes.
pub type ImageContent = (u32, u32, u8, Seq<u8>);

/// What `image::load_from_memory` decodes from the bytes, as content, or
/// `None` when it cannot decode them.
pub uninterp spec fn decoded_image(bytes: Seq<u8>) -> Option<ImageContent>;

/// What a `DynamicImage` (a buffer of samples) holds: `width()`, `height()`,
/// `color()` as the index of its `ColorType` variant, and `as_bytes()`.
pub uninterp spec fn image_content(img: DynamicImage) -> ImageContent;

/// The content that `DynamicImage::resize` gives for an image of the given
/// content, the requested bounds and the filter.
pub uninterp spec fn resized_image(img: ImageContent, nwidth: u32, nheight: u32, filter: ResizeFilter) -> ImageContent;

/// The bytes that `JpegEncoder::new_with_quality` and `encode_image` produce
/// for an image of the given content, as 8-bit RGB, at the given quality
/// (1 to 100); `None` when encoding fails.
pub uninterp spec fn jpeg_encoding(img: ImageContent, quality: u8) -> Option<Seq<u8>>;

/// The bytes that `DynamicImage::write_to` produces for an image of the given
/// content in the given format; `None` when encoding fails.
pub uninterp spec fn image_encoding(img: ImageContent, format: OutFormat) -> Option<Seq<u8>>;

/// `image::load_from_memory`: decodes an image, guessing its format. The
/// contract claims that success and the decoded content depend on the bytes
/// alone.
#[verifier::external_body]
fn decode_image(input: &[u8]) -> (r: Result<DynamicImage, ImageError>)
    ensures
        r is Ok <==> decoded_image(input@) is Some,
        r matches Ok(img) ==> decoded_image(input@) == Some(image_content(img)),
{
    image::load_from_memory(input)
}

/// `DynamicImage::width`.
#[verifier::external_body]
fn width_of(img: &DynamicImage) -> (r: u32)
    ensures
        r == image_content(*img).0,
{
    img.width()
}

/// `DynamicImage::height`.
#[verifier::external_body]
fn height_of(img: &DynamicImage) -> (r: u32)
    ensures
        r == image_content(*img).1,
{
    img.height()
}

/// `DynamicImage::resize`: a new image of the same colour type, scaled keeping
/// the aspect ratio (`resize_dimensions`, which makes each side at least 1),
/// or a copy when the bounds are the image's own size.
#[verifier::external_body]
fn resize_image(img: &DynamicImage, width: u32, height: u32, filter: ResizeFilter) -> (r: DynamicImage)
    ensures
        image_content(r) == resized_image(
            image_content(*img),
            width,
            height,
            filter,
        ),
        image_content(r).2 == image_content(*img).2,
        (width, height) == (image_content(*img).0, image_content(*img).1) ==> image_content(r).3 == image_content(*img).3
            && image_content(r).0 == width && image_content(r).1 == height,
        (width, height) != (image_content(*img).0, image_content(*img).1) ==> image_content(r).0 >= 1 && image_content(r).1 >= 1,
{
    let filter = match filter {
        ResizeFilter::Nearest => image::imageops::FilterType::Nearest,
        ResizeFilter::Triangle => image::imageops::FilterType::Triangle,
        ResizeFilter::CatmullRom => image::imageops::FilterType::CatmullRom,
        ResizeFilter::Gaussian => image::imageops::FilterType::Gaussian,
        ResizeFilter::Lanczos3 => image::imageops::FilterType::Lanczos3,
    };
    img.resize(width, height, filter)
}

/// The quality the JPEG encoder uses: clamped to 1..=100.
pub open spec fn clamp_quality(q: u8) -> u8 {
    if q < 1 {
        1
    } else if q > 100 {
        100
    } else {
        q
    }
}

/// `JpegEncoder::encode_image` with `JpegEncoder::new_with_quality`, on the
/// image as 8-bit RGB (JPEG has no alpha). The encoder clamps the quality to
/// 1..=100; the result is `jpeg_encoding` of the content and that quality.
#[verifier::external_body]
fn encode_jpeg(img: &DynamicImage, quality: u8) -> (r: Result<Vec<u8>, ImageError>)
    ensures
        r is Ok <==> jpeg_encoding(image_content(*img), clamp_quality(quality)) is Some,
        r matches Ok(b) ==> Some(b@) == jpeg_encoding(image_content(*img), clamp_quality(quality)),
{
    let mut bytes: Vec<u8> = Vec::new();
    image::codecs::jpeg::JpegEncoder::new_with_quality(&mut bytes, quality).encode_image(&img.to_rgb8())?;
    Ok(bytes)
}

/// `DynamicImage::write_to` an in-memory buffer in the given format; the
/// result is `image_encoding` of the content and the format.
#[verifier::external_body]
fn write_image(img: &DynamicImage, format: OutFormat) -> (r: Result<Vec<u8>, ImageError>)
    ensures
        r is Ok <==> image_encoding(image_content(*img), format) is Some,
        r matches Ok(b) ==> Some(b@) == image_encoding(image_content(*img), format),
{
    let format = match format {
        OutFormat::Jpeg => image::ImageFormat::Jpeg,
        OutFormat::Png => image::ImageFormat::Png,
        OutFormat::WebP => image::ImageFormat::WebP,
    };
    let mut bytes: Vec<u8> = Vec::new();
    img.write_to(&mut std::io::Cursor::new(&mut bytes), format)?;
    Ok(bytes)
}

/// The message of an image error (`Display`). Nothing is claimed of it.
#[verifier::external_body]
fn error_message(e: &ImageError) -> (r: String) {
    e.to_string()
}

/// The size an image is shrunk to: when it is wider than `max_width`, that
/// width and the height scaled by the same ratio (rounded down, at least 1);
/// otherwise `None`, and it is kept as it is.
pub open spec fn target_size_spec(width: u32, height: u32, max_width: Option<u32>) -> Option<(u32, u32)> {
    match max_width {
        Some(w) => if width > w {
            let h = (height as int) * (w as int) / (width as int);
            Some((w, if h < 1 { 1u32 } else { h as u32 }))
        } else {
            None
        },
        None => None,
    }
}

/// The size to shrink to (see `target_size_spec`).
pub fn target_size(width: u32, height: u32, max_width: Option<u32>) -> (r: Option<(u32, u32)>)
    ensures
        r == target_size_spec(width, height, max_width),
{
    match max_width {
        Some(w) => {
            if width > w {
                assert((height as u64) * (w as u64) <= u64::MAX) by (nonlinear_arith)
                    requires
                        height <= u32::MAX,
                        w <= u32::MAX,
                ;
                let prod: u64 = (height as u64) * (w as u64);
                let h64: u64 = prod / (width as u64);
                assert(h64 <= height) by (nonlinear_arith)
                    requires
                        h64 == prod / (width as u64),
                        prod == (height as u64) * (w as u64),
                        w < width,
                {
                    assert(prod <= (height as u64) * (width as u64));
                }
                let h = h64 as u32;
                Some((w, if h < 1 { 1 } else { h }))
            } else {
                None
            }
        },
        None => None,
    }
}

/// Shrinking only ever narrows an image to exactly the maximum width, and
/// never makes it taller; the height stays at least 1.
pub proof fn lemma_target_size_shrinks(width: u32, height: u32, max_width: Option<u32>)
    ensures
        target_size_spec(width, height, max_width) matches Some((w, h)) ==> {
            &&& max_width == Some(w)
            &&& w < width
            &&& 1 <= h
            &&& (height >= 1 ==> h <= height)
        },
{
    if let Some(w) = max_width {
        if width > w {
            let h = (height as int) * (w as int) / (width as int);
            assert(h <= height) by (nonlinear_arith)
                requires
                    h == (height as int) * (w as int) / (width as int),
                    w < width,
                    0 <= height,
                    0 <= w,
            {
                assert((height as int) * (w as int) <= (height as int) * (width as int));
            }
        }
    }
}

/// The target size, exactly: an image is shrunk only when a maximum width is
/// given and the image is wider; it then gets that width, and the height
/// scaled by the same ratio and rounded down, but at least 1. (A height
/// `th` above 1 satisfies `th * width <= height * w < (th + 1) * width`.)
pub proof fn lemma_target_size_exact(width: u32, height: u32, max_width: Option<u32>)
    ensures
        target_size_spec(width, height, max_width) is Some <==> (max_width matches Some(w) && width > w),
        target_size_spec(width, height, max_width) matches Some((tw, th)) ==> {
            &&& max_width == Some(tw)
            &&& th >= 1
            &&& (th == 1 || (th as int) * (width as int) <= (height as int) * (tw as int))
            &&& (height as int) * (tw as int) < (th as int + 1) * (width as int)
        },
{
    if let Some(w) = max_width {
        if width > w {
            let prod = (height as int) * (w as int);
            let h = prod / (width as int);
            assert(h * (width as int) <= prod && prod < (h + 1) * (width as int)) by (nonlinear_arith)
                requires
                    h == prod / (width as int),
                    width > 0,
                    prod >= 0,
            {
                assert(prod == (width as int) * (prod / (width as int)) + prod % (width as int));
                assert(0 <= prod % (width as int) < width);
            }
            assert(h <= height) by (nonlinear_arith)
                requires
                    h * (width as int) <= prod,
                    prod == (height as int) * (w as int),
                    w < width,
            {
                if h > height {
                    assert(h * (width as int) > (height as int) * (width as int));
                    assert((height as int) * (width as int) >= (height as int) * (w as int));
                }
            }
            if h >= 1 {
                assert((h as u32) as int == h);
            }
            if h < 1 {
                assert(prod < 2 * (width as int)) by (nonlinear_arith)
                    requires
                        prod < (h + 1) * (width as int),
                        h < 1,
                        width > 0,
                ;
            }
        }
    }
}

/// The file extension of each output format.
pub proof fn lemma_format_ext()
    ensures
        format_ext(OutFormat::Jpeg) == seq!['j', 'p', 'g'],
        format_ext(OutFormat::Png) == seq!['p', 'n', 'g'],
        format_ext(OutFormat::WebP) == seq!['w', 'e', 'b', 'p'],
{
    reveal_strlit("jpg");
    reveal_strlit("png");
    reveal_strlit("webp");
    assert(format_ext(OutFormat::Jpeg) =~= seq!['j', 'p', 'g']);
    assert(format_ext(OutFormat::Png) =~= seq!['p', 'n', 'g']);
    assert(format_ext(OutFormat::WebP) =~= seq!['w', 'e', 'b', 'p']);
}

/// The content after shrinking: resized to the target size with Lanczos3
/// when the image is wider than `max_width`, else unchanged.
pub open spec fn shrunk(c: ImageContent, max_width: Option<u32>) -> ImageContent {
    match target_size_spec(c.0, c.1, max_width) {
        Some((tw, th)) => resized_image(c, tw, th, ResizeFilter::Lanczos3),
        None => c,
    }
}

/// The encoding of some content: JPEG at the (clamped) quality, PNG or WebP.
pub open spec fn encoded(c: ImageContent, format: OutFormat, quality: u8) -> Option<Seq<u8>> {
    match format {
        OutFormat::Jpeg => jpeg_encoding(c, clamp_quality(quality)),
        _ => image_encoding(c, format),
    }
}

/// What `optimize` gives: `None` when the input does not decode; else the
/// encoding of the shrunk content (or `None` when encoding fails) and the
/// shrunk size.
pub open spec fn optimize_spec(input: Seq<u8>, opts: OptimizeOptions) -> Option<(Option<Seq<u8>>, u32, u32)> {
    match decoded_image(input) {
        None => None,
        Some(c) => {
            let s = shrunk(c, opts.max_width);
            Some((encoded(s, opts.format, opts.quality), s.0, s.1))
        },
    }
}

/// Decodes `input`, shrinks it when it is wider than `max_width` (Lanczos3
/// filter) and encodes it: JPEG as 8-bit RGB with the given quality, PNG and
/// (lossless) WebP as they are.
pub fn optimize(input: &[u8], opts: &OptimizeOptions) -> (r: Result<OptimizeResult, OptimizeError>)
    ensures
        match optimize_spec(input@, *opts) {
            None => r matches Err(OptimizeError::Decode(_)),
            Some((None, _, _)) => r matches Err(OptimizeError::Encode(f, _)) && f == opts.format,
            Some((Some(b), w, h)) => r matches Ok(res) && res.bytes@ == b && res.width == w && res.height == h,
        },
        decoded_image(input@) is Some && target_size_spec(decoded_image(input@).unwrap().0, decoded_image(input@).unwrap().1, opts.max_width) is Some
            ==> (r matches Ok(res) ==> res.width >= 1 && res.height >= 1),
{
    let img = match decode_image(input) {
        Ok(img) => img,
        Err(e) => return Err(OptimizeError::Decode(error_message(&e))),
    };
    let w0 = width_of(&img);
    let h0 = height_of(&img);
    let img = match target_size(w0, h0, opts.max_width) {
        Some((tw, th)) => {
            proof {
                lemma_target_size_shrinks(w0, h0, opts.max_width);
            }
            resize_image(&img, tw, th, ResizeFilter::Lanczos3)
        },
        None => img,
    };
    let width = width_of(&img);
    let height = height_of(&img);
    let encoded = match opts.format {
        OutFormat::Jpeg => encode_jpeg(&img, opts.quality),
        OutFormat::Png => write_image(&img, OutFormat::Png),
        OutFormat::WebP => write_image(&img, OutFormat::WebP),
    };
    match encoded {
        Ok(bytes) => Ok(OptimizeResult { bytes, width, height }),
        Err(e) => Err(OptimizeError::Encode(opts.format, error_message(&e))),
    }
}

/// Each output format is encoded in that same format: JPEG by the JPEG
/// encoder at the requested quality clamped to 1..=100, PNG and WebP by the
/// image library's writer for PNG and for WebP.
pub proof fn lemma_encoded_formats(c: ImageContent, quality: u8)
    ensures
        encoded(c, OutFormat::Jpeg, quality) == jpeg_encoding(c, clamp_quality(quality)),
        encoded(c, OutFormat::Png, quality) == image_encoding(c, OutFormat::Png),
        encoded(c, OutFormat::WebP, quality) == image_encoding(c, OutFormat::WebP),
        forall|q2: u8| encoded(c, OutFormat::Png, quality) == #[trigger] encoded(c, OutFormat::Png, q2),
        forall|q2: u8| encoded(c, OutFormat::WebP, quality) == #[trigger] encoded(c, OutFormat::WebP, q2),
{
}

/// The JPEG quality used is the requested one when it lies in 1..=100, else
/// the nearest bound.
pub proof fn lemma_clamp_quality(q: u8)
    ensures
        1 <= clamp_quality(q) <= 100,
        1 <= q <= 100 ==> clamp_quality(q) == q,
        q == 0 ==> clamp_quality(q) == 1,
        q > 100 ==> clamp_quality(q) == 100,
{
}

/// What `optimize` gives, in terms of the decoded image: nothing when the
/// input does not decode; otherwise the encoding, in the requested format,
/// of the image shrunk to the target size (Lanczos3) when it is wider than
/// the maximum width, else of the image as decoded, together with the size of
/// what was encoded.
pub proof fn lemma_optimize(input: Seq<u8>, opts: OptimizeOptions)
    ensures
        decoded_image(input) is None ==> optimize_spec(input, opts) is None,
        decoded_image(input) matches Some(c) ==> {
            let s = match target_size_spec(c.0, c.1, opts.max_width) {
                Some((tw, th)) => resized_image(c, tw, th, ResizeFilter::Lanczos3),
                None => c,
            };
            &&& optimize_spec(input, opts) == Some((encoded(s, opts.format, opts.quality), s.0, s.1))
            &&& (opts.max_width is None ==> s == c)
            &&& (opts.max_width matches Some(w) && c.0 <= w ==> s == c)
        },
{
}

/// Equal inputs and options give equal outcomes: `optimize` depends on its
/// arguments alone.
pub proof fn lemma_optimize_deterministic(a: Seq<u8>, b: Seq<u8>, oa: OptimizeOptions, ob: OptimizeOptions)
    requires
        a == b,
        oa.max_width == ob.max_width,
        oa.quality == ob.quality,
        oa.format == ob.format,
    ensures
        optimize_spec(a, oa) == optimize_spec(b, ob),
{
}

/// `c` equals the lower-case ASCII letter or other character `t`, ignoring ASCII case.
pub open spec fn lower_eq(c: char, t: char) -> bool {
    c == t || ('a' <= t && t <= 'z' && (c as u32) + 32 == (t as u32))
}

/// `e`, in ASCII lower case, equals `k` (which is lower case).
pub open spec fn eq_ignore_ascii_case(e: Seq<char>, k: Seq<char>) -> bool {
    e.len() == k.len() && forall|i: int| 0 <= i < e.len() ==> lower_eq(e[i], k[i])
}

/// The extensions the optimiser treats as images.
pub open spec fn is_image_ext(e: Seq<char>) -> bool {
    ||| eq_ignore_ascii_case(e, "png"@)
    ||| eq_ignore_ascii_case(e, "jpg"@)
    ||| eq_ignore_ascii_case(e, "jpeg"@)
    ||| eq_ignore_ascii_case(e, "webp"@)
    ||| eq_ignore_ascii_case(e, "gif"@)
    ||| eq_ignore_ascii_case(e, "bmp"@)
    ||| eq_ignore_ascii_case(e, "tiff"@)
}

/// `c` in ASCII lower case.
pub open spec fn ascii_lower(c: char) -> char {
    if 65 <= (c as u32) && (c as u32) <= 90 {
        ((c as u32) + 32) as char
    } else {
        c
    }
}

/// Comparing with a text that holds no ASCII capital ignores ASCII case: `e`
/// matches `k` exactly when `e` in ASCII lower case is `k` (for `k` whose
/// letters are known by their code points too, as literals are).
proof fn lemma_eq_ignore_ascii_case(e: Seq<char>, k: Seq<char>)
    requires
        forall|i: int| 0 <= i < k.len() ==> !(65 <= (#[trigger] k[i] as u32) && (k[i] as u32) <= 90),
        forall|i: int| 0 <= i < k.len() ==> (97 <= (#[trigger] k[i] as u32) && (k[i] as u32) <= 122 <==> 'a' <= k[i] && k[i] <= 'z'),
    ensures
        eq_ignore_ascii_case(e, k) <==> e.map_values(|c: char| ascii_lower(c)) == k,
{
    let l = e.map_values(|c: char| ascii_lower(c));
    assert forall|i: int| 0 <= i < e.len() && i < k.len() implies (lower_eq(e[i], k[i]) <==> #[trigger] l[i] == k[i]) by {
        let c = e[i];
        let t = k[i];
        if 65 <= (c as u32) && (c as u32) <= 90 {
            let x = ((c as u32) + 32) as char;
            assert(x as u32 == (c as u32) + 32);
            if x == t {
                assert(97 <= (t as u32) <= 122);
            }
            if lower_eq(c, t) {
                assert(c != t);
                assert((t as u32) == (c as u32) + 32);
                assert(x as u32 == t as u32);
                assert(x == t);
            }
        } else {
            if 'a' <= t && t <= 'z' && (c as u32) + 32 == (t as u32) {
                assert(97 <= (t as u32) <= 122);
            }
        }
    }
    if eq_ignore_ascii_case(e, k) {
        assert(l =~= k);
    }
    if l == k {
        assert forall|i: int| 0 <= i < e.len() implies lower_eq(e[i], k[i]) by {
            assert(l[i] == k[i]);
        }
    }
}

/// The image extensions, exactly: a path names an image when it has an
/// extension that is, in ASCII lower case, one of png, jpg, jpeg, webp, gif,
/// bmp and tiff.
pub proof fn lemma_is_image(p: Seq<char>)
    ensures
        is_image_spec(p) <==> (path_extension(p) matches Some(e) && seq![
            "png"@,
            "jpg"@,
            "jpeg"@,
            "webp"@,
            "gif"@,
            "bmp"@,
            "tiff"@,
        ].contains(e.map_values(|c: char| ascii_lower(c)))),
{
    reveal_strlit("png");
    reveal_strlit("jpg");
    reveal_strlit("jpeg");
    reveal_strlit("webp");
    reveal_strlit("gif");
    reveal_strlit("bmp");
    reveal_strlit("tiff");
    let exts = seq!["png"@, "jpg"@, "jpeg"@, "webp"@, "gif"@, "bmp"@, "tiff"@];
    if let Some(e) = path_extension(p) {
        let l = e.map_values(|c: char| ascii_lower(c));
        lemma_eq_ignore_ascii_case(e, "png"@);
        lemma_eq_ignore_ascii_case(e, "jpg"@);
        lemma_eq_ignore_ascii_case(e, "jpeg"@);
        lemma_eq_ignore_ascii_case(e, "webp"@);
        lemma_eq_ignore_ascii_case(e, "gif"@);
        lemma_eq_ignore_ascii_case(e, "bmp"@);
        lemma_eq_ignore_ascii_case(e, "tiff"@);
        if exts.contains(l) {
            let j = choose|j: int| 0 <= j < exts.len() && exts[j] == l;
            assert(j == 0 || j == 1 || j == 2 || j == 3 || j == 4 || j == 5 || j == 6);
        }
        if is_image_ext(e) {
            if eq_ignore_ascii_case(e, "png"@) {
                assert(exts[0] == l);
            } else if eq_ignore_ascii_case(e, "jpg"@) {
                assert(exts[1] == l);
            } else if eq_ignore_ascii_case(e, "jpeg"@) {
                assert(exts[2] == l);
            } else if eq_ignore_ascii_case(e, "webp"@) {
                assert(exts[3] == l);
            } else if eq_ignore_ascii_case(e, "gif"@) {
                assert(exts[4] == l);
            } else if eq_ignore_ascii_case(e, "bmp"@) {
                assert(exts[5] == l);
            } else {
                assert(exts[6] == l);
            }
        }
    }
}

/// Whether the path's extension, in ASCII lower case, is an image extension.
pub open spec fn is_image_spec(p: Seq<char>) -> bool {
    match path_extension(p) {
        Some(e) => is_image_ext(e),
        None => false,
    }
}

fn ext_is(e: &Vec<char>, k: &str) -> (r: bool)
    ensures
        r == eq_ignore_ascii_case(e@, k@),
{
    let kv = chars_of(k);
    if e.len() != kv.len() {
        return false;
    }
    let mut i: usize = 0;
    while i < e.len()
        invariant
            i <= e.len(),
            e.len() == kv.len(),
            kv@ == k@,
            forall|j: int| 0 <= j < i ==> lower_eq(e@[j], k@[j]),
        decreases e.len() - i,
    {
        let c = e[i];
        let t = kv[i];
        if !(c == t || ('a' <= t && t <= 'z' && (c as u32) == (t as u32) - 32)) {
            return false;
        }
        i += 1;
    }
    true
}

/// Whether `path` names an image (png, jpg, jpeg, webp, gif, bmp or tiff, in
/// any ASCII case).
pub fn is_image(path: &str) -> (r: bool)
    ensures
        r == is_image_spec(path@),
{
    match extension_of(path) {
        Some(e) => {
            let ev = chars_of(e.as_str());
            ext_is(&ev, "png") || ext_is(&ev, "jpg") || ext_is(&ev, "jpeg") || ext_is(&ev, "webp")
                || ext_is(&ev, "gif") || ext_is(&ev, "bmp") || ext_is(&ev, "tiff")
        },
        None => false,
    }
}

/// Whether a changed path should be optimised: an image that is not itself an
/// optimiser output (its path does not contain `.min.`).
pub open spec fn should_optimize_spec(p: Seq<char>) -> bool {
    is_image_spec(p) && find(p, ".min."@) is None
}

/// A changed path is optimised exactly when it names an image and `.min.`
/// occurs nowhere in it: an optimiser output is never optimised again.
pub proof fn lemma_should_optimize(p: Seq<char>)
    ensures
        should_optimize_spec(p) <==> is_image_spec(p) && forall|j: int| !#[trigger] matches_at(p, ".min."@, j),
{
    lemma_find(p, ".min."@);
}

/// Whether a changed path should be optimised (see `should_optimize_spec`).
pub fn should_optimize(path: &str) -> (r: bool)
    ensures
        r == should_optimize_spec(path@),
{
    if !is_image(path) {
        return false;
    }
    let pv = chars_of(path);
    let marker = chars_of(".min.");
    find_chars(&pv, &marker).is_none()
}

/// The output path for an input: the same directory, named
/// `{stem}.min.{ext}` (stem `out` when the input has none).
pub open spec fn min_path_spec(input: Seq<char>, format: OutFormat) -> Seq<char> {
    let stem = match path_file_stem(input) {
        Some(s) => s,
        None => "out"@,
    };
    path_with_file_name(input, stem + ".min."@ + format_ext(format))
}

/// The output of an input sits beside it: its file name is the input's stem
/// (`out` when it has none), `.min.` and the extension of the output format
/// (jpg, png or webp).
pub proof fn lemma_min_path(input: Seq<char>, format: OutFormat)
    ensures
        path_file_stem(input) matches Some(st) ==> min_path_spec(input, format) == path_with_file_name(
            input,
            st + ".min."@ + format_ext(format),
        ),
        path_file_stem(input) is None ==> min_path_spec(input, format) == path_with_file_name(
            input,
            seq!['o', 'u', 't'] + seq!['.', 'm', 'i', 'n', '.'] + format_ext(format),
        ),
        ".min."@ == seq!['.', 'm', 'i', 'n', '.'],
{
    reveal_strlit("out");
    reveal_strlit(".min.");
    assert("out"@ =~= seq!['o', 'u', 't']);
    assert(".min."@ =~= seq!['.', 'm', 'i', 'n', '.']);
}

/// The output path for an input (see `min_path_spec`).
pub fn min_path(input: &str, format: OutFormat) -> (r: String)
    ensures
        r@ == min_path_spec(input@, format),
{
    let mut name = match file_stem_of(input) {
        Some(s) => s,
        None => String::from_str("out"),
    };
    name.append(".min.");
    name.append(format.ext());
    with_file_name(input, name.as_str())
}

} // verus!
