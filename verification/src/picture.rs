//! Developing a snapshot: the picture's name, the PNG of the preview, the
//! QR code that links to the full picture, and the framed payload.
use vstd::prelude::*;
use base64::Engine;
use crate::payload::{bytes_view, create_payload, payload_spec};

verus! {

/// Width of a preview frame, in pixels.
pub const PREVIEW_WIDTH: u32 = 720;

/// Height of a preview frame, in pixels.
pub const PREVIEW_HEIGHT: u32 = 480;

/// Smallest width and height of the rendered QR code, in pixels.
pub const QR_MIN_SIZE: u32 = 256;

/// The longest picture name kept.
pub const PICTURE_ID_MAX: usize = 32;

/// Bytes in an RGBA frame of the given size.
pub open spec fn rgba_len(width: nat, height: nat) -> nat {
    4 * width * height
}

// ---------------------------------------------------------------------------
// What the outside crates compute.

/// What `xxhash_rust::xxh3::xxh3_128` returns for `data` (seed 0, default secret).
pub uninterp spec fn xxh3_128_of(data: Seq<u8>) -> u128;

/// Calls `xxhash_rust::xxh3::xxh3_128`; claims only that its result is
/// `xxh3_128_of` of the input, a function of the input alone.
#[verifier::external_body]
fn hash128(data: &[u8]) -> (h: u128)
    ensures
        h == xxh3_128_of(data@),
{
    xxhash_rust::xxh3::xxh3_128(data)
}

/// The symbol for the 6-bit value `v` in the URL-safe base64 alphabet of
/// RFC 4648: `A`-`Z`, `a`-`z`, `0`-`9`, `-`, `_`.
pub open spec fn b64_symbol(v: nat) -> char {
    if v < 26 {
        (65 + v) as char
    } else if v < 52 {
        (97 + (v - 26)) as char
    } else if v < 62 {
        (48 + (v - 52)) as char
    } else if v == 62 {
        '-'
    } else {
        '_'
    }
}

/// URL-safe base64 of `data` without padding: each group of three bytes
/// gives four symbols of its four 6-bit parts, most significant first; a
/// last group of one or two bytes gives two or three symbols, its bits
/// filled out with zeros.
pub open spec fn base64_url_nopad(data: Seq<u8>) -> Seq<char>
    decreases data.len(),
{
    if data.len() == 0 {
        Seq::empty()
    } else if data.len() == 1 {
        seq![b64_symbol(data[0] as nat / 4), b64_symbol((data[0] as nat % 4) * 16)]
    } else if data.len() == 2 {
        seq![
            b64_symbol(data[0] as nat / 4),
            b64_symbol((data[0] as nat % 4) * 16 + data[1] as nat / 16),
            b64_symbol((data[1] as nat % 16) * 4),
        ]
    } else {
        seq![
            b64_symbol(data[0] as nat / 4),
            b64_symbol((data[0] as nat % 4) * 16 + data[1] as nat / 16),
            b64_symbol((data[1] as nat % 16) * 4 + data[2] as nat / 64),
            b64_symbol(data[2] as nat % 64),
        ] + base64_url_nopad(data.skip(3))
    }
}

/// The length of unpadded base64 text for `n` bytes (`base64::encoded_len`
/// without padding): four characters per three bytes, and two or three for
/// a last group of one or two bytes.
pub open spec fn base64_nopad_len(n: nat) -> nat {
    4 * (n / 3) + if n % 3 == 0 {
        0
    } else {
        n % 3 + 1
    }
}

/// `c` belongs to the URL-safe base64 alphabet of RFC 4648:
/// `A`-`Z`, `a`-`z`, `0`-`9`, `-` and `_`.
pub open spec fn is_url_safe_symbol(c: char) -> bool {
    ||| 'A' <= c <= 'Z'
    ||| 'a' <= c <= 'z'
    ||| '0' <= c <= '9'
    ||| c == '-'
    ||| c == '_'
}

proof fn lemma_b64_symbol_url_safe(v: nat)
    requires
        v < 64,
    ensures
        is_url_safe_symbol(b64_symbol(v)),
{
    if v < 26 {
        assert((65 + v) as char as int == 65 + v);
    } else if v < 52 {
        assert((97 + (v - 26)) as char as int == 97 + (v - 26));
    } else if v < 62 {
        assert((48 + (v - 52)) as char as int == 48 + (v - 52));
    }
}

/// Unpadded URL-safe base64 has the length that `base64::encoded_len` gives
/// and holds only symbols of the URL-safe alphabet.
pub proof fn lemma_base64_shape(data: Seq<u8>)
    ensures
        base64_url_nopad(data).len() == base64_nopad_len(data.len()),
        forall|i: int|
            0 <= i < base64_url_nopad(data).len() ==> is_url_safe_symbol(
                #[trigger] base64_url_nopad(data)[i],
            ),
    decreases data.len(),
{
    let e = base64_url_nopad(data);
    if data.len() == 0 {
    } else {
        let d0 = data[0] as nat;
        lemma_b64_symbol_url_safe(d0 / 4);
        if data.len() == 1 {
            lemma_b64_symbol_url_safe((d0 % 4) * 16);
        } else {
            let d1 = data[1] as nat;
            lemma_b64_symbol_url_safe((d0 % 4) * 16 + d1 / 16);
            if data.len() == 2 {
                lemma_b64_symbol_url_safe((d1 % 16) * 4);
            } else {
                let d2 = data[2] as nat;
                lemma_b64_symbol_url_safe((d1 % 16) * 4 + d2 / 64);
                lemma_b64_symbol_url_safe(d2 % 64);
                lemma_base64_shape(data.skip(3));
                let r = base64_url_nopad(data.skip(3));
                assert forall|i: int| 0 <= i < e.len() implies is_url_safe_symbol(#[trigger] e[i]) by {
                    if i >= 4 {
                        assert(e[i] == r[i - 4]);
                    }
                }
            }
        }
    }
}

/// Calls `Engine::encode` of `base64::prelude::BASE64_URL_SAFE_NO_PAD`.
/// Claims that the text is the URL-safe unpadded base64 of the input, as
/// RFC 4648 defines it and `base64_url_nopad` writes it out.
#[verifier::external_body]
fn encode_url_safe(data: &[u8]) -> (s: String)
    requires
        data@.len() <= 0x1000_0000,
    ensures
        s@ == base64_url_nopad(data@),
{
    base64::prelude::BASE64_URL_SAFE_NO_PAD.encode(data)
}

/// What PNG encoding with `image`'s `PngEncoder` (fast compression, no
/// filter) yields for an RGBA image of the given size whose pixels start
/// `pixels`; `None` where the encoder reports an error.
pub uninterp spec fn png_fast_unfiltered(width: u32, height: u32, pixels: Seq<u8>) -> Option<Seq<u8>>;

/// Calls `image::ImageBuffer::<Rgba<u8>, _>::from_raw`, then
/// `write_with_encoder` with `image::codecs::png::PngEncoder::new_with_quality`
/// (`CompressionType::Fast`, `FilterType::NoFilter`). `from_raw` accepts any
/// buffer of at least `4 * width * height` bytes, which `requires` asks for.
/// Claims only that the outcome is `png_fast_unfiltered` of the arguments;
/// the PNG bytes themselves are not stated.
#[verifier::external_body]
fn encode_png_rgba(width: u32, height: u32, pixels: Vec<u8>) -> (png: Option<Vec<u8>>)
    requires
        pixels@.len() >= rgba_len(width as nat, height as nat),
    ensures
        bytes_view(png) == png_fast_unfiltered(width, height, pixels@),
{
    let img = image::ImageBuffer::<image::Rgba<u8>, Vec<u8>>::from_raw(width, height, pixels)
        .expect("buffer holds the image");
    let mut out: Vec<u8> = Vec::new();
    let encoder = image::codecs::png::PngEncoder::new_with_quality(
        &mut out,
        image::codecs::png::CompressionType::Fast,
        image::codecs::png::FilterType::NoFilter,
    );
    match img.write_with_encoder(encoder) {
        Ok(()) => Some(out),
        Err(_) => None,
    }
}

/// The largest minimum size asked of the QR renderer; far above what the
/// booth asks, and small enough that no size computation in `qrcode` overflows.
pub const QR_MAX_MIN_SIZE: u32 = 4096;

/// What rendering the QR code of `text` yields: where `qrcode::QrCode::new`
/// refuses the text, the `Display` text of its error; else the width, height
/// and 8-bit gray pixels, row by row, of the code rendered in `Luma<u8>`
/// with at least the given dimensions.
pub uninterp spec fn qr_luma(text: Seq<u8>, min_width: u32, min_height: u32) -> Result<(u32, u32, Seq<u8>), Seq<char>>;

/// The dimensions and pixels, or the message, of a QR rendering.
pub open spec fn qr_view(r: Result<(u32, u32, Vec<u8>), String>) -> Result<(u32, u32, Seq<u8>), Seq<char>> {
    match r {
        Ok((w, h, px)) => Ok((w, h, px@)),
        Err(e) => Err(e@),
    }
}

/// Calls `qrcode::QrCode::new`, then `render::<image::Luma<u8>>()`,
/// `min_dimensions` and `build`, and hands out the image's dimensions and its
/// buffer (`into_raw`); a refusal of `QrCode::new` comes back as its error's
/// `to_string`. `requires` bounds the minimum sizes so that the `u32` sums in
/// `min_dimensions` cannot overflow. Claims that the outcome is `qr_luma` of
/// the arguments and, as `ImageBuffer::from_pixel` makes the canvas, that the
/// buffer holds one byte per pixel.
#[verifier::external_body]
fn qr_code_image(text: &[u8], min_width: u32, min_height: u32) -> (r: Result<(u32, u32, Vec<u8>), String>)
    requires
        min_width <= QR_MAX_MIN_SIZE,
        min_height <= QR_MAX_MIN_SIZE,
    ensures
        qr_view(r) == qr_luma(text@, min_width, min_height),
        r matches Ok((w, h, px)) ==> px@.len() >= (w as nat) * (h as nat),
{
    let code = match qrcode::QrCode::new(text) {
        Ok(code) => code,
        Err(e) => return Err(e.to_string()),
    };
    let img = code.render::<image::Luma<u8>>().min_dimensions(min_width, min_height).build();
    Ok((img.width(), img.height(), img.into_raw()))
}

/// What `image::ImageBuffer::<Luma<u8>, _>::write_to` with `ImageFormat::Png`
/// (the default `PngEncoder`) writes for a gray image of the given size whose
/// pixels start `pixels`, whether or not the writing ends in an error.
pub uninterp spec fn png_luma_written(width: u32, height: u32, pixels: Seq<u8>) -> Seq<u8>;

/// Calls `image::ImageBuffer::<Luma<u8>, _>::from_raw` (which accepts the
/// buffer that `requires` asks for) and `write_to` into a `Cursor` with
/// `ImageFormat::Png`, keeping what was written even if writing failed.
/// Claims only that the bytes are `png_luma_written` of the arguments.
#[verifier::external_body]
fn write_png_luma(width: u32, height: u32, pixels: Vec<u8>) -> (png: Vec<u8>)
    requires
        pixels@.len() >= (width as nat) * (height as nat),
    ensures
        png@ == png_luma_written(width, height, pixels@),
{
    let img = image::ImageBuffer::<image::Luma<u8>, Vec<u8>>::from_raw(width, height, pixels)
        .expect("buffer holds the image");
    let mut out: Vec<u8> = Vec::new();
    img.write_to(&mut std::io::Cursor::new(&mut out), image::ImageFormat::Png).ok();
    out
}

/// What the default PNG encoder of `image` (`PngEncoder::new`, the one that
/// `save_with_format` and `write_to` use for `ImageFormat::Png`) writes for an
/// RGBA image of the given size whose pixels start `pixels`, whether or not
/// the writing ends in an error.
pub uninterp spec fn png_rgba_written(width: u32, height: u32, pixels: Seq<u8>) -> Seq<u8>;

/// Calls `image::ImageBuffer::<Rgba<u8>, _>::from_raw` (which accepts the
/// buffer that `requires` asks for) and `write_to` into a `Cursor` with
/// `ImageFormat::Png`, keeping what was written even if writing failed.
/// Claims only that the bytes are `png_rgba_written` of the arguments.
#[verifier::external_body]
fn write_png_rgba(width: u32, height: u32, pixels: Vec<u8>) -> (png: Vec<u8>)
    requires
        pixels@.len() >= rgba_len(width as nat, height as nat),
    ensures
        png@ == png_rgba_written(width, height, pixels@),
{
    let img = image::ImageBuffer::<image::Rgba<u8>, Vec<u8>>::from_raw(width, height, pixels)
        .expect("buffer holds the image");
    let mut out: Vec<u8> = Vec::new();
    img.write_to(&mut std::io::Cursor::new(&mut out), image::ImageFormat::Png).ok();
    out
}

/// What decoding `bytes` as PNG with `image::load_from_memory_with_format`
/// and converting with `to_rgba8` yields: the width, height and RGBA pixels,
/// or `None` where decoding fails.
pub uninterp spec fn png_decoded_rgba(bytes: Seq<u8>) -> Option<(u32, u32, Seq<u8>)>;

/// The dimensions and pixels of a decoded image, if any.
pub open spec fn decoded_view(d: Option<(u32, u32, Vec<u8>)>) -> Option<(u32, u32, Seq<u8>)> {
    match d {
        Some((w, h, px)) => Some((w, h, px@)),
        None => None,
    }
}

/// Calls `image::load_from_memory_with_format` with `ImageFormat::Png`, then
/// `to_rgba8` and `into_raw`. Claims that the outcome is `png_decoded_rgba` of
/// the input and, as every `ImageBuffer` holds its image, that the buffer has
/// at least four bytes per pixel.
#[verifier::external_body]
fn decode_png_rgba(bytes: &[u8]) -> (d: Option<(u32, u32, Vec<u8>)>)
    ensures
        decoded_view(d) == png_decoded_rgba(bytes@),
        d matches Some((w, h, px)) ==> px@.len() >= rgba_len(w as nat, h as nat),
{
    match image::load_from_memory_with_format(bytes, image::ImageFormat::Png) {
        Ok(img) => {
            let rgba = img.to_rgba8();
            Some((rgba.width(), rgba.height(), rgba.into_raw()))
        },
        Err(_) => None,
    }
}

// ---------------------------------------------------------------------------
// Naming a picture.

/// The `n` low bytes of `x`, least significant first.
pub open spec fn le_bytes(x: nat, n: nat) -> Seq<u8>
    decreases n,
{
    if n == 0 {
        Seq::empty()
    } else {
        seq![(x % 256) as u8] + le_bytes(x / 256, (n - 1) as nat)
    }
}

proof fn lemma_le_bytes_len(x: nat, n: nat)
    ensures
        le_bytes(x, n).len() == n,
    decreases n,
{
    if n > 0 {
        lemma_le_bytes_len(x / 256, (n - 1) as nat);
    }
}

/// What `h.to_be_bytes()` yields for a `u128`.
pub open spec fn u128_be_bytes(h: u128) -> Seq<u8> {
    le_bytes(h as nat, 16).reverse()
}

/// The sixteen bytes of `h`, most significant first.
fn be_bytes_of(h: u128) -> (out: Vec<u8>)
    ensures
        out@ == u128_be_bytes(h),
{
    let mut le: Vec<u8> = Vec::new();
    let mut m = h;
    let mut i: usize = 0;
    while i < 16
        invariant
            i <= 16,
            le_bytes(h as nat, 16) == le@ + le_bytes(m as nat, (16 - i) as nat),
        decreases 16 - i,
    {
        let ghost before = le@;
        le.push((m % 256) as u8);
        assert(le_bytes(m as nat, (16 - i) as nat) =~= seq![(m % 256) as u8] + le_bytes(
            (m / 256) as nat,
            (16 - i - 1) as nat,
        ));
        assert(le@ + le_bytes((m / 256) as nat, (16 - i - 1) as nat) =~= before + le_bytes(
            m as nat,
            (16 - i) as nat,
        ));
        m = m / 256;
        i = i + 1;
    }
    assert(le@ =~= le_bytes(h as nat, 16));
    proof {
        lemma_le_bytes_len(h as nat, 16);
    }
    let mut out: Vec<u8> = Vec::new();
    let mut k: usize = 16;
    while k > 0
        invariant
            k <= 16,
            le@.len() == 16,
            out@ == le@.reverse().subrange(0, 16 - k),
        decreases k,
    {
        k = k - 1;
        out.push(le[k]);
        assert(out@ =~= le@.reverse().subrange(0, 16 - k));
    }
    assert(out@ =~= le@.reverse());
    out
}

/// `s` cut to at most `n` characters, as `String::truncate` does on ASCII text.
pub open spec fn truncated(s: Seq<char>, n: nat) -> Seq<char> {
    if s.len() > n {
        s.take(n as int)
    } else {
        s
    }
}

/// The name of a picture taken from `preview`: the URL-safe unpadded base64
/// of the big-endian bytes of its 128-bit XXH3 hash, cut to 32 characters.
pub open spec fn picture_id_spec(preview: Seq<u8>) -> Seq<char> {
    truncated(base64_url_nopad(u128_be_bytes(xxh3_128_of(preview))), PICTURE_ID_MAX as nat)
}

/// Names the picture whose preview frame is `preview`.
pub fn picture_id(preview: &[u8]) -> (id: String)
    ensures
        id@ == picture_id_spec(preview@),
        id@.len() == 22,
        forall|i: int| 0 <= i < id@.len() ==> is_url_safe_symbol(#[trigger] id@[i]),
{
    let h = hash128(preview);
    let bytes = be_bytes_of(h);
    proof {
        lemma_le_bytes_len(h as nat, 16);
    }
    let encoded = encode_url_safe(bytes.as_slice());
    proof {
        lemma_base64_shape(bytes@);
    }
    assert(base64_nopad_len(16) == 22);
    let n = encoded.unicode_len();
    if n > PICTURE_ID_MAX {
        let cut = encoded.as_str().substring_char(0, PICTURE_ID_MAX);
        String::from_str(cut)
    } else {
        encoded
    }
}

// ---------------------------------------------------------------------------
// Where a picture goes.

/// The directory where full pictures are saved and served from.
pub open spec fn image_dir() -> Seq<char> {
    "../static/images/"@
}

/// The name of the file that holds the picture called `name`.
pub open spec fn png_file_name(name: Seq<char>) -> Seq<char> {
    name + ".png"@
}

/// The path where the full picture called `id` is saved.
pub open spec fn image_path_spec(id: Seq<char>) -> Seq<char> {
    image_dir() + png_file_name(id)
}

/// The address of the site that hands out pictures.
pub open spec fn link_prefix() -> Seq<char> {
    "https://box.kende.dev/"@
}

/// The link that the QR code of picture `id` holds.
pub open spec fn qr_link_spec(id: Seq<char>) -> Seq<char> {
    link_prefix() + id
}

/// The file name of the picture called `name`: `{name}.png`.
pub fn png_file_name_of(name: &str) -> (f: String)
    ensures
        f@ == png_file_name(name@),
{
    let mut f = String::from_str(name);
    f.append(".png");
    f
}

/// The path where the full picture called `id` is saved:
/// `../static/images/{id}.png`.
pub fn image_path(id: &str) -> (p: String)
    ensures
        p@ == image_path_spec(id@),
{
    let mut p = String::from_str("../static/images/");
    let f = png_file_name_of(id);
    p.append(f.as_str());
    assert(p@ =~= image_path_spec(id@));
    p
}

/// The link that the QR code of picture `id` holds: `https://box.kende.dev/{id}`.
pub fn qr_link(id: &str) -> (l: String)
    ensures
        l@ == qr_link_spec(id@),
{
    let mut l = String::from_str("https://box.kende.dev/");
    l.append(id);
    l
}

// ---------------------------------------------------------------------------
// Developing a snapshot.

/// A developed snapshot: the picture's name, where its full version is to be
/// saved, and the payload for the user interface or the error that stopped it.
pub struct Developed {
    pub id: String,
    pub image_path: String,
    pub payload: Result<Vec<u8>, String>,
}

/// The bytes that the QR code of the picture taken from `preview` encodes:
/// the UTF-8 text of its link.
pub open spec fn qr_text_spec(preview: Seq<u8>) -> Seq<u8> {
    vstd::utf8::encode_utf8(qr_link_spec(picture_id_spec(preview)))
}

/// Develops the snapshot whose preview frame is `preview` (720x480 RGBA):
/// names it, encodes the preview as PNG, renders the QR code of its link
/// and frames both into the payload.
pub fn develop_picture(preview: Vec<u8>) -> (d: Result<Developed, String>)
    requires
        preview@.len() >= rgba_len(PREVIEW_WIDTH as nat, PREVIEW_HEIGHT as nat),
    ensures
        match d {
            Err(e) => {
                &&& png_fast_unfiltered(PREVIEW_WIDTH, PREVIEW_HEIGHT, preview@) is None
                &&& e@ == "Failed to encode PNG"@
            },
            Ok(dev) => {
                &&& png_fast_unfiltered(PREVIEW_WIDTH, PREVIEW_HEIGHT, preview@) is Some
                &&& dev.id@ == picture_id_spec(preview@)
                &&& dev.image_path@ == image_path_spec(dev.id@)
                &&& match qr_luma(qr_text_spec(preview@), QR_MIN_SIZE, QR_MIN_SIZE) {
                    Ok((w, h, px)) => dev.payload matches Ok(p) && p@ == payload_spec(
                        png_fast_unfiltered(PREVIEW_WIDTH, PREVIEW_HEIGHT, preview@).unwrap(),
                        png_luma_written(w, h, px),
                    ),
                    Err(msg) => dev.payload matches Err(m) && m@ == msg,
                }
            },
        },
{
    let id = picture_id(preview.as_slice());
    let path = image_path(id.as_str());
    let png = match encode_png_rgba(PREVIEW_WIDTH, PREVIEW_HEIGHT, preview) {
        Some(png) => png,
        None => {
            return Err(String::from_str("Failed to encode PNG"));
        },
    };
    let link = qr_link(id.as_str());
    let payload = match qr_code_image(link.as_str().as_bytes(), QR_MIN_SIZE, QR_MIN_SIZE) {
        Ok((w, h, px)) => {
            let qr = write_png_luma(w, h, px);
            Ok(create_payload(png, qr))
        },
        Err(msg) => Err(msg),
    };
    Ok(Developed { id, image_path: path, payload })
}

// ---------------------------------------------------------------------------
// The full picture.

/// Columns cut off on each side of a full capture.
pub const CROP: u32 = 300;

/// Where byte `i` of a `crop_width`-wide crop at (`x`, `y`) of a
/// `width`-wide RGBA image comes from.
pub open spec fn crop_source(width: nat, x: nat, y: nat, crop_width: nat, i: nat) -> int {
    let p = i / 4;
    (((y + p / crop_width) * width + x + p % crop_width) * 4 + i % 4) as int
}

/// The `crop_width` x `crop_height` part at (`x`, `y`) of a `width`-wide RGBA image.
pub open spec fn cropped(
    pixels: Seq<u8>,
    width: nat,
    x: nat,
    y: nat,
    crop_width: nat,
    crop_height: nat,
) -> Seq<u8> {
    Seq::new(
        4 * crop_width * crop_height,
        |i: int| pixels[crop_source(width, x, y, crop_width, i as nat)],
    )
}

/// Calls `image::ImageBuffer::<Rgba<u8>, _>::from_raw` (which accepts the
/// buffer that `requires` asks for), `image::imageops::crop` and
/// `SubImage::to_image`, then `into_raw`. Claims the pixels of the result:
/// inside the image `crop` keeps the rectangle as given, and `to_image`
/// copies it row by row into a new buffer of exactly that size.
#[verifier::external_body]
fn crop_rgba(
    pixels: Vec<u8>,
    width: u32,
    height: u32,
    x: u32,
    y: u32,
    crop_width: u32,
    crop_height: u32,
) -> (out: Vec<u8>)
    requires
        pixels@.len() >= rgba_len(width as nat, height as nat),
        x + crop_width <= width,
        y + crop_height <= height,
    ensures
        out@ == cropped(pixels@, width as nat, x as nat, y as nat, crop_width as nat, crop_height as nat),
{
    let mut img = image::ImageBuffer::<image::Rgba<u8>, Vec<u8>>::from_raw(width, height, pixels)
        .expect("buffer holds the image");
    image::imageops::crop(&mut img, x, y, crop_width, crop_height).to_image().into_raw()
}

/// What `image::imageops::overlay` leaves in a `bottom_width` x
/// `bottom_height` RGBA image `bottom` after blending the RGBA image `top`
/// onto it at (`x`, `y`).
pub uninterp spec fn overlay_rgba(
    bottom_width: u32,
    bottom_height: u32,
    bottom: Seq<u8>,
    top_width: u32,
    top_height: u32,
    top: Seq<u8>,
    x: i64,
    y: i64,
) -> Seq<u8>;

/// Byte `i` of a `bottom_width` x `bottom_height` RGBA image lies under a
/// `top_width` x `top_height` image placed at (`x`, `y`).
pub open spec fn under_overlay(
    bottom_width: nat,
    bottom_height: nat,
    top_width: nat,
    top_height: nat,
    x: int,
    y: int,
    i: int,
) -> bool {
    &&& 0 <= i < rgba_len(bottom_width, bottom_height)
    &&& x <= (i / 4) % (bottom_width as int) < x + top_width
    &&& y <= (i / 4) / (bottom_width as int) < y + top_height
}

/// The four bytes of pixel `p` of an RGBA buffer.
pub open spec fn pixel_at(s: Seq<u8>, p: int) -> Seq<u8> {
    s.subrange(4 * p, 4 * p + 4)
}

/// The pixel of a `top_width`-wide top image, placed at (`x`, `y`) on a
/// `bottom_width`-wide bottom image, that lies on bottom pixel `p`.
pub open spec fn top_pixel_under(bottom_width: nat, top_width: nat, x: int, y: int, p: int) -> int {
    (p / (bottom_width as int) - y) * (top_width as int) + (p % (bottom_width as int) - x)
}

/// One RGBA pixel `top` blended onto one RGBA pixel `bottom`, as `overlay`
/// does it: the overlay of a 1x1 image on a 1x1 image.
pub open spec fn blended(bottom: Seq<u8>, top: Seq<u8>) -> Seq<u8> {
    overlay_rgba(1, 1, bottom, 1, 1, top, 0, 0)
}

/// Calls `image::ImageBuffer::<Rgba<u8>, _>::from_raw` on both buffers (each
/// holds its image, as `requires` asks), `image::imageops::overlay`, then
/// `into_raw`, which hands back the bottom buffer itself. Claims that the
/// result is `overlay_rgba` of the arguments and keeps the bottom buffer's
/// length; that `overlay` (which only visits the pixels where the top image
/// lies, clipped to the bottom one) leaves every other byte as it was; and
/// that it sets each pixel it visits to that pixel blended with the top
/// pixel lying on it, as `Pixel::blend` does, which is what overlaying a 1x1
/// image on a 1x1 image gives. The blending itself is not stated.
#[verifier::external_body]
fn overlay_onto(
    bottom: Vec<u8>,
    bottom_width: u32,
    bottom_height: u32,
    top: Vec<u8>,
    top_width: u32,
    top_height: u32,
    x: i64,
    y: i64,
) -> (out: Vec<u8>)
    requires
        bottom@.len() >= rgba_len(bottom_width as nat, bottom_height as nat),
        top@.len() >= rgba_len(top_width as nat, top_height as nat),
    ensures
        out@ == overlay_rgba(bottom_width, bottom_height, bottom@, top_width, top_height, top@, x, y),
        out@.len() == bottom@.len(),
        forall|i: int|
            0 <= i < out@.len() && !under_overlay(
                bottom_width as nat,
                bottom_height as nat,
                top_width as nat,
                top_height as nat,
                x as int,
                y as int,
                i,
            ) ==> #[trigger] out@[i] == bottom@[i],
        forall|i: int|
            0 <= i < out@.len() && under_overlay(
                bottom_width as nat,
                bottom_height as nat,
                top_width as nat,
                top_height as nat,
                x as int,
                y as int,
                i,
            ) ==> #[trigger] out@[i] == blended(
                pixel_at(bottom@, i / 4),
                pixel_at(top@, top_pixel_under(bottom_width as nat, top_width as nat, x as int, y as int, i / 4)),
            )[i % 4],
{
    let mut b = image::ImageBuffer::<image::Rgba<u8>, Vec<u8>>::from_raw(bottom_width, bottom_height, bottom)
        .expect("buffer holds the image");
    let t = image::ImageBuffer::<image::Rgba<u8>, Vec<u8>>::from_raw(top_width, top_height, top)
        .expect("buffer holds the image");
    image::imageops::overlay(&mut b, &t, x, y);
    b.into_raw()
}

/// Width of a saved full picture: a capture without its side strips.
pub open spec fn framed_width() -> nat {
    (crate::camera::WIDTH - 2 * CROP) as nat
}

/// The saved full picture for a capture `frame` (3840x2160 RGBA) and the
/// RGBA `overlay`: the capture with `CROP` columns cut off each side, with
/// the overlay blended on at its top left corner.
pub open spec fn framed_picture_spec(frame: Seq<u8>, overlay: Seq<u8>, overlay_width: u32, overlay_height: u32) -> Seq<u8> {
    overlay_rgba(
        framed_width() as u32,
        crate::camera::HEIGHT,
        cropped(frame, crate::camera::WIDTH as nat, CROP as nat, 0, framed_width(), crate::camera::HEIGHT as nat),
        overlay_width,
        overlay_height,
        overlay,
        0,
        0,
    )
}

/// `framed` is the capture `frame` framed with the `overlay_width` x
/// `overlay_height` RGBA `overlay`: the capture cropped to `framed_width()`
/// x `HEIGHT`, with the overlay, as an image of its own width and height,
/// blended on at the top left: pixel (x, y) of the overlay onto pixel (x, y)
/// of the crop, and every byte outside that rectangle the crop's.
pub open spec fn framed_layout(
    framed: Seq<u8>,
    frame: Seq<u8>,
    overlay: Seq<u8>,
    overlay_width: nat,
    overlay_height: nat,
) -> bool {
    let crop = cropped(
        frame,
        crate::camera::WIDTH as nat,
        CROP as nat,
        0,
        framed_width(),
        crate::camera::HEIGHT as nat,
    );
    &&& framed.len() == rgba_len(framed_width(), crate::camera::HEIGHT as nat)
    &&& forall|i: int|
        0 <= i < framed.len() ==> #[trigger] framed[i] == if under_overlay(
            framed_width(),
            crate::camera::HEIGHT as nat,
            overlay_width,
            overlay_height,
            0,
            0,
            i,
        ) {
            blended(
                pixel_at(crop, i / 4),
                pixel_at(
                    overlay,
                    (i / 4 / (framed_width() as int)) * (overlay_width as int) + (i / 4) % (
                    framed_width() as int),
                ),
            )[i % 4]
        } else {
            crop[i]
        }
}

/// Frames a full capture for saving: crops it and blends the overlay on.
/// The result is an RGBA image of `framed_width()` x `HEIGHT` pixels.
pub fn framed_picture(frame: Vec<u8>, overlay: Vec<u8>, overlay_width: u32, overlay_height: u32) -> (out: Vec<u8>)
    requires
        frame@.len() >= rgba_len(crate::camera::WIDTH as nat, crate::camera::HEIGHT as nat),
        overlay@.len() >= rgba_len(overlay_width as nat, overlay_height as nat),
    ensures
        out@ == framed_picture_spec(frame@, overlay@, overlay_width, overlay_height),
        framed_layout(out@, frame@, overlay@, overlay_width as nat, overlay_height as nat),
        out@.len() == rgba_len(framed_width(), crate::camera::HEIGHT as nat),
        forall|i: int|
            0 <= i < out@.len() && !under_overlay(
                framed_width(),
                crate::camera::HEIGHT as nat,
                overlay_width as nat,
                overlay_height as nat,
                0,
                0,
                i,
            ) ==> #[trigger] out@[i] == cropped(
                frame@,
                crate::camera::WIDTH as nat,
                CROP as nat,
                0,
                framed_width(),
                crate::camera::HEIGHT as nat,
            )[i],
{
    let w = crate::camera::WIDTH - 2 * CROP;
    let h = crate::camera::HEIGHT;
    let cut = crop_rgba(frame, crate::camera::WIDTH, h, CROP, 0, w, h);
    assert(rgba_len(w as nat, h as nat) == 4 * 3240 * 2160);
    overlay_onto(cut, w, h, overlay, overlay_width, overlay_height, 0, 0)
}

/// The saved full picture for a capture `frame` and the PNG `overlay_png`:
/// `None` where the overlay does not decode; else the default PNG encoding of
/// the framed picture (see `framed_picture`) with the decoded overlay.
pub open spec fn full_picture_spec(frame: Seq<u8>, overlay_png: Seq<u8>) -> Option<Seq<u8>> {
    match png_decoded_rgba(overlay_png) {
        None => None,
        Some((ow, oh, overlay)) => Some(
            png_rgba_written(
                framed_width() as u32,
                crate::camera::HEIGHT,
                framed_picture_spec(frame, overlay, ow, oh),
            ),
        ),
    }
}

/// The PNG file of the full picture for a capture `frame` (3840x2160 RGBA):
/// the overlay decoded from `overlay_png`, the capture framed with it, and
/// the result encoded; `None` where the overlay does not decode.
pub fn full_picture(frame: Vec<u8>, overlay_png: &[u8]) -> (png: Option<Vec<u8>>)
    requires
        frame@.len() >= rgba_len(crate::camera::WIDTH as nat, crate::camera::HEIGHT as nat),
    ensures
        bytes_view(png) == full_picture_spec(frame@, overlay_png@),
        match png_decoded_rgba(overlay_png@) {
            None => png is None,
            Some((ow, oh, overlay)) => png matches Some(b) && b@ == png_rgba_written(
                framed_width() as u32,
                crate::camera::HEIGHT,
                framed_picture_spec(frame@, overlay, ow, oh),
            ) && framed_layout(framed_picture_spec(frame@, overlay, ow, oh), frame@, overlay, ow as nat, oh as nat),
        },
{
    match decode_png_rgba(overlay_png) {
        None => None,
        Some((ow, oh, overlay)) => {
            let framed = framed_picture(frame, overlay, ow, oh);
            let w = crate::camera::WIDTH - 2 * CROP;
            Some(write_png_rgba(w, crate::camera::HEIGHT, framed))
        },
    }
}

} // verus!
