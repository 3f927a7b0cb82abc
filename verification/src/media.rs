use vstd::prelude::*;

use image::imageops::FilterType;
use image::{ColorType, DynamicImage, ImageFormat, RgbaImage};

use crate::crypto::{encrypt_data, session_enc, KeyManager};
use crate::error::VaultError;
use crate::paths::{has_slash, join, join_spec, split_path};
use crate::vault::{hash_sidecar, lemma_sidecars_distinct, thumb_sidecar, Vault};

verus! {

// ---------------------------------------------------------------------------
// Content classification by magic bytes
// ---------------------------------------------------------------------------

/// What a payload sniffs as.  The category decides the filename hint and
/// whether the cache pipeline runs: a generic opaque file gets no sidecars.
#[derive(PartialEq, Eq, Structural, Clone, Copy, Debug)]
pub enum MediaKind {
    Image,
    Video,
    Other,
}

/// JPEG, PNG, GIF, BMP or WebP signatures.
pub open spec fn is_image_magic(b: Seq<u8>) -> bool {
    ||| (b.len() >= 3 && b[0] == 0xffu8 && b[1] == 0xd8u8 && b[2] == 0xffu8)
    ||| (b.len() >= 4 && b[0] == 0x89u8 && b[1] == 0x50u8 && b[2] == 0x4eu8 && b[3] == 0x47u8)
    ||| (b.len() >= 4 && b[0] == 0x47u8 && b[1] == 0x49u8 && b[2] == 0x46u8 && b[3] == 0x38u8)
    ||| (b.len() >= 2 && b[0] == 0x42u8 && b[1] == 0x4du8)
    ||| (b.len() >= 12 && b[0] == 0x52u8 && b[1] == 0x49u8 && b[2] == 0x46u8 && b[3] == 0x46u8
        && b[8] == 0x57u8 && b[9] == 0x45u8 && b[10] == 0x42u8 && b[11] == 0x50u8)
}

/// MP4/QuickTime (`ftyp` box), Matroska/WebM, or AVI signatures.
pub open spec fn is_video_magic(b: Seq<u8>) -> bool {
    ||| (b.len() >= 8 && b[4] == 0x66u8 && b[5] == 0x74u8 && b[6] == 0x79u8 && b[7] == 0x70u8)
    ||| (b.len() >= 4 && b[0] == 0x1au8 && b[1] == 0x45u8 && b[2] == 0xdfu8 && b[3] == 0xa3u8)
    ||| (b.len() >= 12 && b[0] == 0x52u8 && b[1] == 0x49u8 && b[2] == 0x46u8 && b[3] == 0x46u8
        && b[8] == 0x41u8 && b[9] == 0x56u8 && b[10] == 0x49u8 && b[11] == 0x20u8)
}

/// The category of a payload: image signatures win over video ones.
pub open spec fn classify(b: Seq<u8>) -> MediaKind {
    if is_image_magic(b) {
        MediaKind::Image
    } else if is_video_magic(b) {
        MediaKind::Video
    } else {
        MediaKind::Other
    }
}

/// Sniffs the payload's magic bytes; never looks at a file extension.
pub fn sniff_kind(b: &[u8]) -> (r: MediaKind)
    ensures
        r == classify(b@),
{
    let n = b.len();
    if n >= 3 && b[0] == 0xff && b[1] == 0xd8 && b[2] == 0xff {
        return MediaKind::Image;
    }
    if n >= 4 && b[0] == 0x89 && b[1] == 0x50 && b[2] == 0x4e && b[3] == 0x47 {
        return MediaKind::Image;
    }
    if n >= 4 && b[0] == 0x47 && b[1] == 0x49 && b[2] == 0x46 && b[3] == 0x38 {
        return MediaKind::Image;
    }
    if n >= 12 && b[0] == 0x52 && b[1] == 0x49 && b[2] == 0x46 && b[3] == 0x46 && b[8] == 0x57
        && b[9] == 0x45 && b[10] == 0x42 && b[11] == 0x50 {
        return MediaKind::Image;
    }
    if n >= 2 && b[0] == 0x42 && b[1] == 0x4d {
        return MediaKind::Image;
    }
    if n >= 8 && b[4] == 0x66 && b[5] == 0x74 && b[6] == 0x79 && b[7] == 0x70 {
        return MediaKind::Video;
    }
    if n >= 4 && b[0] == 0x1a && b[1] == 0x45 && b[2] == 0xdf && b[3] == 0xa3 {
        return MediaKind::Video;
    }
    if n >= 12 && b[0] == 0x52 && b[1] == 0x49 && b[2] == 0x46 && b[3] == 0x46 && b[8] == 0x41
        && b[9] == 0x56 && b[10] == 0x49 && b[11] == 0x20 {
        return MediaKind::Video;
    }
    MediaKind::Other
}

// ---------------------------------------------------------------------------
// Decoded rasters
// ---------------------------------------------------------------------------

/// A decoded raster: RGBA bytes, four per pixel, row-major.
pub struct RawImage {
    pub width: u32,
    pub height: u32,
    pub rgba: Vec<u8>,
}

impl RawImage {
    /// A usable raster: nonempty, pixel data of exactly the right size, and
    /// small enough for the hash pipeline's 32-bit arithmetic.
    pub open spec fn wf(&self) -> bool {
        &&& self.rgba@.len() == 4 * (self.width as int) * (self.height as int)
        &&& self.width >= 1
        &&& self.height >= 1
        &&& 4 * (self.width as int) * (self.height as int) <= u32::MAX
    }
}

/// What the image codec decodes from a byte payload: `None` when the bytes
/// are not a decodable image.
pub uninterp spec fn decoded_image(b: Seq<u8>) -> Option<(u32, u32, Seq<u8>)>;

/// Relies on image::load_from_memory and DynamicImage::to_rgba8: decoding is
/// a deterministic function of the bytes, and the RGBA buffer holds exactly
/// width times height 4-byte pixels.
#[verifier::external_body]
fn decode_image(bytes: &[u8]) -> (r: Option<RawImage>)
    ensures
        match r {
            Some(img) => decoded_image(bytes@) == Some(
                (img.width, img.height, img.rgba@),
            ) && img.rgba@.len() == 4 * (img.width as int) * (img.height as int),
            None => decoded_image(bytes@) is None,
        },
{
    match image::load_from_memory(bytes) {
        Ok(img) => {
            let rgba = img.to_rgba8();
            let (w, h) = (rgba.width(), rgba.height());
            Some(RawImage { width: w, height: h, rgba: rgba.into_raw() })
        },
        Err(_) => None,
    }
}

/// The flat gray pixels of the fallback raster: opaque mid-gray RGBA.
pub open spec fn gray_pixels() -> Seq<u8> {
    Seq::new(160000, |i: int| if i % 4 == 3 { 255u8 } else { 128u8 })
}

/// The 200 by 200 flat gray placeholder used when a payload cannot be
/// decoded (or is a video on a platform without a frame extractor): cache
/// derivation must never hard-fail a write.
pub fn placeholder_raster() -> (r: RawImage)
    ensures
        r.wf(),
        r.width == 200,
        r.height == 200,
        r.rgba@ == gray_pixels(),
{
    let mut rgba: Vec<u8> = Vec::new();
    let mut i: usize = 0;
    while i < 40000
        invariant
            0 <= i <= 40000,
            rgba@.len() == 4 * i,
            forall|k: int| 0 <= k < rgba@.len() ==> rgba@[k] == gray_pixels()[k],
        decreases 40000 - i,
    {
        rgba.push(128);
        rgba.push(128);
        rgba.push(128);
        rgba.push(255);
        i = i + 1;
    }
    let r = RawImage { width: 200, height: 200, rgba };
    proof {
        assert(r.rgba@ =~= gray_pixels());
    }
    r
}

/// The raster the cache pipeline works on for a payload: the decoded image
/// when it decodes and is usable, the gray placeholder otherwise, and always
/// the placeholder for videos (no frame extractor on this platform) and
/// generic payloads.
pub open spec fn effective_raster(b: Seq<u8>) -> (u32, u32, Seq<u8>) {
    if classify(b) is Image {
        match decoded_image(b) {
            Some(dec) => {
                if dec.0 >= 1 && dec.1 >= 1 && 4 * (dec.0 as int) * (dec.1 as int) <= u32::MAX {
                    dec
                } else {
                    (200u32, 200u32, gray_pixels())
                }
            },
            None => (200u32, 200u32, gray_pixels()),
        }
    } else {
        (200u32, 200u32, gray_pixels())
    }
}

/// Decodes the payload according to its category, falling back to the
/// placeholder exactly as `effective_raster` describes.
pub fn raster_for(bytes: &[u8]) -> (r: RawImage)
    ensures
        r.wf(),
        (r.width, r.height, r.rgba@) == effective_raster(bytes@),
{
    let kind = sniff_kind(bytes);
    match kind {
        MediaKind::Image => {
            match decode_image(bytes) {
                Some(img) => {
                    if img.width >= 1 && img.height >= 1 && (img.rgba.len() as u64) <= u32::MAX
                        as u64 {
                        proof {
                            assert(4 * (img.width as int) * (img.height as int) <= u32::MAX);
                        }
                        img
                    } else {
                        placeholder_raster()
                    }
                },
                None => placeholder_raster(),
            }
        },
        _ => placeholder_raster(),
    }
}

// ---------------------------------------------------------------------------
// Blur hash and thumbnail derivation
// ---------------------------------------------------------------------------

/// The compact perceptual hash string for a raster at a component
/// resolution: a deterministic function of its arguments.
pub uninterp spec fn blurhash_of(cx: u32, cy: u32, w: u32, h: u32, rgba: Seq<u8>) -> Seq<char>;

/// Relies on blurhash::encode: with components in 1 to 9 and a pixel buffer
/// of exactly 4*w*h bytes it always succeeds, its output is a deterministic
/// function of the arguments, and the base83 alphabet it emits holds no
/// space character.
#[verifier::external_body]
fn blurhash_encode(cx: u32, cy: u32, img: &RawImage) -> (r: String)
    requires
        1 <= cx <= 9,
        1 <= cy <= 9,
        img.wf(),
    ensures
        r@ == blurhash_of(cx, cy, img.width, img.height, img.rgba@),
        forall|i: int| 0 <= i < r@.len() ==> r@[i] != ' ',
        r@.len() > 0,
{
    blurhash::encode(cx, cy, img.width, img.height, img.rgba.as_slice()).unwrap()
}

/// The encoded JPEG thumbnail for a raster: resized to fill 200 by 200 with
/// a triangle filter, then JPEG-compressed; deterministic in the raster.
pub uninterp spec fn thumb_jpeg_of(w: u32, h: u32, rgba: Seq<u8>) -> Seq<u8>;

/// Relies on image's RgbaImage::from_raw, DynamicImage::resize_to_fill with
/// the triangle filter, and its JPEG encoder: all deterministic functions of
/// the pixel data.  On a well-formed raster nothing can fail: the buffer
/// size matches exactly, the resized raster is a nonempty 200 by 200, and
/// JPEG encoding into an in-memory buffer reports no error for it.
#[verifier::external_body]
fn make_thumbnail(img: &RawImage) -> (t: Vec<u8>)
    requires
        img.wf(),
    ensures
        t@ == thumb_jpeg_of(img.width, img.height, img.rgba@),
{
    let buf = RgbaImage::from_raw(img.width, img.height, img.rgba.clone()).unwrap();
    let thumb = DynamicImage::ImageRgba8(buf).resize_to_fill(200, 200, FilterType::Triangle);
    let rgb = thumb.to_rgb8();
    let mut out: Vec<u8> = Vec::new();
    let cur = &mut std::io::Cursor::new(&mut out);
    image::write_buffer_with_format(cur, rgb.as_raw(), rgb.width(), rgb.height(), ColorType::Rgb8, ImageFormat::Jpeg).unwrap();
    out
}

// ---------------------------------------------------------------------------
// The sidecar hash entry: "<hash> <ratio to two decimals>"
// ---------------------------------------------------------------------------

/// The aspect ratio in hundredths, rounded half up: what the two-decimal
/// text in a hash entry denotes.
pub open spec fn ratio_hundredths(w: u32, h: u32) -> int
    recommends
        h >= 1,
{
    (200 * (w as int) + (h as int)) / (2 * (h as int))
}

/// The aspect ratio of a raster in hundredths.
pub fn compute_ratio_hundredths(w: u32, h: u32) -> (r: u64)
    requires
        h >= 1,
    ensures
        r == ratio_hundredths(w, h),
{
    let num: u64 = 200u64 * (w as u64) + (h as u64);
    let den: u64 = 2u64 * (h as u64);
    num / den
}

/// The decimal digits of `n`, most significant first, as ASCII bytes.
pub open spec fn dec_bytes(n: int) -> Seq<u8>
    decreases n,
{
    if n < 10 {
        seq![(48 + if n >= 0 { n } else { 0 }) as u8]
    } else {
        dec_bytes(n / 10).push((48 + n % 10) as u8)
    }
}

/// Writes `n` in decimal ASCII.
pub fn dec_bytes_exec(n: u64) -> (r: Vec<u8>)
    ensures
        r@ == dec_bytes(n as int),
        r@.len() >= 1,
    decreases n,
{
    if n < 10 {
        let mut v: Vec<u8> = Vec::new();
        v.push(48 + (n as u8));
        proof {
            assert(v@ =~= dec_bytes(n as int));
        }
        v
    } else {
        let mut v = dec_bytes_exec(n / 10);
        v.push(48 + ((n % 10) as u8));
        v
    }
}

/// The ASCII text of a ratio in hundredths: integer part, a dot, then
/// exactly two decimal digits.
pub open spec fn ratio_ascii(r: int) -> Seq<u8> {
    dec_bytes(r / 100) + seq![46u8, (48 + (r % 100) / 10) as u8, (48 + r % 10) as u8]
}

/// Writes a ratio in hundredths as two-decimal ASCII text.
pub fn ratio_ascii_exec(r: u64) -> (v: Vec<u8>)
    ensures
        v@ == ratio_ascii(r as int),
{
    let mut v = dec_bytes_exec(r / 100);
    v.push(46);
    v.push(48 + (((r % 100) / 10) as u8));
    v.push(48 + ((r % 10) as u8));
    proof {
        assert(v@ =~= ratio_ascii(r as int));
    }
    v
}

/// The encoded JPEG thumbnail derived for a payload, via its effective
/// raster.
pub open spec fn thumb_bytes_of(b: Seq<u8>) -> Seq<u8> {
    thumb_jpeg_of(effective_raster(b).0, effective_raster(b).1, effective_raster(b).2)
}

/// The full plaintext of a payload's hash entry, before encryption: the
/// perceptual hash at the given component resolution, one space, and the
/// two-decimal aspect ratio.
pub open spec fn sidecar_entry_of(b: Seq<u8>, cx: u32, cy: u32) -> Seq<u8> {
    let r = effective_raster(b);
    vstd::utf8::encode_utf8(blurhash_of(cx, cy, r.0, r.1, r.2)) + seq![32u8] + ratio_ascii(
        ratio_hundredths(r.0, r.1),
    )
}

/// Builds the plaintext hash entry for a raster.
pub fn build_entry(hash: &String, ratio: u64) -> (v: Vec<u8>)
    ensures
        v@ == vstd::utf8::encode_utf8(hash@) + seq![32u8] + ratio_ascii(ratio as int),
{
    let mut v = hash.as_str().as_bytes_vec();
    v.push(32);
    let tail = ratio_ascii_exec(ratio);
    let mut i: usize = 0;
    let n = tail.len();
    while i < n
        invariant
            0 <= i <= n,
            n == tail@.len(),
            v@ == vstd::utf8::encode_utf8(hash@) + seq![32u8] + tail@.take(i as int),
        decreases n - i,
    {
        proof {
            assert((vstd::utf8::encode_utf8(hash@) + seq![32u8] + tail@.take(i as int)).push(
                tail@[i as int],
            ) =~= vstd::utf8::encode_utf8(hash@) + seq![32u8] + tail@.take(i as int + 1));
        }
        v.push(tail[i]);
        i = i + 1;
    }
    proof {
        assert(tail@.take(n as int) =~= tail@);
        assert(v@ =~= vstd::utf8::encode_utf8(hash@) + seq![32u8] + ratio_ascii(ratio as int));
    }
    v
}

// ---------------------------------------------------------------------------
// Unique filenames: "<UTC timestamp>_<4-digit counter>.<category>"
// ---------------------------------------------------------------------------

/// Characters that are ASCII decimal digits.
pub open spec fn digits_only(s: Seq<char>) -> bool {
    forall|i: int| 0 <= i < s.len() ==> 48 <= #[trigger] (s[i] as u32) <= 57
}

/// The ASCII digit character for a value below ten.
pub open spec fn digit_char(d: int) -> char {
    if d == 0 {
        '0'
    } else if d == 1 {
        '1'
    } else if d == 2 {
        '2'
    } else if d == 3 {
        '3'
    } else if d == 4 {
        '4'
    } else if d == 5 {
        '5'
    } else if d == 6 {
        '6'
    } else if d == 7 {
        '7'
    } else if d == 8 {
        '8'
    } else {
        '9'
    }
}

/// A counter zero-padded to four digits.
pub open spec fn pad4(c: int) -> Seq<char> {
    seq![
        digit_char((c / 1000) % 10),
        digit_char((c / 100) % 10),
        digit_char((c / 10) % 10),
        digit_char(c % 10),
    ]
}

/// The unique-filename grammar: a timestamp, an underscore, a four-digit
/// counter, a dot, and the category hint.
pub open spec fn assemble_name(ts: Seq<char>, c: int, ext: Seq<char>) -> Seq<char> {
    ts + seq!['_'] + pad4(c) + seq!['.'] + ext
}

/// Relies on chrono's `Utc::now` formatted with a numeric-only pattern (year
/// through nanoseconds): the text is always ASCII digits.  The value depends
/// on the clock, so nothing else is promised of it.
#[verifier::external_body]
fn now_timestamp() -> (r: String)
    ensures
        digits_only(r@),
{
    chrono::Utc::now().format("%Y%m%d%H%M%S%9f").to_string()
}

/// One decimal digit as a string slice.
fn digit_str(d: u64) -> (r: &'static str)
    requires
        d < 10,
    ensures
        r@ == seq![digit_char(d as int)],
        r@.len() == 1,
        r@[0] as u32 == 48 + d,
{
    proof {
        reveal_strlit("0");
        reveal_strlit("1");
        reveal_strlit("2");
        reveal_strlit("3");
        reveal_strlit("4");
        reveal_strlit("5");
        reveal_strlit("6");
        reveal_strlit("7");
        reveal_strlit("8");
        reveal_strlit("9");
        assert("0"@ =~= seq![digit_char(0)]);
        assert("1"@ =~= seq![digit_char(1)]);
        assert("2"@ =~= seq![digit_char(2)]);
        assert("3"@ =~= seq![digit_char(3)]);
        assert("4"@ =~= seq![digit_char(4)]);
        assert("5"@ =~= seq![digit_char(5)]);
        assert("6"@ =~= seq![digit_char(6)]);
        assert("7"@ =~= seq![digit_char(7)]);
        assert("8"@ =~= seq![digit_char(8)]);
        assert("9"@ =~= seq![digit_char(9)]);
    }
    match d {
        0 => "0",
        1 => "1",
        2 => "2",
        3 => "3",
        4 => "4",
        5 => "5",
        6 => "6",
        7 => "7",
        8 => "8",
        _ => "9",
    }
}

/// Assembles "<ts>_<counter, zero-padded to 4>.<ext>".
fn build_name(ts: &String, counter: u64, ext: &str) -> (r: String)
    requires
        counter <= 9999,
        digits_only(ts@),
    ensures
        r@ == assemble_name(ts@, counter as int, ext@),
        r@.len() == ts@.len() + 6 + ext@.len(),
        r@.subrange(r@.len() - ext@.len(), r@.len() as int) == ext@,
        r@[r@.len() - ext@.len() - 1] == '.',
        forall|i: int| 0 <= i < r@.len() - ext@.len() ==> r@[i] != '/',
{
    let mut r = ts.clone();
    r.append("_");
    r.append(digit_str(counter / 1000));
    r.append(digit_str((counter / 100) % 10));
    r.append(digit_str((counter / 10) % 10));
    r.append(digit_str(counter % 10));
    r.append(".");
    r.append(ext);
    proof {
        reveal_strlit("_");
        reveal_strlit(".");
        assert(r@ =~= assemble_name(ts@, counter as int, ext@));
        assert(r@.subrange(r@.len() - ext@.len(), r@.len() as int) =~= ext@);
        assert forall|i: int| 0 <= i < r@.len() - ext@.len() implies r@[i] != '/' by {
            vstd::utf8::char_u32_cast(r@[i], r@[i] as u32);
            vstd::utf8::char_u32_cast('/', '/' as u32);
            if i < ts@.len() {
                assert(r@[i] == ts@[i]);
                assert(48 <= (ts@[i] as u32) <= 57);
            }
            assert(('/' as u32) == 47);
        }
    }
    r
}

/// Picks a filename that is not yet used inside `base_dir`: the current UTC
/// timestamp, an underscore, a four-digit counter raised until the name is
/// free, a dot and the category hint.  Exhausting all 9999 counters within
/// one timestamp is reported as an error rather than reached in practice.
pub fn generate_unique_filename(vault: &Vault, base_dir: &str, ext: &str) -> (r: Result<
    String,
    VaultError,
>)
    ensures
        match r {
            Ok(name) => {
                &&& vault.file_at(join_spec(base_dir@, name@)) is None
                &&& name@.len() > ext@.len() + 1
                &&& name@.subrange(name@.len() - ext@.len(), name@.len() as int) == ext@
                &&& name@[name@.len() - ext@.len() - 1] == '.'
                &&& forall|i: int| 0 <= i < name@.len() - ext@.len() ==> name@[i] != '/'
                &&& exists|ts: Seq<char>, c: int|
                    {
                        &&& #[trigger] assemble_name(ts, c, ext@) == name@
                        &&& digits_only(ts)
                        &&& 1 <= c <= 9999
                        &&& forall|c2: int|
                            1 <= c2 < c ==> vault.file_at(
                                join_spec(base_dir@, #[trigger] assemble_name(ts, c2, ext@)),
                            ) is Some
                    }
            },
            Err(e) => e is Error && exists|ts: Seq<char>|
                digits_only(ts) && forall|c: int|
                    1 <= c <= 9999 ==> vault.file_at(
                        join_spec(base_dir@, #[trigger] assemble_name(ts, c, ext@)),
                    ) is Some,
        },
{
    let ts = now_timestamp();
    let mut counter: u64 = 1;
    while counter <= 9999
        invariant
            1 <= counter <= 10000,
            digits_only(ts@),
            forall|c2: int|
                1 <= c2 < counter ==> vault.file_at(
                    join_spec(base_dir@, #[trigger] assemble_name(ts@, c2, ext@)),
                ) is Some,
        decreases 10000 - counter,
    {
        let name = build_name(&ts, counter, ext);
        let full = join(base_dir, name.as_str());
        match vault.file_get(&full) {
            Some(_) => {},
            None => {
                return Ok(name);
            },
        }
        counter = counter + 1;
    }
    Err(VaultError::Error("Too many files with the same timestamp".to_string()))
}

// ---------------------------------------------------------------------------
// The cache pipeline and the two write paths
// ---------------------------------------------------------------------------

/// Derives and stores the two sidecars for the payload `image_data` of the
/// primary file at `file_path`: the encrypted "<hash> <ratio>" entry under
/// `.hash` and the encrypted JPEG thumbnail under `.thumbs`, creating both
/// hidden directories on demand.  A payload that does not decode is cached
/// from the gray placeholder rather than failing the write.
pub fn cache_image(
    vault: &mut Vault,
    km: &KeyManager,
    image_data: &Vec<u8>,
    file_path: &str,
    components_x: u32,
    components_y: u32,
) -> (r: Result<(), VaultError>)
    ensures
        km.is_unlocked() && 1 <= components_x <= 9 && 1 <= components_y <= 9 && has_slash(
            file_path@,
        ) ==> r is Ok,
        match r {
            Ok(_) => {
                &&& has_slash(file_path@)
                &&& km.is_unlocked()
                &&& 1 <= components_x <= 9
                &&& 1 <= components_y <= 9
                &&& forall|q: Seq<char>|
                    #[trigger] final(vault).file_at(q) == (if q == hash_sidecar(file_path@) {
                        Some(
                            session_enc(
                                km,
                                sidecar_entry_of(image_data@, components_x, components_y),
                            ),
                        )
                    } else if q == thumb_sidecar(file_path@) {
                        Some(session_enc(km, thumb_bytes_of(image_data@)))
                    } else {
                        old(vault).file_at(q)
                    })
                &&& forall|d: Seq<char>|
                    #[trigger] final(vault).has_dir(d) == (d == join_spec(
                        crate::paths::parent_of(file_path@),
                        ".hash"@,
                    ) || d == join_spec(crate::paths::parent_of(file_path@), ".thumbs"@) || old(
                        vault,
                    ).has_dir(d))
            },
            Err(e) => e is Error && *final(vault) == *old(vault),
        },
{
    if components_x < 1 || components_x > 9 || components_y < 1 || components_y > 9 {
        return Err(VaultError::Error("Hash components out of range".to_string()));
    }
    match split_path(file_path) {
        Some((parent, name)) => {
            proof {
                lemma_sidecars_distinct(file_path@);
            }
            let raster = raster_for(image_data.as_slice());
            let hash = blurhash_encode(components_x, components_y, &raster);
            let ratio = compute_ratio_hundredths(raster.width, raster.height);
            let entry = build_entry(&hash, ratio);
            let enc_entry = match encrypt_data(km, entry.as_slice()) {
                Ok(c) => c,
                Err(e) => {
                    return Err(e);
                },
            };
            let thumb = make_thumbnail(&raster);
            let enc_thumb = match encrypt_data(km, thumb.as_slice()) {
                Ok(c) => c,
                Err(e) => {
                    return Err(e);
                },
            };
            let hash_dir = join(parent.as_str(), ".hash");
            let thumb_dir = join(parent.as_str(), ".thumbs");
            let hash_path = join(hash_dir.as_str(), name.as_str());
            let thumb_path = join(thumb_dir.as_str(), name.as_str());
            vault.dir_insert(hash_dir);
            vault.file_set(hash_path, enc_entry);
            vault.dir_insert(thumb_dir);
            vault.file_set(thumb_path, enc_thumb);
            Ok(())
        },
        None => Err(VaultError::Error("Invalid path".to_string())),
    }
}

/// The filename category hint for a payload class.
pub open spec fn ext_of(k: MediaKind) -> Seq<char> {
    match k {
        MediaKind::Image => "image"@,
        MediaKind::Video => "video"@,
        MediaKind::Other => "file"@,
    }
}

/// Whether `name` ends in a dot followed by the category hint of `k`.
pub open spec fn name_has_ext(name: Seq<char>, k: MediaKind) -> bool {
    &&& name.len() > ext_of(k).len() + 1
    &&& name.subrange(name.len() - ext_of(k).len(), name.len() as int) == ext_of(k)
    &&& name[name.len() - ext_of(k).len() - 1] == '.'
}

/// Stores a media payload in `dir` under a fresh generated name: classifies
/// it, derives and writes both encrypted sidecars (for image and video
/// payloads), then writes the encrypted payload itself; a generic payload
/// is stored without sidecars.  Returns the assigned filename.
pub fn save_file(vault: &mut Vault, km: &KeyManager, image_data: Vec<u8>, dir: String) -> (r:
    Result<String, VaultError>)
    ensures
        r is Err ==> !km.is_unlocked() || (exists|ts: Seq<char>|
            digits_only(ts) && forall|c: int|
                1 <= c <= 9999 ==> old(vault).file_at(
                    join_spec(
                        dir@,
                        #[trigger] assemble_name(ts, c, ext_of(classify(image_data@))),
                    ),
                ) is Some),
        match r {
            Ok(name) => {
                &&& km.is_unlocked()
                &&& name_has_ext(name@, classify(image_data@))
                &&& forall|i: int| 0 <= i < name@.len() ==> name@[i] != '/'
                &&& old(vault).file_at(join_spec(dir@, name@)) is None
                &&& (classify(image_data@) is Other ==> {
                    &&& forall|q: Seq<char>|
                        #[trigger] final(vault).file_at(q) == (if q == join_spec(dir@, name@) {
                            Some(session_enc(km, image_data@))
                        } else {
                            old(vault).file_at(q)
                        })
                    &&& forall|d: Seq<char>| #[trigger]
                        final(vault).has_dir(d) == old(vault).has_dir(d)
                })
                &&& (!(classify(image_data@) is Other) ==> {
                    &&& forall|q: Seq<char>|
                        #[trigger] final(vault).file_at(q) == (if q == join_spec(dir@, name@) {
                            Some(session_enc(km, image_data@))
                        } else if q == hash_sidecar(join_spec(dir@, name@)) {
                            Some(session_enc(km, sidecar_entry_of(image_data@, 2, 2)))
                        } else if q == thumb_sidecar(join_spec(dir@, name@)) {
                            Some(session_enc(km, thumb_bytes_of(image_data@)))
                        } else {
                            old(vault).file_at(q)
                        })
                    &&& forall|d: Seq<char>|
                        #[trigger] final(vault).has_dir(d) == (d == join_spec(dir@, ".hash"@)
                            || d == join_spec(dir@, ".thumbs"@) || old(vault).has_dir(d))
                })
            },
            Err(e) => e is Error && *final(vault) == *old(vault),
        },
{
    let kind = sniff_kind(image_data.as_slice());
    let ext = match kind {
        MediaKind::Image => "image",
        MediaKind::Video => "video",
        MediaKind::Other => "file",
    };
    proof {
        reveal_strlit("image");
        reveal_strlit("video");
        reveal_strlit("file");
    }
    let name = match generate_unique_filename(vault, dir.as_str(), ext) {
        Ok(n) => n,
        Err(e) => {
            return Err(e);
        },
    };
    proof {
        assert(ext@ == ext_of(classify(image_data@)));
        assert forall|i: int| 0 <= i < name@.len() implies name@[i] != '/' by {
            if i >= name@.len() - ext@.len() {
                assert(name@[i] == name@.subrange(
                    name@.len() - ext@.len(),
                    name@.len() as int,
                )[i - (name@.len() - ext@.len())]);
            }
        }
    }
    let path = join(dir.as_str(), name.as_str());
    let enc = match encrypt_data(km, image_data.as_slice()) {
        Ok(c) => c,
        Err(e) => {
            return Err(e);
        },
    };
    let is_media = match kind {
        MediaKind::Other => false,
        _ => true,
    };
    proof {
        crate::paths::lemma_join_split(dir@, name@);
    }
    if is_media {
        match cache_image(vault, km, &image_data, path.as_str(), 2, 2) {
            Ok(_) => {},
            Err(e) => {
                return Err(e);
            },
        }
    }
    vault.file_set(path, enc);
    Ok(name)
}

/// Stores a generic payload in `dir` under a fresh generated name with the
/// opaque-file category hint, encrypted, and with no sidecars ever created.
pub fn write_opaque_file(vault: &mut Vault, km: &KeyManager, data: Vec<u8>, dir: String) -> (r:
    Result<String, VaultError>)
    ensures
        r is Err ==> !km.is_unlocked() || (exists|ts: Seq<char>|
            digits_only(ts) && forall|c: int|
                1 <= c <= 9999 ==> old(vault).file_at(
                    join_spec(dir@, #[trigger] assemble_name(ts, c, ext_of(MediaKind::Other))),
                ) is Some),
        match r {
            Ok(name) => {
                &&& km.is_unlocked()
                &&& name_has_ext(name@, MediaKind::Other)
                &&& forall|i: int| 0 <= i < name@.len() ==> name@[i] != '/'
                &&& old(vault).file_at(join_spec(dir@, name@)) is None
                &&& forall|q: Seq<char>|
                    #[trigger] final(vault).file_at(q) == (if q == join_spec(dir@, name@) {
                        Some(session_enc(km, data@))
                    } else {
                        old(vault).file_at(q)
                    })
                &&& forall|d: Seq<char>| #[trigger] final(vault).has_dir(d) == old(vault).has_dir(
                    d,
                )
            },
            Err(e) => e is Error && *final(vault) == *old(vault),
        },
{
    proof {
        reveal_strlit("file");
    }
    let name = match generate_unique_filename(vault, dir.as_str(), "file") {
        Ok(n) => n,
        Err(e) => {
            return Err(e);
        },
    };
    proof {
        assert forall|i: int| 0 <= i < name@.len() implies name@[i] != '/' by {
            if i >= name@.len() - "file"@.len() {
                assert(name@[i] == name@.subrange(
                    name@.len() - "file"@.len(),
                    name@.len() as int,
                )[i - (name@.len() - "file"@.len())]);
            }
        }
    }
    let path = join(dir.as_str(), name.as_str());
    let enc = match encrypt_data(km, data.as_slice()) {
        Ok(c) => c,
        Err(e) => {
            return Err(e);
        },
    };
    vault.file_set(path, enc);
    Ok(name)
}

} // verus!
