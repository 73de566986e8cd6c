//! Pictures: decoding and encoding them, and making thumbnails.

use image::codecs::png::PngEncoder;
use image::{ColorType, ImageFormat};
use vstd::prelude::*;

use crate::tiff::{has_planes, is_jpeg_packed, keeps_planes, packs_as_jpeg};

verus! {

// ── Decoding and encoding ─────────────────────────────────────────────────────

/// A decoded picture: its width and height, the bytes and the channels of a pixel, and the
/// bytes of all pixels, row by row. A sample of two bytes has the one that counts most first.
pub type Raster = (u32, u32, u8, u8, Vec<u8>);

/// What a decoded picture holds.
pub type RasterModel = (u32, u32, u8, u8, Seq<u8>);

/// What an optional picture holds.
pub open spec fn raster_view(r: Option<Raster>) -> Option<RasterModel> {
    match r {
        Some(p) => Some((p.0, p.1, p.2, p.3, p.4@)),
        None => None,
    }
}

/// What `image::load_from_memory_with_format` decodes the bytes of a PNG or a TIFF file to.
pub uninterp spec fn decoded(bytes: Seq<u8>, is_png: bool) -> Option<RasterModel>;

/// A PNG file, or a TIFF file with the channels of a pixel together and not packed as JPEG.
/// Where the channels stand apart, the TIFF decoder of `image` reads the first alone into a
/// buffer for all of them, and multiplies their number without a check: it panics. What is
/// packed as JPEG goes to a decoder whose samples are not the same on all processors, and
/// which panics on some damaged files.
pub open spec fn is_decodable(bytes: Seq<u8>, is_png: bool) -> bool {
    is_png || (!has_planes(bytes) && !is_jpeg_packed(bytes))
}

/// Calls `image::load_from_memory_with_format`, and puts samples of two bytes into the same
/// order on every machine. What it decodes depends on the bytes and on the format alone;
/// nothing more is claimed of it.
#[verifier::external_body]
fn decode(bytes: &[u8], is_png: bool) -> (r: Option<Raster>)
    requires
        is_decodable(bytes@, is_png),
    ensures
        raster_view(r) == decoded(bytes@, is_png),
{
    let format = if is_png { ImageFormat::Png } else { ImageFormat::Tiff };
    let picture = image::load_from_memory_with_format(bytes, format).ok()?;
    let (width, height, color) = (picture.width(), picture.height(), picture.color());
    let samples = match picture.as_flat_samples_u16() {
        Some(wide) => wide.samples.iter().flat_map(|s| s.to_be_bytes()).collect(),
        None => picture.as_bytes().to_vec(),
    };
    Some((width, height, color.bytes_per_pixel(), color.channel_count(), samples))
}

/// The picture in the bytes of a PNG or a TIFF file; none where it cannot be decoded, and
/// none in a TIFF file that keeps its channels apart or is packed as JPEG.
pub open spec fn picture_in(bytes: Seq<u8>, is_png: bool) -> Option<RasterModel> {
    if is_decodable(bytes, is_png) {
        decoded(bytes, is_png)
    } else {
        None
    }
}

/// Reads the picture in the bytes of a PNG or a TIFF file.
pub fn read_picture(bytes: &[u8], is_png: bool) -> (r: Option<Raster>)
    ensures
        raster_view(r) == picture_in(bytes@, is_png),
{
    if !is_png && (keeps_planes(bytes) || packs_as_jpeg(bytes)) {
        return None;
    }
    decode(bytes, is_png)
}

/// There are as many bytes as the pixels of the picture take.
pub open spec fn fills(p: RasterModel) -> bool {
    p.4.len() == p.0 * p.1 * p.2
}

/// What `image::codecs::png::PngEncoder::encode` encodes pixels to.
pub uninterp spec fn encoded(p: RasterModel) -> Option<Seq<u8>>;

/// What an optional list of bytes holds.
pub open spec fn opt_bytes(b: Option<Vec<u8>>) -> Option<Seq<u8>> {
    match b {
        Some(v) => Some(v@),
        None => None,
    }
}

/// Calls `PngEncoder::encode`, which takes samples of two bytes as a [`Raster`] has them. What
/// it encodes depends on the picture alone; nothing where PNG has no pixels of that kind.
/// Nothing more is claimed of it.
#[verifier::external_body]
#[allow(deprecated)]
fn encode(p: &Raster) -> (r: Option<Vec<u8>>)
    requires
        fills((p.0, p.1, p.2, p.3, p.4@)),
    ensures
        opt_bytes(r) == encoded((p.0, p.1, p.2, p.3, p.4@)),
{
    let color = match (p.3, p.2) {
        (1, 1) => ColorType::L8,
        (1, 2) => ColorType::L16,
        (2, 2) => ColorType::La8,
        (2, 4) => ColorType::La16,
        (3, 3) => ColorType::Rgb8,
        (3, 6) => ColorType::Rgb16,
        (4, 4) => ColorType::Rgba8,
        (4, 8) => ColorType::Rgba16,
        _ => return None,
    };
    let mut png = Vec::new();
    PngEncoder::new(&mut png).encode(&p.4, p.0, p.1, color).ok()?;
    Some(png)
}

/// The number of pixels of a picture fits in eight bytes.
proof fn lemma_pixels(width: u32, height: u32)
    ensures
        0 <= width * height <= 0xffff_ffff_ffff_ffff,
{
    assert(0 <= width * height <= 0xffff_ffff_ffff_ffff) by (nonlinear_arith)
        requires
            0 <= width <= 0xffff_ffff,
            0 <= height <= 0xffff_ffff,
    ;
}

/// The bytes of a picture as PNG; none where the picture is empty, lacks pixels or cannot be
/// encoded.
pub open spec fn as_png(p: RasterModel) -> Option<Seq<u8>> {
    if p.0 == 0 || p.1 == 0 || !fills(p) {
        None
    } else {
        encoded(p)
    }
}

/// Encodes a picture as PNG.
pub fn to_png(p: &Raster) -> (r: Option<Vec<u8>>)
    ensures
        opt_bytes(r) == as_png((p.0, p.1, p.2, p.3, p.4@)),
{
    if p.0 == 0 || p.1 == 0 {
        return None;
    }
    proof {
        lemma_pixels(p.0, p.1);
        let (n, s) = (p.0 * p.1, p.2 as int);
        assert(0 <= n * s <= 0xffff_ffff_ffff_ffff * 255) by (nonlinear_arith)
            requires
                0 <= n <= 0xffff_ffff_ffff_ffff,
                0 <= s <= 255,
        ;
    }
    let want: u128 = p.0 as u128 * p.1 as u128 * p.2 as u128;
    if p.4.len() as u128 != want {
        return None;
    }
    encode(p)
}

// ── Thumbnails ────────────────────────────────────────────────────────────────

/// Pixels with red, green, blue and alpha: width, height and the bytes, row by row.
pub type Pixels = (u32, u32, Vec<u8>);

/// What pixels hold.
pub type PixelsModel = (u32, u32, Seq<u8>);

/// What optional pixels hold.
pub open spec fn pixels(r: Option<Pixels>) -> Option<PixelsModel> {
    match r {
        Some(p) => Some((p.0, p.1, p.2@)),
        None => None,
    }
}

/// What `image` decodes the bytes of a PNG file to, as red, green, blue and alpha.
pub uninterp spec fn decoded_rgba(bytes: Seq<u8>) -> Option<PixelsModel>;

/// Calls `image::load_from_memory_with_format` for PNG, and `DynamicImage::to_rgba8` on the
/// picture. The pixels depend on the bytes alone, and take four bytes each; nothing more is
/// claimed of them.
#[verifier::external_body]
pub(crate) fn decode_rgba(bytes: &[u8]) -> (r: Option<Pixels>)
    ensures
        pixels(r) == decoded_rgba(bytes@),
        r matches Some(p) ==> p.2@.len() == p.0 * p.1 * 4,
{
    let rgba = image::load_from_memory_with_format(bytes, ImageFormat::Png).ok()?.to_rgba8();
    Some((rgba.width(), rgba.height(), rgba.into_raw()))
}

/// The height of a thumbnail; smaller pictures stay as they are.
pub const THUMBNAIL_HEIGHT: u32 = 80;

/// The width of the thumbnail of a picture: in proportion, rounded, and at least one.
pub open spec fn thumbnail_width(width: u32, height: u32) -> u32 {
    let w = (2 * THUMBNAIL_HEIGHT * width + height) / (2 * height as int);
    if w == 0 {
        1
    } else {
        w as u32
    }
}

/// The byte of channel `k` of the pixel in column `x` and row `y` of a picture.
pub open spec fn channel_at(p: PixelsModel, x: int, y: int, k: int) -> u8 {
    p.2[(y * p.0 + x) * 4 + k]
}

/// The pixels of a picture shrunk to the given size: each is the one in the same place.
pub open spec fn shrunk(p: PixelsModel, width: u32, height: u32) -> Seq<u8> {
    Seq::new(
        (width * height * 4) as nat,
        |i: int|
            {
                let (x, y) = (i / 4 % width as int, i / 4 / width as int);
                channel_at(p, x * p.0 / width as int, y * p.1 / height as int, i % 4)
            },
    )
}

/// The thumbnail of a picture.
pub open spec fn thumbnail_of(p: PixelsModel) -> PixelsModel {
    if p.0 == 0 || p.1 <= THUMBNAIL_HEIGHT {
        p
    } else {
        let w = thumbnail_width(p.0, p.1);
        (w, THUMBNAIL_HEIGHT, shrunk(p, w, THUMBNAIL_HEIGHT))
    }
}

/// A thumbnail has a pixel at least in each row, and is no wider than the picture.
proof fn lemma_thumbnail_width(width: u32, height: u32)
    requires
        width > 0,
        height > THUMBNAIL_HEIGHT,
    ensures
        0 <= (2 * THUMBNAIL_HEIGHT * width + height) / (2 * height as int) <= width,
        1 <= thumbnail_width(width, height) <= width,
{
    let (w, h) = (width as int, height as int);
    assert(0 <= (160 * w + h) / (2 * h) <= w) by (nonlinear_arith)
        requires
            w >= 1,
            h >= 81,
    ;
}

/// The source of a pixel of the thumbnail is a pixel of the picture.
proof fn lemma_source(at: int, from: int, to: int)
    requires
        0 <= at < to,
        0 < from,
    ensures
        0 <= at * from / to < from,
{
    assert(0 <= at * from / to < from) by (nonlinear_arith)
        requires
            0 <= at < to,
            0 < from,
    ;
}

/// The bytes of a pixel of the picture are there.
proof fn lemma_inside(x: int, y: int, width: int, height: int)
    requires
        0 <= x < width,
        0 <= y < height,
    ensures
        0 <= y * width,
        (y * width + x) * 4 + 4 <= width * height * 4,
{
    assert(0 <= y * width && y * width + x + 1 <= width * height) by (nonlinear_arith)
        requires
            0 <= x < width,
            0 <= y < height,
    ;
}

/// Makes the thumbnail of a picture.
pub fn thumbnail(p: Pixels) -> (r: Pixels)
    requires
        p.2@.len() == p.0 * p.1 * 4,
    ensures
        (r.0, r.1, r.2@) == thumbnail_of((p.0, p.1, p.2@)),
{
    if p.0 == 0 || p.1 <= THUMBNAIL_HEIGHT {
        return p;
    }
    let ghost model = (p.0, p.1, p.2@);
    proof {
        lemma_thumbnail_width(p.0, p.1);
    }
    let scaled: u64 = (2 * THUMBNAIL_HEIGHT as u64 * p.0 as u64 + p.1 as u64) / (2 * p.1 as u64);
    let w: u32 = if scaled == 0 {
        1
    } else {
        scaled as u32
    };
    assert(w == thumbnail_width(p.0, p.1));
    let ghost all = shrunk(model, w, THUMBNAIL_HEIGHT);
    let n: u64 = w as u64 * THUMBNAIL_HEIGHT as u64;
    let mut out: Vec<u8> = Vec::new();
    let mut j: u64 = 0;
    assert(out@ =~= all.take(0));
    while j < n
        invariant
            j <= n,
            n == w * THUMBNAIL_HEIGHT,
            w >= 1,
            p.0 > 0,
            p.1 > THUMBNAIL_HEIGHT,
            p.2@.len() == p.0 * p.1 * 4,
            model == (p.0, p.1, p.2@),
            all == shrunk(model, w, THUMBNAIL_HEIGHT),
            out@ == all.take(4 * j as int),
        decreases n - j,
    {
        let x: u64 = j % w as u64;
        let y: u64 = j / w as u64;
        let len: usize = p.2.len();
        proof {
            let (jj, ww) = (j as int, w as int);
            assert(0 <= jj % ww < ww && 0 <= jj / ww < 80) by (nonlinear_arith)
                requires
                    ww >= 1,
                    0 <= jj < ww * 80,
            ;
            lemma_source(x as int, p.0 as int, w as int);
            lemma_source(y as int, p.1 as int, 80);
            let (a, b) = (x as int, p.0 as int);
            assert(0 <= a * b <= 0xffff_ffff_ffff_ffff) by (nonlinear_arith)
                requires
                    0 <= a <= 0xffff_ffff,
                    0 <= b <= 0xffff_ffff,
            ;
        }
        let sx: u64 = x * p.0 as u64 / w as u64;
        let sy: u64 = y * p.1 as u64 / THUMBNAIL_HEIGHT as u64;
        proof {
            lemma_inside(sx as int, sy as int, p.0 as int, p.1 as int);
        }
        let at: usize = ((sy * p.0 as u64 + sx) * 4) as usize;
        out.push(p.2[at]);
        out.push(p.2[at + 1]);
        out.push(p.2[at + 2]);
        out.push(p.2[at + 3]);
        proof {
            assert(all.len() == 4 * n);
            assert forall|k: int| 0 <= k < 4 implies #[trigger] all[4 * j + k] == p.2@[at + k] by {
                assert((4 * j + k) / 4 == j && (4 * j + k) % 4 == k);
            }
            assert(all[4 * j + 0] == p.2@[at + 0]);
            assert(all[4 * j + 1] == p.2@[at + 1]);
            assert(all[4 * j + 2] == p.2@[at + 2]);
            assert(all[4 * j + 3] == p.2@[at + 3]);
            assert(out@ =~= all.take(4 * (j + 1)));
        }
        j = j + 1;
    }
    assert(all.take(4 * n as int) =~= all);
    (w, THUMBNAIL_HEIGHT, out)
}

/// A thumbnail is never taller than its limit, and a thumbnail of a thumbnail is the same.
pub proof fn law_thumbnail(p: PixelsModel)
    requires
        p.0 > 0,
    ensures
        thumbnail_of(p).1 <= THUMBNAIL_HEIGHT,
        thumbnail_of(thumbnail_of(p)) == thumbnail_of(p),
        p.1 > THUMBNAIL_HEIGHT ==> thumbnail_of(p).1 == THUMBNAIL_HEIGHT && 1 <= thumbnail_of(p).0
            <= p.0,
{
    if p.1 > THUMBNAIL_HEIGHT {
        lemma_thumbnail_width(p.0, p.1);
    }
}

/// A picture that is not too tall stays as it is.
pub proof fn law_small_picture(p: PixelsModel)
    requires
        p.1 <= 80,
    ensures
        thumbnail_of(p) == p,
{
}

/// The width of a thumbnail is that of the picture in proportion to the heights, off by half a
/// pixel at most, but never nothing.
pub proof fn law_thumbnail_width(width: u32, height: u32)
    requires
        width > 0,
        height > 80,
    ensures
        ({
            let w = thumbnail_width(width, height) as int;
            &&& w >= 1
            &&& 2 * w * height <= 160 * width + height || w == 1
            &&& 160 * width < 2 * w * height + height
        }),
{
    lemma_thumbnail_width(width, height);
    let (a, h) = (width as int, height as int);
    let q = (160 * a + h) / (2 * h);
    assert(2 * q * h <= 160 * a + h && 160 * a + h < 2 * q * h + 2 * h) by (nonlinear_arith)
        requires
            h > 0,
            q == (160 * a + h) / (2 * h),
    ;
    let w = thumbnail_width(width, height) as int;
    assert(q == 0 ==> w == 1);
    assert(q > 0 ==> w == q);
    assert(q == 0 ==> 2 * q * h == 0) by (nonlinear_arith);
    assert(q == 0 ==> 2 * w * h == 2 * h) by (nonlinear_arith)
        requires
            q == 0 ==> w == 1,
    ;
    assert(q > 0 ==> 2 * w * h == 2 * q * h) by (nonlinear_arith)
        requires
            q > 0 ==> w == q,
    ;
}

/// Each pixel of a thumbnail is, in all its channels, the pixel in the same place of the
/// picture.
pub proof fn law_thumbnail_pixel(p: PixelsModel, x: int, y: int, k: int)
    requires
        p.0 > 0,
        p.1 > 80,
        0 <= x < thumbnail_of(p).0,
        0 <= y < 80,
        0 <= k < 4,
    ensures
        thumbnail_of(p).2.len() == thumbnail_of(p).0 * thumbnail_of(p).1 * 4,
        channel_at(thumbnail_of(p), x, y, k) == channel_at(
            p,
            x * p.0 / thumbnail_of(p).0 as int,
            y * p.1 / 80,
            k,
        ),
{
    lemma_thumbnail_width(p.0, p.1);
    let w = thumbnail_of(p).0 as int;
    lemma_inside(x, y, w, 80);
    let at = y * w + x;
    let i = at * 4 + k;
    assert(i / 4 == at && i % 4 == k);
    assert(at % w == x && at / w == y) by (nonlinear_arith)
        requires
            at == y * w + x,
            0 <= x < w,
            0 <= y,
    ;
    assert(0 <= i < w * 80 * 4);
}

/// Every PNG file is decoded; a TIFF file is unless it keeps its channels apart or is packed as
/// JPEG.
pub proof fn law_picture_in(bytes: Seq<u8>)
    ensures
        picture_in(bytes, true) == decoded(bytes, true),
        !has_planes(bytes) && !is_jpeg_packed(bytes) ==> picture_in(bytes, false) == decoded(
            bytes,
            false,
        ),
        has_planes(bytes) || is_jpeg_packed(bytes) ==> picture_in(bytes, false) is None,
{
}

/// A picture with pixels, as many as its size says, is encoded; any other is not.
pub proof fn law_as_png(p: RasterModel)
    ensures
        p.0 > 0 && p.1 > 0 && p.4.len() == p.0 * p.1 * p.2 ==> as_png(p) == encoded(p),
        p.0 == 0 || p.1 == 0 || p.4.len() != p.0 * p.1 * p.2 ==> as_png(p) is None,
{
}

} // verus!
