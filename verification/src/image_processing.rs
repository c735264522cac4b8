use vstd::prelude::*;

verus! {

/// The little-endian value of two bytes.
pub open spec fn le2(lo: u8, hi: u8) -> int {
    lo + 256 * hi
}

/// The little-endian value of three bytes.
pub open spec fn le3(b0: u8, b1: u8, b2: u8) -> int {
    b0 + 256 * b1 + 65536 * b2
}

/// The little-endian value of four bytes.
pub open spec fn le4(b0: u8, b1: u8, b2: u8, b3: u8) -> int {
    b0 + 256 * b1 + 65536 * b2 + 16777216 * b3
}

/// Whether `d` holds the four bytes `a b c e` from position `at`.
pub open spec fn has_bytes_at(d: Seq<u8>, at: int, a: u8, b: u8, c: u8, e: u8) -> bool {
    &&& at + 4 <= d.len()
    &&& d[at] == a
    &&& d[at + 1] == b
    &&& d[at + 2] == c
    &&& d[at + 3] == e
}

/// A RIFF container holding a WebP image: `RIFF`, a size, then `WEBP`.
pub open spec fn is_webp_container(d: Seq<u8>) -> bool {
    has_bytes_at(d, 0, 0x52, 0x49, 0x46, 0x46) && has_bytes_at(d, 8, 0x57, 0x45, 0x42, 0x50)
}

/// The size of a WebP image read from its header: the chunk tag at 12
/// tells the bitstream (`VP8 `, `VP8L` or `VP8X`), and the chunk data from
/// 20 on holds the size.
pub open spec fn webp_dimensions(d: Seq<u8>) -> Option<(u32, u32)> {
    if d.len() < 20 || !is_webp_container(d) {
        None
    } else {
        let e = d.skip(20);
        if has_bytes_at(d, 12, 0x56, 0x50, 0x38, 0x20) {
            // lossy: a key frame start code, then 14-bit width and height
            if e.len() < 10 || e[3] != 0x9D || e[4] != 0x01 || e[5] != 0x2A {
                None
            } else {
                Some(((le2(e[6], e[7]) % 16384) as u32, (le2(e[8], e[9]) % 16384) as u32))
            }
        } else if has_bytes_at(d, 12, 0x56, 0x50, 0x38, 0x4C) {
            // lossless: a signature byte, then 14 bits each of width - 1 and height - 1
            if e.len() < 5 || e[0] != 0x2F {
                None
            } else {
                let raw = le4(e[1], e[2], e[3], e[4]);
                Some(((raw % 16384 + 1) as u32, ((raw / 16384) % 16384 + 1) as u32))
            }
        } else if has_bytes_at(d, 12, 0x56, 0x50, 0x38, 0x58) {
            // extended: 24 bits each of width - 1 and height - 1, kept to 24 bits
            if e.len() < 10 {
                None
            } else {
                Some(
                    (
                        ((le3(e[4], e[5], e[6]) + 1) % 16777216) as u32,
                        ((le3(e[7], e[8], e[9]) + 1) % 16777216) as u32,
                    ),
                )
            }
        } else {
            None
        }
    }
}

fn bytes_at(d: &[u8], at: usize, a: u8, b: u8, c: u8, e: u8) -> (r: bool)
    requires
        at + 4 <= d@.len(),
    ensures
        r == has_bytes_at(d@, at as int, a, b, c, e),
{
    d[at] == a && d[at + 1] == b && d[at + 2] == c && d[at + 3] == e
}

/// Whether `data` is a RIFF container holding a WebP image.
pub fn webp_container(data: &[u8]) -> (r: bool)
    ensures
        r == is_webp_container(data@),
{
    data.len() >= 12 && bytes_at(data, 0, 0x52, 0x49, 0x46, 0x46) && bytes_at(data, 8, 0x57, 0x45, 0x42, 0x50)
}

/// The size of a WebP image, read from the first bytes of its file.
pub fn decode_webp_dimensions(data: &[u8]) -> (r: Option<(u32, u32)>)
    ensures
        r == webp_dimensions(data@),
{
    if data.len() < 20 || !webp_container(data) {
        return None;
    }
    let ghost e = data@.skip(20);
    if bytes_at(data, 12, 0x56, 0x50, 0x38, 0x20) {
        if data.len() < 30 || data[23] != 0x9D || data[24] != 0x01 || data[25] != 0x2A {
            return None;
        }
        let w = ((data[27] as u32) * 256 + (data[26] as u32)) % 16384;
        let h = ((data[29] as u32) * 256 + (data[28] as u32)) % 16384;
        assert(e[6] == data@[26] && e[7] == data@[27] && e[8] == data@[28] && e[9] == data@[29]);
        Some((w, h))
    } else if bytes_at(data, 12, 0x56, 0x50, 0x38, 0x4C) {
        if data.len() < 25 || data[20] != 0x2F {
            return None;
        }
        let raw: u32 = (data[21] as u32) + (data[22] as u32) * 256 + (data[23] as u32) * 65536 + (data[24] as u32)
            * 16777216;
        assert(e[1] == data@[21] && e[2] == data@[22] && e[3] == data@[23] && e[4] == data@[24]);
        Some((raw % 16384 + 1, (raw / 16384) % 16384 + 1))
    } else if bytes_at(data, 12, 0x56, 0x50, 0x38, 0x58) {
        if data.len() < 30 {
            return None;
        }
        let w: u32 = ((data[24] as u32) + (data[25] as u32) * 256 + (data[26] as u32) * 65536 + 1) % 16777216;
        let h: u32 = ((data[27] as u32) + (data[28] as u32) * 256 + (data[29] as u32) * 65536 + 1) % 16777216;
        assert(e[4] == data@[24] && e[5] == data@[25] && e[6] == data@[26]);
        assert(e[7] == data@[27] && e[8] == data@[28] && e[9] == data@[29]);
        Some((w, h))
    } else {
        None
    }
}


/// The size that the `image` crate reads from the header of an encoded
/// image of another format, after guessing the format from its first
/// bytes (`ImageReader::with_guessed_format`, `ImageReader::into_dimensions`);
/// `None` when the format is unknown or the header cannot be read.
pub uninterp spec fn guessed_dimensions(data: Seq<u8>) -> Option<(u32, u32)>;

/// Reads the size of an encoded image with the `image` crate's
/// `ImageReader`, the format guessed from the data.
#[verifier::external_body]
fn read_guessed_dimensions(data: &[u8]) -> (r: Option<(u32, u32)>)
    ensures
        r == guessed_dimensions(data@),
{
    let reader = image::ImageReader::new(std::io::Cursor::new(data));
    reader.with_guessed_format().ok()?.into_dimensions().ok()
}

/// The size of an encoded image, from its header: WebP headers are read
/// here, other formats by the `image` crate.
pub open spec fn image_dimensions(d: Seq<u8>) -> Option<(u32, u32)> {
    if is_webp_container(d) {
        webp_dimensions(d)
    } else {
        guessed_dimensions(d)
    }
}

/// The size of an encoded image, read from the first bytes of its file.
pub fn decode_dimensions(data: &[u8]) -> (r: Option<(u32, u32)>)
    ensures
        r == image_dimensions(data@),
{
    if webp_container(data) {
        decode_webp_dimensions(data)
    } else {
        read_guessed_dimensions(data)
    }
}

/// The formats that an image is tried as when the format guessed from its
/// data does not decode.
#[derive(Clone, Copy, Debug, PartialEq, Eq, Structural)]
pub enum ImageKind {
    Jpeg,
    Png,
    WebP,
}

/// The format that the first bytes of `d` announce: the JPEG start of
/// image, the PNG signature, or a WebP RIFF container longer than its
/// header.
pub open spec fn sniffed_kind(d: Seq<u8>) -> Option<ImageKind> {
    if d.len() >= 2 && d[0] == 0xFF && d[1] == 0xD8 {
        Some(ImageKind::Jpeg)
    } else if has_bytes_at(d, 0, 0x89, 0x50, 0x4E, 0x47) {
        Some(ImageKind::Png)
    } else if d.len() > 12 && is_webp_container(d) {
        Some(ImageKind::WebP)
    } else {
        None
    }
}

/// The format announced by the first bytes of `data`.
pub fn sniff_kind(data: &[u8]) -> (r: Option<ImageKind>)
    ensures
        r == sniffed_kind(data@),
{
    if data.len() >= 2 && data[0] == 0xFF && data[1] == 0xD8 {
        Some(ImageKind::Jpeg)
    } else if data.len() >= 4 && bytes_at(data, 0, 0x89, 0x50, 0x4E, 0x47) {
        Some(ImageKind::Png)
    } else if data.len() > 12 && webp_container(data) {
        Some(ImageKind::WebP)
    } else {
        None
    }
}

#[verifier::external_type_specification]
#[verifier::external_body]
pub struct ExDynamicImage(image::DynamicImage);

/// Whether `image::load_from_memory` decodes `data` (the format guessed
/// from the data).
pub uninterp spec fn decodes(data: Seq<u8>) -> bool;

/// Whether `image::load_from_memory_with_format` decodes `data` as `kind`.
pub uninterp spec fn decodes_as(data: Seq<u8>, kind: ImageKind) -> bool;

/// The size and pixels of the image that `image::load_from_memory`
/// decodes from `data`.
pub uninterp spec fn decoded_picture(data: Seq<u8>) -> ((u32, u32), Seq<u8>);

/// The size and pixels of the image that
/// `image::load_from_memory_with_format` decodes from `data` as `kind`.
pub uninterp spec fn decoded_picture_as(data: Seq<u8>, kind: ImageKind) -> ((u32, u32), Seq<u8>);

/// `image::load_from_memory`: decodes an image, its format guessed from
/// the data.  Whether it decodes, and the size and pixels of what comes
/// out, are named; decoding depends on the bytes alone.
#[verifier::external_body]
fn load_image(data: &[u8]) -> (r: Option<image::DynamicImage>)
    ensures
        r is Some == decodes(data@),
        r matches Some(img) ==> (image_size(img), image_rgba(img)) == decoded_picture(data@),
{
    image::load_from_memory(data).ok()
}

/// `image::load_from_memory_with_format`: decodes an image as `kind`.
/// Whether it decodes, and the size and pixels of what comes out, are
/// named.
#[verifier::external_body]
fn load_image_as(data: &[u8], kind: ImageKind) -> (r: Option<image::DynamicImage>)
    ensures
        r is Some == decodes_as(data@, kind),
        r matches Some(img) ==> (image_size(img), image_rgba(img)) == decoded_picture_as(data@, kind),
{
    let format = match kind {
        ImageKind::Jpeg => image::ImageFormat::Jpeg,
        ImageKind::Png => image::ImageFormat::Png,
        ImageKind::WebP => image::ImageFormat::WebP,
    };
    image::load_from_memory_with_format(data, format).ok()
}

/// Whether an image comes out of `d`: decoded as the format guessed from
/// it, or else as the format its first bytes announce.
pub open spec fn image_decodes(d: Seq<u8>) -> bool {
    decodes(d) || match sniffed_kind(d) {
        Some(k) => decodes_as(d, k),
        None => false,
    }
}

/// The picture that comes out of `d`: the one decoded as the guessed
/// format when that decodes, else the one decoded as the format its first
/// bytes announce.
pub open spec fn decoded_image_picture(d: Seq<u8>) -> ((u32, u32), Seq<u8>) {
    if decodes(d) {
        decoded_picture(d)
    } else {
        decoded_picture_as(d, sniffed_kind(d)->0)
    }
}

/// Decodes an encoded image; when the guessed format fails, tries the
/// format its first bytes announce.
pub fn try_decode(data: &[u8]) -> (r: Option<image::DynamicImage>)
    ensures
        r is Some == image_decodes(data@),
        r matches Some(img) ==> picture(img) == decoded_image_picture(data@),
{
    match load_image(data) {
        Some(img) => Some(img),
        None => match sniff_kind(data) {
            Some(k) => load_image_as(data, k),
            None => None,
        },
    }
}

/// The EXIF orientation field of an image file, as the `exif` crate reads
/// it: `None` when the container holds no EXIF data or no orientation in
/// its primary image; else the field's first value as an unsigned integer,
/// if it has one.
pub uninterp spec fn exif_orientation_field(data: Seq<u8>) -> Option<Option<u32>>;

/// Reads the orientation field with `exif::Reader::read_from_container`,
/// `Exif::get_field` and `Value::get_uint`.
#[verifier::external_body]
fn read_exif_orientation(data: &[u8]) -> (r: Option<Option<u32>>)
    ensures
        r == exif_orientation_field(data@),
{
    let exif = exif::Reader::new().read_from_container(&mut std::io::Cursor::new(data)).ok()?;
    let field = exif.get_field(exif::Tag::Orientation, exif::In::PRIMARY)?;
    Some(field.value.get_uint(0))
}

/// How a decoded image is turned to stand upright.
#[derive(Clone, Copy, Debug, PartialEq, Eq, Structural)]
pub enum Orientation {
    Upright,
    FlipH,
    Rotate180,
    FlipV,
    FlipHRotate270,
    Rotate90,
    FlipHRotate90,
    Rotate270,
}

/// The turn that an EXIF orientation value asks for.
pub open spec fn orientation_for_value(v: u32) -> Orientation {
    if v == 2 {
        Orientation::FlipH
    } else if v == 3 {
        Orientation::Rotate180
    } else if v == 4 {
        Orientation::FlipV
    } else if v == 5 {
        Orientation::FlipHRotate270
    } else if v == 6 {
        Orientation::Rotate90
    } else if v == 7 {
        Orientation::FlipHRotate90
    } else if v == 8 {
        Orientation::Rotate270
    } else {
        Orientation::Upright
    }
}

/// The turn an image file asks for: only JPEG files are asked, and a field
/// without a value counts as 1 (upright).
pub open spec fn orientation_of_file(d: Seq<u8>) -> Orientation {
    if !(d.len() >= 2 && d[0] == 0xFF && d[1] == 0xD8) {
        Orientation::Upright
    } else {
        match exif_orientation_field(d) {
            Some(v) => orientation_for_value(
                match v {
                    Some(x) => x,
                    None => 1,
                },
            ),
            None => Orientation::Upright,
        }
    }
}

/// The turn that the EXIF data of the image file `data` asks for.
pub fn exif_orientation(data: &[u8]) -> (r: Orientation)
    ensures
        r == orientation_of_file(data@),
{
    if !(data.len() >= 2 && data[0] == 0xFF && data[1] == 0xD8) {
        return Orientation::Upright;
    }
    match read_exif_orientation(data) {
        Some(v) => {
            let value = match v {
                Some(x) => x,
                None => 1,
            };
            if value == 2 {
                Orientation::FlipH
            } else if value == 3 {
                Orientation::Rotate180
            } else if value == 4 {
                Orientation::FlipV
            } else if value == 5 {
                Orientation::FlipHRotate270
            } else if value == 6 {
                Orientation::Rotate90
            } else if value == 7 {
                Orientation::FlipHRotate90
            } else if value == 8 {
                Orientation::Rotate270
            } else {
                Orientation::Upright
            }
        },
        None => Orientation::Upright,
    }
}

/// The size of an image in pixels, width then height, as
/// `GenericImageView::dimensions` gives it.
pub uninterp spec fn image_size(img: image::DynamicImage) -> (u32, u32);

/// The pixels of an image as `DynamicImage::to_rgba8` gives them: row by
/// row from the top, each pixel four bytes (red, green, blue, alpha).
pub uninterp spec fn image_rgba(img: image::DynamicImage) -> Seq<u8>;

/// An image as its size and its pixels.
pub open spec fn picture(img: image::DynamicImage) -> ((u32, u32), Seq<u8>) {
    (image_size(img), image_rgba(img))
}

/// Byte `c` of pixel (`x`, `y`) of the pixels `s` of an image `w` pixels
/// wide.
pub open spec fn px(s: Seq<u8>, w: int, x: int, y: int, c: int) -> u8 {
    s[(y * w + x) * 4 + c]
}

/// The pixels of a `w` by `h` image whose byte `c` of pixel (`x`, `y`) is
/// `f(x, y, c)`.
pub open spec fn raster(w: int, h: int, f: spec_fn(int, int, int) -> u8) -> Seq<u8> {
    Seq::new((w * h * 4) as nat, |i: int| f((i / 4) % w, (i / 4) / w, i % 4))
}

/// The picture `p` mirrored left to right: pixel (`x`, `y`) is the old
/// pixel (`w - 1 - x`, `y`).
pub open spec fn mirror_h(p: ((u32, u32), Seq<u8>)) -> ((u32, u32), Seq<u8>) {
    let w = p.0.0 as int;
    let h = p.0.1 as int;
    (p.0, raster(w, h, |x: int, y: int, c: int| px(p.1, w, w - 1 - x, y, c)))
}

/// The picture `p` mirrored top to bottom: pixel (`x`, `y`) is the old
/// pixel (`x`, `h - 1 - y`).
pub open spec fn mirror_v(p: ((u32, u32), Seq<u8>)) -> ((u32, u32), Seq<u8>) {
    let w = p.0.0 as int;
    let h = p.0.1 as int;
    (p.0, raster(w, h, |x: int, y: int, c: int| px(p.1, w, x, h - 1 - y, c)))
}

/// The picture `p` turned a quarter clockwise: `h` wide and `w` high, pixel
/// (`x`, `y`) is the old pixel (`y`, `h - 1 - x`).
pub open spec fn turn_quarter(p: ((u32, u32), Seq<u8>)) -> ((u32, u32), Seq<u8>) {
    let w = p.0.0 as int;
    let h = p.0.1 as int;
    ((p.0.1, p.0.0), raster(h, w, |x: int, y: int, c: int| px(p.1, w, y, h - 1 - x, c)))
}

/// The picture `p` turned half round: pixel (`x`, `y`) is the old pixel
/// (`w - 1 - x`, `h - 1 - y`).
pub open spec fn turn_half(p: ((u32, u32), Seq<u8>)) -> ((u32, u32), Seq<u8>) {
    let w = p.0.0 as int;
    let h = p.0.1 as int;
    (p.0, raster(w, h, |x: int, y: int, c: int| px(p.1, w, w - 1 - x, h - 1 - y, c)))
}

/// The picture `p` turned three quarters clockwise: `h` wide and `w` high,
/// pixel (`x`, `y`) is the old pixel (`w - 1 - y`, `x`).
pub open spec fn turn_three_quarters(p: ((u32, u32), Seq<u8>)) -> ((u32, u32), Seq<u8>) {
    let w = p.0.0 as int;
    let h = p.0.1 as int;
    ((p.0.1, p.0.0), raster(h, w, |x: int, y: int, c: int| px(p.1, w, w - 1 - y, x, c)))
}

/// The picture `p` turned as `o` asks.
pub open spec fn oriented(p: ((u32, u32), Seq<u8>), o: Orientation) -> ((u32, u32), Seq<u8>) {
    match o {
        Orientation::Upright => p,
        Orientation::FlipH => mirror_h(p),
        Orientation::Rotate180 => turn_half(p),
        Orientation::FlipV => mirror_v(p),
        Orientation::FlipHRotate270 => turn_three_quarters(mirror_h(p)),
        Orientation::Rotate90 => turn_quarter(p),
        Orientation::FlipHRotate90 => turn_quarter(mirror_h(p)),
        Orientation::Rotate270 => turn_three_quarters(p),
    }
}

/// `DynamicImage::fliph`: the image mirrored left to right
/// (`imageops::flip_horizontal` puts pixel (x, y) at (w - 1 - x, y), in
/// every pixel format alike).
#[verifier::external_body]
fn flip_horizontal(img: &image::DynamicImage) -> (r: image::DynamicImage)
    ensures
        (image_size(r), image_rgba(r)) == mirror_h(picture(*img)),
{
    img.fliph()
}

/// `DynamicImage::flipv`: the image mirrored top to bottom
/// (`imageops::flip_vertical` puts pixel (x, y) at (x, h - 1 - y)).
#[verifier::external_body]
fn flip_vertical(img: &image::DynamicImage) -> (r: image::DynamicImage)
    ensures
        (image_size(r), image_rgba(r)) == mirror_v(picture(*img)),
{
    img.flipv()
}

/// `DynamicImage::rotate90`: the image turned a quarter clockwise
/// (`imageops::rotate90` makes an h by w image and puts pixel (x, y) at
/// (h - 1 - y, x)).
#[verifier::external_body]
fn rotate_quarter(img: &image::DynamicImage) -> (r: image::DynamicImage)
    ensures
        (image_size(r), image_rgba(r)) == turn_quarter(picture(*img)),
{
    img.rotate90()
}

/// `DynamicImage::rotate180`: the image turned half round
/// (`imageops::rotate180` puts pixel (x, y) at (w - 1 - x, h - 1 - y)).
#[verifier::external_body]
fn rotate_half(img: &image::DynamicImage) -> (r: image::DynamicImage)
    ensures
        (image_size(r), image_rgba(r)) == turn_half(picture(*img)),
{
    img.rotate180()
}

/// `DynamicImage::rotate270`: the image turned three quarters clockwise
/// (`imageops::rotate270` makes an h by w image and puts pixel (x, y) at
/// (y, w - 1 - x)).
#[verifier::external_body]
fn rotate_three_quarters(img: &image::DynamicImage) -> (r: image::DynamicImage)
    ensures
        (image_size(r), image_rgba(r)) == turn_three_quarters(picture(*img)),
{
    img.rotate270()
}

/// The image turned as `o` asks.
pub fn apply_orientation(img: image::DynamicImage, o: Orientation) -> (r: image::DynamicImage)
    ensures
        picture(r) == oriented(picture(img), o),
{
    match o {
        Orientation::Upright => img,
        Orientation::FlipH => flip_horizontal(&img),
        Orientation::Rotate180 => rotate_half(&img),
        Orientation::FlipV => flip_vertical(&img),
        Orientation::FlipHRotate270 => rotate_three_quarters(&flip_horizontal(&img)),
        Orientation::Rotate90 => rotate_quarter(&img),
        Orientation::FlipHRotate90 => rotate_quarter(&flip_horizontal(&img)),
        Orientation::Rotate270 => rotate_three_quarters(&img),
    }
}

/// Decodes an image file and turns it upright as its EXIF data asks.
pub fn decode_oriented(data: &[u8]) -> (r: Option<image::DynamicImage>)
    ensures
        r is Some == image_decodes(data@),
        r matches Some(img) ==> picture(img) == oriented(decoded_image_picture(data@), orientation_of_file(data@)),
{
    match try_decode(data) {
        Some(img) => {
            let o = exif_orientation(data);
            Some(apply_orientation(img, o))
        },
        None => None,
    }
}

} // verus!
