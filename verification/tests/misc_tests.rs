use spessartine::audio::{next_track, page_turn_sound, Channel, Mixer, SFX_SLOTS};
use spessartine::codes::{i8_to_mode, i8_to_rtl, mode_to_i8, rtl_to_i8};
use spessartine::image_processing::{
    apply_orientation, decode_dimensions, decode_oriented, decode_webp_dimensions, exif_orientation, sniff_kind,
    try_decode, webp_container, ImageKind, Orientation,
};
use spessartine::mode::ReaderMode;
use spessartine::rng::{noise_cell_hash, Rng};
use spessartine::thumbnail::{cache_path, decode_thumbnail, encode_thumbnail, path_hash, thumbnail_file_name};
use spessartine::worker::{acquire_permit, release_permit, SlotCount};
use spessartine::settings::{EffectsSettings, PreloadSettings};
use image::GenericImageView;
use std::io::Cursor;
use std::collections::hash_map::DefaultHasher;
use std::hash::{Hash, Hasher};

#[test]
fn mode_codes_round_trip() {
    for m in [None, Some(ReaderMode::Manga), Some(ReaderMode::Double), Some(ReaderMode::Webtoon)] {
        assert_eq!(i8_to_mode(mode_to_i8(m)), m);
    }
    for r in [None, Some(true), Some(false)] {
        assert_eq!(i8_to_rtl(rtl_to_i8(r)), r);
    }
    assert_eq!(i8_to_mode(0), None);
    assert_eq!(i8_to_mode(99), None);
}

#[test]
fn thumbnail_round_trip() {
    let data = vec![1u8, 2, 3, 4, 5, 6];
    let raw = encode_thumbnail(&data, 2, 3);
    assert_eq!(&raw[..8], &[2, 0, 0, 0, 3, 0, 0, 0]);
    assert_eq!(decode_thumbnail(&raw), Some((data, 2, 3)));
}

#[test]
fn thumbnail_rejects_bad_headers() {
    assert_eq!(decode_thumbnail(&vec![1, 2, 3]), None);
    let raw = encode_thumbnail(&vec![], 0, 3);
    assert_eq!(decode_thumbnail(&raw), None);
    let raw = encode_thumbnail(&vec![], 5001, 3);
    assert_eq!(decode_thumbnail(&raw), None);
    let raw = encode_thumbnail(&vec![], -4, 3);
    assert_eq!(decode_thumbnail(&raw), None);
    let raw = encode_thumbnail(&vec![9], 5000, 5000);
    assert_eq!(decode_thumbnail(&raw), Some((vec![9], 5000, 5000)));
}

#[test]
fn thumbnail_names() {
    let mut h = DefaultHasher::new();
    "/lib/a.cbz".hash(&mut h);
    let expected = format!("{:x}", h.finish());
    assert_eq!(path_hash("/lib/a.cbz"), expected);
    assert_eq!(thumbnail_file_name("/lib/a.cbz"), format!("{}.thumb", expected));
    assert_eq!(
        cache_path("/cache", "/lib/a.cbz"),
        std::path::Path::new("/cache").join(format!("{}.thumb", expected)).to_string_lossy()
    );
}

fn webp(tag: &[u8; 4], extra: &[u8]) -> Vec<u8> {
    let mut d = b"RIFF".to_vec();
    d.extend_from_slice(&[0, 0, 0, 0]);
    d.extend_from_slice(b"WEBP");
    d.extend_from_slice(tag);
    d.extend_from_slice(&[0, 0, 0, 0]);
    d.extend_from_slice(extra);
    d
}

#[test]
fn webp_lossless_size() {
    let raw: u32 = (400 - 1) | ((300 - 1) << 14);
    let b = raw.to_le_bytes();
    let d = webp(b"VP8L", &[0x2F, b[0], b[1], b[2], b[3]]);
    assert_eq!(decode_webp_dimensions(&d), Some((400, 300)));
    assert_eq!(decode_dimensions(&d), Some((400, 300)));
    let bad = webp(b"VP8L", &[0x2E, b[0], b[1], b[2], b[3]]);
    assert_eq!(decode_webp_dimensions(&bad), None);
}

#[test]
fn webp_lossy_size() {
    let d = webp(b"VP8 ", &[0, 0, 0, 0x9D, 0x01, 0x2A, 0x20, 0x03, 0x58, 0x42]);
    // 0x0320 = 800; 0x4258 & 0x3FFF = 600
    assert_eq!(decode_webp_dimensions(&d), Some((800, 600)));
    let short = webp(b"VP8 ", &[0, 0, 0, 0x9D, 0x01]);
    assert_eq!(decode_webp_dimensions(&short), None);
}

#[test]
fn webp_extended_size() {
    let d = webp(b"VP8X", &[0, 0, 0, 0, 0x1F, 0x03, 0x00, 0x57, 0x02, 0x00]);
    // 0x00031F + 1 = 800, 0x000257 + 1 = 600
    assert_eq!(decode_webp_dimensions(&d), Some((800, 600)));
    let unknown = webp(b"ABCD", &[0; 10]);
    assert_eq!(decode_webp_dimensions(&unknown), None);
    assert!(webp_container(&unknown));
    assert!(!webp_container(b"RIFF0000WEBQ"));
}

fn png_bytes(w: u32, h: u32) -> Vec<u8> {
    let img = image::RgbaImage::new(w, h);
    let mut out = Cursor::new(Vec::new());
    img.write_to(&mut out, image::ImageFormat::Png).unwrap();
    out.into_inner()
}

#[test]
fn png_size_and_decoding() {
    let png = png_bytes(5, 4);
    assert_eq!(decode_dimensions(&png), Some((5, 4)));
    assert_eq!(sniff_kind(&png), Some(ImageKind::Png));
    assert!(try_decode(&png).is_some());
    let img = decode_oriented(&png).unwrap();
    assert_eq!((img.width(), img.height()), (5, 4));
    assert_eq!(exif_orientation(&png), Orientation::Upright);
    assert!(try_decode(b"garbage").is_none());
    assert_eq!(decode_dimensions(b"garbage"), None);
}

#[test]
fn sniffing() {
    assert_eq!(sniff_kind(&[0xFF, 0xD8, 0xFF]), Some(ImageKind::Jpeg));
    assert_eq!(sniff_kind(b"RIFF0000WEBPx"), Some(ImageKind::WebP));
    assert_eq!(sniff_kind(b"RIFF0000WEBP"), None);
    assert_eq!(sniff_kind(b"GIF89a"), None);
}

fn jpeg_with_orientation(o: u16) -> Vec<u8> {
    let mut tiff = b"II*\0".to_vec();
    tiff.extend_from_slice(&8u32.to_le_bytes());
    tiff.extend_from_slice(&1u16.to_le_bytes());
    tiff.extend_from_slice(&0x0112u16.to_le_bytes());
    tiff.extend_from_slice(&3u16.to_le_bytes());
    tiff.extend_from_slice(&1u32.to_le_bytes());
    tiff.extend_from_slice(&o.to_le_bytes());
    tiff.extend_from_slice(&[0, 0]);
    tiff.extend_from_slice(&0u32.to_le_bytes());
    let mut d = vec![0xFF, 0xD8, 0xFF, 0xE1];
    let len = (2 + 6 + tiff.len()) as u16;
    d.extend_from_slice(&len.to_be_bytes());
    d.extend_from_slice(b"Exif\0\0");
    d.extend_from_slice(&tiff);
    d.extend_from_slice(&[0xFF, 0xD9]);
    d
}

#[test]
fn exif_orientation_values() {
    assert_eq!(exif_orientation(&jpeg_with_orientation(6)), Orientation::Rotate90);
    assert_eq!(exif_orientation(&jpeg_with_orientation(3)), Orientation::Rotate180);
    assert_eq!(exif_orientation(&jpeg_with_orientation(8)), Orientation::Rotate270);
    assert_eq!(exif_orientation(&jpeg_with_orientation(1)), Orientation::Upright);
    assert_eq!(exif_orientation(&jpeg_with_orientation(42)), Orientation::Upright);
    assert_eq!(exif_orientation(&[0xFF, 0xD8, 0xFF, 0xD9]), Orientation::Upright);
}

#[test]
fn mixer_requests() {
    let mut m = Mixer::new();
    let tracks = vec!["a.ogg".to_string()];
    assert!(m.play_playlist(Channel::Bgm, &tracks));
    assert!(!m.play_playlist(Channel::Bgm, &tracks));
    assert!(m.play_frame() == false);
    assert!(m.play_sfx(0));
    assert!(!m.play_sfx(SFX_SLOTS));
    m.sink_made(2);
    assert!(m.stop_sfx(2));
    assert!(!m.stop_sfx(3));
    assert!(m.sfx_playing(2, false));
    assert!(!m.sfx_playing(2, true));
    let g = m.bump();
    let stop = m.stop_all();
    assert!(stop.bgm);
    assert!(!stop.ambient);
    assert!(stop.frame);
    assert_eq!(stop.sfx_slots, vec![2]);
    assert_eq!(m.bump(), g + 5);
    assert!(!m.stop_playlist(Channel::Bgm));
    m.set_master_muted(true);
    assert!(!m.play_sfx(1));
    assert!(!m.start_sfx(1));
}

#[test]
fn stop_frame_and_sfx_leaves_playlists() {
    let mut m = Mixer::new();
    m.play_playlist(Channel::Ambient, &vec!["rain.ogg".to_string()]);
    m.play_frame();
    let s = m.stop_frame_and_sfx();
    assert!(s.frame);
    assert!(s.sfx_slots.is_empty());
    assert!(m.stop_playlist(Channel::Ambient));
    assert!(!m.stop_frame());
}

#[test]
fn page_turn_sounds_and_playlists() {
    let got: Vec<usize> = (0..8).map(page_turn_sound).collect();
    assert_eq!(got, vec![0, 3, 6, 2, 5, 1, 4, 0]);
    assert_eq!(next_track(2, 3, true, false), Some(0));
    assert_eq!(next_track(0, 3, true, false), Some(1));
    assert_eq!(next_track(1, 3, true, true), Some(0));
    assert_eq!(next_track(5, 3, true, false), Some(0));
    assert_eq!(next_track(0, 3, false, false), Some(1));
    assert_eq!(next_track(2, 3, false, false), None);
    assert_eq!(next_track(0, 3, false, true), None);
}

#[test]
fn permits() {
    let mut s = SlotCount::new(2);
    assert!(acquire_permit(&mut s));
    assert!(s.acquire());
    assert!(!acquire_permit(&mut s));
    release_permit(&mut s);
    assert!(s.acquire());
    s.release();
    s.release();
    s.release();
    s.release();
    assert!(s.acquire());
}

#[test]
fn random_stream_is_repeatable() {
    let mut a = Rng::new(42);
    let mut b = Rng::new(42);
    let xa: Vec<u64> = (0..5).map(|_| a.next_bits()).collect();
    let xb: Vec<u64> = (0..5).map(|_| b.next_bits()).collect();
    assert_eq!(xa, xb);
    assert!(xa.iter().all(|&x| x < (1u64 << 53)));
    let mut s: u64 = (7u64).wrapping_mul(0x9E3779B97F4A7C15) ^ 0xD1B54A32D192ED03;
    s ^= s << 13;
    s ^= s >> 7;
    s ^= s << 17;
    assert_eq!(Rng::new(7).next_bits(), s >> 11);
}

#[test]
fn settings_defaults() {
    let p = PreloadSettings::default();
    assert_eq!((p.single_before, p.single_after, p.reader_ahead, p.max_concurrent), (2, 5, 2, 4));
    assert_eq!((p.double_spread_start, p.double_spread_end), (-2, 3));
    assert_eq!((p.page_cache_max, p.texture_budget_mb), (9, 150));
    assert!(EffectsSettings::default().enabled);
}

#[test]
fn noise_cells() {
    fn expected(ix: i32, iy: i32, seed: u32) -> u32 {
        let mut h = ix.wrapping_mul(374761393).wrapping_add(iy.wrapping_mul(668265263));
        h = h.wrapping_add((seed ^ 0x9E37_79B9) as i32);
        h ^= h >> 13;
        h = h.wrapping_mul(1274126177);
        h ^= h >> 16;
        h as u32 % 1000
    }
    for (x, y, s) in [(0, 0, 0u32), (1, 2, 3), (-5, 7, 99), (i32::MAX, i32::MIN, u32::MAX)] {
        let v = noise_cell_hash(x, y, s);
        assert!(v < 1000);
        assert_eq!(v, expected(x, y, s));
    }
}

type Picture = (u32, u32, Vec<u8>);

fn picture_of(img: &image::DynamicImage) -> Picture {
    let (w, h) = img.dimensions();
    (w, h, img.to_rgba8().into_raw())
}

fn remap(p: &Picture, nw: u32, nh: u32, from: impl Fn(u32, u32) -> (u32, u32)) -> Picture {
    let mut out = Vec::new();
    for y in 0..nh {
        for x in 0..nw {
            let (sx, sy) = from(x, y);
            let i = ((sy * p.0 + sx) * 4) as usize;
            out.extend_from_slice(&p.2[i..i + 4]);
        }
    }
    (nw, nh, out)
}

fn mirror_h(p: &Picture) -> Picture {
    let (w, h) = (p.0, p.1);
    remap(p, w, h, |x, y| (w - 1 - x, y))
}

fn mirror_v(p: &Picture) -> Picture {
    let (w, h) = (p.0, p.1);
    remap(p, w, h, |x, y| (x, h - 1 - y))
}

fn turn_quarter(p: &Picture) -> Picture {
    let (w, h) = (p.0, p.1);
    remap(p, h, w, |x, y| (y, h - 1 - x))
}

fn turn_half(p: &Picture) -> Picture {
    let (w, h) = (p.0, p.1);
    remap(p, w, h, |x, y| (w - 1 - x, h - 1 - y))
}

fn turn_three_quarters(p: &Picture) -> Picture {
    let (w, h) = (p.0, p.1);
    remap(p, h, w, |x, y| (w - 1 - y, x))
}

fn sample_image() -> image::DynamicImage {
    let img = image::RgbaImage::from_fn(3, 2, |x, y| image::Rgba([x as u8, y as u8, 7, 255]));
    image::DynamicImage::ImageRgba8(img)
}

#[test]
fn apply_orientation_turns_pixels_as_asked() {
    let p = picture_of(&sample_image());
    let cases: Vec<(Orientation, Picture)> = vec![
        (Orientation::Upright, p.clone()),
        (Orientation::FlipH, mirror_h(&p)),
        (Orientation::Rotate180, turn_half(&p)),
        (Orientation::FlipV, mirror_v(&p)),
        (Orientation::FlipHRotate270, turn_three_quarters(&mirror_h(&p))),
        (Orientation::Rotate90, turn_quarter(&p)),
        (Orientation::FlipHRotate90, turn_quarter(&mirror_h(&p))),
        (Orientation::Rotate270, turn_three_quarters(&p)),
    ];
    for (o, expected) in cases {
        let got = picture_of(&apply_orientation(sample_image(), o));
        assert_eq!(got, expected);
    }
}

#[test]
fn apply_orientation_rotate90_exact_pixels() {
    let got = picture_of(&apply_orientation(sample_image(), Orientation::Rotate90));
    assert_eq!((got.0, got.1), (2, 3));
    // Top-left of the turned image is the old bottom-left pixel (0, 1).
    assert_eq!(&got.2[0..4], &[0, 1, 7, 255]);
    // Its top-right is the old top-left pixel (0, 0).
    assert_eq!(&got.2[4..8], &[0, 0, 7, 255]);
}
