use vstd::prelude::*;
use crate::paths::{joined_path, path_join};
use crate::hashing::{hash_str, hex_string, hex_text, str_hash};
use crate::text::push_char;

verus! {

/// Largest width or height a cached thumbnail may declare.
pub const MAX_THUMB_SIDE: i32 = 5000;

/// The signed 32-bit value whose little-endian bytes are `b0..b3`.
pub open spec fn le_i32(b0: u8, b1: u8, b2: u8, b3: u8) -> int {
    let u = b0 + 256 * b1 + 65536 * b2 + 16777216 * b3;
    if u >= 0x8000_0000 {
        u - 0x1_0000_0000
    } else {
        u
    }
}

/// The little-endian bytes of the signed 32-bit value `v`.
pub open spec fn le_bytes(v: int) -> Seq<u8> {
    let u = if v < 0 { v + 0x1_0000_0000 } else { v };
    seq![(u % 256) as u8, ((u / 256) % 256) as u8, ((u / 65536) % 256) as u8, ((u / 16777216) % 256) as u8]
}

/// A cached thumbnail file: width and height as little-endian `i32`, then the
/// pixel data.
pub open spec fn thumb_encoding(data: Seq<u8>, width: int, height: int) -> Seq<u8> {
    le_bytes(width) + le_bytes(height) + data
}

/// What reading a cached thumbnail file gives: `None` when it is shorter
/// than its header, or when its width or height is not in `1..=5000`.
pub open spec fn thumb_decoding(raw: Seq<u8>) -> Option<(Seq<u8>, int, int)> {
    if raw.len() < 8 {
        None
    } else {
        let w = le_i32(raw[0], raw[1], raw[2], raw[3]);
        let h = le_i32(raw[4], raw[5], raw[6], raw[7]);
        if w <= 0 || h <= 0 || w > MAX_THUMB_SIDE || h > MAX_THUMB_SIDE {
            None
        } else {
            Some((raw.subrange(8, raw.len() as int), w, h))
        }
    }
}

fn read_le_i32(raw: &Vec<u8>, at: usize) -> (v: i32)
    requires
        at + 4 <= raw.len(),
    ensures
        v == le_i32(raw@[at as int], raw@[at + 1], raw@[at + 2], raw@[at + 3]),
{
    let u: u64 = raw[at] as u64 + 256 * (raw[at + 1] as u64) + 65536 * (raw[at + 2] as u64)
        + 16777216 * (raw[at + 3] as u64);
    if u >= 0x8000_0000 {
        let v: i64 = u as i64 - 0x1_0000_0000;
        v as i32
    } else {
        u as i32
    }
}

fn push_le_i32(out: &mut Vec<u8>, v: i32)
    ensures
        final(out)@ == old(out)@ + le_bytes(v as int),
{
    let u: u64 = if v < 0 {
        (v as i64 + 0x1_0000_0000) as u64
    } else {
        v as u64
    };
    out.push((u % 256) as u8);
    out.push(((u / 256) % 256) as u8);
    out.push(((u / 65536) % 256) as u8);
    out.push(((u / 16777216) % 256) as u8);
    assert(final(out)@ =~= old(out)@ + le_bytes(v as int));
}

/// Reads a cached thumbnail: the pixel data, width and height, or `None`
/// when the file is too short or declares a size outside `1..=5000`.
pub fn decode_thumbnail(raw: &Vec<u8>) -> (r: Option<(Vec<u8>, i32, i32)>)
    ensures
        match r {
            Some((d, w, h)) => thumb_decoding(raw@) == Some((d@, w as int, h as int)),
            None => thumb_decoding(raw@) is None,
        },
{
    if raw.len() < 8 {
        return None;
    }
    let width = read_le_i32(raw, 0);
    let height = read_le_i32(raw, 4);
    if width <= 0 || height <= 0 || width > MAX_THUMB_SIDE || height > MAX_THUMB_SIDE {
        return None;
    }
    let mut data: Vec<u8> = Vec::new();
    let mut i: usize = 8;
    while i < raw.len()
        invariant
            8 <= i <= raw.len(),
            data@ == raw@.subrange(8, i as int),
        decreases raw.len() - i,
    {
        data.push(raw[i]);
        assert(data@ =~= raw@.subrange(8, i + 1));
        i += 1;
    }
    Some((data, width, height))
}

/// Writes a thumbnail in the cache's file format.
pub fn encode_thumbnail(data: &Vec<u8>, width: i32, height: i32) -> (raw: Vec<u8>)
    ensures
        raw@ == thumb_encoding(data@, width as int, height as int),
{
    let mut raw: Vec<u8> = Vec::new();
    push_le_i32(&mut raw, width);
    push_le_i32(&mut raw, height);
    let mut i: usize = 0;
    let ghost head = raw@;
    while i < data.len()
        invariant
            0 <= i <= data.len(),
            raw@ == head + data@.subrange(0, i as int),
        decreases data.len() - i,
    {
        raw.push(data[i]);
        assert(raw@ =~= head + data@.subrange(0, i + 1));
        i += 1;
    }
    assert(data@.subrange(0, data@.len() as int) =~= data@);
    assert(raw@ =~= thumb_encoding(data@, width as int, height as int));
    raw
}

proof fn lemma_le_roundtrip(v: i32)
    ensures
        ({
            let b = le_bytes(v as int);
            le_i32(b[0], b[1], b[2], b[3]) == v
        }),
{
    let u: int = if v < 0 { v + 0x1_0000_0000 } else { v as int };
    assert(0 <= u < 0x1_0000_0000);
    let b0 = u % 256;
    let b1 = (u / 256) % 256;
    let b2 = (u / 65536) % 256;
    let b3 = (u / 16777216) % 256;
    assert(b0 + 256 * b1 + 65536 * b2 + 16777216 * b3 == u) by (nonlinear_arith)
        requires
            0 <= u < 0x1_0000_0000,
            b0 == u % 256,
            b1 == (u / 256) % 256,
            b2 == (u / 65536) % 256,
            b3 == (u / 16777216) % 256,
    ;
}

/// A thumbnail written to the cache reads back as itself, provided its
/// width and height lie in `1..=5000`; otherwise it reads back as nothing.
pub proof fn lemma_thumbnail_roundtrip(data: Seq<u8>, width: i32, height: i32)
    ensures
        0 < width <= MAX_THUMB_SIDE && 0 < height <= MAX_THUMB_SIDE ==> thumb_decoding(
            thumb_encoding(data, width as int, height as int),
        ) == Some((data, width as int, height as int)),
        !(0 < width <= MAX_THUMB_SIDE && 0 < height <= MAX_THUMB_SIDE) ==> thumb_decoding(
            thumb_encoding(data, width as int, height as int),
        ) is None,
{
    lemma_le_roundtrip(width);
    lemma_le_roundtrip(height);
    let raw = thumb_encoding(data, width as int, height as int);
    let bw = le_bytes(width as int);
    let bh = le_bytes(height as int);
    assert(raw[0] == bw[0] && raw[1] == bw[1] && raw[2] == bw[2] && raw[3] == bw[3]);
    assert(raw[4] == bh[0] && raw[5] == bh[1] && raw[6] == bh[2] && raw[7] == bh[3]);
    assert(raw.subrange(8, raw.len() as int) =~= data);
}

/// The name under which the thumbnail for `key` is cached: the key's hash
/// in lowercase hexadecimal.
pub fn path_hash(key: &str) -> (r: String)
    ensures
        r@ == hex_text(str_hash(key@) as nat),
{
    hex_string(hash_str(key))
}

/// The file name of the cached thumbnail for `key`: its hash followed by
/// `.thumb`.
pub fn thumbnail_file_name(key: &str) -> (r: String)
    ensures
        r@ == hex_text(str_hash(key@) as nat) + seq!['.', 't', 'h', 'u', 'm', 'b'],
{
    let mut s = path_hash(key);
    let ghost h = s@;
    push_char(&mut s, '.');
    push_char(&mut s, 't');
    push_char(&mut s, 'h');
    push_char(&mut s, 'u');
    push_char(&mut s, 'm');
    push_char(&mut s, 'b');
    assert(s@ =~= h + seq!['.', 't', 'h', 'u', 'm', 'b']);
    s
}

/// Where the thumbnail for `key` is cached in the directory `cache_dir`.
pub fn cache_path(cache_dir: &str, key: &str) -> (r: String)
    ensures
        r@ == joined_path(cache_dir@, hex_text(str_hash(key@) as nat) + seq!['.', 't', 'h', 'u', 'm', 'b']),
{
    let name = thumbnail_file_name(key);
    path_join(cache_dir, name.as_str())
}

} // verus!
