use spessartine::archive::{clear_archive_cache, Archive, ArchiveCache, ArchiveError, IndexMap, index_archive, read_image_direct};
use spessartine::cover::{get_cover_data, is_title_cover_name};
use spessartine::scanner::get_pages;
use std::io::{Cursor, Write};

fn make_zip(entries: &[(&str, &[u8])], dirs: &[&str]) -> Vec<u8> {
    let mut w = zip::ZipWriter::new(Cursor::new(Vec::new()));
    let opts = zip::write::SimpleFileOptions::default()
        .compression_method(zip::CompressionMethod::Stored);
    for d in dirs {
        w.add_directory(*d, opts).unwrap();
    }
    for (name, data) in entries {
        w.start_file(*name, opts).unwrap();
        w.write_all(data).unwrap();
    }
    w.finish().unwrap().into_inner()
}

fn png_bytes(w: u32, h: u32) -> Vec<u8> {
    let img = image::RgbaImage::new(w, h);
    let mut out = Cursor::new(Vec::new());
    img.write_to(&mut out, image::ImageFormat::Png).unwrap();
    out.into_inner()
}

fn sample() -> Vec<u8> {
    let png = png_bytes(3, 2);
    make_zip(
        &[
            ("b10.jpg", b"ten"),
            ("b2.png", &png),
            ("__MACOSX/._b2.png", b"meta"),
            ("notes.txt", b"text"),
            ("B1.JPEG", b"one"),
        ],
        &["dir/"],
    )
}

#[test]
fn get_images_lists_pages_in_natural_order() {
    let data = sample();
    let a = Archive::new("/lib/t/ch1.cbz").unwrap();
    let names = a.get_images(&data).unwrap();
    assert_eq!(names, vec!["B1.JPEG", "b2.png", "b10.jpg"]);
}

#[test]
fn get_image_data_reads_entry() {
    let data = sample();
    let a = Archive::new("x.zip").unwrap();
    assert_eq!(a.get_image_data(&data, "b10.jpg").unwrap(), b"ten".to_vec());
    assert_eq!(a.get_image_data(&data, "B1.JPEG").unwrap(), b"one".to_vec());
}

#[test]
fn get_image_data_refuses_non_images() {
    let data = sample();
    let a = Archive::new("x.zip").unwrap();
    assert!(matches!(a.get_image_data(&data, "notes.txt"), Err(ArchiveError::ImageNotFound)));
    assert!(matches!(a.get_image_data(&data, "__MACOSX/._b2.png"), Err(ArchiveError::ImageNotFound)));
    assert!(matches!(a.get_image_data(&data, "missing.png"), Err(ArchiveError::ImageNotFound)));
}

#[test]
fn get_first_image_is_first_in_natural_order() {
    let data = sample();
    let a = Archive::new("x.zip").unwrap();
    assert_eq!(a.get_first_image(&data).unwrap(), b"one".to_vec());
}

#[test]
fn get_first_image_without_images() {
    let data = make_zip(&[("readme.txt", b"hello")], &[]);
    let a = Archive::new("x.zip").unwrap();
    assert!(matches!(a.get_first_image(&data), Err(ArchiveError::NoImages)));
}

#[test]
fn unreadable_archive() {
    let a = Archive::new("x.zip").unwrap();
    let junk = b"not a zip archive at all".to_vec();
    assert!(matches!(a.get_images(&junk), Err(ArchiveError::Unreadable)));
    assert!(matches!(a.get_image_data(&junk, "a.png"), Err(ArchiveError::Unreadable)));
    assert!(matches!(a.get_first_image(&junk), Err(ArchiveError::Unreadable)));
}

#[test]
fn get_image_data_limited_reads_a_prefix() {
    let data = sample();
    let a = Archive::new("x.zip").unwrap();
    let head = a.get_image_data_limited(&data, "b10.jpg", 2).unwrap();
    assert!(head.len() <= 2);
    assert_eq!(&b"ten"[..head.len()], &head[..]);
    assert!(!head.is_empty());
}

#[test]
fn get_image_dimensions_of_png_page() {
    let data = sample();
    let a = Archive::new("x.zip").unwrap();
    assert_eq!(a.get_image_dimensions(&data, "b2.png"), Some((3, 2)));
    assert_eq!(a.get_image_dimensions(&data, "notes.txt"), None);
}

#[test]
fn index_and_direct_read() {
    let data = sample();
    let idx: IndexMap = index_archive(&data).unwrap();
    assert_eq!(idx.image_names(), vec!["B1.JPEG", "b2.png", "b10.jpg"]);
    assert_eq!(idx.first_zip_index(), Some(5));
    assert_eq!(read_image_direct(&idx, &data, "b10.jpg").unwrap(), b"ten".to_vec());
    assert!(matches!(read_image_direct(&idx, &data, "nope.jpg"), Err(ArchiveError::ImageNotFound)));
}

#[test]
fn index_build_keeps_images_only() {
    let names = vec![
        "z/".to_string(),
        "p3.webp".to_string(),
        "x.txt".to_string(),
        "__MACOSX/p1.png".to_string(),
        "p1.GIF".to_string(),
    ];
    let idx = IndexMap::build(names);
    let got: Vec<(usize, String)> = idx.entries.clone();
    assert_eq!(got, vec![(4, "p1.GIF".to_string()), (1, "p3.webp".to_string())]);
    assert_eq!(idx.lookup_index("p3.webp"), Some(1));
    assert_eq!(idx.lookup_index("x.txt"), None);
}

#[test]
fn get_pages_numbers_pages() {
    let data = sample();
    let pages = get_pages("/lib/t/ch1.cbz", &data).unwrap();
    assert_eq!(pages.len(), 3);
    assert_eq!(pages[0].id, 0);
    assert_eq!(pages[2].id, 2);
    assert_eq!(pages[1].name, "b2.png");
    assert_eq!(pages[1].archive_path, "/lib/t/ch1.cbz");
}

#[test]
fn cover_prefers_title_cover() {
    let data = sample();
    let c = get_cover_data(Some(b"cover".to_vec()), "x.zip", &data).unwrap();
    assert_eq!(c, (b"cover".to_vec(), false));
    let c = get_cover_data(None, "x.zip", &data).unwrap();
    assert_eq!(c, (b"one".to_vec(), true));
    assert!(get_cover_data(None, "x.zip", b"junk").is_none());
}

#[test]
fn cover_file_names() {
    assert!(is_title_cover_name("cover.jpg"));
    assert!(is_title_cover_name("Cover.PNG"));
    assert!(!is_title_cover_name("covers.jpg"));
    assert!(!is_title_cover_name("cover"));
}

#[test]
fn archive_cache_evicts_least_recently_used() {
    let mut c: ArchiveCache<u32> = ArchiveCache::new();
    c.insert("a", 1);
    c.insert("b", 2);
    c.insert("c", 3);
    assert_eq!(c.get("a"), Some(&1));
    c.insert("d", 4);
    assert!(c.contains("a"));
    assert!(!c.contains("b"));
    assert!(c.contains("c"));
    assert!(c.contains("d"));
    clear_archive_cache(&mut c);
    assert!(!c.contains("a"));
}

#[test]
fn pages_images_and_first_image_agree() {
    let data = sample();
    let a = Archive::new("x.cbz").unwrap();
    let names = a.get_images(&data).unwrap();
    let pages = get_pages("x.cbz", &data).unwrap();
    let page_names: Vec<String> = pages.iter().map(|p| p.name.clone()).collect();
    assert_eq!(page_names, names);
    assert_eq!(a.get_first_image(&data).unwrap(), a.get_image_data(&data, &names[0]).unwrap());
}
