use spessartine::library::{merge_title_settings, LibraryState, TitleSettings};
use spessartine::mode::ReaderMode;
use spessartine::scanner::{
    chapters_from_paths, generate_id, get_manga_name, is_archive_path, manga_from_group,
    scan_all_libraries, ArchiveGroup, ChapterItem, LibraryScan, MangaItem,
};

fn manga(id: u64, name: &str, archives: &[&str]) -> MangaItem {
    MangaItem {
        id,
        name: name.to_string(),
        directory: format!("/lib/{}", name),
        archives: archives.iter().map(|a| a.to_string()).collect(),
        is_single_archive: false,
        manual_mode: None,
        auto_mode: None,
        manual_rtl: None,
        auto_rtl: None,
    }
}

fn chapter(path: &str) -> ChapterItem {
    ChapterItem { id: 0, name: path.to_string(), path: path.to_string() }
}

#[test]
fn effective_mode_and_direction() {
    let mut m = manga(1, "T", &[]);
    assert_eq!(m.effective_mode(), ReaderMode::Manga);
    assert!(!m.effective_rtl());
    m.auto_mode = Some(ReaderMode::Webtoon);
    m.auto_rtl = Some(true);
    assert_eq!(m.effective_mode(), ReaderMode::Webtoon);
    assert!(m.effective_rtl());
    m.manual_mode = Some(ReaderMode::Double);
    m.manual_rtl = Some(false);
    assert_eq!(m.effective_mode(), ReaderMode::Double);
    assert!(!m.effective_rtl());
}

#[test]
fn generate_id_is_a_function_of_the_path() {
    assert_eq!(generate_id("/lib/a"), generate_id("/lib/a"));
    assert_ne!(generate_id("/lib/a"), generate_id("/lib/b"));
}

#[test]
fn last_chapter_and_neighbours() {
    let mut lib = LibraryState::new();
    lib.set_chapters(vec![chapter("c1"), chapter("c2"), chapter("c3")]);
    assert!(lib.is_last_chapter("c3"));
    assert!(!lib.is_last_chapter("c2"));
    assert!(!lib.is_last_chapter("zz"));
    assert_eq!(lib.next_chapter_path("c1"), Some("c2".to_string()));
    assert_eq!(lib.next_chapter_path("c3"), None);
    assert_eq!(lib.prev_chapter_path("c2"), Some("c1".to_string()));
    assert_eq!(lib.prev_chapter_path("c1"), None);
    lib.clear_chapters();
    assert!(!lib.is_last_chapter("c3"));
}

#[test]
fn request_switch_only_when_idle() {
    let mut lib = LibraryState::new();
    lib.set_chapters(vec![chapter("c1"), chapter("c2")]);
    assert_eq!(lib.request_switch("c1", true, true), Some("c2".to_string()));
    assert_eq!(lib.request_switch("c1", true, false), None);
    assert_eq!(lib.request_switch("c1", false, true), None);
    assert_eq!(lib.request_switch("c2", false, true), Some("c1".to_string()));
}

#[test]
fn manga_for_archive_and_mode() {
    let mut lib = LibraryState::new();
    let mut a = manga(1, "A", &["/a/1.cbz"]);
    a.auto_mode = Some(ReaderMode::Webtoon);
    lib.manga_list = vec![a, manga(2, "B", &["/b/1.cbz", "/b/2.cbz"])];
    assert_eq!(lib.manga_for_archive("/b/2.cbz").map(|m| m.id), Some(2));
    assert!(lib.manga_for_archive("/c/1.cbz").is_none());
    assert_eq!(lib.mode_for_archive("/a/1.cbz"), ReaderMode::Webtoon);
    assert_eq!(lib.mode_for_archive("/b/1.cbz"), ReaderMode::Manga);
    assert_eq!(lib.mode_for_archive("/none.cbz"), ReaderMode::Manga);
}

#[test]
fn set_manga_mode_and_direction_by_id() {
    let mut lib = LibraryState::new();
    lib.manga_list = vec![manga(7, "A", &[]), manga(9, "B", &[])];
    assert!(lib.set_manga_mode(9, Some(ReaderMode::Double)));
    assert_eq!(lib.manga_list[1].manual_mode, Some(ReaderMode::Double));
    assert_eq!(lib.manga_list[0].manual_mode, None);
    assert!(!lib.set_manga_mode(8, Some(ReaderMode::Double)));
    assert!(lib.set_manga_rtl(7, true));
    assert_eq!(lib.manga_list[0].manual_rtl, Some(true));
    assert!(!lib.set_manga_rtl(1, true));
}

#[test]
fn archive_extensions() {
    assert!(is_archive_path("/lib/a/ch1.cbz"));
    assert!(is_archive_path("/lib/a/ch1.ZIP"));
    assert!(is_archive_path("ch.rar"));
    assert!(is_archive_path("ch.CbR"));
    assert!(!is_archive_path("/lib/a/cover.jpg"));
    assert!(!is_archive_path("/lib/a/zip"));
    assert!(!is_archive_path("/lib/a/.zip"));
}

#[test]
fn manga_names_from_directories() {
    assert_eq!(get_manga_name("/lib/Title A", "/lib"), "Title A");
    assert_eq!(get_manga_name("/lib/Title.v2", "/lib"), "Title");
    assert_eq!(get_manga_name("/lib/Author/Vol 1", "/lib"), "Author");
    assert_eq!(get_manga_name("/", "/lib"), "Unknown");
}

#[test]
fn group_in_root_is_one_title_named_after_first_archive() {
    let m = manga_from_group(
        "/lib",
        ArchiveGroup {
            directory: "/lib".to_string(),
            archives: vec!["/lib/one.cbz".to_string(), "/lib/two.cbz".to_string()],
        },
    );
    assert_eq!(m.name, "one");
    assert!(m.is_single_archive);
    assert_eq!(m.id, generate_id("/lib"));
    assert_eq!(m.archives.len(), 2);
}

#[test]
fn scan_all_libraries_sorts_titles() {
    let libs = vec![
        LibraryScan {
            root: "/lib".to_string(),
            groups: vec![
                ArchiveGroup {
                    directory: "/lib/Title 10".to_string(),
                    archives: vec!["/lib/Title 10/c1.cbz".to_string()],
                },
                ArchiveGroup {
                    directory: "/lib/Author/Vol 1".to_string(),
                    archives: vec!["/lib/Author/Vol 1/c1.cbz".to_string()],
                },
                ArchiveGroup {
                    directory: "/lib".to_string(),
                    archives: vec!["/lib/one.cbz".to_string()],
                },
            ],
        },
        LibraryScan {
            root: "/other".to_string(),
            groups: vec![ArchiveGroup {
                directory: "/other/Title 9".to_string(),
                archives: vec!["/other/Title 9/x.zip".to_string()],
            }],
        },
    ];
    let list = scan_all_libraries(libs);
    let names: Vec<String> = list.iter().map(|m| m.name.clone()).collect();
    assert_eq!(names, vec!["Author", "Title 9", "Title 10", "one"]);
    assert!(list.iter().all(|m| m.manual_mode.is_none() && m.auto_mode.is_none()));
    assert_eq!(list[3].directory, "/lib");
    assert!(list[3].is_single_archive);
    assert!(!list[0].is_single_archive);
}

#[test]
fn chapters_from_directory_entries() {
    let paths = vec![
        "/t/ch10.cbz".to_string(),
        "/t/ch2.zip".to_string(),
        "/t/readme.txt".to_string(),
        "/t/ch1.RAR".to_string(),
    ];
    let chapters = chapters_from_paths(paths);
    let names: Vec<&str> = chapters.iter().map(|c| c.name.as_str()).collect();
    assert_eq!(names, vec!["ch1", "ch2", "ch10"]);
    assert_eq!(chapters[0].path, "/t/ch1.RAR");
    assert_eq!(chapters[0].id, generate_id("/t/ch1.RAR"));
}

#[test]
fn next_then_previous_chapter() {
    let mut lib = LibraryState::new();
    lib.set_chapters(vec![chapter("c1"), chapter("c2"), chapter("c3")]);
    for p in ["c1", "c2"] {
        let n = lib.next_chapter_path(p).unwrap();
        assert_eq!(lib.prev_chapter_path(&n), Some(p.to_string()));
    }
}

#[test]
fn merge_puts_back_stored_settings() {
    let list = vec![manga(1, "a", &[]), manga(2, "b", &[])];
    let stored = vec![
        TitleSettings {
            directory: "/lib/b".to_string(),
            manual_mode: Some(ReaderMode::Webtoon),
            auto_mode: None,
            manual_rtl: Some(true),
            auto_rtl: Some(false),
        },
        TitleSettings {
            directory: "/lib/b".to_string(),
            manual_mode: Some(ReaderMode::Manga),
            auto_mode: None,
            manual_rtl: None,
            auto_rtl: None,
        },
    ];
    let merged = merge_title_settings(list, &stored);
    assert_eq!(merged.len(), 2);
    assert_eq!(merged[0].manual_mode, None);
    assert_eq!(merged[1].manual_mode, Some(ReaderMode::Webtoon));
    assert_eq!(merged[1].manual_rtl, Some(true));
    assert_eq!(merged[1].auto_rtl, Some(false));
    assert_eq!(merged[1].name, "b");
}
