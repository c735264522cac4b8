use spessartine::app_state::NavigationLevel;
use spessartine::library::LibraryState;
use spessartine::mode::ReaderMode;
use spessartine::page_cache::{page_bytes, pinned_pages, texture_budget};
use spessartine::reader_input::NavKey;
use spessartine::reader_plan::{jump_needed, key_action, PageKeyAction, PreloadView};
use spessartine::scanner::ChapterItem;

fn lib3() -> LibraryState {
    let mut lib = LibraryState::new();
    lib.set_chapters(
        ["c1", "c2", "c3"]
            .iter()
            .map(|p| ChapterItem { id: 0, name: p.to_string(), path: p.to_string() })
            .collect(),
    );
    lib
}

fn view() -> PreloadView {
    PreloadView {
        strip: false,
        page_index: 0,
        total: 10,
        mode: ReaderMode::Manga,
        current_path: "c2".to_string(),
        prev_loaded_path: String::new(),
        joined_path: String::new(),
        joined_empty: true,
        prev_empty: true,
        near_end: false,
        near_start: false,
        next_idle: true,
        prev_idle: true,
    }
}

#[test]
fn key_actions() {
    assert_eq!(key_action(NavKey::ArrowRight, false, ReaderMode::Manga, 3, 10, false), PageKeyAction::FlipSingle(3, true));
    assert_eq!(key_action(NavKey::ArrowRight, true, ReaderMode::Manga, 3, 10, false), PageKeyAction::FlipSingle(3, false));
    assert_eq!(key_action(NavKey::Space, false, ReaderMode::Manga, 9, 10, false), PageKeyAction::LeaveChapter(true));
    assert_eq!(key_action(NavKey::ArrowUp, false, ReaderMode::Double, 0, 10, false), PageKeyAction::LeaveChapter(false));
    assert_eq!(key_action(NavKey::ArrowDown, false, ReaderMode::Double, 4, 10, true), PageKeyAction::LeaveChapter(true));
    assert_eq!(key_action(NavKey::ArrowDown, false, ReaderMode::Double, 4, 10, false), PageKeyAction::FlipSpread(4, true));
    assert_eq!(key_action(NavKey::ArrowDown, false, ReaderMode::Webtoon, 4, 10, false), PageKeyAction::GoTo(5));
    assert_eq!(key_action(NavKey::ArrowDown, false, ReaderMode::Webtoon, 9, 10, false), PageKeyAction::Stay);
    assert_eq!(key_action(NavKey::ArrowUp, false, ReaderMode::Webtoon, 0, 10, false), PageKeyAction::Stay);
}

#[test]
fn paged_preload() {
    let lib = lib3();
    let mut v = view();
    assert_eq!(lib.preload_plan(&v), (None, Some("c1".to_string())));
    v.page_index = 9;
    assert_eq!(lib.preload_plan(&v), (Some("c3".to_string()), None));
    v.joined_path = "c3".to_string();
    assert_eq!(lib.preload_plan(&v), (None, None));
    v.joined_path = String::new();
    v.next_idle = false;
    assert_eq!(lib.preload_plan(&v), (None, None));
    v.page_index = 0;
    v.prev_loaded_path = "c1".to_string();
    assert_eq!(lib.preload_plan(&v), (None, None));
}

#[test]
fn strip_preload() {
    let lib = lib3();
    let mut v = view();
    v.strip = true;
    assert_eq!(lib.preload_plan(&v), (None, None));
    v.near_end = true;
    v.near_start = true;
    assert_eq!(lib.preload_plan(&v), (Some("c3".to_string()), Some("c1".to_string())));
    v.prev_loaded_path = "c1".to_string();
    assert_eq!(lib.preload_plan(&v), (Some("c3".to_string()), None));
    v.joined_empty = false;
    assert_eq!(lib.preload_plan(&v).0, None);
}

#[test]
fn jumps() {
    assert!(!jump_needed("c1", true, "c1"));
    assert!(jump_needed("c1", false, "c1"));
    assert!(jump_needed("c1", true, "c2"));
    let level = NavigationLevel::Reading {
        archive_path: "c1".to_string(),
        page_index: 7,
        dir_path: "d".to_string(),
    }
    .jump_to("c2", "t");
    assert!(matches!(level, NavigationLevel::Reading { ref archive_path, page_index: 0, ref dir_path }
        if archive_path == "c2" && dir_path == "t"));
    assert!(matches!(NavigationLevel::Titles.jump_to("c2", "t"), NavigationLevel::Titles));
}

#[test]
fn cache_limits() {
    assert_eq!(pinned_pages(Some(4), true), (4, 5));
    assert_eq!(pinned_pages(Some(4), false), (4, usize::MAX));
    assert_eq!(pinned_pages(None, true), (usize::MAX, usize::MAX));
    assert_eq!(texture_budget(150, false), 150 * 1024 * 1024);
    assert_eq!(texture_budget(150, true), 300 * 1024 * 1024);
    assert_eq!(texture_budget(0, true), usize::MAX);
    assert_eq!(page_bytes(3, 2), 24);
}
