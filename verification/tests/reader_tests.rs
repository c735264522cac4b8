use spessartine::chapter::{
    build_virtual_pages, compute_virtual_total, is_at_chapter_end, is_at_chapter_start, page_step,
    preload_targets, step_page, SwitchState, SwitchStatus, VirtualPage,
};
use spessartine::fx_progress::{frame_sequence, pieces_for_frames, Piece, RevealState, SlotInfo};
use spessartine::mode::ReaderMode;
use spessartine::page_cache::PageCache;
use spessartine::reader_input::{at_chapter_edge, detect_mode, key_forward, FullscreenState, NavKey};
use spessartine::spread_map::SpreadMap;

#[test]
fn chapter_edges_and_steps() {
    assert!(is_at_chapter_end(9, 10, ReaderMode::Manga));
    assert!(!is_at_chapter_end(8, 10, ReaderMode::Manga));
    assert!(is_at_chapter_end(8, 10, ReaderMode::Double));
    assert!(!is_at_chapter_end(7, 10, ReaderMode::Double));
    assert!(is_at_chapter_start(0));
    assert!(!is_at_chapter_start(1));
    assert_eq!(page_step(ReaderMode::Double), 2);
    assert_eq!(page_step(ReaderMode::Manga), 1);
    assert_eq!(page_step(ReaderMode::Webtoon), 1);
    assert_eq!(step_page(3, 10, ReaderMode::Double, true), Some(5));
    assert_eq!(step_page(9, 10, ReaderMode::Manga, true), None);
    assert_eq!(step_page(1, 10, ReaderMode::Double, false), None);
    assert_eq!(step_page(1, 10, ReaderMode::Manga, false), Some(0));
}

#[test]
fn virtual_pages_with_panorama() {
    // page 1 is wide: it starts a new spread after a placeholder
    let v = build_virtual_pages(&vec![false, true, false], false, true);
    assert_eq!(
        v,
        vec![
            VirtualPage::Real(0),
            VirtualPage::PanoramaPlaceholder,
            VirtualPage::PanoramaLeft(1),
            VirtualPage::PanoramaRight(1),
            VirtualPage::Real(2),
            VirtualPage::EndPlaceholder(true),
        ]
    );
    assert_eq!(compute_virtual_total(&vec![false, true, false]), v.len());
}

#[test]
fn virtual_pages_right_to_left_and_padding() {
    let v = build_virtual_pages(&vec![true], true, false);
    assert_eq!(
        v,
        vec![
            VirtualPage::PanoramaRight(0),
            VirtualPage::PanoramaLeft(0),
            VirtualPage::EndPlaceholder(false),
            VirtualPage::EndPlaceholder(false),
        ]
    );
    assert_eq!(compute_virtual_total(&vec![true]), 4);
    assert_eq!(build_virtual_pages(&vec![], false, false).len(), 2);
}

#[test]
fn page_cache_evicts_farthest_from_current() {
    let mut c: PageCache<&str> = PageCache::new();
    c.cache_push(0, "p0", 10, 3, 1000, (2, 3));
    c.cache_push(1, "p1", 10, 3, 1000, (2, 3));
    c.cache_push(2, "p2", 10, 3, 1000, (2, 3));
    c.cache_push(3, "p3", 10, 3, 1000, (2, 3));
    assert_eq!(c.len(), 3);
    assert!(!c.contains(0));
    assert!(c.contains(1) && c.contains(2) && c.contains(3));
    assert_eq!(c.total_bytes(), 30);
    // re-pushing a page replaces its size
    c.cache_push(3, "p3b", 25, 3, 1000, (2, 3));
    assert_eq!(c.total_bytes(), 45);
    assert_eq!(c.get(3), Some(&"p3b"));
    // over budget: the farthest unpinned page goes
    c.cache_push(4, "p4", 40, 3, 80, (3, 4));
    assert!(!c.contains(1));
    c.cache_clear();
    assert_eq!(c.len(), 0);
    assert_eq!(c.total_bytes(), 0);
}

#[test]
fn page_cache_keeps_pinned_pages() {
    let mut c: PageCache<u8> = PageCache::new();
    c.cache_push(5, 1, 10, 1, 1000, (5, 6));
    c.cache_push(6, 2, 10, 1, 1000, (5, 6));
    assert!(c.contains(5) && c.contains(6));
    assert_eq!(c.len(), 2);
}

#[test]
fn spread_map_insert_get_retain() {
    let mut m: SpreadMap<usize> = SpreadMap::new();
    m.insert(3, 30);
    m.insert(1, 10);
    m.insert(3, 33);
    assert_eq!(m.get(3), Some(33));
    assert_eq!(m.get(2), None);
    m.retain_below(3, false);
    assert_eq!(m.get(3), None);
    assert_eq!(m.get(1), Some(10));
    m.insert(3, 3);
    m.retain_below(3, true);
    assert_eq!(m.get(3), Some(3));
    m.clear();
    assert_eq!(m.keys(), Vec::<u64>::new());
}

fn piece(real: usize, frame: Option<usize>) -> Piece {
    Piece { real, frame, placeholder: false }
}

#[test]
fn reveal_next_then_prev_restores_progress() {
    let mut s = RevealState::new();
    let pieces = vec![piece(0, Some(0)), piece(0, Some(1)), piece(1, None)];
    s.current_spread(4, &pieces);
    assert_eq!(s.total_pieces(), 3);
    assert_eq!(s.revealed(4), 0);
    assert!(s.has_curtain());
    assert_eq!(s.reveal_next(), Some(0));
    assert_eq!(s.reveal_next(), Some(1));
    assert_eq!(s.revealed(4), 2);
    assert!(s.reveal_prev());
    assert_eq!(s.revealed(4), 1);
    assert_eq!(s.reveal_next(), Some(1));
    assert_eq!(s.reveal_next(), Some(2));
    assert_eq!(s.reveal_next(), None);
    assert!(!s.has_curtain());
    assert!(s.is_page_first_piece(0));
    assert!(!s.is_page_first_piece(1));
    assert!(s.is_page_first_piece(2));
}

#[test]
fn reveal_without_spread() {
    let mut s = RevealState::new();
    assert_eq!(s.reveal_next(), None);
    assert!(!s.reveal_prev());
    assert!(!s.has_curtain());
}

#[test]
fn reveal_slots() {
    let mut s = RevealState::new();
    s.current_spread(0, &vec![piece(0, Some(0)), piece(0, Some(1)), piece(1, None)]);
    s.set_slot_info(vec![SlotInfo { key: 1, count: 2 }, SlotInfo { key: 2, count: 1 }]);
    assert_eq!(s.slot_count(0), 2);
    assert_eq!(s.slot_count(1), 1);
    assert_eq!(s.reveal_next(), Some(0));
    assert_eq!(s.slot_reveal(0), 1);
    assert_eq!(s.slot_reveal(1), 0);
}

#[test]
fn frames_in_reveal_order() {
    let seq = frame_sequence(&vec![true, false, true, true], &vec![2, 0, 1, 1]);
    assert_eq!(seq, vec![2, 3, 0]);
    let pieces = pieces_for_frames(7, &seq);
    assert_eq!(pieces.len(), 3);
    assert!(pieces[0] == piece(7, Some(2)));
    let whole = pieces_for_frames(7, &vec![]);
    assert_eq!(whole.len(), 1);
    assert!(whole[0] == piece(7, None));
}

#[test]
fn preload_skips_busy_and_missing_pages() {
    assert_eq!(preload_targets(3, 3, 6, &vec![5]), vec![4]);
    assert_eq!(preload_targets(0, 2, 10, &vec![]), vec![1, 2]);
    assert_eq!(preload_targets(9, 2, 10, &vec![]), Vec::<usize>::new());
}

#[test]
fn switch_loader_hands_out_once() {
    let mut s: SwitchState<u32> = SwitchState::new();
    assert!(s.is_idle());
    s.trigger();
    assert!(!s.is_idle());
    assert_eq!(s.take_ready(), None);
    s.deliver(Ok(7));
    assert_eq!(s.take_ready(), Some(7));
    assert!(s.is_idle());
    assert_eq!(s.take_ready(), None);
    s.deliver(Err("broken".to_string()));
    assert_eq!(s.take_ready(), None);
    assert!(matches!(s.status, SwitchStatus::Error(ref e) if e == "broken"));
}

#[test]
fn keys_follow_reading_direction() {
    assert!(key_forward(NavKey::Space, false));
    assert!(!key_forward(NavKey::ArrowUp, true));
    assert!(key_forward(NavKey::ArrowDown, true));
    assert!(key_forward(NavKey::ArrowRight, false));
    assert!(!key_forward(NavKey::ArrowRight, true));
    assert!(key_forward(NavKey::ArrowLeft, true));
    assert!(!key_forward(NavKey::ArrowLeft, false));
}

#[test]
fn chapter_edge_by_mode() {
    assert!(!at_chapter_edge(9, 10, ReaderMode::Webtoon, true, true));
    assert!(at_chapter_edge(9, 10, ReaderMode::Manga, true, false));
    assert!(!at_chapter_edge(8, 10, ReaderMode::Manga, true, false));
    assert!(at_chapter_edge(4, 10, ReaderMode::Double, true, true));
    assert!(!at_chapter_edge(8, 10, ReaderMode::Double, true, false));
    assert!(at_chapter_edge(0, 10, ReaderMode::Double, false, false));
}

#[test]
fn fullscreen_restores_sidebar() {
    let mut f = FullscreenState::new();
    let mut sidebar = true;
    assert!(f.toggle(&mut sidebar));
    assert!(!sidebar);
    assert!(!f.toggle(&mut sidebar));
    assert!(sidebar);
    assert!(f.toggle(&mut sidebar));
    assert!(f.escape(&mut sidebar));
    assert!(sidebar);
    assert!(!f.escape(&mut sidebar));
}

#[test]
fn mode_detection_by_majority() {
    assert_eq!(detect_mode(&vec![], 2), ReaderMode::Manga);
    assert_eq!(detect_mode(&vec![true, false, false, false], 2), ReaderMode::Manga);
    assert_eq!(detect_mode(&vec![true, true, false, false], 2), ReaderMode::Webtoon);
    assert_eq!(detect_mode(&vec![true, false, false], 3), ReaderMode::Webtoon);
}

#[test]
fn step_forward_then_back_returns() {
    for mode in [ReaderMode::Manga, ReaderMode::Double] {
        for p in 0..10usize {
            if let Some(q) = step_page(p, 10, mode, true) {
                assert_eq!(step_page(q, 10, mode, false), Some(p));
            }
        }
    }
}
