use spessartine::audio::{playlist_step, Channel, Mixer, PlayerPhase, PlaylistAction, PlaylistEvent, PlaylistState};
use spessartine::chapter::{SwitchState, SwitchStatus};
use spessartine::image_processing::{apply_orientation, decode_oriented, try_decode, Orientation};
use spessartine::library::LibraryState;
use spessartine::reader_plan::LeaveOutcome;
use spessartine::scanner::ChapterItem;
use spessartine::settings::{ArchiveSettings, CoverCacheSettings, ImageSettings};
use spessartine::soundmap::{
    sanitize, Cut, Frame, FxCue, PageEntry, PageMap, SoundAction, SoundMap,
};
use image::GenericImageView;
use std::io::Cursor;

fn snapshot(stop: bool, tracks: usize, crossfade_ms: u64, revision: u64) -> PlaylistEvent {
    PlaylistEvent::Snapshot { stop, tracks, crossfade_ms, revision }
}

#[test]
fn looped_player_goes_round_and_wraps() {
    let s = PlaylistState::new(true);
    assert_eq!(s.phase, PlayerPhase::Top);
    let (s, a) = playlist_step(&s, snapshot(false, 2, 1000, 1));
    assert_eq!(a, PlaylistAction::Load { into_a: true, idx: 0 });
    let (s, a) = playlist_step(&s, PlaylistEvent::Loaded(Some(5000)));
    assert_eq!(a, PlaylistAction::Wait { ms: 4000, revision: 1 });
    let (s, a) = playlist_step(&s, PlaylistEvent::Waited { stopped: false, revision_changed: false });
    assert_eq!(a, PlaylistAction::Read);
    let (s, a) = playlist_step(&s, snapshot(false, 2, 1000, 1));
    assert_eq!(a, PlaylistAction::Load { into_a: false, idx: 1 });
    let (s, a) = playlist_step(&s, PlaylistEvent::Loaded(Some(3000)));
    assert_eq!(a, PlaylistAction::Crossfade { from_a: true, ms: 1000 });
    let (s, a) = playlist_step(&s, PlaylistEvent::Done);
    assert_eq!(a, PlaylistAction::Read);
    assert_eq!((s.idx, s.active_a, s.current_ms), (1, false, 3000));
    let (s, a) = playlist_step(&s, snapshot(false, 2, 1000, 1));
    assert_eq!(a, PlaylistAction::Wait { ms: 2000, revision: 1 });
    let (s, _) = playlist_step(&s, PlaylistEvent::Waited { stopped: false, revision_changed: false });
    let (_, a) = playlist_step(&s, snapshot(false, 2, 1000, 1));
    // after the last track the first comes again
    assert_eq!(a, PlaylistAction::Load { into_a: true, idx: 0 });
}

#[test]
fn looped_player_restarts_changed_playlist_and_stops() {
    let s = PlaylistState::new(true);
    let (s, _) = playlist_step(&s, snapshot(false, 3, 0, 1));
    let (s, a) = playlist_step(&s, PlaylistEvent::Loaded(Some(10)));
    assert_eq!(a, PlaylistAction::Wait { ms: 40, revision: 1 });
    let (s, _) = playlist_step(&s, PlaylistEvent::Waited { stopped: false, revision_changed: true });
    let (s, a) = playlist_step(&s, snapshot(false, 3, 0, 2));
    assert_eq!(a, PlaylistAction::Load { into_a: false, idx: 0 });
    let (s, _) = playlist_step(&s, PlaylistEvent::Loaded(None));
    let (s, _) = playlist_step(&s, PlaylistEvent::Done);
    let (s, a) = playlist_step(&s, snapshot(true, 3, 0, 2));
    assert_eq!(a, PlaylistAction::FadeOut { from_a: false });
    assert_eq!(s.phase, PlayerPhase::Finished);
}

#[test]
fn looped_player_skips_unloadable_and_sleeps_when_empty() {
    let s = PlaylistState::new(true);
    let (s, a) = playlist_step(&s, snapshot(false, 0, 0, 1));
    assert_eq!(a, PlaylistAction::Sleep(100));
    let (s, _) = playlist_step(&s, snapshot(false, 2, 0, 1));
    let (s, a) = playlist_step(&s, PlaylistEvent::Loaded(None));
    assert_eq!(a, PlaylistAction::Sleep(100));
    assert_eq!(s.idx, 1);
    let (_, a) = playlist_step(&s, snapshot(false, 2, 0, 1));
    assert_eq!(a, PlaylistAction::Load { into_a: true, idx: 1 });
}

#[test]
fn frame_player_without_crossfade_queues_and_ends() {
    let s = PlaylistState::new(false);
    assert_eq!(s.phase, PlayerPhase::Start);
    let (s, a) = playlist_step(&s, snapshot(false, 2, 0, 1));
    assert_eq!(a, PlaylistAction::AppendAll);
    let (s, a) = playlist_step(&s, PlaylistEvent::Appended(true));
    assert_eq!(a, PlaylistAction::Poll { revision: 1 });
    let (s, a) = playlist_step(&s, PlaylistEvent::Polled { empty: false, stop: false, changed: false });
    assert_eq!(a, PlaylistAction::Poll { revision: 1 });
    let (s, a) = playlist_step(&s, PlaylistEvent::Polled { empty: false, stop: true, changed: false });
    assert_eq!(a, PlaylistAction::FadeOutQueue);
    assert_eq!(s.phase, PlayerPhase::Finished);
    let (_, a) = playlist_step(&PlaylistState::new(false), snapshot(false, 2, 0, 1));
    assert_eq!(a, PlaylistAction::AppendAll);
    let s = PlaylistState::new(false);
    let (s, _) = playlist_step(&s, snapshot(false, 2, 0, 1));
    let (_, a) = playlist_step(&s, PlaylistEvent::Appended(false));
    assert_eq!(a, PlaylistAction::Finish);
}

#[test]
fn frame_player_with_crossfade_plays_once() {
    let s = PlaylistState::new(false);
    let (s, a) = playlist_step(&s, snapshot(false, 2, 500, 1));
    assert_eq!(a, PlaylistAction::Read);
    let (s, a) = playlist_step(&s, snapshot(false, 2, 500, 1));
    assert_eq!(a, PlaylistAction::Load { into_a: true, idx: 0 });
    let (s, a) = playlist_step(&s, PlaylistEvent::Loaded(Some(2000)));
    assert_eq!(a, PlaylistAction::Wait { ms: 1500, revision: 1 });
    let (s, a) = playlist_step(&s, PlaylistEvent::Waited { stopped: false, revision_changed: false });
    assert_eq!(a, PlaylistAction::Load { into_a: false, idx: 1 });
    let (s, a) = playlist_step(&s, PlaylistEvent::Loaded(Some(3000)));
    assert_eq!(a, PlaylistAction::Crossfade { from_a: true, ms: 500 });
    let (s, _) = playlist_step(&s, PlaylistEvent::Done);
    let (s, a) = playlist_step(&s, snapshot(false, 2, 500, 1));
    // the last track is waited on in full
    assert_eq!(a, PlaylistAction::Wait { ms: 3000, revision: 1 });
    let (s, a) = playlist_step(&s, PlaylistEvent::Waited { stopped: false, revision_changed: false });
    assert_eq!(a, PlaylistAction::Finish);
    assert_eq!(s.phase, PlayerPhase::Finished);
}

#[test]
fn mixer_revision_grows_only_on_new_tracks() {
    let mut m = Mixer::new();
    let a = vec!["a.ogg".to_string(), "b.ogg".to_string()];
    let b = vec!["c.ogg".to_string()];
    assert!(m.play_playlist(Channel::Bgm, &a));
    assert_eq!(m.revision(Channel::Bgm), 1);
    assert!(!m.play_playlist(Channel::Bgm, &a));
    assert_eq!(m.revision(Channel::Bgm), 1);
    assert!(!m.play_playlist(Channel::Bgm, &b));
    assert_eq!(m.revision(Channel::Bgm), 2);
    assert_eq!(m.revision(Channel::Ambient), 0);
    assert!(m.stop_playlist(Channel::Bgm));
    assert!(m.play_playlist(Channel::Bgm, &b));
    assert_eq!(m.revision(Channel::Bgm), 1);
}

fn chapters() -> LibraryState {
    let mut lib = LibraryState::new();
    lib.set_chapters(vec![
        ChapterItem { id: 0, name: "c1".to_string(), path: "c1".to_string() },
        ChapterItem { id: 1, name: "c2".to_string(), path: "c2".to_string() },
    ]);
    lib
}

#[test]
fn leave_chapter_takes_ready_neighbour_first() {
    let lib = chapters();
    let mut next: SwitchState<u32> = SwitchState::new();
    let mut prev: SwitchState<u32> = SwitchState::new();
    next.trigger();
    next.deliver(Ok(7));
    match lib.leave_chapter("c1", true, &mut next, &mut prev) {
        LeaveOutcome::Switched(d) => assert_eq!(d, 7),
        _ => panic!("a ready chapter is taken"),
    }
    assert!(next.is_idle());
    match lib.leave_chapter("c1", true, &mut next, &mut prev) {
        LeaveOutcome::Requested(p) => assert_eq!(p, "c2"),
        _ => panic!("an idle loader is asked"),
    }
    assert!(matches!(next.status, SwitchStatus::Loading));
    assert!(matches!(lib.leave_chapter("c1", true, &mut next, &mut prev), LeaveOutcome::Nothing));
    assert!(matches!(lib.leave_chapter("c1", false, &mut next, &mut prev), LeaveOutcome::Nothing));
    assert!(prev.is_idle());
    match lib.leave_chapter("c2", false, &mut next, &mut prev) {
        LeaveOutcome::Requested(p) => assert_eq!(p, "c1"),
        _ => panic!("the previous chapter is asked for"),
    }
}

fn empty_page() -> PageMap {
    PageMap { bgm: None, ambient: None, actions: Vec::new(), fx: Vec::new(), frames: Vec::new(), cuts: Vec::new() }
}

fn cue(at: usize, kind: &str, hz: Option<i64>, frame: Option<usize>, cut_idx: Option<usize>) -> FxCue {
    FxCue { at, kind: kind.to_string(), axis: None, bands: None, hz, frame, cut_idx }
}

fn cut(at: usize, poly_len: usize, cols: usize) -> Cut {
    Cut {
        at,
        poly_len,
        grid_cols: cols,
        grid_rows: 3,
        grid_points: 4,
        grid_anchored: vec![true, false],
        grid_splits: vec![[0, 1, 2], [0, 0, 1], [1, 2, 9]],
    }
}

#[test]
fn sanitize_mends_a_page() {
    let mut page = empty_page();
    page.bgm = Some(vec!["a\\b.ogg".to_string(), "../x.ogg".to_string(), "".to_string()]);
    page.actions = vec![
        SoundAction { at: 0, file: "/abs.wav".to_string() },
        SoundAction { at: 1, file: "s\\hit.wav".to_string() },
    ];
    page.frames = vec![
        Frame { at: 0, enabled: false, playlist: Some(vec!["C:x.ogg".to_string()]) },
        Frame { at: 1, enabled: true, playlist: Some(vec!["..".to_string(), "ok.ogg".to_string()]) },
    ];
    page.cuts = vec![cut(0, 2, 3), cut(1, 3, 40)];
    page.fx = vec![
        cue(0, "wave2", None, Some(0), Some(0)),
        cue(1, "bogus", None, None, None),
        cue(2, "wind", Some(3), Some(1), Some(1)),
        cue(3, "wind", Some(12), None, None),
    ];
    let m = SoundMap {
        title: "t".to_string(),
        chapter: Some(2),
        origin: None,
        pages: vec![PageEntry { number: 5, page }],
    };
    let r = sanitize(m);
    assert_eq!(r.title, "t");
    assert_eq!(r.pages.len(), 1);
    assert_eq!(r.pages[0].number, 5);
    let p = &r.pages[0].page;
    assert_eq!(p.bgm, Some(vec!["a/b.ogg".to_string()]));
    assert_eq!(p.actions.len(), 1);
    assert_eq!((p.actions[0].at, p.actions[0].file.as_str()), (1, "s/hit.wav"));
    assert_eq!(p.frames.len(), 2);
    assert_eq!(p.frames[0].playlist, None);
    assert_eq!(p.frames[1].playlist, Some(vec!["ok.ogg".to_string()]));
    assert_eq!(p.cuts.len(), 1);
    assert_eq!((p.cuts[0].at, p.cuts[0].grid_cols), (1, 16));
    assert_eq!(p.cuts[0].grid_anchored, vec![true, false, false, false]);
    assert_eq!(p.cuts[0].grid_splits, vec![[0, 1, 2]]);
    assert_eq!(p.fx.len(), 3);
    assert_eq!((p.fx[0].kind.as_str(), p.fx[0].axis), ("wave", Some(1)));
    // frame 0 is disabled; only one cut is left
    assert_eq!((p.fx[0].frame, p.fx[0].cut_idx), (None, Some(0)));
    assert_eq!((p.fx[1].bands, p.fx[1].hz, p.fx[1].frame, p.fx[1].cut_idx), (Some(3), None, Some(1), None));
    assert_eq!((p.fx[2].bands, p.fx[2].hz), (None, Some(12)));
}

#[test]
fn sanitize_keeps_at_most_the_limits() {
    let mut page = empty_page();
    page.actions = (0..30).map(|i| SoundAction { at: i, file: format!("s{}.wav", i) }).collect();
    page.fx = (0..20).map(|i| cue(i, "rain", None, None, None)).collect();
    let r = sanitize(SoundMap { title: String::new(), chapter: None, origin: None, pages: vec![PageEntry { number: 1, page }] });
    assert_eq!(r.pages[0].page.actions.len(), 24);
    assert_eq!(r.pages[0].page.fx.len(), 16);
    assert_eq!(r.pages[0].page.actions[23].at, 23);
}

fn png(w: u32, h: u32) -> Vec<u8> {
    let img = image::RgbaImage::from_fn(w, h, |x, y| image::Rgba([x as u8, y as u8, 1, 255]));
    let mut out = Cursor::new(Vec::new());
    img.write_to(&mut out, image::ImageFormat::Png).unwrap();
    out.into_inner()
}

#[test]
fn decoded_picture_is_the_crate_decode() {
    let data = png(3, 2);
    let expected = image::load_from_memory(&data).unwrap();
    let got = try_decode(&data).unwrap();
    assert_eq!(got.dimensions(), expected.dimensions());
    assert_eq!(got.to_rgba8().into_raw(), expected.to_rgba8().into_raw());
    let oriented = decode_oriented(&data).unwrap();
    let upright = apply_orientation(expected, Orientation::Upright);
    assert_eq!(oriented.to_rgba8().into_raw(), upright.to_rgba8().into_raw());
    assert!(decode_oriented(b"not an image").is_none());
}

#[test]
fn settings_integer_defaults() {
    let i = ImageSettings::default();
    assert_eq!((i.cover_crop_width, i.cover_crop_height, i.cover_thumbnail_size, i.thumbnail_max_dimension), (550, 500, 550, 5000));
    assert_eq!(ArchiveSettings::default().cache_max_entries, 5);
    let c = CoverCacheSettings::default();
    assert_eq!((c.cover_max, c.chapter_cover_max, c.page_cover_max), (50, 50, 50));
}
