use spessartine::storage::{default_cache_dir_under, DirectoriesConfig};
use spessartine::soundmap::{
    clamp_grid_dimension, default_grid_anchored, default_grid_cols, default_grid_rows,
    default_mesh_detail, default_true, fit_anchored, is_legacy_vertical_wave, is_true, known_fx,
    retain_valid_splits, sanitize_rel, sanitize_tracks, schema_supported, title_spfx_path_for,
    valid_cut_index, valid_frame_index, SoundResolver, TitleMode, TITLE_SCHEMA,
};
use std::path::Path;

fn joined(a: &str, b: &str) -> String {
    Path::new(a).join(b).to_string_lossy().into_owned()
}

#[test]
fn new_config_lists_example_library() {
    let c = DirectoriesConfig::new("/base");
    let dirs: Vec<String> = c.get_directories().into_iter().map(|d| d.path).collect();
    assert_eq!(dirs, vec![joined("/base", "assets/example")]);
    assert_eq!(c.cache_dir_setting(), None);
}

#[test]
fn add_and_remove_directories() {
    let mut c = DirectoriesConfig::from_parts(vec!["/a".to_string()], None);
    c.add_directory("/b".to_string());
    c.add_directory("/a".to_string());
    let dirs: Vec<String> = c.get_directories().into_iter().map(|d| d.path).collect();
    assert_eq!(dirs, vec!["/a", "/b"]);
    c.remove_directory(5);
    assert_eq!(c.get_directories().len(), 2);
    c.remove_directory(0);
    let dirs: Vec<String> = c.get_directories().into_iter().map(|d| d.path).collect();
    assert_eq!(dirs, vec!["/b"]);
}

#[test]
fn cache_dir_set_and_default() {
    let mut c = DirectoriesConfig::from_parts(vec![], None);
    let d = c.get_cache_dir();
    assert!(d.ends_with("thumbnails"));
    c.set_cache_dir("/cache".to_string());
    assert_eq!(c.get_cache_dir(), "/cache");
    assert_eq!(c.cache_dir_setting(), Some("/cache".to_string()));
}

#[test]
fn default_cache_dir_layout() {
    assert_eq!(
        default_cache_dir_under(Some("/home/u/.local/share".to_string())),
        joined(&joined("/home/u/.local/share", "spessartine"), "thumbnails")
    );
    assert_eq!(default_cache_dir_under(None), joined(&joined(".", "spessartine"), "thumbnails"));
}

#[test]
fn sanitize_rel_cases() {
    assert_eq!(sanitize_rel("sfx\\door.ogg"), "sfx/door.ogg");
    assert_eq!(sanitize_rel("music/a.ogg"), "music/a.ogg");
    assert_eq!(sanitize_rel("../x.ogg"), "");
    assert_eq!(sanitize_rel("a/../b.ogg"), "");
    assert_eq!(sanitize_rel("a\\..\\b.ogg"), "");
    assert_eq!(sanitize_rel("/abs.ogg"), "");
    assert_eq!(sanitize_rel("C:/x.ogg"), "");
    assert_eq!(sanitize_rel(""), "");
    assert_eq!(sanitize_rel("a/..b.ogg"), "a/..b.ogg");
    assert_eq!(sanitize_rel("1:x.ogg"), "1:x.ogg");
}

#[test]
fn sanitize_tracks_drops_and_truncates() {
    let mut v: Vec<String> = vec!["../bad.ogg".to_string()];
    for i in 0..10 {
        v.push(format!("t{}.ogg", i));
    }
    let r = sanitize_tracks(&v);
    assert_eq!(r.len(), 8);
    assert_eq!(r[0], "t0.ogg");
    assert_eq!(r[7], "t7.ogg");
}

#[test]
fn fx_kinds_and_defaults() {
    assert!(known_fx("rain"));
    assert!(known_fx("stars"));
    assert!(!known_fx("wave2"));
    assert!(!known_fx("Rain"));
    assert!(is_legacy_vertical_wave("wave2"));
    assert!(!is_legacy_vertical_wave("wave"));
    assert_eq!(default_grid_cols(), 3);
    assert_eq!(default_grid_rows(), 3);
    assert_eq!(default_mesh_detail(), 64);
    assert!(default_true());
    assert!(is_true(&true));
    assert!(!is_true(&false));
    assert_eq!(
        default_grid_anchored(),
        vec![true, true, true, false, false, false, false, false, false]
    );
    assert_eq!(TitleMode::default(), TitleMode::Manga);
    assert!(schema_supported(TITLE_SCHEMA));
    assert!(!schema_supported(3));
}

#[test]
fn cut_grid_repairs() {
    assert_eq!(clamp_grid_dimension(0), 1);
    assert_eq!(clamp_grid_dimension(5), 5);
    assert_eq!(clamp_grid_dimension(40), 16);
    assert_eq!(fit_anchored(&vec![true, false, true], 2), vec![true, false]);
    assert_eq!(fit_anchored(&vec![true], 3), vec![true, false, false]);
    assert_eq!(
        retain_valid_splits(&vec![[0, 1, 2], [1, 1, 2], [0, 1, 9], [2, 0, 1]], 3),
        vec![[0, 1, 2], [2, 0, 1]]
    );
    assert_eq!(valid_cut_index(Some(2), 3), Some(2));
    assert_eq!(valid_cut_index(Some(3), 3), None);
    assert_eq!(valid_frame_index(Some(1), &vec![true, false]), None);
    assert_eq!(valid_frame_index(Some(0), &vec![true, false]), Some(0));
    assert_eq!(valid_frame_index(Some(4), &vec![true]), None);
}

#[test]
fn spfx_file_beside_title_directory() {
    assert_eq!(
        title_spfx_path_for("/lib/Title/ch1.cbz"),
        joined("/lib/Title", "Title.spfx")
    );
    assert_eq!(title_spfx_path_for("/lib/Title.v2/ch1.cbz"), joined("/lib/Title.v2", "Title.spfx"));
}

#[test]
fn resolver_state() {
    let mut r = SoundResolver::new();
    assert_eq!(r.dir(), None);
    assert!(r.needs_index());
    r.set_index(vec!["/snd/Rain.OGG".to_string(), "/snd/sub/rain.ogg".to_string()]);
    assert!(!r.needs_index());
    r.set_dir("/packs".to_string());
    assert_eq!(r.dir(), Some("/packs".to_string()));
    assert!(r.needs_index());
    r.reset_dir();
    assert_eq!(r.dir(), None);
}

#[test]
fn resolver_finds_by_file_name() {
    let mut r = SoundResolver::new();
    r.set_index(vec!["/snd/Rain.OGG".to_string(), "/snd/sub/rain.ogg".to_string()]);
    assert_eq!(r.resolve("fx/rain.ogg", "/snd", false), Some("/snd/Rain.OGG".to_string()));
    assert_eq!(r.resolve("fx\\rain.ogg", "/snd", true), Some(joined("/snd", "fx/rain.ogg")));
    assert_eq!(r.resolve("fx/thunder.ogg", "/snd", false), None);
    assert_eq!(r.resolve("../rain.ogg", "/snd", false), None);
    assert_eq!(r.resolve("/rain.ogg", "/snd", true), None);
    assert_eq!(SoundResolver::exact_candidate("a/b.ogg", "/snd"), Some(joined("/snd", "a/b.ogg")));
    assert_eq!(SoundResolver::exact_candidate("", "/snd"), None);
}

#[test]
fn sanitizing_twice_changes_nothing() {
    for s in ["a\\b.ogg", "../x", "ok/fine.wav", "C:/x", ""] {
        let once = sanitize_rel(s);
        assert_eq!(sanitize_rel(&once), once);
    }
}

#[test]
fn adding_a_directory_twice() {
    let mut c = DirectoriesConfig::from_parts(vec!["/a".to_string()], Some("/c".to_string()));
    c.add_directory("/b".to_string());
    c.add_directory("/b".to_string());
    assert_eq!(c.get_directories().len(), 2);
    assert_eq!(c.get_cache_dir(), "/c");
}
