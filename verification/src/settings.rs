use vstd::prelude::*;

verus! {

/// How many pages are decoded ahead of time.
pub struct PreloadSettings {
    pub single_before: u32,
    pub single_after: u32,
    pub reader_ahead: u32,
    pub max_concurrent: u32,
    pub double_spread_start: i32,
    pub double_spread_end: i32,
    pub page_cache_max: u32,
    pub texture_budget_mb: u32,
}

impl Default for PreloadSettings {
    fn default() -> (r: Self)
        ensures
            r.single_before == 2,
            r.single_after == 5,
            r.reader_ahead == 2,
            r.max_concurrent == 4,
            r.double_spread_start == -2,
            r.double_spread_end == 3,
            r.page_cache_max == 9,
            r.texture_budget_mb == 150,
    {
        PreloadSettings {
            single_before: 2,
            single_after: 5,
            reader_ahead: 2,
            max_concurrent: 4,
            double_spread_start: -2,
            double_spread_end: 3,
            page_cache_max: 9,
            texture_budget_mb: 150,
        }
    }
}

/// The sizes of covers and thumbnails.
pub struct ImageSettings {
    pub cover_crop_width: u32,
    pub cover_crop_height: u32,
    pub cover_thumbnail_size: u32,
    pub thumbnail_max_dimension: u32,
}

impl Default for ImageSettings {
    fn default() -> (r: Self)
        ensures
            r.cover_crop_width == 550,
            r.cover_crop_height == 500,
            r.cover_thumbnail_size == 550,
            r.thumbnail_max_dimension == 5000,
    {
        ImageSettings {
            cover_crop_width: 550,
            cover_crop_height: 500,
            cover_thumbnail_size: 550,
            thumbnail_max_dimension: 5000,
        }
    }
}

/// How many archives are kept open.
pub struct ArchiveSettings {
    pub cache_max_entries: u32,
}

impl Default for ArchiveSettings {
    fn default() -> (r: Self)
        ensures
            r.cache_max_entries == 5,
    {
        ArchiveSettings { cache_max_entries: 5 }
    }
}

/// How many covers are kept in memory.
pub struct CoverCacheSettings {
    pub cover_max: u32,
    pub chapter_cover_max: u32,
    pub page_cover_max: u32,
}

impl Default for CoverCacheSettings {
    fn default() -> (r: Self)
        ensures
            r.cover_max == 50,
            r.chapter_cover_max == 50,
            r.page_cover_max == 50,
    {
        CoverCacheSettings { cover_max: 50, chapter_cover_max: 50, page_cover_max: 50 }
    }
}

/// Whether the page effects are shown.
pub struct EffectsSettings {
    pub enabled: bool,
}

impl Default for EffectsSettings {
    fn default() -> (r: Self)
        ensures
            r.enabled,
    {
        EffectsSettings { enabled: true }
    }
}

/// The colours of a theme, as `#rrggbb` texts.
pub struct ThemeColors {
    pub window_bg: String,
    pub window_fg: String,
    pub left_panel_bg: String,
    pub cell_bg: String,
    pub cell_fg: String,
    pub label_overlay_bg: String,
    pub label_overlay_fg: String,
    pub toolbar_bg: String,
    pub toolbar_btn_bg: String,
    pub toolbar_btn_fg: String,
    pub toolbar_btn_press_bg: String,
    pub toolbar_btn_hover_bg: String,
    pub addres_bar_bg: String,
    pub addres_bar_fg: String,
    pub reader_bg: String,
    pub btn_press_bg: String,
    pub btn_hover_bg: String,
    pub fav_btn_bg: String,
    pub fav_btn_fg: String,
    pub library_bg: String,
    pub grid_bg: String,
    pub lp_btn_bg: String,
    pub lp_btn_hover_bg: String,
    pub lp_btn_active_bg: String,
    pub lp_btn_fg: String,
    pub placeholder_bg: String,
    pub scroll_bg: String,
}

/// The spacing of a theme.
pub struct ThemeLayout {
    pub row_gap: u8,
}

} // verus!
