use vstd::prelude::*;
use crate::scanner::MangaItem;

verus! {

/// The main views of the application.
#[derive(Clone, Copy, Debug, PartialEq, Eq, Structural)]
pub enum AppView {
    Library,
    Recent,
    Language,
    Theme,
    Settings,
}

/// Where the reader is in the library: the titles, a title's chapters, a
/// chapter's pages, or reading a chapter page by page or as one strip.
#[derive(Clone, Debug)]
pub enum NavigationLevel {
    Titles,
    Chapters { dir_path: String },
    Pages { archive_path: String, dir_path: String },
    Reading { archive_path: String, page_index: usize, dir_path: String },
    ReadingWebtoon { archive_path: String, dir_path: String },
}

impl NavigationLevel {
    /// Whether the level is one of the two reading levels.
    pub open spec fn is_reading_spec(&self) -> bool {
        self is Reading || self is ReadingWebtoon
    }

    /// Whether a chapter is being read.
    pub fn is_reading(&self) -> (r: bool)
        ensures
            r == self.is_reading_spec(),
    {
        match self {
            NavigationLevel::Reading { .. } => true,
            NavigationLevel::ReadingWebtoon { .. } => true,
            _ => false,
        }
    }
}

/// The outcome of a library scan.
pub enum ScanEvent {
    Completed(Vec<MangaItem>),
    Failed(String),
}

/// Where the loading of a cover stands.
pub enum CoverState {
    NotLoaded,
    Loading,
    Loaded(Vec<u8>),
    Failed,
}

/// A title read lately, with the chapter and page reached.
#[derive(Clone)]
pub struct RecentItem {
    pub manga_id: i64,
    pub manga_directory: String,
    pub manga_name: String,
    pub chapter_path: String,
    pub chapter_name: Option<String>,
    pub cover_path: Option<String>,
    pub page_index: usize,
    pub total_pages: usize,
    pub updated_at: String,
    pub is_today: bool,
    pub is_yesterday: bool,
}

} // verus!
